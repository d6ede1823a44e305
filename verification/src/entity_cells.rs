use vstd::prelude::*;

verus! {

/// The cell each entity was last recorded in, stored in bevy's hash map
/// (`bevy::utils::HashMap`, hashbrown with bevy's fixed AHash hasher), keyed
/// by the 64-bit value of `Entity::to_bits`.
#[verifier::external_body]
pub struct EntityCells {
    map: bevy::utils::HashMap<u64, (u8, u8)>,
}

/// The entries of an entity-to-cell map.
pub uninterp spec fn entity_cells_contents(map: EntityCells) -> Map<u64, (u8, u8)>;

impl View for EntityCells {
    type V = Map<u64, (u8, u8)>;

    open spec fn view(&self) -> Map<u64, (u8, u8)> {
        entity_cells_contents(*self)
    }
}

impl EntityCells {
    /// `HashMap::default()`: a new map has no entry.
    #[verifier::external_body]
    pub fn new() -> (cells: EntityCells)
        ensures
            entity_cells_contents(cells) =~= Map::empty(),
    {
        EntityCells { map: bevy::utils::HashMap::default() }
    }

    /// `HashMap::get`, copying the value out: the cell recorded for `entity`, if any.
    #[verifier::external_body]
    pub fn get(&self, entity: u64) -> (cell: Option<(u8, u8)>)
        ensures
            entity_cells_contents(*self).contains_key(entity) ==> cell == Some(entity_cells_contents(*self)[entity]),
            !entity_cells_contents(*self).contains_key(entity) ==> cell.is_none(),
    {
        self.map.get(&entity).copied()
    }

    /// `HashMap::insert`: afterwards `entity` maps to `cell`; other entries are kept.
    #[verifier::external_body]
    pub fn insert(&mut self, entity: u64, cell: (u8, u8))
        ensures
            entity_cells_contents(*final(self)) == entity_cells_contents(*old(self)).insert(entity, cell),
    {
        self.map.insert(entity, cell);
    }
}

} // verus!
