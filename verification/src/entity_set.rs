use vstd::prelude::*;

verus! {

/// A set of entity ids, stored in bevy's hash set (`bevy::utils::HashSet`,
/// hashbrown with bevy's fixed AHash hasher). Entities are identified by the
/// 64-bit value of `Entity::to_bits`.
#[verifier::external_body]
pub struct EntitySet {
    set: bevy::utils::HashSet<u64>,
}

/// The ids held by an entity set.
pub uninterp spec fn entity_set_contents(set: EntitySet) -> Set<u64>;

impl View for EntitySet {
    type V = Set<u64>;

    open spec fn view(&self) -> Set<u64> {
        entity_set_contents(*self)
    }
}

impl EntitySet {
    /// `HashSet::default()`: a new set holds no id.
    #[verifier::external_body]
    pub fn new() -> (set: EntitySet)
        ensures
            entity_set_contents(set) == Set::<u64>::empty(),
    {
        EntitySet { set: bevy::utils::HashSet::default() }
    }

    /// `HashSet::insert`: afterwards the set holds `entity` besides what it held;
    /// returns whether `entity` was absent before.
    #[verifier::external_body]
    pub fn insert(&mut self, entity: u64) -> (fresh: bool)
        ensures
            entity_set_contents(*final(self)) == entity_set_contents(*old(self)).insert(entity),
            fresh == !entity_set_contents(*old(self)).contains(entity),
    {
        self.set.insert(entity)
    }

    /// `HashSet::remove`: afterwards the set no longer holds `entity`; returns
    /// whether it was present.
    #[verifier::external_body]
    pub fn remove(&mut self, entity: u64) -> (present: bool)
        ensures
            entity_set_contents(*final(self)) == entity_set_contents(*old(self)).remove(entity),
            present == entity_set_contents(*old(self)).contains(entity),
    {
        self.set.remove(&entity)
    }

    /// `HashSet::contains`.
    #[verifier::external_body]
    pub fn contains(&self, entity: u64) -> (present: bool)
        ensures
            present == entity_set_contents(*self).contains(entity),
    {
        self.set.contains(&entity)
    }

    /// `HashSet::is_empty`: true iff the set holds no id.
    #[verifier::external_body]
    pub fn is_empty(&self) -> (empty: bool)
        ensures
            empty == (entity_set_contents(*self) == Set::<u64>::empty()),
    {
        self.set.is_empty()
    }

    /// `Extend<&u64>::extend` with the ids of `other`: afterwards the set holds
    /// the union of both.
    #[verifier::external_body]
    pub fn extend_from(&mut self, other: &EntitySet)
        ensures
            entity_set_contents(*final(self)) == entity_set_contents(*old(self)).union(entity_set_contents(*other)),
    {
        self.set.extend(other.set.iter())
    }

    /// The ids of the set, each once, in the set's iteration order (which the
    /// hash table decides and no clause states).
    #[verifier::external_body]
    pub fn to_vec(&self) -> (ids: Vec<u64>)
        ensures
            ids@.no_duplicates(),
            ids@.to_set() == entity_set_contents(*self),
    {
        self.set.iter().copied().collect()
    }
}

} // verus!
