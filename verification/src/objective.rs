use vstd::prelude::*;
use crate::entity_set::EntitySet;
use rand::Rng;

verus! {

/// What an entity is currently trying to do. Entities are identified by the
/// 64-bit value of `Entity::to_bits`.
#[derive(Clone, Copy, Debug, PartialEq, Eq, Structural)]
pub enum Objective {
    /// The entity has no objective.
    Idle,
    /// The entity follows another entity (usually a waypoint).
    FollowEntity(u64),
    /// The entity attacks another entity; `frame` counts down the frames of
    /// the current strike.
    AttackEntity { entity: u64, frame: u16 },
}

/// Number of frames a strike lasts, counted from the frame it starts in.
pub const STRIKE_FRAMES: u16 = 3;

/// `rand::thread_rng().gen_range(0..upper)`: a uniformly drawn number below
/// `upper`. Only the range is stated; the value comes from the thread-local
/// random generator.
#[verifier::external_body]
fn random_below(upper: u64) -> (r: u64)
    requires
        upper > 0,
    ensures
        r < upper,
{
    rand::thread_rng().gen_range(0..upper)
}

impl Objective {
    /// The entity this objective follows or attacks, if any.
    pub open spec fn spec_followed_entity(self) -> Option<u64> {
        match self {
            Objective::AttackEntity { entity, .. } => Some(entity),
            Objective::FollowEntity(entity) => Some(entity),
            Objective::Idle => None,
        }
    }

    /// The entity this objective follows or attacks, if any.
    pub fn get_followed_entity(&self) -> (entity: Option<u64>)
        ensures
            entity == self.spec_followed_entity(),
    {
        match self {
            Objective::AttackEntity { entity, frame: _ } => Some(*entity),
            Objective::FollowEntity(entity) => Some(*entity),
            _ => None,
        }
    }

    /// A random attack cooldown in milliseconds, below 1200.
    pub fn attack_cooldown() -> (millis: u64)
        ensures
            millis < 1200,
    {
        random_below(1200)
    }

    /// A random attack delay in milliseconds, below 300.
    pub fn attack_delay() -> (millis: u64)
        ensures
            millis < 300,
    {
        random_below(300)
    }

    /// The objective that follows this one when a waypoint event names
    /// `event_entity` (or no event came): an idle or following entity starts
    /// attacking the event's entity with no strike under way; without an event
    /// there is no next objective, and an attacking entity has none either.
    pub fn next(&self, event_entity: Option<u64>) -> (next: Option<Objective>)
        ensures
            next == match *self {
                Objective::Idle | Objective::FollowEntity(_) => match event_entity {
                    Some(e) => Some(Objective::AttackEntity { entity: e, frame: 0 }),
                    None => None,
                },
                Objective::AttackEntity { .. } => None,
            },
    {
        match self {
            Objective::Idle | Objective::FollowEntity(_) => match event_entity {
                Some(e) => Some(Objective::AttackEntity { entity: e, frame: 0 }),
                None => None,
            },
            Objective::AttackEntity { entity: _, frame: _ } => None,
        }
    }
}

/// The strike counter of an attacking entity after one frame, given whether a
/// strike can start now (target within attack radius and cooldown over): a new
/// strike sets the counter to 3, and the counter then counts down by one,
/// stopping at 0. Also says whether the cooldown restarts (exactly when a
/// strike starts).
pub fn next_attack_frame(frame: u16, strike_ready: bool) -> (r: (u16, bool))
    ensures
        r.0 == if strike_ready {
            (STRIKE_FRAMES - 1) as u16
        } else if frame > 0 {
            (frame - 1) as u16
        } else {
            0u16
        },
        r.1 == strike_ready,
{
    let mut frame = frame;
    if strike_ready {
        frame = STRIKE_FRAMES;
    }
    if frame > 0 {
        frame = frame - 1;
    }
    (frame, strike_ready)
}

/// Entities followed through a `FollowEntity` objective.
pub open spec fn followed_by(objectives: Seq<Objective>, e: u64) -> bool {
    exists|k: int| 0 <= k < objectives.len() && #[trigger] objectives[k] == Objective::FollowEntity(e)
}

/// Waypoints that no objective follows any more, in the order given: these are
/// despawned after a move order.
pub fn waypoints_to_despawn(objectives: &Vec<Objective>, waypoints: &Vec<u64>) -> (unfollowed: Vec<u64>)
    ensures
        unfollowed@ == waypoints@.filter(|w: u64| !followed_by(objectives@, w)),
{
    let mut followed_entities = EntitySet::new();
    let mut k: usize = 0;
    while k < objectives.len()
        invariant
            0 <= k <= objectives@.len(),
            forall|e: u64| followed_entities@.contains(e) <==> followed_by(objectives@.take(k as int), e),
        decreases objectives@.len() - k,
    {
        let ghost prev = followed_entities@;
        if let Objective::FollowEntity(entity) = objectives[k] {
            followed_entities.insert(entity);
        }
        proof {
            let t0 = objectives@.take(k as int);
            let t1 = objectives@.take(k as int + 1);
            assert(t1[k as int] == objectives@[k as int]);
            assert forall|e: u64| followed_entities@.contains(e) <==> followed_by(t1, e) by {
                if followed_entities@.contains(e) && !prev.contains(e) {
                    assert(t1[k as int] == Objective::FollowEntity(e));
                }
                if followed_by(t0, e) {
                    let j = choose|j: int| 0 <= j < t0.len() && #[trigger] t0[j] == Objective::FollowEntity(e);
                    assert(t1[j] == t0[j]);
                }
                if followed_by(t1, e) {
                    let j = choose|j: int| 0 <= j < t1.len() && #[trigger] t1[j] == Objective::FollowEntity(e);
                    if j < k {
                        assert(t0[j] == t1[j]);
                    }
                }
            }
        }
        k = k + 1;
    }
    proof {
        assert(objectives@.take(objectives@.len() as int) =~= objectives@);
    }
    let mut result: Vec<u64> = Vec::new();
    let mut w: usize = 0;
    while w < waypoints.len()
        invariant
            0 <= w <= waypoints@.len(),
            forall|e: u64| followed_entities@.contains(e) <==> followed_by(objectives@, e),
            result@ == waypoints@.take(w as int).filter(|x: u64| !followed_by(objectives@, x)),
        decreases waypoints@.len() - w,
    {
        let waypoint = waypoints[w];
        if !followed_entities.contains(waypoint) {
            result.push(waypoint);
        }
        proof {
            assert(waypoints@.take(w as int + 1).drop_last() =~= waypoints@.take(w as int));
            reveal_with_fuel(Seq::filter, 1);
        }
        w = w + 1;
    }
    proof {
        assert(waypoints@.take(waypoints@.len() as int) =~= waypoints@);
    }
    result
}

/// Some list's last objective follows or attacks `e`.
pub open spec fn followed_last(lists: Seq<Vec<Objective>>, e: u64) -> bool {
    exists|k: int| 0 <= k < lists.len() && (#[trigger] lists[k])@.len() > 0
        && lists[k]@.last().spec_followed_entity() == Some(e)
}

/// Flow grids whose target entity is no longer followed: the keys (in the
/// order given) that are not the followed entity of the last objective of any
/// objective list.
pub fn flow_grids_to_remove(objective_lists: &Vec<Vec<Objective>>, keys: &Vec<u64>) -> (stale: Vec<u64>)
    ensures
        stale@ == keys@.filter(|key: u64| !followed_last(objective_lists@, key)),
{
    let mut followed_entities = EntitySet::new();
    let mut k: usize = 0;
    while k < objective_lists.len()
        invariant
            0 <= k <= objective_lists@.len(),
            forall|e: u64| followed_entities@.contains(e) <==> followed_last(objective_lists@.take(k as int), e),
        decreases objective_lists@.len() - k,
    {
        let ghost prev = followed_entities@;
        let objectives = &objective_lists[k];
        if objectives.len() > 0 {
            let objective = &objectives[objectives.len() - 1];
            if let Some(entity) = objective.get_followed_entity() {
                followed_entities.insert(entity);
            }
        }
        proof {
            let t0 = objective_lists@.take(k as int);
            let t1 = objective_lists@.take(k as int + 1);
            assert(t1[k as int] == objective_lists@[k as int]);
            assert forall|e: u64| followed_entities@.contains(e) <==> followed_last(t1, e) by {
                if followed_entities@.contains(e) && !prev.contains(e) {
                    assert(t1[k as int]@.len() > 0 && t1[k as int]@.last().spec_followed_entity() == Some(e));
                }
                if followed_last(t0, e) {
                    let j = choose|j: int| 0 <= j < t0.len() && (#[trigger] t0[j])@.len() > 0
                        && t0[j]@.last().spec_followed_entity() == Some(e);
                    assert(t1[j] == t0[j]);
                }
                if followed_last(t1, e) {
                    let j = choose|j: int| 0 <= j < t1.len() && (#[trigger] t1[j])@.len() > 0
                        && t1[j]@.last().spec_followed_entity() == Some(e);
                    if j < k {
                        assert(t0[j] == t1[j]);
                    }
                }
            }
        }
        k = k + 1;
    }
    proof {
        assert(objective_lists@.take(objective_lists@.len() as int) =~= objective_lists@);
    }
    let mut result: Vec<u64> = Vec::new();
    let mut w: usize = 0;
    while w < keys.len()
        invariant
            0 <= w <= keys@.len(),
            forall|e: u64| followed_entities@.contains(e) <==> followed_last(objective_lists@, e),
            result@ == keys@.take(w as int).filter(|x: u64| !followed_last(objective_lists@, x)),
        decreases keys@.len() - w,
    {
        let key = keys[w];
        if !followed_entities.contains(key) {
            result.push(key);
        }
        proof {
            assert(keys@.take(w as int + 1).drop_last() =~= keys@.take(w as int));
            reveal_with_fuel(Seq::filter, 1);
        }
        w = w + 1;
    }
    proof {
        assert(keys@.take(keys@.len() as int) =~= keys@);
    }
    result
}

/// Whether an entity is selected, and the highlight entity drawn for it.
#[derive(Clone, Copy, Debug, PartialEq, Eq, Structural)]
pub enum Selected {
    Unselected,
    Selected { child_entity: u64 },
}

impl Selected {
    /// The entity is selected.
    pub fn is_selected(&self) -> (b: bool)
        ensures
            b == (*self != Selected::Unselected),
    {
        match self {
            Selected::Unselected => false,
            Selected::Selected { child_entity: _ } => true,
        }
    }
}

} // verus!
