use vstd::prelude::*;

verus! {

/// The team an object belongs to.
#[derive(Clone, Copy, Debug, PartialEq, Eq, Structural, Hash)]
pub enum Team {
    Neutral,
    Blue,
    Red,
}

impl Team {
    /// Number of teams.
    pub const COUNT: usize = 3;

    /// Position of the team in per-team tables: Neutral 0, Blue 1, Red 2.
    pub open spec fn spec_index(self) -> int {
        match self {
            Team::Neutral => 0,
            Team::Blue => 1,
            Team::Red => 2,
        }
    }

    /// Position of the team in per-team tables (`team as usize`).
    pub fn index(self) -> (i: usize)
        ensures
            i == self.spec_index(),
            i < Team::COUNT,
    {
        match self {
            Team::Neutral => 0,
            Team::Blue => 1,
            Team::Red => 2,
        }
    }

    /// All teams, in index order.
    pub fn all() -> (teams: [Team; 3])
        ensures
            forall|i: int| 0 <= i < 3 ==> (#[trigger] teams@[i]).spec_index() == i,
    {
        [Team::Neutral, Team::Blue, Team::Red]
    }
}

} // verus!
