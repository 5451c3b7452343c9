//! The totally ordered version key that identifies one proposer's round.

use vstd::prelude::*;

verus! {

/// A proposal version: the composite key `(round, proposer_id)`, compared
/// lexicographically by round first, then by proposer id. Both components
/// are bounded machine integers; advancing a round past its configured
/// bound is a fatal configuration error, never a silent wraparound.
#[derive(Clone, Copy, PartialEq, Eq, Structural, Debug)]
pub struct Version {
    pub round: u64,
    pub proposer_id: u64,
}

impl Version {
    /// Strict lexicographic order: round first, then proposer id.
    pub open spec fn spec_lt(self, other: Version) -> bool {
        self.round < other.round || (self.round == other.round && self.proposer_id
            < other.proposer_id)
    }

    /// Non-strict lexicographic order.
    pub open spec fn spec_le(self, other: Version) -> bool {
        self.spec_lt(other) || self == other
    }

    /// Decides the strict order `self < other`.
    pub fn lt(&self, other: &Version) -> (r: bool)
        ensures
            r == self.spec_lt(*other),
    {
        self.round < other.round || (self.round == other.round && self.proposer_id
            < other.proposer_id)
    }

    /// Decides the non-strict order `self <= other`.
    pub fn le(&self, other: &Version) -> (r: bool)
        ensures
            r == self.spec_le(*other),
    {
        self.round < other.round || (self.round == other.round && self.proposer_id
            <= other.proposer_id)
    }
}

/// Order on an optional promise: `None` stands below every version.
pub open spec fn promise_le(a: Option<Version>, b: Option<Version>) -> bool {
    match (a, b) {
        (Option::None, _) => true,
        (Option::Some(_), Option::None) => false,
        (Option::Some(x), Option::Some(y)) => x.spec_le(y),
    }
}

} // verus!
