use vstd::prelude::*;

verus! {

/// An upper bound on the age of the tokens of a place: `age <= bound`, or
/// `age < bound` when `strict` is set.
#[derive(Clone, Copy, Debug, PartialEq, Eq, Structural)]
pub struct Invariant {
    pub bound: u64,
    pub strict: bool,
}

impl Invariant {
    /// Whether a token of age `age` satisfies this invariant.
    pub open spec fn holds(self, age: u64) -> bool {
        if self.strict {
            age < self.bound
        } else {
            age <= self.bound
        }
    }

    pub fn new(bound: u64, strict: bool) -> (r: Invariant)
        ensures
            r.bound == bound,
            r.strict == strict,
    {
        Invariant { bound, strict }
    }

    pub fn check(&self, token_age: u64) -> (r: bool)
        ensures
            r == self.holds(token_age),
    {
        if self.strict {
            token_age < self.bound
        } else {
            token_age <= self.bound
        }
    }
}

} // verus!
