//! Sizing of boxes relative to the space their parent has left.
use vstd::prelude::*;

verus! {

/// A share of the parent's remaining space, from 0 to 100 percent.
#[derive(Debug)]
pub struct Percentage(u8);

impl Percentage {
    #[verifier::type_invariant]
    spec fn at_most_whole(self) -> bool {
        self.0 <= 100
    }

    /// The share, in percent.
    pub closed spec fn percent(self) -> u8 {
        self.0
    }

    pub fn new(percentage: u8) -> (p: Percentage)
        requires
            percentage <= 100,
        ensures
            p.percent() == percentage,
    {
        Percentage(percentage)
    }

    /// The share, in percent; never above 100.
    pub fn value(&self) -> (v: u8)
        ensures
            v == self.percent(),
            v <= 100,
    {
        proof {
            use_type_invariant(self);
        }
        self.0
    }
}

impl Default for Percentage {
    /// No share at all.
    fn default() -> (p: Percentage)
        ensures
            p.percent() == 0,
    {
        Percentage(0)
    }
}

} // verus!
