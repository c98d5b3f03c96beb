//! Scan options shared with the rule and alert commands.
use vstd::prelude::*;

verus! {

/// Minimum confidence of the findings and rules to consider.
#[derive(Clone, Copy, Debug, PartialEq, Eq, Structural)]
pub enum ConfidenceLevel {
    Low,
    Medium,
    High,
}

/// The rank of a confidence level: low below medium below high.
pub open spec fn confidence_rank(c: ConfidenceLevel) -> nat {
    match c {
        ConfidenceLevel::Low => 0,
        ConfidenceLevel::Medium => 1,
        ConfidenceLevel::High => 2,
    }
}

impl ConfidenceLevel {
    /// The rank of this level: low below medium below high.
    pub fn rank(&self) -> (r: u8)
        ensures
            r == confidence_rank(*self),
    {
        match self {
            ConfidenceLevel::Low => 0,
            ConfidenceLevel::Medium => 1,
            ConfidenceLevel::High => 2,
        }
    }

    /// Whether this level is at least `other`.
    pub fn at_least(&self, other: &ConfidenceLevel) -> (r: bool)
        ensures
            r == (confidence_rank(*self) >= confidence_rank(*other)),
    {
        self.rank() >= other.rank()
    }
}

} // verus!
