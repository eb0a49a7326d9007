//! Configuration values the command surface hands to the pipelines: the
//! consumer's fallback start offset and the producer's acknowledgment mode.

use vstd::prelude::*;

verus! {

/// How many consecutive errors a pipeline tolerates by default.
pub const DEFAULT_MAX_ERRORS: usize = 2;

/// Where the consumer starts when its group has no committed offset.
#[derive(Clone, Copy, Debug, PartialEq, Eq, Structural)]
pub enum ClapFetchOffsetWrapper {
    /// Start at the newest offset.
    Latest,
    /// Start at the oldest offset.
    Earliest,
}

impl ClapFetchOffsetWrapper {
    /// The name under which the variant is selected on the command line.
    pub fn label(&self) -> (r: &'static str)
        ensures
            self is Latest ==> r@ == "latest"@,
            self is Earliest ==> r@ == "earliest"@,
    {
        match self {
            ClapFetchOffsetWrapper::Latest => "latest",
            ClapFetchOffsetWrapper::Earliest => "earliest",
        }
    }
}

/// How many broker replicas must acknowledge a published record before the
/// producer counts the write as successful.
#[derive(Clone, Copy, Debug, PartialEq, Eq, Structural)]
pub enum ClapRequiredAcksWrapper {
    /// No acknowledgment is awaited.
    NoAcks,
    /// The partition leader must acknowledge.
    One,
    /// All in-sync replicas must acknowledge.
    All,
}

impl ClapRequiredAcksWrapper {
    /// The name under which the variant is selected on the command line.
    pub fn label(&self) -> (r: &'static str)
        ensures
            self is NoAcks ==> r@ == "none"@,
            self is One ==> r@ == "one"@,
            self is All ==> r@ == "all"@,
    {
        match self {
            ClapRequiredAcksWrapper::NoAcks => "none",
            ClapRequiredAcksWrapper::One => "one",
            ClapRequiredAcksWrapper::All => "all",
        }
    }
}

} // verus!
