//! Errors of the reference counters.
use vstd::prelude::*;

verus! {

/// The biased count cannot be read, either because the reading thread does not
/// own it or because no thread does.
#[derive(Copy, Clone, Debug, PartialEq, Eq, Structural)]
pub enum BiasedCountError {
    /// Another thread owns the biased count.
    WrongThread,
    /// The object is no longer biased towards any thread.
    NotBiased,
}

/// The number of strong references cannot be determined on this thread.
#[derive(Copy, Clone, Debug, PartialEq, Eq, Structural)]
pub struct ImpreciseRefCountError {
    /// There are at least this many strong references.
    pub lower_bound: u64,
}

/// The object has no strong reference left.
#[derive(Copy, Clone, Debug, PartialEq, Eq, Structural)]
pub struct ZeroReferenceCountError;

/// The biased count could not be incremented, so the shared count has to be.
#[derive(Copy, Clone, Debug, PartialEq, Eq, Structural)]
pub struct FastIncrementFailure;

/// The biased count could not be decremented, so the shared count has to be.
#[derive(Copy, Clone, Debug, PartialEq, Eq, Structural)]
pub struct FastDecrementFailure;

/// A condition on which the process has to abort.
///
/// Safe code can bring these about, but only in degenerate cases such as
/// leaking a billion references.
#[derive(Copy, Clone, Debug, PartialEq, Eq, Structural)]
pub enum FatalError {
    SharedRefcntUnderflow,
    SharedRefcntOverflow,
    MergedRefcntOverflow,
    WeakRefcntOverflow,
}

impl FatalError {
    /// The text of the message with which the process aborts.
    pub open spec fn text(self) -> Seq<char> {
        match self {
            FatalError::SharedRefcntUnderflow =>
                "biasedrc: Reference count underflow for shared counter"@,
            FatalError::SharedRefcntOverflow =>
                "biasedrc: Reference count overflow for a shared counter"@,
            FatalError::MergedRefcntOverflow =>
                "biasedrc: Merged reference counts overflow the shared counter"@,
            FatalError::WeakRefcntOverflow =>
                "biasedrc: Weak reference counts overflowed its counter"@,
        }
    }

    /// The message with which the process aborts.
    pub fn message(self) -> (r: &'static str)
        ensures
            r@ == self.text(),
    {
        match self {
            FatalError::SharedRefcntUnderflow =>
                "biasedrc: Reference count underflow for shared counter",
            FatalError::SharedRefcntOverflow =>
                "biasedrc: Reference count overflow for a shared counter",
            FatalError::MergedRefcntOverflow =>
                "biasedrc: Merged reference counts overflow the shared counter",
            FatalError::WeakRefcntOverflow =>
                "biasedrc: Weak reference counts overflowed its counter",
        }
    }
}

} // verus!
