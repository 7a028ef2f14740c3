//! The allocators.
use vstd::prelude::*;

verus! {

/// What the memory of an object is taken from.
pub trait Allocator: Sized {
    /// The allocator of a weak reference that refers to nothing. Only the default
    /// allocator has such references.
    open spec fn of_nothing() -> Option<Self> {
        None
    }

    /// The allocator of a weak reference that refers to nothing, where there are such
    /// references.
    fn reserved<'a>() -> (r: Option<&'a Self>) where Self: 'a
        ensures
            r is Some <==> Self::of_nothing() is Some,
            r matches Some(alloc) ==> Some(*alloc) == Self::of_nothing(),
    ;
}

/// The allocator that is used where none is given.
#[derive(Copy, Clone, Debug, PartialEq, Eq, Structural)]
pub struct Global;

impl Allocator for Global {
    open spec fn of_nothing() -> Option<Self> {
        Some(Global)
    }

    fn reserved<'a>() -> (r: Option<&'a Self>) where Self: 'a {
        Some(&Global)
    }
}

} // verus!
