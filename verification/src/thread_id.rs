//! Identifiers of the threads that take part in biased reference counting.
use crate::packed::U12_VALUES;
use vstd::prelude::*;

verus! {

/// Identifies one thread among all those that were ever registered.
/// The identifier is never zero.
#[derive(Copy, Clone, Debug, PartialEq, Eq, Structural)]
pub struct UniqueThreadId {
    pub id: usize,
}

impl UniqueThreadId {
    pub open spec fn wf(self) -> bool {
        self.id >= 1
    }

    /// The identifier of the thread that was registered at `index`.
    pub fn from_index(index: usize) -> (r: Self)
        requires
            index < usize::MAX,
        ensures
            r.wf(),
            r.id == index + 1,
    {
        UniqueThreadId { id: index + 1 }
    }
}

/// Indicates that the identifier of a thread does not fit in
/// [`ShortThreadId::BITS`] bits, so that the thread cannot take part in biased
/// reference counting.
#[derive(Copy, Clone, Debug, PartialEq, Eq, Structural)]
pub struct ThreadIdOverflowError;

/// A thread identifier that fits in 12 bits, with the zero value reserved.
#[derive(Copy, Clone, Debug, PartialEq, Eq, Structural)]
pub struct ShortThreadId {
    pub id: u16,
}

impl ShortThreadId {
    /// The number of bits that an identifier takes in a packed word.
    pub const BITS: u32 = 12;

    /// The largest identifier.
    pub const MAX: u16 = 0xfff;

    pub open spec fn wf(self) -> bool {
        1 <= self.id <= Self::MAX
    }

    /// The identifier with the given value, or `None` for the reserved zero.
    pub fn new(x: u16) -> (r: Option<Self>)
        requires
            x < U12_VALUES,
        ensures
            r is None <==> x == 0,
            r matches Some(short) ==> short.wf() && short.id == x,
    {
        if x != 0 {
            Some(ShortThreadId { id: x })
        } else {
            None
        }
    }

    /// The value of the identifier, which fits in 12 bits.
    pub fn value(self) -> (r: u16)
        requires
            self.wf(),
        ensures
            r == self.id,
            1 <= r < U12_VALUES,
    {
        self.id
    }

    /// The index at which the thread was registered.
    pub fn index(self) -> (r: usize)
        requires
            self.wf(),
        ensures
            r == self.id - 1,
    {
        (self.id - 1) as usize
    }

    /// Narrows an identifier, failing where it takes more than 12 bits.
    pub fn try_from(value: UniqueThreadId) -> (r: Result<Self, ThreadIdOverflowError>)
        requires
            value.wf(),
        ensures
            r is Ok <==> value.id <= Self::MAX,
            r matches Ok(short) ==> short.wf() && short.id == value.id,
    {
        if value.id <= Self::MAX as usize {
            Ok(ShortThreadId { id: value.id as u16 })
        } else {
            Err(ThreadIdOverflowError)
        }
    }
}

} // verus!
