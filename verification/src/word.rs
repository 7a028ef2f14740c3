//! The two packed words of a reference count.
//!
//! The biased word belongs to the owner thread and holds its identifier next
//! to the biased count. The shared word holds the shared count, which may be
//! negative, next to two flags.
use crate::packed::{
    fits_i62, i62_checked_add, i62_checked_sub, i62_masked_new, i62_to_bits, sign_extend_62,
    u12_masked_new, u20_masked_new, I62_MAX, I62_VALUES, U12_VALUES, U20_VALUES,
};
use crate::thread_id::ShortThreadId;
use vstd::prelude::*;

verus! {

/// The owner of a reference count and the number of references that it counts
/// without synchronisation.
#[derive(Copy, Clone, Debug, PartialEq, Eq, Structural)]
pub struct BiasedWord {
    pub owner_id: Option<ShortThreadId>,
    /// A 20-bit counter.
    pub biased_count: u32,
}

impl BiasedWord {
    pub open spec fn wf(self) -> bool {
        &&& self.owner_id matches Some(id) ==> id.wf()
        &&& self.biased_count < U20_VALUES
    }

    /// The word of an object that is biased towards no thread.
    pub open spec fn unowned() -> Self {
        BiasedWord { owner_id: None, biased_count: 0 }
    }

    /// The packed value: the count above the 12 bits of the identifier, where
    /// zero stands for no owner.
    pub open spec fn encode(self) -> int {
        self.biased_count * U12_VALUES + match self.owner_id {
            Some(id) => id.id as int,
            None => 0,
        }
    }

    /// The word that `raw` packs.
    pub open spec fn decode(raw: u32) -> Self {
        let low = raw as int % U12_VALUES as int;
        BiasedWord {
            owner_id: if low == 0 {
                None
            } else {
                Some(ShortThreadId { id: low as u16 })
            },
            biased_count: (raw as int / U12_VALUES as int) as u32,
        }
    }

    /// The word of an object that is biased towards no thread.
    pub fn new_unowned() -> (r: Self)
        ensures
            r == Self::unowned(),
    {
        BiasedWord { owner_id: None, biased_count: 0 }
    }

    /// Packs the word into 32 bits.
    pub fn to_raw(self) -> (r: u32)
        requires
            self.wf(),
        ensures
            r as int == self.encode(),
            Self::decode(r) == self,
    {
        let owner: u32 = match self.owner_id {
            Some(id) => id.value() as u32,
            None => 0,
        };
        let count = self.biased_count;
        let raw = (count << ShortThreadId::BITS) | owner;
        proof {
            assert(((count << 12u32) | owner) == count * 4096 + owner) by (bit_vector)
                requires
                    count < 0x10_0000u32,
                    owner < 4096u32,
            ;
            lemma_biased_split(self.biased_count as int, owner as int);
        }
        raw
    }

    /// Unpacks a word from 32 bits.
    pub fn from_raw(raw: u32) -> (r: Self)
        ensures
            r == Self::decode(raw),
            r.wf(),
            r.encode() == raw,
    {
        let shifted = raw >> ShortThreadId::BITS;
        proof {
            assert(raw >> 12u32 == raw / 4096u32 && raw / 4096u32 < 0x10_0000u32) by (bit_vector);
        }
        BiasedWord {
            owner_id: ShortThreadId::new(u12_masked_new(raw)),
            biased_count: u20_masked_new(shifted),
        }
    }
}

/// Dividing a packed biased word gives its two parts back.
proof fn lemma_biased_split(count: int, owner: int)
    requires
        0 <= owner < U12_VALUES,
    ensures
        (count * U12_VALUES + owner) % U12_VALUES as int == owner,
        (count * U12_VALUES + owner) / U12_VALUES as int == count,
{
}

/// A signed 62-bit counter.
#[derive(Copy, Clone, Debug, PartialEq, Eq, Structural)]
pub struct SharedCount {
    pub count: i64,
}

impl SharedCount {
    /// The number of bits of a counter.
    pub const BITS: u32 = 62;

    /// The value of the largest counter.
    pub const MAX: i64 = I62_MAX;

    pub open spec fn wf(self) -> bool {
        fits_i62(self.count as int)
    }

    /// The counter with the given value.
    pub fn new(val: i64) -> (r: Self)
        requires
            fits_i62(val as int),
        ensures
            r.wf(),
            r.count == val,
    {
        SharedCount { count: val }
    }

    /// The value of the counter.
    pub fn value(self) -> (r: i64)
        ensures
            r == self.count,
    {
        self.count
    }

    /// The two's complement representation of the counter in 62 bits.
    pub fn to_bits(self) -> (r: u64)
        requires
            self.wf(),
        ensures
            r < I62_VALUES,
            r as int == self.count as int % I62_VALUES as int,
    {
        i62_to_bits(self.count)
    }

    /// The counter whose representation is the low 62 bits of `value`.
    pub fn masked_new(value: u64) -> (r: Self)
        ensures
            r.wf(),
            r.count == sign_extend_62(value),
    {
        SharedCount { count: i62_masked_new(value) }
    }

    /// The difference, or `None` where it does not fit.
    pub fn checked_sub(self, other: Self) -> (r: Option<Self>)
        requires
            self.wf(),
            other.wf(),
        ensures
            r is Some <==> fits_i62(self.count - other.count),
            r matches Some(diff) ==> diff.wf() && diff.count == self.count - other.count,
    {
        match i62_checked_sub(self.count, other.count) {
            Some(count) => Some(SharedCount { count }),
            None => None,
        }
    }

    /// The sum, or `None` where it does not fit.
    pub fn checked_add(self, other: Self) -> (r: Option<Self>)
        requires
            self.wf(),
            other.wf(),
        ensures
            r is Some <==> fits_i62(self.count + other.count),
            r matches Some(sum) ==> sum.wf() && sum.count == self.count + other.count,
    {
        match i62_checked_add(self.count, other.count) {
            Some(count) => Some(SharedCount { count }),
            None => None,
        }
    }
}

/// The references that are counted with synchronisation.
#[derive(Copy, Clone, Debug, PartialEq, Eq, Structural)]
pub struct SharedWord {
    pub shared_count: SharedCount,
    /// Set once the biased count has been added to the shared count. From then
    /// on the object is never biased again.
    pub merged: bool,
    /// Set once the owner thread has been asked to merge the counts.
    pub queued: bool,
}

impl SharedWord {
    /// The bit of the merged flag.
    pub const MERGED_BIT: u64 = 0x4000_0000_0000_0000;

    /// The bit of the queued flag.
    pub const QUEUED_BIT: u64 = 0x8000_0000_0000_0000;

    /// A count above this is considered to have overflowed.
    pub const OVERFLOW_THRESHOLD: i64 = 0x0fff_ffff_ffff_ffff;

    pub open spec fn wf(self) -> bool {
        self.shared_count.wf()
    }

    /// The packed value: the flags above the 62 bits of the counter.
    pub open spec fn encode(self) -> int {
        self.shared_count.count as int % I62_VALUES as int + (if self.merged {
            I62_VALUES as int
        } else {
            0
        }) + (if self.queued {
            2 * I62_VALUES
        } else {
            0
        })
    }

    /// The word that `raw` packs.
    pub open spec fn decode(raw: u64) -> Self {
        let flags = raw as int / I62_VALUES as int;
        SharedWord {
            shared_count: SharedCount { count: sign_extend_62(raw) as i64 },
            merged: flags % 2 == 1,
            queued: flags >= 2,
        }
    }

    /// Packs the word into 64 bits.
    pub fn to_raw(self) -> (r: u64)
        requires
            self.wf(),
        ensures
            r as int == self.encode(),
            Self::decode(r) == self,
    {
        let bits = self.shared_count.to_bits();
        let merged: u64 = if self.merged {
            1
        } else {
            0
        };
        let queued: u64 = if self.queued {
            1
        } else {
            0
        };
        proof {
            assert((bits | (merged << 62u32) | (queued << 63u32)) == bits + merged
                * 0x4000_0000_0000_0000 + queued * 0x8000_0000_0000_0000) by (bit_vector)
                requires
                    bits < 0x4000_0000_0000_0000u64,
                    merged <= 1,
                    queued <= 1,
            ;
            assert(SharedCount::BITS + 1 == 63u32);
        }
        bits | (merged << SharedCount::BITS) | (queued << (SharedCount::BITS + 1))
    }

    /// Unpacks a word from 64 bits.
    pub fn from_raw(raw: u64) -> (r: Self)
        ensures
            r == Self::decode(raw),
            r.wf(),
            r.encode() == raw,
    {
        proof {
            assert((raw & 0x4000_0000_0000_0000u64 != 0) <==> (raw / 0x4000_0000_0000_0000u64) % 2
                == 1) by (bit_vector);
            assert((raw & 0x8000_0000_0000_0000u64 != 0) <==> raw / 0x4000_0000_0000_0000u64 >= 2)
                by (bit_vector);
        }
        SharedWord {
            shared_count: SharedCount::masked_new(raw),
            merged: (raw & Self::MERGED_BIT) != 0,
            queued: (raw & Self::QUEUED_BIT) != 0,
        }
    }
}

/// The identifier of the owner is the low 12 bits of a packed biased word, where zero stands
/// for no owner, and the count is the 20 bits above.
pub proof fn lemma_biased_word_bits(raw: u32)
    ensures
        BiasedWord::decode(raw).biased_count == raw >> 12,
        BiasedWord::decode(raw).owner_id is None <==> raw & 0xfff == 0,
        BiasedWord::decode(raw).owner_id matches Some(id) ==> id.id == raw & 0xfff,
{
    assert(raw >> 12 == raw / 4096 && raw & 0xfff == raw % 4096) by (bit_vector);
}

/// The queued flag is the highest bit of a packed shared word, the merged flag the one below,
/// and the rest is the count in two's complement.
pub proof fn lemma_shared_word_bits(raw: u64)
    ensures
        SharedWord::decode(raw).queued <==> raw & 0x8000_0000_0000_0000 != 0,
        SharedWord::decode(raw).merged <==> raw & 0x4000_0000_0000_0000 != 0,
        raw & 0x2000_0000_0000_0000 == 0 ==> SharedWord::decode(raw).shared_count.count == raw
            & 0x1fff_ffff_ffff_ffff,
        raw & 0x2000_0000_0000_0000 != 0 ==> SharedWord::decode(raw).shared_count.count == (raw
            & 0x1fff_ffff_ffff_ffff) - 0x2000_0000_0000_0000,
{
    assert({
        &&& (raw & 0x8000_0000_0000_0000 != 0) <==> raw / 0x4000_0000_0000_0000 >= 2
        &&& (raw & 0x4000_0000_0000_0000 != 0) <==> (raw / 0x4000_0000_0000_0000) % 2 == 1
        &&& (raw & 0x2000_0000_0000_0000 == 0) <==> raw % 0x4000_0000_0000_0000
            <= 0x1fff_ffff_ffff_ffff
        &&& raw & 0x2000_0000_0000_0000 == 0 ==> raw & 0x1fff_ffff_ffff_ffff == raw
            % 0x4000_0000_0000_0000
        &&& raw & 0x2000_0000_0000_0000 != 0 ==> raw % 0x4000_0000_0000_0000 == (raw
            & 0x1fff_ffff_ffff_ffff) + 0x2000_0000_0000_0000
    }) by (bit_vector);
}

/// Packing loses nothing: two words with the same packed value are the same.
pub proof fn lemma_packed_words_differ(a: BiasedWord, b: BiasedWord, c: SharedWord, d: SharedWord)
    requires
        a.wf(),
        b.wf(),
        c.wf(),
        d.wf(),
    ensures
        a.encode() == b.encode() ==> a == b,
        c.encode() == d.encode() ==> c == d,
{
    if a.encode() == b.encode() {
        let x: int = match a.owner_id {
            Some(id) => id.id as int,
            None => 0,
        };
        let y: int = match b.owner_id {
            Some(id) => id.id as int,
            None => 0,
        };
        lemma_biased_split(a.biased_count as int, x);
        lemma_biased_split(b.biased_count as int, y);
    }
}

} // verus!
