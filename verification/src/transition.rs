//! One step of each counter.
//!
//! Every function here maps a word that was read to the word that is to be
//! written in its place, so that it serves a compare-and-swap loop on a shared
//! word just as well as a plain update.
use crate::error::{FastDecrementFailure, FastIncrementFailure, FatalError};
use crate::packed::{fits_i62, u20_checked_add, U20_VALUES};
use crate::thread_id::ShortThreadId;
use crate::word::{BiasedWord, SharedCount, SharedWord};
use vstd::prelude::*;

verus! {

/// What a thread that owns an object does to drop one biased reference.
#[derive(Copy, Clone, Debug, PartialEq, Eq, Structural)]
pub enum BiasedDecrement {
    /// Other biased references remain: store this word.
    Store(BiasedWord),
    /// This is the last biased reference: see [`SharedWord::released_by_owner`].
    Last,
}

/// What follows the release of one shared reference.
#[derive(Copy, Clone, Debug, PartialEq, Eq, Structural)]
pub enum SharedDecrement {
    /// The owner thread has to be asked to merge the counts.
    Queue,
    /// No reference remains: the value is to be dropped.
    Drop,
    /// Nothing follows.
    Retain,
}

/// Why a strong reference could not be taken from a weak one.
#[derive(Copy, Clone, Debug, PartialEq, Eq, Structural)]
pub enum UnlessZeroFailure {
    /// The strong count is zero.
    Zero,
    /// The counter cannot be incremented any further.
    Fatal(FatalError),
}

impl BiasedWord {
    /// Whether `this_id` is the thread that owns the word.
    pub open spec fn owned_by(self, this_id: Option<ShortThreadId>) -> bool {
        self.owner_id is Some && self.owner_id == this_id
    }

    /// Whether the thread `this_id` owns the word.
    pub fn is_owned_by(self, this_id: Option<ShortThreadId>) -> (r: bool)
        ensures
            r == self.owned_by(this_id),
    {
        match (self.owner_id, this_id) {
            (Some(owner), Some(this)) => owner == this,
            _ => false,
        }
    }

    /// The word with one more reference. Only the owner may count here, and
    /// only while the counter has room.
    pub fn incremented(self, this_id: Option<ShortThreadId>) -> (r: Result<
        BiasedWord,
        FastIncrementFailure,
    >)
        requires
            self.wf(),
        ensures
            r is Ok <==> self.owned_by(this_id) && self.biased_count + 1 < U20_VALUES,
            r matches Ok(word) ==> word.wf() && word == (BiasedWord {
                biased_count: (self.biased_count + 1) as u32,
                ..self
            }),
    {
        let incremented_counter = match u20_checked_add(self.biased_count, 1) {
            Some(count) => count,
            None => return Err(FastIncrementFailure),
        };
        if self.is_owned_by(this_id) {
            Ok(BiasedWord { biased_count: incremented_counter, ..self })
        } else {
            Err(FastIncrementFailure)
        }
    }

    /// What to do to drop one reference. Only the owner may count here.
    pub fn decremented(self, this_id: Option<ShortThreadId>) -> (r: Result<
        BiasedDecrement,
        FastDecrementFailure,
    >)
        requires
            self.wf(),
            self.owned_by(this_id) ==> self.biased_count >= 1,
        ensures
            r is Ok <==> self.owned_by(this_id),
            self.owned_by(this_id) && self.biased_count == 1 ==> r == Ok::<_, FastDecrementFailure>(
                BiasedDecrement::Last,
            ),
            self.owned_by(this_id) && self.biased_count > 1 ==> r == Ok::<_, FastDecrementFailure>(
                BiasedDecrement::Store(
                    BiasedWord { biased_count: (self.biased_count - 1) as u32, ..self },
                ),
            ),
    {
        if !self.is_owned_by(this_id) {
            return Err(FastDecrementFailure);
        }
        let new_biased_count = self.biased_count - 1;
        if new_biased_count > 0 {
            Ok(BiasedDecrement::Store(BiasedWord { biased_count: new_biased_count, ..self }))
        } else {
            Ok(BiasedDecrement::Last)
        }
    }
}

impl SharedWord {
    /// The word with another count and the same flags.
    pub open spec fn with_count(self, count: int) -> SharedWord {
        SharedWord { shared_count: SharedCount { count: count as i64 }, ..self }
    }

    /// The word after one shared reference was released: the queued flag is set
    /// as soon as the count is negative.
    pub open spec fn after_decrement(self) -> SharedWord {
        SharedWord {
            queued: self.queued || self.shared_count.count - 1 < 0,
            ..self.with_count(self.shared_count.count - 1)
        }
    }

    /// The word after the biased count was added to it.
    pub open spec fn after_merge(self, biased_count: u32) -> SharedWord {
        SharedWord { merged: true, ..self.with_count(self.shared_count.count + biased_count) }
    }

    /// The word with one more reference and the same flags. A count that has
    /// passed the threshold is fatal.
    pub fn incremented(self) -> (r: Result<SharedWord, FatalError>)
        requires
            self.wf(),
        ensures
            r is Ok <==> self.shared_count.count <= SharedWord::OVERFLOW_THRESHOLD,
            r matches Ok(word) ==> word.wf() && word == self.with_count(
                self.shared_count.count + 1,
            ),
            r matches Err(e) ==> e == FatalError::SharedRefcntOverflow,
    {
        if self.shared_count.value() > SharedWord::OVERFLOW_THRESHOLD {
            return Err(FatalError::SharedRefcntOverflow);
        }
        match self.shared_count.checked_add(SharedCount::new(1)) {
            Some(shared_count) => Ok(SharedWord { shared_count, ..self }),
            None => Err(FatalError::SharedRefcntOverflow),
        }
    }

    /// Whether the counts are merged and no reference is left.
    pub open spec fn dead(self) -> bool {
        self.merged && self.shared_count.count == 0
    }

    /// The word with one more reference, unless no reference is left.
    pub fn incremented_unless_zero(self) -> (r: Result<SharedWord, UnlessZeroFailure>)
        requires
            self.wf(),
        ensures
            r == Err::<SharedWord, _>(UnlessZeroFailure::Zero) <==> self.dead(),
            r == Err::<SharedWord, _>(UnlessZeroFailure::Fatal(FatalError::SharedRefcntOverflow))
                <==> self.shared_count.count == SharedCount::MAX,
            r is Ok <==> !self.dead() && self.shared_count.count < SharedCount::MAX,
            r matches Ok(word) ==> word.wf() && word == self.with_count(
                self.shared_count.count + 1,
            ),
    {
        let is_dead = self.merged && self.shared_count.value() == 0;
        if is_dead {
            return Err(UnlessZeroFailure::Zero);
        }
        match self.shared_count.checked_add(SharedCount::new(1)) {
            Some(shared_count) => Ok(SharedWord { shared_count, ..self }),
            None => Err(UnlessZeroFailure::Fatal(FatalError::SharedRefcntOverflow)),
        }
    }

    /// The word after the owner gave up ownership with its last biased reference.
    ///
    /// An object that is queued, or about to be, has to stay biased until its counts
    /// are merged. Its last biased reference is kept, and one is released from the
    /// shared word instead.
    pub fn released_by_owner(self) -> (r: Result<SharedWord, FastDecrementFailure>)
        requires
            self.wf(),
        ensures
            r is Err <==> self.queued,
            r matches Ok(word) ==> word.wf() && word == (SharedWord { merged: true, ..self }),
    {
        if self.queued {
            Err(FastDecrementFailure)
        } else {
            Ok(SharedWord { merged: true, ..self })
        }
    }

    /// The word with one reference fewer.
    pub fn decremented(self) -> (r: Result<SharedWord, FatalError>)
        requires
            self.wf(),
        ensures
            r is Ok <==> fits_i62(self.shared_count.count - 1),
            r matches Ok(word) ==> word.wf() && word == self.after_decrement(),
            r matches Err(e) ==> e == FatalError::SharedRefcntUnderflow,
    {
        match self.shared_count.checked_sub(SharedCount::new(1)) {
            Some(shared_count) => {
                let mut new = SharedWord { shared_count, ..self };
                if new.shared_count.value() < 0 {
                    new.queued = true;
                }
                Ok(new)
            },
            None => Err(FatalError::SharedRefcntUnderflow),
        }
    }

    /// What follows once `old` has been replaced by `new`, a word with one
    /// reference fewer. Only the thread that sets the queued flag queues the
    /// object.
    pub fn decrement_action(old: SharedWord, new: SharedWord) -> (r: SharedDecrement)
        ensures
            r == SharedDecrement::Queue <==> old.queued != new.queued,
            r == SharedDecrement::Drop <==> old.queued == new.queued && new.dead(),
    {
        if old.queued != new.queued {
            SharedDecrement::Queue
        } else if new.merged && new.shared_count.value() == 0 {
            SharedDecrement::Drop
        } else {
            SharedDecrement::Retain
        }
    }

    /// Whether the value is to be dropped once the counts were merged in this word.
    pub fn merge_drops(self) -> (r: bool)
        ensures
            r == (self.shared_count.count == 0),
    {
        self.shared_count.value() == 0
    }

    /// The word with the biased count added to it and the merged flag set.
    pub fn merged_with(self, biased_count: u32) -> (r: Result<SharedWord, FatalError>)
        requires
            self.wf(),
            biased_count < U20_VALUES,
        ensures
            r is Ok <==> fits_i62(self.shared_count.count + biased_count),
            r matches Ok(word) ==> word.wf() && word == self.after_merge(biased_count),
            r matches Err(e) ==> e == FatalError::MergedRefcntOverflow,
    {
        match self.shared_count.checked_add(SharedCount::new(biased_count as i64)) {
            Some(shared_count) => Ok(SharedWord { shared_count, merged: true, ..self }),
            None => Err(FatalError::MergedRefcntOverflow),
        }
    }
}

/// A shared word keeps its flags when a reference is added, and loses none when one is
/// released. It is marked as queued as soon as it counts less than nothing. Merging adds the
/// biased count and sets the merged flag alone. A merged word without references is dead.
pub proof fn lemma_shared_word_steps(word: SharedWord, biased_count: u32)
    requires
        word.wf(),
    ensures
        word.shared_count.count < SharedCount::MAX ==> {
            let more = word.with_count(word.shared_count.count + 1);
            &&& more.shared_count.count == word.shared_count.count + 1
            &&& more.merged == word.merged
            &&& more.queued == word.queued
            &&& more.after_decrement().shared_count == word.shared_count
            &&& more.after_decrement().merged == word.merged
            &&& word.shared_count.count >= 0 ==> more.after_decrement().queued == word.queued
            &&& word.shared_count.count < 0 ==> more.after_decrement().queued
        },
        fits_i62(word.shared_count.count - 1) ==> {
            let fewer = word.after_decrement();
            &&& fewer.shared_count.count == word.shared_count.count - 1
            &&& fewer.merged == word.merged
            &&& word.queued ==> fewer.queued
            &&& word.shared_count.count <= 0 ==> fewer.queued
            &&& word.shared_count.count > 0 ==> fewer.queued == word.queued
        },
        fits_i62(word.shared_count.count + biased_count) ==> {
            let sum = word.after_merge(biased_count);
            &&& sum.shared_count.count == word.shared_count.count + biased_count
            &&& sum.merged
            &&& sum.queued == word.queued
        },
        word.dead() <==> word.merged && word.shared_count.count == 0,
{
}

/// A thread owns a biased word where the word names it, and no thread without an identifier
/// owns any.
pub proof fn lemma_owner_named(word: BiasedWord, this_id: Option<ShortThreadId>)
    ensures
        this_id is None ==> !word.owned_by(this_id),
        this_id is Some ==> (word.owned_by(this_id) <==> word.owner_id == this_id),
{
}

} // verus!
