//! The strong reference count of one object.
use crate::error::{
    BiasedCountError, FastDecrementFailure, FastIncrementFailure, ImpreciseRefCountError,
    ZeroReferenceCountError,
};
use crate::packed::{fits_i62, U20_VALUES};
use crate::thread_id::ShortThreadId;
use crate::transition::{BiasedDecrement, SharedDecrement, UnlessZeroFailure};
use crate::word::{BiasedWord, SharedCount, SharedWord};
use vstd::pervasive::unreached;
use vstd::prelude::*;

verus! {

/// The two words of a reference count, unpacked.
pub struct Counts {
    pub biased: BiasedWord,
    pub shared: SharedWord,
}

impl Counts {
    /// The invariant of a reference count that is in use.
    ///
    /// The object is biased towards a thread until the counts are merged. While
    /// it is, the owner counts at least one reference, and a shared count that
    /// has become negative has the object queued. While the counts wait to be merged
    /// their sum fits in the shared counter, so that merging cannot overflow.
    pub open spec fn wf(self) -> bool {
        &&& self.biased.wf()
        &&& self.shared.wf()
        &&& self.shared.merged <==> self.biased.owner_id is None
        &&& self.shared.merged ==> self.biased.biased_count == 0 && self.shared.shared_count.count
            >= 0
        &&& !self.shared.merged ==> self.biased.biased_count >= 1
        &&& self.shared.shared_count.count < 0 ==> self.shared.queued
        &&& 0 <= self.strong()
        &&& self.awaits_merge() ==> self.strong() <= SharedCount::MAX
    }

    /// The number of strong references.
    pub open spec fn strong(self) -> int {
        self.biased.biased_count + self.shared.shared_count.count
    }

    /// Whether the counts are merged and no reference is left.
    pub open spec fn dead(self) -> bool {
        self.shared.dead()
    }

    /// Whether the owner has been asked to merge the counts and has not done so.
    pub open spec fn awaits_merge(self) -> bool {
        self.shared.queued && !self.shared.merged
    }

    /// The count of a new object, biased towards `this_id` where it is a thread.
    pub open spec fn initial(this_id: Option<ShortThreadId>) -> Counts {
        match this_id {
            Some(id) => Counts {
                biased: BiasedWord { owner_id: Some(id), biased_count: 1 },
                shared: SharedWord {
                    shared_count: SharedCount { count: 0 },
                    merged: false,
                    queued: false,
                },
            },
            None => Counts {
                biased: BiasedWord::unowned(),
                shared: SharedWord {
                    shared_count: SharedCount { count: 1 },
                    merged: true,
                    queued: false,
                },
            },
        }
    }

    /// The count of an object that is not shared yet: no strong reference can be
    /// taken from it.
    pub open spec fn uninit() -> Counts {
        Counts {
            biased: BiasedWord::unowned(),
            shared: SharedWord {
                shared_count: SharedCount { count: 0 },
                merged: true,
                queued: false,
            },
        }
    }

    /// Whether one more reference would be counted by the owner.
    pub open spec fn increments_biased(self, this_id: Option<ShortThreadId>) -> bool {
        self.biased.owned_by(this_id) && self.biased.biased_count + 1 < U20_VALUES
    }

    /// Whether merging the counts still fits with one more reference.
    pub open spec fn can_count(self) -> bool {
        self.awaits_merge() ==> self.strong() < SharedCount::MAX
    }

    /// Whether the thread `this_id` can count one more reference.
    pub open spec fn can_increment(self, this_id: Option<ShortThreadId>) -> bool {
        self.can_count() && (self.increments_biased(this_id) || self.shared.shared_count.count
            < SharedCount::MAX)
    }

    /// Whether the release of one reference by the thread `this_id` is counted in the
    /// biased word. The owner keeps its last biased reference while the object is
    /// queued, and releases one from the shared word.
    pub open spec fn releases_biased(self, this_id: Option<ShortThreadId>) -> bool {
        self.biased.owned_by(this_id) && !(self.biased.biased_count == 1 && self.shared.queued)
    }

    /// The counts with one more biased reference.
    pub open spec fn biased_incremented(self) -> Counts {
        Counts {
            biased: BiasedWord {
                biased_count: (self.biased.biased_count + 1) as u32,
                ..self.biased
            },
            ..self
        }
    }

    /// The counts with one more shared reference.
    pub open spec fn shared_incremented(self) -> Counts {
        Counts { shared: self.shared.with_count(self.shared.shared_count.count + 1), ..self }
    }

    /// The counts after the thread `this_id` took one more reference.
    pub open spec fn incremented(self, this_id: Option<ShortThreadId>) -> Counts {
        if self.increments_biased(this_id) {
            self.biased_incremented()
        } else {
            self.shared_incremented()
        }
    }

    /// The counts after ownership was given up with no biased reference left.
    pub open spec fn released(self) -> Counts {
        Counts {
            biased: BiasedWord::unowned(),
            shared: SharedWord { merged: true, ..self.shared },
        }
    }

    /// The counts after the thread `this_id` released one reference.
    pub open spec fn decremented(self, this_id: Option<ShortThreadId>) -> Counts {
        if !self.releases_biased(this_id) {
            Counts { shared: self.shared.after_decrement(), ..self }
        } else if self.biased.biased_count > 1 {
            Counts {
                biased: BiasedWord {
                    biased_count: (self.biased.biased_count - 1) as u32,
                    ..self.biased
                },
                ..self
            }
        } else {
            self.released()
        }
    }

    /// Whether the release of one reference by the thread `this_id` asks the
    /// owner to merge the counts.
    pub open spec fn decrement_queues(self, this_id: Option<ShortThreadId>) -> bool {
        !self.releases_biased(this_id) && !self.shared.queued && self.shared.shared_count.count
            - 1 < 0
    }

    /// Whether the release of one reference by the thread `this_id` leaves the
    /// value to be dropped by that thread.
    pub open spec fn decrement_drops(self, this_id: Option<ShortThreadId>) -> bool {
        !self.decrement_queues(this_id) && self.decremented(this_id).dead()
    }

    /// The counts after the biased count was added to the shared count.
    pub open spec fn merged(self) -> Counts {
        Counts {
            biased: BiasedWord::unowned(),
            shared: self.shared.after_merge(self.biased.biased_count),
        }
    }

    /// Whether `this_id` can determine the number of strong references.
    pub open spec fn precise_for(self, this_id: Option<ShortThreadId>) -> bool {
        self.shared.merged || self.biased.owner_id == this_id
    }

    /// What `this_id` learns of the number of strong references.
    pub open spec fn strong_count(self, this_id: Option<ShortThreadId>) -> Result<
        u64,
        ImpreciseRefCountError,
    > {
        if self.shared.merged {
            Ok(self.shared.shared_count.count as u64)
        } else if self.biased.owner_id == this_id {
            Ok(self.strong() as u64)
        } else if self.shared.shared_count.count >= 0 {
            Err(ImpreciseRefCountError { lower_bound: self.shared.shared_count.count as u64 })
        } else {
            Err(ImpreciseRefCountError { lower_bound: 0 })
        }
    }

    /// Whether the counts are such that [`RawBrcHeader::strong_count`] can read
    /// them: no count that it reports is negative.
    pub open spec fn readable_by(self, this_id: Option<ShortThreadId>) -> bool {
        &&& self.shared.merged ==> self.shared.shared_count.count >= 0
        &&& !self.shared.merged && self.biased.owner_id == this_id ==> self.strong() >= 0
    }

    /// What `this_id` learns of the biased count.
    pub open spec fn biased_count(self, this_id: Option<ShortThreadId>) -> Result<
        u64,
        BiasedCountError,
    > {
        if self.biased.owner_id is None {
            Err(BiasedCountError::NotBiased)
        } else if self.biased.owner_id == this_id {
            Ok(self.biased.biased_count as u64)
        } else {
            Err(BiasedCountError::WrongThread)
        }
    }
}

/// What is left to be done once a strong reference was released.
#[derive(Copy, Clone, Debug, PartialEq, Eq, Structural)]
pub enum HeaderDecrement {
    /// Nothing.
    Retain,
    /// The value is to be dropped.
    Drop,
    /// The object is to be queued for this thread, which merges the counts.
    Queue(ShortThreadId),
}

/// What is left to be done once the counts were merged.
#[derive(Copy, Clone, Debug, PartialEq, Eq, Structural)]
pub enum HeaderMerge {
    /// Nothing: references remain.
    Retain,
    /// The value is to be dropped.
    Drop,
}

/// The strong reference count of an object, in its packed form.
#[derive(Copy, Clone, Debug)]
pub struct RawBrcHeader {
    shared_word: u64,
    biased_word: u32,
}

impl View for RawBrcHeader {
    type V = Counts;

    closed spec fn view(&self) -> Counts {
        Counts {
            biased: BiasedWord::decode(self.biased_word),
            shared: SharedWord::decode(self.shared_word),
        }
    }
}

impl RawBrcHeader {
    /// Whether a count has a destructor that has to be called.
    pub const NEEDS_DROP: bool = false;

    /// The count whose packed words are given.
    pub fn from_words(shared_word: u64, biased_word: u32) -> (r: Self)
        ensures
            r@ == (Counts {
                biased: BiasedWord::decode(biased_word),
                shared: SharedWord::decode(shared_word),
            }),
    {
        RawBrcHeader { shared_word, biased_word }
    }

    /// The packed words of the count.
    pub fn into_words(self) -> (r: (u64, u32))
        ensures
            self@ == (Counts {
                biased: BiasedWord::decode(r.1),
                shared: SharedWord::decode(r.0),
            }),
    {
        (self.shared_word, self.biased_word)
    }

    fn biased(&self) -> (r: BiasedWord)
        ensures
            r == self@.biased,
            r.wf(),
    {
        BiasedWord::from_raw(self.biased_word)
    }

    fn shared(&self) -> (r: SharedWord)
        ensures
            r == self@.shared,
            r.wf(),
    {
        SharedWord::from_raw(self.shared_word)
    }

    fn store_biased(&mut self, word: BiasedWord)
        requires
            word.wf(),
        ensures
            final(self)@ == (Counts { biased: word, ..old(self)@ }),
    {
        self.biased_word = word.to_raw();
    }

    fn store_shared(&mut self, word: SharedWord)
        requires
            word.wf(),
        ensures
            final(self)@ == (Counts { shared: word, ..old(self)@ }),
    {
        self.shared_word = word.to_raw();
    }

    /// The count of one reference, biased towards the thread `this_id`. A thread
    /// that cannot take part in biased reference counting gets a merged count.
    pub fn init(this_id: Option<ShortThreadId>) -> (r: Self)
        requires
            this_id matches Some(id) ==> id.wf(),
        ensures
            r@ == Counts::initial(this_id),
            r@.wf(),
            r@.strong() == 1,
    {
        match this_id {
            None => RawBrcHeader {
                shared_word: SharedWord {
                    shared_count: SharedCount::new(1),
                    merged: true,
                    queued: false,
                }.to_raw(),
                biased_word: BiasedWord::new_unowned().to_raw(),
            },
            Some(this_id) => RawBrcHeader {
                biased_word: BiasedWord { biased_count: 1, owner_id: Some(this_id) }.to_raw(),
                shared_word: SharedWord {
                    queued: false,
                    merged: false,
                    shared_count: SharedCount::new(0),
                }.to_raw(),
            },
        }
    }

    /// The count of an object that is not shared yet.
    pub fn new_uninit() -> (r: Self)
        ensures
            r@ == Counts::uninit(),
            r@.wf(),
            r@.dead(),
    {
        RawBrcHeader {
            shared_word: SharedWord {
                shared_count: SharedCount::new(0),
                merged: true,
                queued: false,
            }.to_raw(),
            biased_word: BiasedWord::new_unowned().to_raw(),
        }
    }

    /// Whether the object is not shared yet.
    pub fn is_strong_uninit(&self) -> (r: bool)
        ensures
            r == (self@ == Counts::uninit()),
    {
        let biased = self.biased();
        let shared = self.shared();
        biased.owner_id.is_none() && biased.biased_count == 0 && shared.merged && !shared.queued
            && shared.shared_count.value() == 0
    }

    /// The number of strong references, where `this_id` can determine it.
    pub fn strong_count(&self, this_id: Option<ShortThreadId>) -> (r: Result<
        u64,
        ImpreciseRefCountError,
    >)
        requires
            self@.readable_by(this_id),
        ensures
            r == self@.strong_count(this_id),
            r is Ok <==> self@.precise_for(this_id),
            self@.shared.merged ==> r == Ok::<u64, ImpreciseRefCountError>(
                self@.shared.shared_count.count as u64,
            ),
            !self@.shared.merged && self@.biased.owner_id is Some ==> if self@.biased.owner_id
                == this_id {
                r == Ok::<u64, ImpreciseRefCountError>(
                    (self@.biased.biased_count + self@.shared.shared_count.count) as u64,
                )
            } else {
                r is Err
            },
            self@.wf() ==> match r {
                Ok(count) => count == self@.strong(),
                Err(e) => e.lower_bound <= self@.strong(),
            },
    {
        let shared_word = self.shared();
        let biased_word = self.biased();
        let count = shared_word.shared_count.value();
        if shared_word.merged {
            Ok(count as u64)
        } else if same_thread(biased_word.owner_id, this_id) {
            Ok((biased_word.biased_count as i64 + count) as u64)
        } else if count < 0 {
            Err(ImpreciseRefCountError { lower_bound: 0 })
        } else {
            Err(ImpreciseRefCountError { lower_bound: count as u64 })
        }
    }

    /// Whether another thread owns the count, so that uniqueness cannot be
    /// established here.
    pub fn is_definitely_not_unique(&self, this_id: Option<ShortThreadId>) -> (r: bool)
        ensures
            r == (self@.biased.owner_id is Some && self@.biased.owner_id != this_id),
    {
        let biased_word = self.biased();
        biased_word.owner_id.is_some() && !same_thread(biased_word.owner_id, this_id)
    }

    /// Whether there is known to be exactly one strong reference. May be `false`
    /// for a unique reference, but is never `true` for a shared one.
    pub fn is_unique(&self, this_id: Option<ShortThreadId>) -> (r: bool)
        requires
            self@.readable_by(this_id),
        ensures
            r <==> self@.strong_count(this_id) == Ok::<u64, ImpreciseRefCountError>(1u64),
            self@.wf() && r ==> self@.strong() == 1,
            self@.wf() && self@.shared.merged ==> (r <==> self@.shared.shared_count.count == 1),
            self@.wf() && self@.biased.owner_id is Some && self@.biased.owner_id == this_id ==> (r
                <==> self@.biased.biased_count + self@.shared.shared_count.count == 1),
    {
        match self.strong_count(this_id) {
            Ok(count) => count == 1,
            Err(_) => false,
        }
    }

    /// The biased count, where the thread `this_id` owns it.
    pub fn biased_count(&self, this_id: Option<ShortThreadId>) -> (r: Result<
        u64,
        BiasedCountError,
    >)
        ensures
            r == self@.biased_count(this_id),
    {
        let biased_word = self.biased();
        if biased_word.owner_id.is_none() {
            Err(BiasedCountError::NotBiased)
        } else if same_thread(this_id, biased_word.owner_id) {
            Ok(biased_word.biased_count as u64)
        } else {
            Err(BiasedCountError::WrongThread)
        }
    }

    /// The shared count.
    pub fn shared_count(&self) -> (r: i64)
        ensures
            r == self@.shared.shared_count.count,
    {
        self.shared().shared_count.value()
    }

    /// Counts one more reference in the biased word, where the thread `this_id`
    /// owns it and the counter has room.
    pub fn attempt_biased_increment(&mut self, this_id: Option<ShortThreadId>) -> (r: Result<
        (),
        FastIncrementFailure,
    >)
        ensures
            r is Ok <==> old(self)@.increments_biased(this_id),
            r is Ok ==> final(self)@ == old(self)@.biased_incremented(),
            r is Err ==> final(self)@ == old(self)@,
    {
        match self.biased().incremented(this_id) {
            Ok(word) => {
                self.store_biased(word);
                Ok(())
            },
            Err(e) => Err(e),
        }
    }

    /// Counts one more strong reference.
    pub fn increment_strong(&mut self, this_id: Option<ShortThreadId>)
        requires
            !old(self)@.increments_biased(this_id) ==> old(self)@.shared.shared_count.count
                <= SharedWord::OVERFLOW_THRESHOLD,
        ensures
            final(self)@ == old(self)@.incremented(this_id),
            old(self)@.wf() && !old(self)@.dead() && old(self)@.can_count() ==> {
                &&& final(self)@.wf()
                &&& !final(self)@.dead()
                &&& final(self)@.strong() == old(self)@.strong() + 1
            },
    {
        if self.attempt_biased_increment(this_id).is_err() {
            self.increment_strong_shared();
        }
    }

    /// Counts one more shared reference, even on the thread that owns the biased
    /// count.
    pub fn increment_strong_shared(&mut self)
        requires
            old(self)@.shared.shared_count.count <= SharedWord::OVERFLOW_THRESHOLD,
        ensures
            final(self)@ == old(self)@.shared_incremented(),
            old(self)@.wf() && !old(self)@.dead() && old(self)@.can_count() ==> {
                &&& final(self)@.wf()
                &&& !final(self)@.dead()
                &&& final(self)@.strong() == old(self)@.strong() + 1
            },
    {
        match self.shared().incremented() {
            Ok(word) => self.store_shared(word),
            Err(_) => unreached(),
        }
    }

    /// Counts one more strong reference, unless there is none left.
    pub fn increment_strong_unless_zero(&mut self, this_id: Option<ShortThreadId>) -> (r: Result<
        (),
        ZeroReferenceCountError,
    >)
        requires
            !old(self)@.increments_biased(this_id) ==> old(self)@.shared.shared_count.count
                < SharedCount::MAX,
        ensures
            r is Ok <==> old(self)@.increments_biased(this_id) || !old(self)@.dead(),
            r is Ok ==> final(self)@ == old(self)@.incremented(this_id),
            r is Err ==> final(self)@ == old(self)@,
            old(self)@.wf() ==> (r is Err <==> old(self)@.dead()),
            old(self)@.wf() && r is Ok && old(self)@.can_count() ==> {
                &&& final(self)@.wf()
                &&& !final(self)@.dead()
                &&& final(self)@.strong() == old(self)@.strong() + 1
            },
    {
        if self.attempt_biased_increment(this_id).is_ok() {
            Ok(())
        } else {
            match self.shared().incremented_unless_zero() {
                Ok(word) => {
                    self.store_shared(word);
                    Ok(())
                },
                Err(UnlessZeroFailure::Zero) => Err(ZeroReferenceCountError),
                Err(UnlessZeroFailure::Fatal(_)) => unreached(),
            }
        }
    }

    /// Releases one strong reference.
    pub fn decrement_strong(&mut self, this_id: Option<ShortThreadId>) -> (r: HeaderDecrement)
        requires
            old(self)@.wf(),
            old(self)@.strong() >= 1,
        ensures
            final(self)@ == old(self)@.decremented(this_id),
            r == HeaderDecrement::Drop <==> old(self)@.decrement_drops(this_id),
            r is Queue <==> old(self)@.decrement_queues(this_id),
            r matches HeaderDecrement::Queue(owner) ==> old(self)@.biased.owner_id == Some(owner),
            final(self)@.wf(),
            final(self)@.strong() == old(self)@.strong() - 1,
    {
        match self.decrement_biased(this_id) {
            Ok(should_drop) => {
                if should_drop {
                    HeaderDecrement::Drop
                } else {
                    HeaderDecrement::Retain
                }
            },
            Err(_) => self.decrement_shared(),
        }
    }

    /// Releases one reference that the thread `this_id` counts in the biased
    /// word. Returns whether the value is to be dropped.
    fn decrement_biased(&mut self, this_id: Option<ShortThreadId>) -> (r: Result<
        bool,
        FastDecrementFailure,
    >)
        requires
            old(self)@.wf(),
        ensures
            r is Ok <==> old(self)@.releases_biased(this_id),
            r is Err ==> final(self)@ == old(self)@,
            r matches Ok(should_drop) ==> {
                &&& final(self)@ == old(self)@.decremented(this_id)
                &&& should_drop == old(self)@.decrement_drops(this_id)
            },
    {
        match self.biased().decremented(this_id) {
            Ok(BiasedDecrement::Store(word)) => {
                self.store_biased(word);
                Ok(false)
            },
            Ok(BiasedDecrement::Last) => self.decrement_biased_slow(),
            Err(e) => Err(e),
        }
    }

    /// Gives up ownership with the last biased reference, unless the object is
    /// queued. Returns whether no shared reference is left either.
    ///
    /// Ownership is given up even where the value is to be dropped, because a
    /// weak reference can still observe the count.
    fn decrement_biased_slow(&mut self) -> (r: Result<bool, FastDecrementFailure>)
        ensures
            r is Err <==> old(self)@.shared.queued,
            r is Err ==> final(self)@ == old(self)@,
            r matches Ok(should_drop) ==> {
                &&& final(self)@ == old(self)@.released()
                &&& should_drop == (old(self)@.shared.shared_count.count == 0)
            },
    {
        match self.shared().released_by_owner() {
            Ok(new_shared) => {
                self.store_shared(new_shared);
                self.store_biased(BiasedWord::new_unowned());
                Ok(new_shared.shared_count.value() == 0)
            },
            Err(e) => Err(e),
        }
    }

    /// Releases one shared reference.
    fn decrement_shared(&mut self) -> (r: HeaderDecrement)
        requires
            fits_i62(old(self)@.shared.shared_count.count - 1),
            old(self)@.shared.shared_count.count - 1 < 0 && !old(self)@.shared.queued
                ==> old(self)@.biased.owner_id is Some,
        ensures
            final(self)@ == (Counts { shared: old(self)@.shared.after_decrement(), ..old(self)@ }),
            r is Queue <==> !old(self)@.shared.queued && old(self)@.shared.shared_count.count - 1
                < 0,
            r matches HeaderDecrement::Queue(owner) ==> old(self)@.biased.owner_id == Some(owner),
            r == HeaderDecrement::Drop <==> !(r is Queue) && final(self)@.dead(),
    {
        let old_word = self.shared();
        match old_word.decremented() {
            Ok(new_word) => {
                self.store_shared(new_word);
                match SharedWord::decrement_action(old_word, new_word) {
                    SharedDecrement::Queue => match self.biased().owner_id {
                        Some(owner) => HeaderDecrement::Queue(owner),
                        None => unreached(),
                    },
                    SharedDecrement::Drop => HeaderDecrement::Drop,
                    SharedDecrement::Retain => HeaderDecrement::Retain,
                }
            },
            Err(_) => unreached(),
        }
    }

    /// Adds the biased count to the shared count and gives up ownership.
    pub fn merge(&mut self, biased_tid: ShortThreadId) -> (r: HeaderMerge)
        requires
            old(self)@.wf(),
            old(self)@.biased.owner_id == Some(biased_tid),
            old(self)@.strong() <= SharedCount::MAX,
        ensures
            final(self)@ == old(self)@.merged(),
            r == HeaderMerge::Drop <==> old(self)@.strong() == 0,
            r == HeaderMerge::Drop <==> final(self)@.dead(),
            final(self)@.wf(),
            final(self)@.strong() == old(self)@.strong(),
    {
        let biased = self.biased();
        let new_word = match self.shared().merged_with(biased.biased_count) {
            Ok(word) => word,
            Err(_) => unreached(),
        };
        self.store_shared(new_word);
        self.store_biased(BiasedWord::new_unowned());
        if new_word.merge_drops() {
            HeaderMerge::Drop
        } else {
            HeaderMerge::Retain
        }
    }
}

/// Whether two optional thread identifiers are the same.
pub fn same_thread(a: Option<ShortThreadId>, b: Option<ShortThreadId>) -> (r: bool)
    ensures
        r == (a == b),
{
    match (a, b) {
        (Some(a), Some(b)) => a == b,
        (None, None) => true,
        _ => false,
    }
}

/// One more reference is counted in the biased word by the owner while that has room, and in
/// the shared word otherwise. All else in the two words stays.
pub proof fn lemma_increment_counts(counts: Counts, this_id: Option<ShortThreadId>)
    requires
        counts.biased.wf(),
        counts.shared.shared_count.count < SharedCount::MAX,
    ensures
        ({
            let later = counts.incremented(this_id);
            let shared = counts.shared_incremented();
            let here = counts.biased.owner_id is Some && counts.biased.owner_id == this_id
                && counts.biased.biased_count < 0xf_ffff;
            &&& later.biased.owner_id == counts.biased.owner_id
            &&& later.shared.merged == counts.shared.merged
            &&& later.shared.queued == counts.shared.queued
            &&& here ==> later.biased.biased_count == counts.biased.biased_count + 1
                && later.shared == counts.shared
            &&& !here ==> later == shared
            &&& shared.biased == counts.biased
            &&& shared.shared.merged == counts.shared.merged
            &&& shared.shared.queued == counts.shared.queued
            &&& shared.shared.shared_count.count == counts.shared.shared_count.count + 1
        }),
{
}

/// Releasing a reference takes one away. The thread that releases the last one drops the value
/// unless the object is biased towards another thread or queued. Another thread than the owner
/// asks the owner to merge the counts where the shared word counts no reference, and only the
/// first one that does so.
pub proof fn lemma_decrement_counts(counts: Counts, this_id: Option<ShortThreadId>)
    requires
        counts.wf(),
        counts.strong() >= 1,
    ensures
        ({
            let later = counts.decremented(this_id);
            let here = counts.biased.owner_id is Some && counts.biased.owner_id == this_id;
            let count = counts.shared.shared_count.count;
            let before = counts.biased.biased_count + count;
            &&& later.biased.biased_count + later.shared.shared_count.count == before - 1
            &&& counts.decrement_drops(this_id) <==> before == 1 && (counts.shared.merged || here
                && !counts.shared.queued)
            &&& counts.decrement_queues(this_id) <==> !counts.shared.merged && !here
                && !counts.shared.queued && count == 0
            &&& counts.shared.merged ==> later.shared.merged && later.biased == counts.biased
                && later.shared.queued == counts.shared.queued
            &&& !counts.shared.merged && !here ==> later.biased == counts.biased
                && !later.shared.merged && (later.shared.queued <==> counts.shared.queued || count
                == 0)
            &&& here && counts.biased.biased_count > 1 ==> later.shared == counts.shared
                && later.biased.owner_id == this_id
            &&& here && counts.biased.biased_count == 1 && counts.shared.queued ==> later.biased
                == counts.biased && !later.shared.merged && later.shared.queued
            &&& here && counts.biased.biased_count == 1 && !counts.shared.queued
                ==> later.biased.owner_id is None && later.biased.biased_count == 0
                && later.shared.merged && !later.shared.queued
        }),
{
}

/// Merging counts all references in the shared word, and leaves no owner. The object stays
/// marked as queued where it was.
pub proof fn lemma_merge_counts(counts: Counts)
    requires
        counts.wf(),
        counts.strong() <= SharedCount::MAX,
    ensures
        counts.merged().biased.owner_id is None,
        counts.merged().biased.biased_count == 0,
        counts.merged().shared.merged,
        counts.merged().shared.queued == counts.shared.queued,
        counts.merged().shared.shared_count.count == counts.biased.biased_count
            + counts.shared.shared_count.count,
        counts.merged().dead() <==> counts.biased.biased_count + counts.shared.shared_count.count
            == 0,
{
}

/// An object that is not shared yet has merged counts without any reference.
pub proof fn lemma_uninit_counts()
    ensures
        Counts::uninit().biased.owner_id is None,
        Counts::uninit().biased.biased_count == 0,
        Counts::uninit().shared.merged,
        !Counts::uninit().shared.queued,
        Counts::uninit().shared.shared_count.count == 0,
        Counts::uninit().dead(),
{
}

} // verus!
