//! One reference-counted object, and what becomes of it.
use crate::header::Counts;
use crate::layout::WEAK_OVERFLOW_THRESHOLD;
use crate::thread_id::ShortThreadId;
use crate::word::SharedWord;
use vstd::prelude::*;

verus! {

/// The references to an object that are around.
///
/// Every reference carries a number that no other one has, which is ghost.
/// Numbers tell apart the references that the counters merely count.
#[verifier::ext_equal]
pub struct Refs {
    /// The strong references.
    pub strong: Set<nat>,
    /// How many strong references were turned into addresses.
    pub raw_strong: nat,
    /// Whether the value was moved out of the object, with the reference that
    /// allowed it still counted.
    pub moved: bool,
    /// The unique owner of an object that is not shared yet.
    pub unique: Option<nat>,
    /// The weak references.
    pub weak: Set<nat>,
    /// How many weak references were turned into addresses.
    pub raw_weak: nat,
}

impl Refs {
    /// No reference at all.
    pub open spec fn none() -> Refs {
        Refs {
            strong: Set::empty(),
            raw_strong: 0,
            moved: false,
            unique: None,
            weak: Set::empty(),
            raw_weak: 0,
        }
    }

    /// The number of strong references that are counted.
    pub open spec fn strong_total(self) -> nat {
        self.strong.len() + self.raw_strong + if self.moved {
            1nat
        } else {
            0
        }
    }

    /// The number of weak references that users hold.
    pub open spec fn weak_total(self) -> nat {
        self.weak.len() + self.raw_weak
    }

    /// The references after the strong reference `id` was turned into an address.
    pub open spec fn strong_to_raw(self, id: nat) -> Refs {
        Refs { strong: self.strong.remove(id), raw_strong: self.raw_strong + 1, ..self }
    }

    /// The references after an address was turned into the strong reference `id`.
    pub open spec fn strong_from_raw(self, id: nat) -> Refs {
        Refs {
            strong: self.strong.insert(id),
            raw_strong: (self.raw_strong - 1) as nat,
            ..self
        }
    }

    /// The references after the weak reference `id` was turned into an address.
    pub open spec fn weak_to_raw(self, id: nat) -> Refs {
        Refs { weak: self.weak.remove(id), raw_weak: self.raw_weak + 1, ..self }
    }

    /// The references after an address was turned into the weak reference `id`.
    pub open spec fn weak_from_raw(self, id: nat) -> Refs {
        Refs { weak: self.weak.insert(id), raw_weak: (self.raw_weak - 1) as nat, ..self }
    }

    /// All numbers are below `next`.
    pub open spec fn below(self, next: nat) -> bool {
        &&& forall|id: nat| #[trigger] self.strong.contains(id) ==> id < next
        &&& forall|id: nat| #[trigger] self.weak.contains(id) ==> id < next
        &&& self.unique matches Some(id) ==> id < next
    }
}

/// What a change takes away from the references to an object.
pub enum Gone {
    Nothing,
    /// A strong reference.
    Strong(nat),
    /// A weak reference.
    Weak(nat),
    /// The unique owner.
    Unique,
    /// A strong reference that was turned into an address.
    RawStrong,
    /// A weak reference that was turned into an address.
    RawWeak,
}

impl Gone {
    /// What is left of `n` strong references that were turned into addresses.
    pub open spec fn raw_strong(self, n: nat) -> int {
        if self is RawStrong {
            n - 1
        } else {
            n as int
        }
    }

    /// What is left of `n` weak references that were turned into addresses.
    pub open spec fn raw_weak(self, n: nat) -> int {
        if self is RawWeak {
            n - 1
        } else {
            n as int
        }
    }
}

/// An object whose memory has not been freed.
#[verifier::ext_equal]
pub struct Obj<T, A> {
    pub counts: Counts,
    pub weak_count: u32,
    pub alloc: A,
    /// The value, while there is one.
    pub value: Option<T>,
    pub refs: Refs,
}

impl<T, A> Obj<T, A> {
    /// The counters count exactly the references that are around, and the value
    /// is there exactly as long as a reference can reach it.
    pub open spec fn wf(self) -> bool {
        &&& self.refs.strong.finite()
        &&& self.refs.weak.finite()
        &&& 1 <= self.weak_count <= WEAK_OVERFLOW_THRESHOLD + 1
        &&& if self.refs.unique is Some {
            self.unique_ok()
        } else {
            self.shared_ok()
        }
    }

    /// An object with a unique owner has no strong reference, and the owner holds
    /// one weak reference.
    pub open spec fn unique_ok(self) -> bool {
        &&& self.counts == Counts::uninit()
        &&& self.refs.strong_total() == 0
        &&& self.refs.strong =~= Set::empty()
        &&& self.weak_count == self.refs.weak_total() + 1
    }

    /// All strong references together hold one weak reference. The value is
    /// there until the last strong reference is gone or it was moved out.
    pub open spec fn shared_ok(self) -> bool {
        &&& self.counts.wf()
        &&& self.counts.strong() == self.refs.strong_total()
        &&& self.refs.moved ==> self.refs.strong_total() == 1 && self.refs.weak_total() == 0
        &&& self.value is Some <==> !self.counts.dead() && !self.refs.moved
        &&& self.weak_count == self.refs.weak_total() + if self.counts.dead() {
            0int
        } else {
            1
        }
    }

    /// A shared object whose owner has not merged the counts yet.
    pub open spec fn biased(self) -> bool {
        self.refs.unique is None && !self.counts.shared.merged
    }

    /// A shared object whose owner has been asked to merge the counts.
    pub open spec fn awaits_merge(self) -> bool {
        self.biased() && self.counts.shared.queued
    }

    /// The index of the thread that owns the counts.
    pub open spec fn owner_index(self) -> int {
        self.counts.biased.owner_id->0.id - 1
    }

    /// Whether one more strong reference can be counted by the thread `this_id`.
    pub open spec fn can_clone(self, this_id: Option<ShortThreadId>) -> bool {
        self.counts.can_count() && (self.counts.increments_biased(this_id)
            || self.can_clone_shared())
    }

    /// Whether one more strong reference can be counted in the shared word.
    pub open spec fn can_clone_shared(self) -> bool {
        self.counts.shared.shared_count.count <= SharedWord::OVERFLOW_THRESHOLD
    }

    /// Whether one more weak reference can be counted.
    pub open spec fn can_downgrade(self) -> bool {
        self.weak_count <= WEAK_OVERFLOW_THRESHOLD
    }

    /// Whether there is a value that strong references can be made to.
    pub open spec fn alive(self) -> bool {
        self.refs.unique is None && !self.counts.dead() && !self.refs.moved
    }

    /// A new object with one strong reference, made by the thread `this_id`.
    pub open spec fn initial(
        this_id: Option<ShortThreadId>,
        value: T,
        alloc: A,
        id: nat,
    ) -> Obj<T, A> {
        Obj {
            counts: Counts::initial(this_id),
            weak_count: 1,
            alloc,
            value: Some(value),
            refs: Refs { strong: set![id], ..Refs::none() },
        }
    }

    /// A new object with a unique owner and no value.
    pub open spec fn reserved(alloc: A, id: nat) -> Obj<T, A> {
        Obj {
            counts: Counts::uninit(),
            weak_count: 1,
            alloc,
            value: None,
            refs: Refs { unique: Some(id), ..Refs::none() },
        }
    }

    /// The object with another value.
    pub open spec fn with_value(self, value: Option<T>) -> Obj<T, A> {
        Obj { value, ..self }
    }

    /// The object after its unique owner, the thread `this_id`, began to share
    /// it. The owner becomes a strong reference.
    pub open spec fn shared(self, this_id: Option<ShortThreadId>, id: nat) -> Obj<T, A> {
        Obj {
            counts: Counts::initial(this_id),
            refs: Refs { unique: None, strong: set![id], ..self.refs },
            ..self
        }
    }

    /// What is left of the object after its unique owner was dropped.
    pub open spec fn unique_dropped(self) -> Option<Obj<T, A>> {
        Obj { refs: Refs { unique: None, ..self.refs }, ..self }.destroyed()
    }

    /// The object after its value was moved out through the strong reference `id`.
    pub open spec fn unwrapped(self, id: nat) -> Obj<T, A> {
        Obj {
            value: None,
            refs: Refs { strong: self.refs.strong.remove(id), moved: true, ..self.refs },
            ..self
        }
    }

    /// The object after the strong reference `id` was turned into an address.
    pub open spec fn strong_to_raw(self, id: nat) -> Obj<T, A> {
        Obj { refs: self.refs.strong_to_raw(id), ..self }
    }

    /// The object after an address was turned into the strong reference `id`.
    pub open spec fn strong_from_raw(self, id: nat) -> Obj<T, A> {
        Obj { refs: self.refs.strong_from_raw(id), ..self }
    }

    /// The object after the weak reference `id` was turned into an address.
    pub open spec fn weak_to_raw(self, id: nat) -> Obj<T, A> {
        Obj { refs: self.refs.weak_to_raw(id), ..self }
    }

    /// The object after an address was turned into the weak reference `id`.
    pub open spec fn weak_from_raw(self, id: nat) -> Obj<T, A> {
        Obj { refs: self.refs.weak_from_raw(id), ..self }
    }

    /// The object after the thread `this_id` took the strong reference `id`.
    pub open spec fn cloned(self, this_id: Option<ShortThreadId>, id: nat) -> Obj<T, A> {
        Obj {
            counts: self.counts.incremented(this_id),
            refs: Refs { strong: self.refs.strong.insert(id), ..self.refs },
            ..self
        }
    }

    /// The object after the strong reference `id` was counted in the shared word.
    pub open spec fn cloned_shared(self, id: nat) -> Obj<T, A> {
        Obj {
            counts: self.counts.shared_incremented(),
            refs: Refs { strong: self.refs.strong.insert(id), ..self.refs },
            ..self
        }
    }

    /// The object after the thread `this_id` released the strong reference `id`,
    /// with nothing done about what follows.
    pub open spec fn released(self, this_id: Option<ShortThreadId>, id: nat) -> Obj<T, A> {
        Obj {
            counts: self.counts.decremented(this_id),
            refs: Refs { strong: self.refs.strong.remove(id), ..self.refs },
            ..self
        }
    }

    /// What is left of the object after one weak reference was released from
    /// the counter: nothing, once the last one is.
    pub open spec fn weak_released(self) -> Option<Obj<T, A>> {
        if self.weak_count == 1 {
            None
        } else {
            Some(Obj { weak_count: (self.weak_count - 1) as u32, ..self })
        }
    }

    /// What is left of the object after its value was dropped and the weak
    /// reference of the strong ones was released.
    pub open spec fn destroyed(self) -> Option<Obj<T, A>> {
        Obj { value: None::<T>, ..self }.weak_released()
    }

    /// What is left of the object after its counts were merged.
    pub open spec fn merged(self) -> Option<Obj<T, A>> {
        let merged = Obj { counts: self.counts.merged(), ..self };
        if merged.counts.dead() {
            merged.destroyed()
        } else {
            Some(merged)
        }
    }

    /// The object after the weak reference `id` was taken.
    pub open spec fn downgraded(self, id: nat) -> Obj<T, A> {
        Obj {
            weak_count: (self.weak_count + 1) as u32,
            refs: Refs { weak: self.refs.weak.insert(id), ..self.refs },
            ..self
        }
    }

    /// What is left of the object after the weak reference `id` was dropped.
    pub open spec fn weak_dropped(self, id: nat) -> Option<Obj<T, A>> {
        Obj {
            refs: Refs { weak: self.refs.weak.remove(id), ..self.refs },
            ..self
        }.weak_released()
    }

    /// Whether `this_id` knows the object to have one strong reference and no
    /// weak one.
    pub open spec fn known_unique(self, this_id: Option<ShortThreadId>) -> bool {
        self.weak_count == 1 && self.counts.precise_for(this_id) && self.counts.strong() == 1
    }

    /// Whether another state of the object is biased towards the same thread, and
    /// waits for it where this one does.
    pub open spec fn same_bias(self, other: Obj<T, A>) -> bool {
        &&& other.biased() == self.biased()
        &&& other.biased() ==> other.counts.biased.owner_id == self.counts.biased.owner_id
        &&& other.awaits_merge() == self.awaits_merge()
    }

    /// Where a strong reference can be cloned, the counters have room for it.
    pub proof fn lemma_can_clone(self, this_id: Option<ShortThreadId>)
        requires
            self.wf(),
        ensures
            self.can_clone(this_id) ==> self.counts.can_increment(this_id),
            self.can_clone_shared() ==> self.counts.can_count() && self.counts.can_increment(None),
    {
    }

    /// A held weak reference keeps the memory from being freed, and the value of
    /// an object that strong references can be made to is there.
    pub proof fn lemma_weak_reaches_counts(self, id: nat)
        requires
            self.wf(),
            self.refs.weak.contains(id),
        ensures
            self.weak_count >= 1,
            !self.refs.moved,
            self.alive() ==> self.value is Some,
            self.alive() <==> !self.counts.dead(),
    {
        lemma_contains_len(self.refs.weak, id);
    }

    /// Taking a weak reference keeps the invariant.
    pub proof fn lemma_downgraded(self, id: nat)
        requires
            self.wf(),
            self.can_downgrade(),
            !self.refs.moved,
            !self.refs.weak.contains(id),
        ensures
            self.downgraded(id).wf(),
            self.same_bias(self.downgraded(id)),
    {
    }

    /// Dropping a weak reference keeps the invariant, and frees the memory only
    /// where no other reference is left.
    pub proof fn lemma_weak_dropped(self, id: nat)
        requires
            self.wf(),
            self.refs.weak.contains(id),
        ensures
            self.weak_dropped(id) matches Some(o) ==> o.wf() && self.same_bias(o),
            self.weak_dropped(id) is None ==> {
                &&& !self.biased()
                &&& self.refs.strong_total() == 0
                &&& self.refs.weak_total() == 1
                &&& self.refs.unique is None
            },
    {
        lemma_contains_len(self.refs.weak, id);
    }

    /// A new object is in order.
    pub proof fn lemma_initial(this_id: Option<ShortThreadId>, value: T, alloc: A, id: nat)
        requires
            this_id matches Some(tid) ==> tid.wf(),
        ensures
            Self::initial(this_id, value, alloc, id).wf(),
    {
        assert(set![id].len() == 1);
    }

    /// Sharing an object keeps the invariant.
    pub proof fn lemma_shared(self, this_id: Option<ShortThreadId>, id: nat)
        requires
            self.wf(),
            self.refs.unique is Some,
            self.value is Some,
            this_id matches Some(tid) ==> tid.wf(),
        ensures
            self.shared(this_id, id).wf(),
            !self.shared(this_id, id).awaits_merge(),
    {
        assert(set![id].len() == 1);
    }

    /// Dropping the unique owner keeps the invariant.
    pub proof fn lemma_unique_dropped(self)
        requires
            self.wf(),
            self.refs.unique is Some,
        ensures
            self.unique_dropped() matches Some(o) ==> o.wf() && !o.biased(),
            self.unique_dropped() is None <==> self.refs.weak_total() == 0,
    {
    }

    /// Moving the value out keeps the invariant.
    pub proof fn lemma_unwrapped(self, this_id: Option<ShortThreadId>, id: nat)
        requires
            self.wf(),
            self.refs.strong.contains(id),
            self.known_unique(this_id),
        ensures
            self.unwrapped(id).wf(),
            self.same_bias(self.unwrapped(id)),
            self.unwrapped(id).refs.strong =~= Set::empty(),
    {
        lemma_contains_len(self.refs.strong, id);
        lemma_contains_len_unique(self.refs.strong, id);
    }

    /// Turning references into addresses and back keeps the invariant.
    pub proof fn lemma_raw(self, id: nat)
        requires
            self.wf(),
        ensures
            self.refs.strong.contains(id) ==> self.strong_to_raw(id).wf() && self.same_bias(
                self.strong_to_raw(id),
            ),
            !self.refs.strong.contains(id) && self.refs.raw_strong >= 1 ==> self.strong_from_raw(
                id,
            ).wf() && self.same_bias(self.strong_from_raw(id)),
            self.refs.weak.contains(id) ==> self.weak_to_raw(id).wf() && self.same_bias(
                self.weak_to_raw(id),
            ),
            !self.refs.weak.contains(id) && self.refs.raw_weak >= 1 ==> self.weak_from_raw(id).wf()
                && self.same_bias(self.weak_from_raw(id)),
    {
        if self.refs.strong.contains(id) {
            lemma_contains_len(self.refs.strong, id);
        }
        if self.refs.weak.contains(id) {
            lemma_contains_len(self.refs.weak, id);
        }
    }

    /// Whether every reference to this object is still one in `later`, but for
    /// what is gone, and reaches the same value and the same allocator.
    pub open spec fn keeps_but(self, later: Option<Obj<T, A>>, gone: Gone) -> bool {
        &&& later matches Some(o) ==> o.alloc == self.alloc
        &&& forall|id: nat| #[trigger]
            self.refs.strong.contains(id) && gone != Gone::Strong(id) ==> later is Some
                && later->0.refs.strong.contains(id) && later->0.value == self.value
        &&& forall|id: nat| #[trigger]
            self.refs.weak.contains(id) && gone != Gone::Weak(id) ==> later is Some
                && later->0.refs.weak.contains(id)
        &&& self.refs.unique is Some && gone != Gone::Unique ==> later is Some
            && later->0.refs.unique == self.refs.unique && later->0.value == self.value
        &&& gone.raw_strong(self.refs.raw_strong) >= 1 ==> later is Some
            && later->0.refs.raw_strong >= gone.raw_strong(self.refs.raw_strong) && later->0.value
            == self.value
        &&& gone.raw_weak(self.refs.raw_weak) >= 1 ==> later is Some && later->0.refs.raw_weak
            >= gone.raw_weak(self.refs.raw_weak)
    }

    /// Releasing a strong reference, and whatever follows from it, takes away no
    /// other reference.
    pub proof fn lemma_released_keeps(self, this_id: Option<ShortThreadId>, id: nat)
        requires
            self.wf(),
            self.refs.strong.contains(id),
        ensures
            self.keeps_but(Some(self.released(this_id, id)), Gone::Strong(id)),
            self.counts.decrement_drops(this_id) ==> self.keeps_but(
                self.released(this_id, id).destroyed(),
                Gone::Strong(id),
            ),
            self.counts.decrement_queues(this_id) ==> self.keeps_but(
                self.released(this_id, id).merged(),
                Gone::Strong(id),
            ),
    {
        self.lemma_strong_reaches_value(id);
        self.lemma_released(this_id, id);
        let released = self.released(this_id, id);
        assert forall|other: nat| #[trigger] self.refs.strong.contains(other) && other
            != id implies released.refs.strong_total() >= 1 by {
            lemma_contains_len(released.refs.strong, other);
        }
        assert forall|other: nat| #[trigger]
            self.refs.weak.contains(other) implies self.refs.weak_total() >= 1 by {
            lemma_contains_len(self.refs.weak, other);
        }
        if self.counts.decrement_queues(this_id) {
            released.lemma_merged();
        }
    }

    /// Merging the counts takes no reference away.
    pub proof fn lemma_merged_keeps(self)
        requires
            self.wf(),
            self.awaits_merge(),
        ensures
            self.keeps_but(self.merged(), Gone::Nothing),
    {
        self.lemma_merged();
        assert forall|other: nat| #[trigger]
            self.refs.strong.contains(other) implies self.refs.strong_total() >= 1 by {
            lemma_contains_len(self.refs.strong, other);
        }
        assert forall|other: nat| #[trigger]
            self.refs.weak.contains(other) implies self.refs.weak_total() >= 1 by {
            lemma_contains_len(self.refs.weak, other);
        }
    }

    /// Dropping the unique owner takes no weak reference away.
    pub proof fn lemma_unique_dropped_keeps(self)
        requires
            self.wf(),
            self.refs.unique is Some,
        ensures
            self.keeps_but(self.unique_dropped(), Gone::Unique),
    {
        self.lemma_unique_dropped();
        assert forall|other: nat| #[trigger]
            self.refs.weak.contains(other) implies self.refs.weak_total() >= 1 by {
            lemma_contains_len(self.refs.weak, other);
        }
    }

    /// Dropping a weak reference takes away no other reference.
    pub proof fn lemma_weak_dropped_keeps(self, id: nat)
        requires
            self.wf(),
            self.refs.weak.contains(id),
        ensures
            self.keeps_but(self.weak_dropped(id), Gone::Weak(id)),
    {
        self.lemma_weak_dropped(id);
        lemma_contains_len(self.refs.weak, id);
        assert forall|other: nat| #[trigger]
            self.refs.strong.contains(other) implies self.refs.strong_total() >= 1 by {
            lemma_contains_len(self.refs.strong, other);
        }
        assert forall|other: nat| #[trigger] self.refs.weak.contains(other) && other
            != id implies self.refs.weak.remove(id).len() >= 1 by {
            lemma_contains_len(self.refs.weak.remove(id), other);
        }
    }

    /// A held strong reference keeps the value alive.
    pub proof fn lemma_strong_reaches_value(self, id: nat)
        requires
            self.wf(),
            self.refs.strong.contains(id),
        ensures
            self.value is Some,
            self.refs.unique is None,
            self.counts.strong() >= 1,
            !self.counts.dead(),
            !self.refs.moved,
    {
        lemma_contains_len(self.refs.strong, id);
    }

    /// Taking a strong reference keeps the invariant.
    pub proof fn lemma_cloned(self, this_id: Option<ShortThreadId>, id: nat)
        requires
            self.wf(),
            self.alive(),
            !self.refs.strong.contains(id),
            self.counts.can_increment(this_id),
        ensures
            self.cloned(this_id, id).wf(),
            self.same_bias(self.cloned(this_id, id)),
    {
    }

    /// Taking a shared strong reference keeps the invariant.
    pub proof fn lemma_cloned_shared(self, id: nat)
        requires
            self.wf(),
            self.alive(),
            !self.refs.strong.contains(id),
            self.counts.can_increment(None),
        ensures
            self.cloned_shared(id).wf(),
            self.same_bias(self.cloned_shared(id)),
    {
    }

    /// Releasing a strong reference keeps the counts right, and what is left to
    /// be done is to drop the value exactly where no reference remains.
    pub proof fn lemma_released(self, this_id: Option<ShortThreadId>, id: nat)
        requires
            self.wf(),
            self.refs.strong.contains(id),
        ensures
            self.counts.decrement_drops(this_id) ==> {
                &&& self.released(this_id, id).refs.strong_total() == 0
                &&& self.released(this_id, id).destroyed() matches Some(o) ==> o.wf()
                    && !o.biased()
            },
            !self.counts.decrement_drops(this_id) ==> {
                &&& self.released(this_id, id).wf()
                &&& self.released(this_id, id).counts.biased.owner_id
                    == self.counts.biased.owner_id || !self.released(this_id, id).biased()
                &&& self.released(this_id, id).biased() ==> self.biased()
                &&& self.counts.decrement_queues(this_id) ==> self.released(
                    this_id,
                    id,
                ).awaits_merge() && !self.awaits_merge()
                &&& !self.counts.decrement_queues(this_id) ==> self.released(
                    this_id,
                    id,
                ).awaits_merge() == self.awaits_merge()
            },
    {
        lemma_contains_len(self.refs.strong, id);
    }

    /// Merging the counts keeps the invariant.
    pub proof fn lemma_merged(self)
        requires
            self.wf(),
            self.awaits_merge(),
        ensures
            self.merged() matches Some(o) ==> o.wf() && !o.biased() && o.refs == self.refs,
            self.merged() is None ==> self.refs.strong_total() == 0 && self.refs.weak_total() == 0,
            self.refs.strong_total() > 0 ==> self.merged() is Some && self.merged()->0.value
                == self.value,
            self.refs.strong_total() == 0 ==> (self.merged() matches Some(o) ==> o.value is None),
    {
    }
}

/// A set with an element is not empty.
pub proof fn lemma_contains_len(s: Set<nat>, id: nat)
    requires
        s.finite(),
        s.contains(id),
    ensures
        s.len() >= 1,
{
    if s.len() == 0 {
        vstd::set_lib::lemma_set_empty_equivalency_len(s);
    }
}

/// A set with one element has no other.
proof fn lemma_contains_len_unique(s: Set<nat>, id: nat)
    requires
        s.finite(),
        s.contains(id),
        s.len() <= 1,
    ensures
        s.remove(id) =~= Set::empty(),
{
    assert(s.remove(id).len() == 0);
    vstd::set_lib::lemma_set_empty_equivalency_len(s.remove(id));
}

} // verus!
