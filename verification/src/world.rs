//! What the objects and the threads are, and what becomes of them.
use crate::heap::{queued, HeapView};
use crate::object::{lemma_contains_len, Gone, Obj};
use crate::thread_id::ShortThreadId;
use crate::threads::{
    lemma_emptied, lemma_ended, lemma_initialised, lemma_pushed, ThreadsView,
};
use vstd::prelude::*;

verus! {

/// What is gone from the object at the address `q`, where `gone` is gone from the
/// one at the address `p`.
pub open spec fn gone_at(q: usize, p: usize, gone: Gone) -> Gone {
    if q == p {
        gone
    } else {
        Gone::Nothing
    }
}

/// All objects and all threads.
pub struct World<T, A> {
    pub heap: HeapView<T, A>,
    pub threads: ThreadsView,
}

impl<T, A> World<T, A> {
    /// The invariant of the whole: the objects and the threads are in order, every
    /// owner is a registered thread, and the queue of a thread holds exactly the
    /// objects that wait for it.
    pub open spec fn wf(self) -> bool {
        &&& self.heap.wf()
        &&& self.threads.wf()
        &&& forall|p: int| #[trigger] self.heap.has(p) ==> self.object_ok(p)
        &&& forall|i: int| 0 <= i < self.threads.infos.len() ==> self.queue_ok(i)
    }

    /// The object at the address `p` is owned by a registered thread, and is queued
    /// there where it waits for its counts to be merged.
    pub open spec fn object_ok(self, p: int) -> bool {
        let object = self.heap.at(p);
        &&& object.biased() ==> 0 <= object.owner_index() < self.threads.infos.len()
        &&& object.awaits_merge() ==> queued(
            self.threads.infos[object.owner_index()].objects(),
            p,
        )
    }

    /// Every object in the queue of the thread at `i` waits for that thread, and
    /// none is queued twice.
    pub open spec fn queue_ok(self, i: int) -> bool {
        let info = #[trigger] self.threads.infos[i];
        self.heap.mergeable(info.objects(), info.short_id)
    }

    /// The identifier of the running thread, if it is registered.
    pub open spec fn this_id(self) -> Option<ShortThreadId> {
        self.threads.this_id()
    }

    /// Whether the running thread is unwinding from a panic.
    pub open spec fn panicking(self) -> bool {
        self.threads.this().panicking
    }

    /// Whether `id` is a strong reference to the object at the address `p`.
    pub open spec fn holds_strong(self, p: usize, id: nat) -> bool {
        self.heap.has(p as int) && self.heap.at(p as int).refs.strong.contains(id)
    }

    /// Whether `id` is a weak reference to the object at the address `p`.
    pub open spec fn holds_weak(self, p: usize, id: nat) -> bool {
        self.heap.has(p as int) && self.heap.at(p as int).refs.weak.contains(id)
    }

    /// Whether `id` is the unique owner of the object at the address `p`.
    pub open spec fn holds_unique(self, p: usize, id: nat) -> bool {
        self.heap.has(p as int) && self.heap.at(p as int).refs.unique == Some(id)
    }

    /// The number of strong references to the object at the address `p` that were
    /// turned into addresses.
    pub open spec fn raw_strong(self, p: usize) -> nat {
        if self.heap.has(p as int) {
            self.heap.at(p as int).refs.raw_strong
        } else {
            0
        }
    }

    /// The number of weak references to the object at the address `p` that were
    /// turned into addresses.
    pub open spec fn raw_weak(self, p: usize) -> nat {
        if self.heap.has(p as int) {
            self.heap.at(p as int).refs.raw_weak
        } else {
            0
        }
    }

    /// The value of the object at the address `p`.
    pub open spec fn value(self, p: usize) -> Option<T> {
        self.heap.at(p as int).value
    }

    /// Whether every reference that there is here is still there in `later`, but
    /// for what is gone from the object at the address `p`. A strong reference or a
    /// unique owner reaches the same value, every object keeps its allocator, and
    /// memory that was freed is not used again.
    pub open spec fn keeps_but(self, later: World<T, A>, p: usize, gone: Gone) -> bool {
        &&& self.heap.objects.len() <= later.heap.objects.len()
        &&& forall|q: usize| #[trigger]
            later.heap.has(q as int) && q < self.heap.objects.len() ==> self.heap.has(q as int)
                && later.heap.at(q as int).alloc == self.heap.at(q as int).alloc
        &&& forall|q: usize, id: nat| #[trigger]
            self.holds_strong(q, id) && !(q == p && gone == Gone::Strong(id))
                ==> later.holds_strong(q, id) && later.value(q) == self.value(q)
        &&& forall|q: usize, id: nat| #[trigger]
            self.holds_weak(q, id) && !(q == p && gone == Gone::Weak(id)) ==> later.holds_weak(
                q,
                id,
            )
        &&& forall|q: usize, id: nat| #[trigger]
            self.holds_unique(q, id) && !(q == p && gone == Gone::Unique) ==> later.holds_unique(
                q,
                id,
            ) && later.value(q) == self.value(q)
        &&& forall|q: usize|
            gone_at(q, p, gone).raw_strong(#[trigger] self.raw_strong(q)) >= 1
                ==> later.raw_strong(q) >= gone_at(q, p, gone).raw_strong(self.raw_strong(q))
                && later.value(q) == self.value(q)
        &&& forall|q: usize|
            gone_at(q, p, gone).raw_weak(#[trigger] self.raw_weak(q)) >= 1 ==> later.raw_weak(q)
                >= gone_at(q, p, gone).raw_weak(self.raw_weak(q))
    }

    /// Whether every reference that there is here is still there in `later`, and
    /// reaches the same value.
    pub open spec fn keeps(self, later: World<T, A>) -> bool {
        self.keeps_but(later, 0, Gone::Nothing)
    }

    /// No object lies at the reserved address.
    pub proof fn lemma_address(self, p: usize)
        requires
            self.wf(),
            self.heap.has(p as int),
        ensures
            p != usize::MAX,
    {
    }

    /// The world with another object at the address `p`.
    pub open spec fn with(self, p: int, object: Option<Obj<T, A>>) -> World<T, A> {
        World { heap: self.heap.with(p, object), ..self }
    }

    /// The world after a value was dropped.
    pub open spec fn discarding(self, value: Option<T>) -> World<T, A> {
        World { heap: self.heap.discarding(value), ..self }
    }

    /// The world after the dropped values were handed out.
    pub open spec fn handed_out(self) -> World<T, A> {
        World { heap: self.heap.handed_out(), ..self }
    }

    /// The world after one more reference was given a number.
    pub open spec fn numbered(self) -> World<T, A> {
        World { heap: self.heap.numbered(), ..self }
    }

    /// The world with one more object.
    pub open spec fn pushed(self, object: Obj<T, A>) -> World<T, A> {
        World { heap: self.heap.pushed(object), ..self }
    }

    /// The world after the running thread made sure that its state is initialised.
    pub open spec fn initialised(self) -> World<T, A> {
        World { threads: self.threads.initialised(), ..self }
    }

    /// The world after the running thread has looked for its identifier, which it
    /// gets on first use.
    pub open spec fn identified(self) -> World<T, A> {
        World { threads: self.threads.identified(), ..self }
    }

    /// The world after the running thread merged the counts of all objects that
    /// wait for it.
    pub open spec fn processed(self) -> World<T, A> {
        World {
            heap: self.heap.merged(self.threads.own_queue()),
            threads: self.threads.initialised().emptied(),
        }
    }

    /// The world after the running thread did its cleanup, which it leaves alone
    /// while it is unwinding.
    pub open spec fn collected(self) -> World<T, A> {
        if self.panicking() {
            self.initialised()
        } else {
            self.processed()
        }
    }

    /// The world after the running thread has ended.
    pub open spec fn ended(self) -> World<T, A> {
        World {
            heap: self.heap.merged(self.threads.own_queue()),
            threads: self.threads.ended(),
        }
    }

    /// The world after the object at the address `p` was handed to the thread at
    /// `i` for its counts to be merged: a thread that has ended cannot do so, and
    /// need not, because it no longer counts.
    pub open spec fn handed(self, i: int, p: usize) -> World<T, A> {
        if self.threads.infos[i].queue is Some {
            World { threads: self.threads.pushed(i, p), ..self }
        } else {
            World { heap: self.heap.merged_at(p as int), ..self }
        }
    }

    /// The world after the strong reference `id` to the object at the address `p`
    /// was released, with the value not dropped yet.
    pub open spec fn decremented(self, p: usize, id: nat) -> World<T, A> {
        let object = self.heap.at(p as int);
        let released = self.with(p as int, Some(object.released(self.this_id(), id)));
        if object.counts.decrement_queues(self.this_id()) {
            released.handed(object.owner_index(), p)
        } else {
            released
        }
    }

    /// The world after the strong reference `id` to the object at the address `p`
    /// was dropped.
    pub open spec fn dropped(self, p: usize, id: nat) -> World<T, A> {
        let object = self.heap.at(p as int);
        if object.counts.decrement_drops(self.this_id()) {
            self.with(
                p as int,
                object.released(self.this_id(), id).destroyed(),
            ).discarding(object.value)
        } else {
            self.decremented(p, id)
        }
    }

    /// The world with one more object, which holds `value` and has one strong
    /// reference.
    pub open spec fn allocated(self, value: T, alloc: A) -> World<T, A> {
        let w = self.identified();
        w.numbered().pushed(Obj::initial(w.this_id(), value, alloc, w.heap.next))
    }

    /// The world with one more object, which has a unique owner and no value.
    pub open spec fn reserved(self, alloc: A) -> World<T, A> {
        self.numbered().pushed(Obj::reserved(alloc, self.heap.next))
    }

    /// The world after the unique owner `id` of the object at the address `p`
    /// began to share it.
    pub open spec fn shared(self, p: usize, id: nat) -> World<T, A> {
        let w = self.identified();
        w.with(p as int, Some(w.heap.at(p as int).shared(w.this_id(), id)))
    }

    /// The world after one more strong reference to the object at the address `p`
    /// was taken.
    pub open spec fn cloned(self, p: usize) -> World<T, A> {
        let object = self.heap.at(p as int);
        self.numbered().with(p as int, Some(object.cloned(self.this_id(), self.heap.next)))
    }

    /// The world after one more strong reference to the object at the address `p`
    /// was taken and counted in the shared word.
    pub open spec fn cloned_shared(self, p: usize) -> World<T, A> {
        let object = self.heap.at(p as int);
        self.numbered().with(p as int, Some(object.cloned_shared(self.heap.next)))
    }

    /// The world after one more weak reference to the object at the address `p`
    /// was taken.
    pub open spec fn downgraded(self, p: usize) -> World<T, A> {
        let object = self.heap.at(p as int);
        self.numbered().with(p as int, Some(object.downgraded(self.heap.next)))
    }

    /// The world after the weak reference `id` to the object at the address `p` was
    /// dropped.
    pub open spec fn weak_dropped(self, p: usize, id: nat) -> World<T, A> {
        self.with(p as int, self.heap.at(p as int).weak_dropped(id))
    }

    /// The world after the unique owner of the object at the address `p` was
    /// dropped.
    pub open spec fn unique_dropped(self, p: usize) -> World<T, A> {
        self.with(p as int, self.heap.at(p as int).unique_dropped())
    }

    /// The world after the object at the address `p` got another value.
    pub open spec fn written(self, p: usize, value: Option<T>) -> World<T, A> {
        self.with(p as int, Some(self.heap.at(p as int).with_value(value)))
    }

    /// The world after the value of the object at the address `p` was moved out
    /// through the strong reference `id`.
    pub open spec fn unwrapped(self, p: usize, id: nat) -> World<T, A> {
        self.with(p as int, Some(self.heap.at(p as int).unwrapped(id)))
    }

    /// The world after the strong reference `id` to the object at the address `p`
    /// was turned into an address.
    pub open spec fn strong_to_raw(self, p: usize, id: nat) -> World<T, A> {
        self.with(p as int, Some(self.heap.at(p as int).strong_to_raw(id)))
    }

    /// The world after the address `p` was turned into a strong reference.
    pub open spec fn strong_from_raw(self, p: usize) -> World<T, A> {
        let object = self.heap.at(p as int);
        self.numbered().with(p as int, Some(object.strong_from_raw(self.heap.next)))
    }

    /// The world after the weak reference `id` to the object at the address `p`
    /// was turned into an address.
    pub open spec fn weak_to_raw(self, p: usize, id: nat) -> World<T, A> {
        self.with(p as int, Some(self.heap.at(p as int).weak_to_raw(id)))
    }

    /// The world after the address `p` was turned into a weak reference.
    pub open spec fn weak_from_raw(self, p: usize) -> World<T, A> {
        let object = self.heap.at(p as int);
        self.numbered().with(p as int, Some(object.weak_from_raw(self.heap.next)))
    }
}

/// Threads with the same shared state serve the same objects.
pub proof fn lemma_same_infos<T, A>(before: World<T, A>, after: World<T, A>)
    requires
        before.wf(),
        after.heap == before.heap,
        after.threads.wf(),
        after.threads.infos == before.threads.infos,
    ensures
        after.wf(),
{
    assert forall|p: int| #[trigger] after.heap.has(p) implies after.object_ok(p) by {
        assert(before.object_ok(p));
    }
    assert forall|i: int| 0 <= i < after.threads.infos.len() implies after.queue_ok(i) by {
        assert(before.queue_ok(i));
    }
}

/// Which values were dropped matters to no object.
pub proof fn lemma_same_objects<T, A>(before: World<T, A>, after: World<T, A>)
    requires
        before.wf(),
        after.heap.objects == before.heap.objects,
        after.heap.next == before.heap.next,
        after.threads == before.threads,
    ensures
        after.wf(),
{
    assert forall|p: int| #[trigger] after.heap.has(p) implies after.heap.at(p).wf()
        && after.heap.at(p).refs.below(after.heap.next) && after.object_ok(p) by {
        assert(before.heap.has(p));
        assert(before.object_ok(p));
    }
    assert forall|i: int| 0 <= i < after.threads.infos.len() implies after.queue_ok(i) by {
        assert(before.queue_ok(i));
        let objects = after.threads.infos[i].objects();
        assert forall|j: int| 0 <= j < objects.len() implies after.heap.has(
            #[trigger] objects[j] as int,
        ) by {
            assert(before.heap.has(objects[j] as int));
        }
    }
}

/// Handing out the dropped values keeps every reference that was kept.
pub proof fn lemma_handed_out_keeps<T, A>(
    w: World<T, A>,
    later: World<T, A>,
    p: usize,
    gone: Gone,
)
    requires
        w.keeps_but(later, p, gone),
    ensures
        w.keeps_but(later.handed_out(), p, gone),
{
    let after = later.handed_out();
    assert forall|q: usize, id: nat| #[trigger]
        w.holds_strong(q, id) && !(q == p && gone == Gone::Strong(id)) implies after.holds_strong(
        q,
        id,
    ) && after.value(q) == w.value(q) by {
        assert(later.holds_strong(q, id));
    }
    assert forall|q: usize, id: nat| #[trigger]
        w.holds_weak(q, id) && !(q == p && gone == Gone::Weak(id)) implies after.holds_weak(
        q,
        id,
    ) by {
        assert(later.holds_weak(q, id));
    }
    assert forall|q: usize, id: nat| #[trigger]
        w.holds_unique(q, id) && !(q == p && gone == Gone::Unique) implies after.holds_unique(
        q,
        id,
    ) && after.value(q) == w.value(q) by {
        assert(later.holds_unique(q, id));
    }
    assert forall|q: usize| #[trigger]
        after.heap.has(q as int) && q < w.heap.objects.len() implies w.heap.has(q as int)
        && after.heap.at(q as int).alloc == w.heap.at(q as int).alloc by {
        assert(later.heap.has(q as int));
    }
}

/// Initialising the running thread keeps the invariant.
pub proof fn lemma_world_initialised<T, A>(w: World<T, A>)
    requires
        w.wf(),
    ensures
        w.initialised().wf(),
{
    let r = w.initialised();
    lemma_initialised(w.threads);
    assert forall|p: int| #[trigger] r.heap.has(p) implies r.object_ok(p) by {
        assert(w.object_ok(p));
    }
    assert forall|i: int| 0 <= i < r.threads.infos.len() implies r.queue_ok(i) by {
        if i < w.threads.infos.len() {
            assert(w.queue_ok(i));
        }
    }
}

/// Merging the counts of all objects in a queue leaves every other object as it
/// is, and keeps the invariant of the objects.
pub proof fn lemma_heap_merged<T, A>(h: HeapView<T, A>, queue: Seq<usize>, owner: ShortThreadId)
    requires
        h.wf(),
        h.mergeable(queue, owner),
    ensures
        h.merged(queue).wf(),
        forall|p: int| #[trigger]
            h.merged(queue).has(p) ==> h.has(p) && if queued(queue, p) {
                !h.merged(queue).at(p).biased()
            } else {
                h.merged(queue).at(p) == h.at(p)
            },
        forall|p: int| #[trigger]
            h.has(p) && !queued(queue, p) ==> h.merged(queue).has(p),
{
    let m = h.merged(queue);
    assert forall|p: int| #[trigger] m.has(p) implies h.has(p) && m.at(p).wf() && m.at(
        p,
    ).refs.below(m.next) && if queued(queue, p) {
        !m.at(p).biased()
    } else {
        m.at(p) == h.at(p)
    } by {
        assert(h.has(p));
        if queued(queue, p) {
            let j = choose|j: int| 0 <= j < queue.len() && #[trigger] queue[j] == p;
            assert(h.at(queue[j] as int).awaits_merge());
            h.at(p).lemma_merged();
        }
    }
}

/// An empty queue changes nothing.
pub proof fn lemma_heap_merged_nothing<T, A>(h: HeapView<T, A>)
    ensures
        h.merged(Seq::empty()) == h,
{
    assert(h.merged(Seq::empty()).objects =~= h.objects);
    assert(h.merged(Seq::empty()).discarded =~= h.discarded);
}

/// Processing the queue of the running thread keeps the invariant.
pub proof fn lemma_world_processed<T, A>(w: World<T, A>)
    requires
        w.wf(),
    ensures
        w.processed().wf(),
{
    let v = w.initialised();
    lemma_world_initialised(w);
    lemma_initialised(w.threads);
    assert(v.threads.local_ok(v.threads.current));
    match v.threads.this().state() {
        Some(state) => {
            let i = state.shared_info as int;
            assert(v.threads.info_ok(i));
            assert(v.queue_ok(i));
            lemma_heap_merged(v.heap, v.threads.own_queue(), state.short_id);
            lemma_emptied(v.threads);
            lemma_queue_gone(v, i, w.processed());
        },
        None => {
            lemma_heap_merged_nothing(w.heap);
        },
    }
}

/// Collecting keeps the invariant.
pub proof fn lemma_world_collected<T, A>(w: World<T, A>)
    requires
        w.wf(),
    ensures
        w.collected().wf(),
{
    lemma_world_initialised(w);
    lemma_world_processed(w);
}

/// The end of the running thread keeps the invariant.
pub proof fn lemma_world_ended<T, A>(w: World<T, A>)
    requires
        w.wf(),
    ensures
        w.ended().wf(),
{
    lemma_ended(w.threads);
    assert(w.threads.local_ok(w.threads.current));
    match w.threads.this().state() {
        Some(state) => {
            lemma_queue_gone(w, state.shared_info as int, w.ended());
        },
        None => {
            lemma_heap_merged_nothing(w.heap);
            lemma_same_infos(w, w.ended());
        },
    }
}

/// Once the counts of all objects in the queue of the thread at `i` were merged
/// and the queue was emptied or given up, everything is in order.
pub proof fn lemma_queue_gone<T, A>(before: World<T, A>, i: int, after: World<T, A>)
    requires
        before.wf(),
        0 <= i < before.threads.infos.len(),
        after.threads.wf(),
        after.heap == before.heap.merged(before.threads.infos[i].objects()),
        after.threads.infos.len() == before.threads.infos.len(),
        after.threads.infos[i].objects() == Seq::<usize>::empty(),
        forall|k: int|
            0 <= k < before.threads.infos.len() && k != i ==> #[trigger] after.threads.infos[k]
                == before.threads.infos[k],
    ensures
        after.wf(),
{
    let queue = before.threads.infos[i].objects();
    assert(before.queue_ok(i));
    assert(before.threads.info_ok(i));
    lemma_heap_merged(before.heap, queue, before.threads.infos[i].short_id);
    assert forall|p: int| #[trigger] after.heap.has(p) implies after.object_ok(p) by {
        assert(before.heap.has(p));
        assert(before.object_ok(p));
        if !queued(queue, p) && after.heap.at(p).awaits_merge() {
            assert(before.heap.at(p).awaits_merge());
            assert(before.heap.at(p).owner_index() != i);
        }
    }
    assert forall|k: int| 0 <= k < after.threads.infos.len() implies after.queue_ok(k) by {
        if k != i {
            assert(before.queue_ok(k));
            let info = after.threads.infos[k];
            assert(info == before.threads.infos[k]);
            assert forall|j: int| 0 <= j < info.objects().len() implies {
                &&& after.heap.has(#[trigger] info.objects()[j] as int)
                &&& after.heap.at(info.objects()[j] as int) == before.heap.at(
                    info.objects()[j] as int,
                )
            } by {
                let p = info.objects()[j] as int;
                assert(before.heap.has(p));
                if queued(queue, p) {
                    let l = choose|l: int| 0 <= l < queue.len() && #[trigger] queue[l] == p;
                    assert(before.heap.at(queue[l] as int).counts.biased.owner_id == Some(
                        before.threads.infos[i].short_id,
                    ));
                    assert(before.threads.info_ok(k));
                    assert(false);
                }
            }
        }
    }
}

/// Dropping a strong reference keeps the invariant.
pub proof fn lemma_world_dropped<T, A>(w: World<T, A>, p: usize, id: nat)
    requires
        w.wf(),
        w.holds_strong(p, id),
    ensures
        w.dropped(p, id).wf(),
{
    let this_id = w.this_id();
    let object = w.heap.at(p as int);
    let released = object.released(this_id, id);
    object.lemma_strong_reaches_value(id);
    object.lemma_released(this_id, id);
    assert(w.object_ok(p as int));
    if object.counts.decrement_drops(this_id) {
        lemma_world_replaced(w, p as int, released.destroyed());
        lemma_same_objects(w.with(p as int, released.destroyed()), w.dropped(p, id));
    } else if object.counts.decrement_queues(this_id) {
        let i = object.owner_index();
        assert(w.threads.info_ok(i));
        if w.threads.infos[i].queue is Some {
            lemma_pushed(w.threads, i, p);
            lemma_world_pushed(w, i, p, released);
        } else {
            released.lemma_merged();
            lemma_world_replaced(w, p as int, released.merged());
            assert(w.dropped(p, id).heap.objects =~= w.with(
                p as int,
                released.merged(),
            ).heap.objects);
            lemma_same_objects(w.with(p as int, released.merged()), w.dropped(p, id));
        }
    } else {
        lemma_world_replaced(w, p as int, Some(released));
    }
}

/// Giving a number to one more reference keeps the invariant.
pub proof fn lemma_world_numbered<T, A>(w: World<T, A>)
    requires
        w.wf(),
    ensures
        w.numbered().wf(),
{
    let r = w.numbered();
    assert forall|q: int| #[trigger] r.heap.has(q) implies r.heap.at(q).wf() && r.heap.at(
        q,
    ).refs.below(r.heap.next) && r.object_ok(q) by {
        assert(w.heap.has(q));
        assert(w.object_ok(q));
    }
    assert forall|i: int| 0 <= i < r.threads.infos.len() implies r.queue_ok(i) by {
        assert(w.queue_ok(i));
        let objects = r.threads.infos[i].objects();
        assert forall|j: int| 0 <= j < objects.len() implies r.heap.has(
            #[trigger] objects[j] as int,
        ) by {
            assert(w.heap.has(objects[j] as int));
        }
    }
}

/// One more object that waits for no thread keeps the invariant.
pub proof fn lemma_world_pushed_object<T, A>(w: World<T, A>, object: Obj<T, A>)
    requires
        w.wf(),
        w.heap.has_room(),
        object.wf(),
        object.refs.below(w.heap.next),
        object.biased() ==> 0 <= object.owner_index() < w.threads.infos.len(),
        !object.awaits_merge(),
    ensures
        w.pushed(object).wf(),
{
    let r = w.pushed(object);
    assert forall|q: int| #[trigger] r.heap.has(q) implies r.heap.at(q).wf() && r.heap.at(
        q,
    ).refs.below(r.heap.next) && r.object_ok(q) by {
        if q < w.heap.objects.len() {
            assert(w.heap.has(q));
            assert(w.object_ok(q));
        }
    }
    assert forall|i: int| 0 <= i < r.threads.infos.len() implies r.queue_ok(i) by {
        assert(w.queue_ok(i));
        let objects = r.threads.infos[i].objects();
        assert forall|j: int| 0 <= j < objects.len() implies {
            &&& r.heap.has(#[trigger] objects[j] as int)
            &&& r.heap.at(objects[j] as int) == w.heap.at(objects[j] as int)
        } by {
            assert(w.heap.has(objects[j] as int));
        }
    }
}

/// Replacing an object by one that waits for a merge exactly where it did keeps
/// the invariant.
pub proof fn lemma_world_replaced<T, A>(w: World<T, A>, p: int, object: Option<Obj<T, A>>)
    requires
        w.wf(),
        w.heap.has(p),
        object matches Some(o) ==> {
            &&& o.wf()
            &&& o.refs.below(w.heap.next)
            &&& o.biased() ==> 0 <= o.owner_index() < w.threads.infos.len()
            &&& o.awaits_merge() ==> o.counts.biased.owner_id == w.heap.at(
                p,
            ).counts.biased.owner_id
            &&& o.awaits_merge() == w.heap.at(p).awaits_merge()
        },
        object is None ==> !w.heap.at(p).awaits_merge(),
    ensures
        w.with(p, object).wf(),
{
    let r = w.with(p, object);
    assert(w.object_ok(p));
    assert forall|q: int| #[trigger] r.heap.has(q) implies r.heap.at(q).wf() && r.heap.at(
        q,
    ).refs.below(r.heap.next) && r.object_ok(q) by {
        if q != p {
            assert(w.heap.has(q));
            assert(w.object_ok(q));
        }
    }
    assert forall|i: int| 0 <= i < r.threads.infos.len() implies r.queue_ok(i) by {
        assert(w.queue_ok(i));
        let objects = r.threads.infos[i].objects();
        assert forall|j: int| 0 <= j < objects.len() implies {
            &&& r.heap.has(#[trigger] objects[j] as int)
            &&& r.heap.at(objects[j] as int).awaits_merge()
            &&& r.heap.at(objects[j] as int).counts.biased.owner_id == Some(
                r.threads.infos[i].short_id,
            )
        } by {
            assert(w.heap.has(objects[j] as int));
            assert(w.heap.at(objects[j] as int).awaits_merge());
        }
    }
}

/// Replacing an object by another state of it with the same bias, and with
/// references that have their numbers, keeps the invariant.
pub proof fn lemma_world_updated<T, A>(w: World<T, A>, p: int, object: Obj<T, A>)
    requires
        w.wf(),
        w.heap.has(p),
        object.wf(),
        object.refs.below(w.heap.next),
        w.heap.at(p).same_bias(object),
    ensures
        w.with(p, Some(object)).wf(),
{
    assert(w.object_ok(p));
    lemma_world_replaced(w, p, Some(object));
}

/// Replacing an object by one that now waits for a merge, and queuing it, keeps
/// the invariant.
proof fn lemma_world_pushed<T, A>(w: World<T, A>, i: int, p: usize, object: Obj<T, A>)
    requires
        w.wf(),
        w.heap.has(p as int),
        0 <= i < w.threads.infos.len(),
        w.threads.infos[i].queue is Some,
        w.threads.pushed(i, p).wf(),
        object.wf(),
        object.refs.below(w.heap.next),
        object.awaits_merge(),
        object.counts.biased.owner_id == Some(w.threads.infos[i].short_id),
        !w.heap.at(p as int).awaits_merge(),
    ensures
        w.with(p as int, Some(object)).handed(i, p).wf(),
{
    let r = w.with(p as int, Some(object)).handed(i, p);
    let old_queue = w.threads.infos[i].objects();
    let new_queue = old_queue.push(p);
    assert(w.threads.info_ok(i));
    assert forall|q: int| #[trigger] r.heap.has(q) implies r.heap.at(q).wf() && r.heap.at(
        q,
    ).refs.below(r.heap.next) && r.object_ok(q) by {
        if q != p {
            assert(w.heap.has(q));
            assert(w.object_ok(q));
            if queued(old_queue, q) {
                let j = choose|j: int| 0 <= j < old_queue.len() && #[trigger] old_queue[j] == q;
                assert(new_queue[j] == q);
            }
        } else {
            assert(new_queue[old_queue.len() as int] == p);
            assert(queued(new_queue, p as int));
        }
    }
    assert forall|k: int| 0 <= k < r.threads.infos.len() implies r.queue_ok(k) by {
        assert(w.queue_ok(k));
        let before = w.threads.infos[k].objects();
        assert forall|j: int| 0 <= j < before.len() implies {
            &&& #[trigger] before[j] != p
            &&& r.heap.has(before[j] as int)
            &&& r.heap.at(before[j] as int) == w.heap.at(before[j] as int)
        } by {
            assert(w.heap.at(before[j] as int).awaits_merge());
        }
        let after = r.threads.infos[k].objects();
        if k == i {
            assert(after =~= new_queue);
            assert(new_queue.no_duplicates());
        }
    }
}

/// One more object with a strong reference keeps the invariant.
pub proof fn lemma_world_allocated<T, A>(w: World<T, A>, value: T, alloc: A)
    requires
        w.wf(),
        w.heap.has_room(),
    ensures
        w.allocated(value, alloc).wf(),
        w.allocated(value, alloc).holds_strong(w.heap.objects.len() as usize, w.heap.next),
        w.allocated(value, alloc).value(w.heap.objects.len() as usize) == Some(value),
{
    let v = w.identified();
    lemma_world_initialised(w);
    lemma_world_numbered(v);
    assert(v.threads.local_ok(v.threads.current));
    Obj::<T, A>::lemma_initial(v.this_id(), value, alloc, v.heap.next);
    lemma_world_pushed_object(
        v.numbered(),
        Obj::initial(v.this_id(), value, alloc, v.heap.next),
    );
}

/// One more object with a unique owner keeps the invariant.
pub proof fn lemma_world_reserved<T, A>(w: World<T, A>, alloc: A)
    requires
        w.wf(),
        w.heap.has_room(),
    ensures
        w.reserved(alloc).wf(),
        w.reserved(alloc).holds_unique(w.heap.objects.len() as usize, w.heap.next),
{
    lemma_world_numbered(w);
    lemma_world_pushed_object(w.numbered(), Obj::<T, A>::reserved(alloc, w.heap.next));
}

/// Sharing an object keeps the invariant.
pub proof fn lemma_world_shared<T, A>(w: World<T, A>, p: usize, id: nat)
    requires
        w.wf(),
        w.holds_unique(p, id),
        w.value(p) is Some,
    ensures
        w.shared(p, id).wf(),
        w.shared(p, id).holds_strong(p, id),
{
    let v = w.identified();
    lemma_world_initialised(w);
    assert(v.threads.local_ok(v.threads.current));
    let object = v.heap.at(p as int);
    assert(v.heap.has(p as int));
    object.lemma_shared(v.this_id(), id);
    lemma_world_replaced(v, p as int, Some(object.shared(v.this_id(), id)));
}

/// Taking a strong reference keeps the invariant.
pub proof fn lemma_world_cloned<T, A>(w: World<T, A>, p: usize)
    requires
        w.wf(),
        w.heap.has(p as int),
        w.heap.at(p as int).alive(),
    ensures
        w.heap.at(p as int).counts.can_increment(w.this_id()) ==> w.cloned(p).wf(),
        w.cloned(p).holds_strong(p, w.heap.next),
        w.heap.at(p as int).counts.can_increment(None) ==> w.cloned_shared(p).wf(),
        w.cloned_shared(p).holds_strong(p, w.heap.next),
{
    let object = w.heap.at(p as int);
    let id = w.heap.next;
    lemma_world_numbered(w);
    assert(w.numbered().heap.has(p as int));
    if object.counts.can_increment(w.this_id()) {
        object.lemma_cloned(w.this_id(), id);
        lemma_world_updated(w.numbered(), p as int, object.cloned(w.this_id(), id));
    }
    if object.counts.can_increment(None) {
        object.lemma_cloned_shared(id);
        lemma_world_updated(w.numbered(), p as int, object.cloned_shared(id));
    }
}

/// Taking a weak reference keeps the invariant.
pub proof fn lemma_world_downgraded<T, A>(w: World<T, A>, p: usize)
    requires
        w.wf(),
        w.heap.has(p as int),
        w.heap.at(p as int).can_downgrade(),
        !w.heap.at(p as int).refs.moved,
    ensures
        w.downgraded(p).wf(),
        w.downgraded(p).holds_weak(p, w.heap.next),
{
    let object = w.heap.at(p as int);
    lemma_world_numbered(w);
    assert(w.numbered().heap.has(p as int));
    object.lemma_downgraded(w.heap.next);
    lemma_world_updated(w.numbered(), p as int, object.downgraded(w.heap.next));
}

/// Dropping a weak reference keeps the invariant.
pub proof fn lemma_world_weak_dropped<T, A>(w: World<T, A>, p: usize, id: nat)
    requires
        w.wf(),
        w.holds_weak(p, id),
    ensures
        w.weak_dropped(p, id).wf(),
{
    let object = w.heap.at(p as int);
    assert(w.object_ok(p as int));
    object.lemma_weak_dropped(id);
    lemma_world_replaced(w, p as int, object.weak_dropped(id));
}

/// Dropping a unique owner keeps the invariant.
pub proof fn lemma_world_unique_dropped<T, A>(w: World<T, A>, p: usize, id: nat)
    requires
        w.wf(),
        w.holds_unique(p, id),
    ensures
        w.unique_dropped(p).wf(),
{
    let object = w.heap.at(p as int);
    object.lemma_unique_dropped();
    lemma_world_replaced(w, p as int, object.unique_dropped());
}

/// Replacing the value of an object that has one, or whose owner is unique, keeps
/// the invariant.
pub proof fn lemma_world_written<T, A>(w: World<T, A>, p: usize, value: Option<T>)
    requires
        w.wf(),
        w.heap.has(p as int),
        w.heap.at(p as int).refs.unique is Some || w.value(p) is Some && value is Some,
    ensures
        w.written(p, value).wf(),
{
    lemma_world_updated(w, p as int, w.heap.at(p as int).with_value(value));
}

/// Moving a value out keeps the invariant.
pub proof fn lemma_world_unwrapped<T, A>(w: World<T, A>, p: usize, id: nat)
    requires
        w.wf(),
        w.holds_strong(p, id),
        w.heap.at(p as int).known_unique(w.this_id()),
    ensures
        w.unwrapped(p, id).wf(),
{
    let object = w.heap.at(p as int);
    object.lemma_unwrapped(w.this_id(), id);
    lemma_world_updated(w, p as int, object.unwrapped(id));
}

/// Turning references into addresses and back keeps the invariant.
pub proof fn lemma_world_raw<T, A>(w: World<T, A>, p: usize, id: nat)
    requires
        w.wf(),
        w.heap.has(p as int),
    ensures
        w.holds_strong(p, id) ==> w.strong_to_raw(p, id).wf(),
        w.holds_weak(p, id) ==> w.weak_to_raw(p, id).wf(),
        w.raw_strong(p) >= 1 ==> w.strong_from_raw(p).wf() && w.strong_from_raw(p).holds_strong(
            p,
            w.heap.next,
        ),
        w.raw_weak(p) >= 1 ==> w.weak_from_raw(p).wf() && w.weak_from_raw(p).holds_weak(
            p,
            w.heap.next,
        ),
{
    let object = w.heap.at(p as int);
    let next = w.heap.next;
    object.lemma_raw(id);
    object.lemma_raw(next);
    lemma_world_numbered(w);
    assert(w.numbered().heap.has(p as int));
    if w.holds_strong(p, id) {
        lemma_world_updated(w, p as int, object.strong_to_raw(id));
    }
    if w.holds_weak(p, id) {
        lemma_world_updated(w, p as int, object.weak_to_raw(id));
    }
    if w.raw_strong(p) >= 1 {
        lemma_world_updated(w.numbered(), p as int, object.strong_from_raw(next));
    }
    if w.raw_weak(p) >= 1 {
        lemma_world_updated(w.numbered(), p as int, object.weak_from_raw(next));
    }
}

/// A change that keeps the references to every object keeps all references.
pub proof fn lemma_objects_keep<T, A>(w: World<T, A>, later: World<T, A>, p: usize, gone: Gone)
    requires
        later.heap.objects.len() >= w.heap.objects.len(),
        forall|q: usize| #[trigger]
            w.heap.has(q as int) ==> w.heap.at(q as int).keeps_but(
                later.heap.objects[q as int],
                gone_at(q, p, gone),
            ),
        forall|q: usize| #[trigger]
            later.heap.has(q as int) && q < w.heap.objects.len() ==> w.heap.has(q as int),
    ensures
        w.keeps_but(later, p, gone),
{
    assert forall|q: usize, id: nat| #[trigger]
        w.holds_strong(q, id) && !(q == p && gone == Gone::Strong(id)) implies later.holds_strong(
        q,
        id,
    ) && later.value(q) == w.value(q) by {
        assert(w.heap.has(q as int));
    }
    assert forall|q: usize, id: nat| #[trigger]
        w.holds_weak(q, id) && !(q == p && gone == Gone::Weak(id)) implies later.holds_weak(
        q,
        id,
    ) by {
        assert(w.heap.has(q as int));
    }
    assert forall|q: usize, id: nat| #[trigger]
        w.holds_unique(q, id) && !(q == p && gone == Gone::Unique) implies later.holds_unique(
        q,
        id,
    ) && later.value(q) == w.value(q) by {
        assert(w.heap.has(q as int));
    }
    assert forall|q: usize|
        gone_at(q, p, gone).raw_strong(#[trigger] w.raw_strong(q)) >= 1 implies later.raw_strong(q)
        >= gone_at(q, p, gone).raw_strong(w.raw_strong(q)) && later.value(q) == w.value(q) by {
        assert(w.heap.has(q as int));
    }
    assert forall|q: usize|
        gone_at(q, p, gone).raw_weak(#[trigger] w.raw_weak(q)) >= 1 implies later.raw_weak(q)
        >= gone_at(q, p, gone).raw_weak(w.raw_weak(q)) by {
        assert(w.heap.has(q as int));
    }
}

/// First one change and then another keep what both of them keep.
pub proof fn lemma_keeps_both<T, A>(
    w: World<T, A>,
    middle: World<T, A>,
    later: World<T, A>,
    p: usize,
    gone: Gone,
)
    requires
        w.keeps(middle),
        middle.keeps_but(later, p, gone),
    ensures
        w.keeps_but(later, p, gone),
{
    assert forall|q: usize, id: nat| #[trigger]
        w.holds_strong(q, id) && !(q == p && gone == Gone::Strong(id)) implies later.holds_strong(
        q,
        id,
    ) && later.value(q) == w.value(q) by {
        assert(middle.holds_strong(q, id));
    }
    assert forall|q: usize, id: nat| #[trigger]
        w.holds_weak(q, id) && !(q == p && gone == Gone::Weak(id)) implies later.holds_weak(
        q,
        id,
    ) by {
        assert(middle.holds_weak(q, id));
    }
    assert forall|q: usize, id: nat| #[trigger]
        w.holds_unique(q, id) && !(q == p && gone == Gone::Unique) implies later.holds_unique(
        q,
        id,
    ) && later.value(q) == w.value(q) by {
        assert(middle.holds_unique(q, id));
    }
    assert forall|q: usize|
        gone_at(q, p, gone).raw_strong(#[trigger] w.raw_strong(q)) >= 1 implies later.raw_strong(q)
        >= gone_at(q, p, gone).raw_strong(w.raw_strong(q)) && later.value(q) == w.value(q) by {
        assert(gone_at(q, 0, Gone::Nothing).raw_strong(w.raw_strong(q)) >= 1);
        assert(middle.raw_strong(q) >= w.raw_strong(q));
    }
    assert forall|q: usize|
        gone_at(q, p, gone).raw_weak(#[trigger] w.raw_weak(q)) >= 1 implies later.raw_weak(q)
        >= gone_at(q, p, gone).raw_weak(w.raw_weak(q)) by {
        assert(gone_at(q, 0, Gone::Nothing).raw_weak(w.raw_weak(q)) >= 1);
        assert(middle.raw_weak(q) >= w.raw_weak(q));
    }
}

/// Merging the counts of objects takes no reference away.
pub proof fn lemma_merged_keeps<T, A>(w: World<T, A>, later: World<T, A>, i: int)
    requires
        w.wf(),
        0 <= i < w.threads.infos.len(),
        later.heap == w.heap.merged(w.threads.infos[i].objects()),
    ensures
        w.keeps(later),
{
    let queue = w.threads.infos[i].objects();
    assert(w.queue_ok(i));
    assert forall|q: usize| #[trigger] w.heap.has(q as int) implies w.heap.at(q as int).keeps_but(
        later.heap.objects[q as int],
        Gone::Nothing,
    ) by {
        let object = w.heap.at(q as int);
        if queued(queue, q as int) {
            let j = choose|j: int| 0 <= j < queue.len() && #[trigger] queue[j] == q;
            assert(w.heap.at(queue[j] as int).awaits_merge());
            object.lemma_merged_keeps();
        }
    }
    lemma_objects_keep(w, later, 0, Gone::Nothing);
}

/// Collecting takes no reference away, and changes no value that a reference
/// reaches.
pub proof fn lemma_collected_keeps<T, A>(w: World<T, A>)
    requires
        w.wf(),
    ensures
        w.keeps(w.processed()),
        w.keeps(w.collected()),
        w.collected().heap.objects.len() == w.heap.objects.len(),
        w.collected().heap.next == w.heap.next,
{
    assert(w.threads.local_ok(w.threads.current));
    match w.threads.this().state() {
        Some(state) => {
            lemma_merged_keeps(w, w.processed(), state.shared_info as int);
        },
        None => {
            lemma_heap_merged_nothing(w.heap);
        },
    }
}

/// The end of a thread takes no reference away, and changes no value that a
/// reference reaches.
pub proof fn lemma_ended_keeps<T, A>(w: World<T, A>)
    requires
        w.wf(),
    ensures
        w.keeps(w.ended()),
{
    assert(w.threads.local_ok(w.threads.current));
    match w.threads.this().state() {
        Some(state) => {
            lemma_merged_keeps(w, w.ended(), state.shared_info as int);
        },
        None => {
            lemma_heap_merged_nothing(w.heap);
        },
    }
}

/// A new object leaves all others as they are.
pub proof fn lemma_pushed_keeps<T, A>(w: World<T, A>, later: World<T, A>, object: Obj<T, A>)
    requires
        later.heap.objects == w.heap.objects.push(Some(object)),
    ensures
        w.keeps(later),
{
    lemma_objects_keep(w, later, 0, Gone::Nothing);
}

/// Collecting twice does nothing more than collecting once.
pub proof fn lemma_collected_twice<T, A>(w: World<T, A>)
    requires
        w.wf(),
    ensures
        w.processed().processed() == w.processed(),
        w.collected().collected() == w.collected(),
{
    let v = w.processed();
    lemma_world_processed(w);
    lemma_initialised(w.threads);
    let t = w.threads.initialised();
    assert(t.local_ok(t.current));
    assert(v.threads.local_ok(v.threads.current));
    assert(v.threads.own_queue() =~= Seq::<usize>::empty());
    lemma_heap_merged_nothing(v.heap);
    assert(v.threads.initialised() == v.threads);
    assert(v.threads.emptied().infos =~= v.threads.infos);
    assert(v.panicking() == w.panicking());
}

/// Replacing one object keeps every reference that the new state of the object
/// keeps.
pub proof fn lemma_replaced_keeps<T, A>(
    w: World<T, A>,
    later: World<T, A>,
    p: usize,
    object: Option<Obj<T, A>>,
    gone: Gone,
)
    requires
        w.heap.has(p as int),
        later.heap.objects == w.heap.objects.update(p as int, object),
        w.heap.at(p as int).keeps_but(object, gone),
    ensures
        w.keeps_but(later, p, gone),
{
    lemma_objects_keep(w, later, p, gone);
}

/// Dropping a strong reference takes away no other reference, and changes no value
/// that another reference reaches.
pub proof fn lemma_dropped_keeps<T, A>(w: World<T, A>, p: usize, id: nat)
    requires
        w.wf(),
        w.holds_strong(p, id),
    ensures
        w.keeps_but(w.dropped(p, id), p, Gone::Strong(id)),
{
    let this_id = w.this_id();
    let object = w.heap.at(p as int);
    let released = object.released(this_id, id);
    object.lemma_released_keeps(this_id, id);
    let left = if object.counts.decrement_drops(this_id) {
        released.destroyed()
    } else if object.counts.decrement_queues(this_id)
        && w.threads.infos[object.owner_index()].queue is None {
        released.merged()
    } else {
        Some(released)
    };
    let later = w.dropped(p, id);
    assert(later.heap.objects =~= w.heap.objects.update(p as int, left));
    lemma_replaced_keeps(w, later, p, left, Gone::Strong(id));
}

/// Taking a strong or a weak reference takes no other away.
pub proof fn lemma_cloned_keeps<T, A>(w: World<T, A>, p: usize)
    requires
        w.heap.has(p as int),
    ensures
        w.keeps(w.cloned(p)),
        w.keeps(w.cloned_shared(p)),
        w.keeps(w.downgraded(p)),
{
    lemma_objects_keep(w, w.cloned(p), 0, Gone::Nothing);
    lemma_objects_keep(w, w.cloned_shared(p), 0, Gone::Nothing);
    lemma_objects_keep(w, w.downgraded(p), 0, Gone::Nothing);
}

/// Dropping a weak reference takes away no other reference.
pub proof fn lemma_weak_dropped_keeps<T, A>(w: World<T, A>, p: usize, id: nat)
    requires
        w.wf(),
        w.holds_weak(p, id),
    ensures
        w.keeps_but(w.weak_dropped(p, id), p, Gone::Weak(id)),
{
    let object = w.heap.at(p as int);
    object.lemma_weak_dropped_keeps(id);
    lemma_replaced_keeps(w, w.weak_dropped(p, id), p, object.weak_dropped(id), Gone::Weak(id));
}

/// Dropping the unique owner of an object takes no other reference away.
pub proof fn lemma_unique_dropped_keeps<T, A>(w: World<T, A>, p: usize, id: nat)
    requires
        w.wf(),
        w.holds_unique(p, id),
    ensures
        w.keeps_but(w.unique_dropped(p), p, Gone::Unique),
{
    let object = w.heap.at(p as int);
    object.lemma_unique_dropped_keeps();
    lemma_replaced_keeps(w, w.unique_dropped(p), p, object.unique_dropped(), Gone::Unique);
}

/// Sharing an object turns its unique owner into a strong reference, and takes no
/// other reference away.
pub proof fn lemma_shared_keeps<T, A>(w: World<T, A>, p: usize, id: nat)
    requires
        w.wf(),
        w.holds_unique(p, id),
    ensures
        w.keeps_but(w.shared(p, id), p, Gone::Unique),
        w.shared(p, id).value(p) == w.value(p),
{
    let v = w.identified();
    lemma_replaced_keeps(
        w,
        w.shared(p, id),
        p,
        Some(w.heap.at(p as int).shared(v.this_id(), id)),
        Gone::Unique,
    );
}

/// Moving the value out through the only reference takes no other reference away.
pub proof fn lemma_unwrapped_keeps<T, A>(w: World<T, A>, p: usize, id: nat)
    requires
        w.wf(),
        w.holds_strong(p, id),
        w.heap.at(p as int).known_unique(w.this_id()),
    ensures
        w.keeps_but(w.unwrapped(p, id), p, Gone::Strong(id)),
{
    let object = w.heap.at(p as int);
    object.lemma_unwrapped(w.this_id(), id);
    assert(object.refs.strong.remove(id) =~= Set::empty());
    lemma_contains_len(object.refs.strong, id);
    lemma_replaced_keeps(
        w,
        w.unwrapped(p, id),
        p,
        Some(object.unwrapped(id)),
        Gone::Strong(id),
    );
}

/// Turning a reference into an address, or an address into a reference, takes no
/// other reference away.
pub proof fn lemma_raw_keeps<T, A>(w: World<T, A>, p: usize, id: nat)
    requires
        w.heap.has(p as int),
    ensures
        w.keeps_but(w.strong_to_raw(p, id), p, Gone::Strong(id)),
        w.keeps_but(w.weak_to_raw(p, id), p, Gone::Weak(id)),
        w.raw_strong(p) >= 1 ==> w.keeps_but(w.strong_from_raw(p), p, Gone::RawStrong),
        w.raw_weak(p) >= 1 ==> w.keeps_but(w.weak_from_raw(p), p, Gone::RawWeak),
{
    lemma_objects_keep(w, w.strong_to_raw(p, id), p, Gone::Strong(id));
    lemma_objects_keep(w, w.weak_to_raw(p, id), p, Gone::Weak(id));
    if w.raw_strong(p) >= 1 {
        lemma_objects_keep(w, w.strong_from_raw(p), p, Gone::RawStrong);
    }
    if w.raw_weak(p) >= 1 {
        lemma_objects_keep(w, w.weak_from_raw(p), p, Gone::RawWeak);
    }
}

/// Counting one more reference for an address takes no reference away.
pub proof fn lemma_increment_keeps<T, A>(w: World<T, A>, p: usize)
    requires
        w.wf(),
        w.heap.has(p as int),
    ensures
        w.keeps(w.cloned(p).strong_to_raw(p, w.heap.next)),
        w.cloned(p).strong_to_raw(p, w.heap.next).raw_strong(p) == w.raw_strong(p) + 1,
{
    lemma_objects_keep(w, w.cloned(p).strong_to_raw(p, w.heap.next), 0, Gone::Nothing);
}

} // verus!
