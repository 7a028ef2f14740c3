//! The memory in which the objects lie.
//!
//! An address stands for one object for good: memory that was freed is not
//! handed out again.
use crate::error::ZeroReferenceCountError;
use crate::header::{HeaderDecrement, HeaderMerge};
use crate::layout::{BrcHeader, WEAK_LOCKED_COUNT};
use crate::object::{Obj, Refs};
use crate::thread_id::ShortThreadId;
use crate::threads::ObjectQueue;
use crate::word::SharedWord;
use vstd::pervasive::unreached;
use vstd::prelude::*;

verus! {

/// An object whose memory has not been freed: its header, followed by its value.
pub struct Object<T, A> {
    pub header: BrcHeader<A>,
    pub value: Option<T>,
    pub refs: Ghost<Refs>,
}

impl<T, A> View for Object<T, A> {
    type V = Obj<T, A>;

    open spec fn view(&self) -> Obj<T, A> {
        Obj {
            counts: self.header.strong@,
            weak_count: self.header.weak_count,
            alloc: self.header.alloc,
            value: self.value,
            refs: self.refs@,
        }
    }
}

/// Whether the object at the address `p` is in `queue`.
pub open spec fn queued(queue: Seq<usize>, p: int) -> bool {
    exists|j: int| 0 <= j < queue.len() && #[trigger] queue[j] == p
}

/// The values `values` followed by one more, where there is one.
pub open spec fn with_last<T>(values: Seq<T>, value: Option<T>) -> Seq<T> {
    match value {
        Some(value) => values.push(value),
        None => values,
    }
}

/// All objects by their address, and `None` where the memory was freed.
pub struct Heap<T, A> {
    objects: Vec<Option<Object<T, A>>>,
    discarded: Vec<T>,
    next: Ghost<nat>,
}

/// The contents of a [`Heap`].
#[verifier::ext_equal]
pub struct HeapView<T, A> {
    pub objects: Seq<Option<Obj<T, A>>>,
    /// The values that were dropped and not handed out yet, the first one first.
    pub discarded: Seq<T>,
    /// The number that the next reference gets.
    pub next: nat,
}

impl<T, A> HeapView<T, A> {
    /// Whether there is an object at the address `p`.
    pub open spec fn has(self, p: int) -> bool {
        0 <= p < self.objects.len() && self.objects[p] is Some
    }

    /// The object at the address `p`.
    pub open spec fn at(self, p: int) -> Obj<T, A> {
        self.objects[p]->0
    }

    pub open spec fn wf(self) -> bool {
        &&& self.objects.len() <= usize::MAX
        &&& forall|p: int| #[trigger]
            self.has(p) ==> self.at(p).wf() && self.at(p).refs.below(self.next)
    }

    /// Whether there is memory for one more object.
    pub open spec fn has_room(self) -> bool {
        self.objects.len() < usize::MAX
    }

    /// The heap with another object at the address `p`.
    pub open spec fn with(self, p: int, object: Option<Obj<T, A>>) -> HeapView<T, A> {
        HeapView { objects: self.objects.update(p, object), ..self }
    }

    /// The heap after one more reference was given a number.
    pub open spec fn numbered(self) -> HeapView<T, A> {
        HeapView { next: self.next + 1, ..self }
    }

    /// The heap with one more object.
    pub open spec fn pushed(self, object: Obj<T, A>) -> HeapView<T, A> {
        HeapView { objects: self.objects.push(Some(object)), ..self }
    }

    /// The heap after a value was dropped.
    pub open spec fn discarding(self, value: Option<T>) -> HeapView<T, A> {
        HeapView { discarded: with_last(self.discarded, value), ..self }
    }

    /// The heap after the dropped values were handed out.
    pub open spec fn handed_out(self) -> HeapView<T, A> {
        HeapView { discarded: Seq::empty(), ..self }
    }

    /// The value that merging the counts of the object at the address `p` drops: the
    /// one that no reference is left to.
    pub open spec fn dead_value(self, p: int) -> Option<T> {
        if self.at(p).counts.merged().dead() {
            self.at(p).value
        } else {
            None
        }
    }

    /// The values that merging the counts of all objects in `queue` drops.
    pub open spec fn dead_values(self, queue: Seq<usize>) -> Seq<T>
        decreases queue.len(),
    {
        if queue.len() == 0 {
            Seq::empty()
        } else {
            with_last(self.dead_values(queue.drop_last()), self.dead_value(queue.last() as int))
        }
    }

    /// The heap after the counts of the object at the address `p` were merged.
    pub open spec fn merged_at(self, p: int) -> HeapView<T, A> {
        self.with(p, self.at(p).merged()).discarding(self.dead_value(p))
    }

    /// The heap after the counts of all objects in `queue` were merged.
    pub open spec fn merged(self, queue: Seq<usize>) -> HeapView<T, A> {
        HeapView {
            objects: Seq::new(
                self.objects.len(),
                |p: int|
                    if self.has(p) && queued(queue, p) {
                        self.at(p).merged()
                    } else {
                        self.objects[p]
                    },
            ),
            discarded: self.discarded + self.dead_values(queue),
            ..self
        }
    }

    /// Whether the counts of all objects in `queue` can be merged: each waits for that
    /// and is biased towards the thread `owner`, and none comes twice.
    pub open spec fn mergeable(self, queue: Seq<usize>, owner: ShortThreadId) -> bool {
        &&& queue.no_duplicates()
        &&& forall|j: int|
            0 <= j < queue.len() ==> {
                &&& self.has(#[trigger] queue[j] as int)
                &&& self.at(queue[j] as int).awaits_merge()
                &&& self.at(queue[j] as int).counts.biased.owner_id == Some(owner)
            }
    }
}

impl<T, A> View for Heap<T, A> {
    type V = HeapView<T, A>;

    closed spec fn view(&self) -> HeapView<T, A> {
        HeapView {
            objects: Seq::new(
                self.objects@.len(),
                |p: int|
                    match self.objects@[p] {
                        Some(object) => Some(object@),
                        None => None,
                    },
            ),
            discarded: self.discarded@,
            next: self.next@,
        }
    }
}

impl<T, A> Heap<T, A> {
    /// A heap without objects.
    pub fn new() -> (r: Self)
        ensures
            r@.objects == Seq::<Option<Obj<T, A>>>::empty(),
            r@.discarded == Seq::<T>::empty(),
            r@.wf(),
    {
        let r = Heap { objects: Vec::new(), discarded: Vec::new(), next: Ghost(0) };
        assert(r@.objects =~= Seq::<Option<Obj<T, A>>>::empty());
        r
    }

    /// Places an object in the heap and returns its address.
    pub(crate) fn place(&mut self, object: Object<T, A>) -> (r: usize)
        ensures
            r == old(self)@.objects.len(),
            final(self)@ == old(self)@.pushed(object@),
    {
        let address = self.objects.len();
        self.objects.push(Some(object));
        assert(self@.objects =~= old(self)@.pushed(object@).objects);
        address
    }

    /// The object at the address `p`.
    pub(crate) fn get(&self, p: usize) -> (r: &Object<T, A>)
        requires
            self@.has(p as int),
        ensures
            r@ == self@.at(p as int),
    {
        match &self.objects[p] {
            Some(object) => object,
            None => unreached(),
        }
    }

    /// The object at the address `p`, to be changed.
    pub(crate) fn get_mut(&mut self, p: usize) -> (r: &mut Object<T, A>)
        requires
            old(self)@.has(p as int),
        ensures
            r@ == old(self)@.at(p as int),
            final(self)@ == old(self)@.with(p as int, Some(final(r)@)),
    {
        let slot = &mut self.objects[p];
        match slot {
            Some(object) => object,
            None => unreached(),
        }
    }

    /// Takes the object at the address `p` out of the heap.
    pub(crate) fn take(&mut self, p: usize) -> (r: Object<T, A>)
        requires
            old(self)@.has(p as int),
        ensures
            r@ == old(self)@.at(p as int),
            final(self)@ == old(self)@.with(p as int, None),
    {
        let slot = &mut self.objects[p];
        match slot.take() {
            Some(object) => object,
            None => unreached(),
        }
    }

    /// Puts an object at the address `p`.
    pub(crate) fn put(&mut self, p: usize, object: Object<T, A>)
        requires
            p < old(self)@.objects.len(),
        ensures
            final(self)@ == old(self)@.with(p as int, Some(object@)),
    {
        self.objects.set(p, Some(object));
    }
}

impl<T, A> Heap<T, A> {
    /// Gives a number to one more reference.
    pub(crate) fn number(&mut self) -> (r: Ghost<nat>)
        ensures
            r@ == old(self)@.next,
            final(self)@ == old(self)@.numbered(),
    {
        let ghost id = self.next@;
        self.next = Ghost(id + 1);
        assert(self@.objects =~= old(self)@.objects);
        Ghost(id)
    }

    /// Counts the strong reference `id` on behalf of the thread `this_id`.
    pub(crate) fn increment_strong(
        &mut self,
        p: usize,
        this_id: Option<ShortThreadId>,
        id: Ghost<nat>,
    )
        requires
            old(self)@.has(p as int),
            old(self)@.at(p as int).can_clone(this_id),
        ensures
            final(self)@ == old(self)@.with(
                p as int,
                Some(old(self)@.at(p as int).cloned(this_id, id@)),
            ),
    {
        let object = self.get_mut(p);
        object.header.strong.increment_strong(this_id);
        object.refs = Ghost(Refs { strong: object.refs@.strong.insert(id@), ..object.refs@ });
    }

    /// Counts the strong reference `id` in the shared word.
    pub(crate) fn increment_strong_shared(&mut self, p: usize, id: Ghost<nat>)
        requires
            old(self)@.has(p as int),
            old(self)@.at(p as int).counts.shared.shared_count.count
                <= SharedWord::OVERFLOW_THRESHOLD,
        ensures
            final(self)@ == old(self)@.with(
                p as int,
                Some(old(self)@.at(p as int).cloned_shared(id@)),
            ),
    {
        let object = self.get_mut(p);
        object.header.strong.increment_strong_shared();
        object.refs = Ghost(Refs { strong: object.refs@.strong.insert(id@), ..object.refs@ });
    }

    /// Counts the strong reference `id` on behalf of the thread `this_id`, unless
    /// no strong reference is left.
    pub(crate) fn increment_strong_unless_zero(
        &mut self,
        p: usize,
        this_id: Option<ShortThreadId>,
        id: Ghost<nat>,
    ) -> (r: Result<(), ZeroReferenceCountError>)
        requires
            old(self)@.has(p as int),
            old(self)@.at(p as int).counts.wf(),
            old(self)@.at(p as int).counts.can_increment(this_id),
        ensures
            r is Err <==> old(self)@.at(p as int).counts.dead(),
            r is Err ==> final(self)@ == old(self)@,
            r is Ok ==> final(self)@ == old(self)@.with(
                p as int,
                Some(old(self)@.at(p as int).cloned(this_id, id@)),
            ),
    {
        let object = self.get_mut(p);
        match object.header.strong.increment_strong_unless_zero(this_id) {
            Ok(()) => {
                object.refs = Ghost(
                    Refs { strong: object.refs@.strong.insert(id@), ..object.refs@ },
                );
                Ok(())
            },
            Err(e) => {
                proof {
                    assert(self@.objects =~= old(self)@.objects);
                }
                Err(e)
            },
        }
    }

    /// Releases the strong reference `id` on behalf of the thread `this_id`.
    pub(crate) fn decrement_strong(
        &mut self,
        p: usize,
        this_id: Option<ShortThreadId>,
        id: Ghost<nat>,
    ) -> (r: HeaderDecrement)
        requires
            old(self)@.has(p as int),
            old(self)@.at(p as int).counts.wf(),
            old(self)@.at(p as int).counts.strong() >= 1,
        ensures
            final(self)@ == old(self)@.with(
                p as int,
                Some(old(self)@.at(p as int).released(this_id, id@)),
            ),
            r == HeaderDecrement::Drop <==> old(self)@.at(p as int).counts.decrement_drops(
                this_id,
            ),
            r is Queue <==> old(self)@.at(p as int).counts.decrement_queues(this_id),
            r matches HeaderDecrement::Queue(owner) ==> old(self)@.at(
                p as int,
            ).counts.biased.owner_id == Some(owner),
    {
        let object = self.get_mut(p);
        let r = object.header.strong.decrement_strong(this_id);
        object.refs = Ghost(Refs { strong: object.refs@.strong.remove(id@), ..object.refs@ });
        r
    }

    /// Hands out the values that were dropped.
    pub(crate) fn take_discarded(&mut self) -> (r: Vec<T>)
        ensures
            r@ == old(self)@.discarded,
            final(self)@ == old(self)@.handed_out(),
    {
        let mut r: Vec<T> = Vec::new();
        core::mem::swap(&mut r, &mut self.discarded);
        assert(self@.objects =~= old(self)@.objects);
        r
    }

    /// Drops the value at the address `p`, which is kept to be handed out, and
    /// releases the weak reference of the strong ones, which frees the memory where
    /// it was the last.
    pub(crate) fn dealloc(&mut self, p: usize)
        requires
            old(self)@.has(p as int),
            1 <= old(self)@.at(p as int).weak_count < WEAK_LOCKED_COUNT,
        ensures
            final(self)@ == old(self)@.with(
                p as int,
                old(self)@.at(p as int).destroyed(),
            ).discarding(old(self)@.at(p as int).value),
    {
        let object = self.get_mut(p);
        let value = object.value.take();
        self.release_weak(p);
        match value {
            Some(value) => self.discarded.push(value),
            None => {},
        }
        assert(self@.objects =~= old(self)@.with(
            p as int,
            old(self)@.at(p as int).destroyed(),
        ).objects);
    }

    /// Releases one weak reference from the counter, which frees the memory where
    /// it was the last.
    pub(crate) fn release_weak(&mut self, p: usize)
        requires
            old(self)@.has(p as int),
            1 <= old(self)@.at(p as int).weak_count < WEAK_LOCKED_COUNT,
        ensures
            final(self)@ == old(self)@.with(p as int, old(self)@.at(p as int).weak_released()),
    {
        let object = self.take(p);
        let Object { header, value, refs } = object;
        match header.drop_weak() {
            Ok(header) => {
                self.put(p, Object { header, value, refs });
            },
            Err(_alloc) => {},
        }
        assert(self@.objects =~= old(self)@.with(
            p as int,
            old(self)@.at(p as int).weak_released(),
        ).objects);
    }

    /// Merges the counts of the object at the address `p`, which is biased towards
    /// the thread `biased_tid`, and drops the value where no reference remains.
    pub fn explicit_merge(&mut self, biased_tid: ShortThreadId, p: usize)
        requires
            old(self)@.has(p as int),
            old(self)@.at(p as int).wf(),
            old(self)@.at(p as int).awaits_merge(),
            old(self)@.at(p as int).counts.biased.owner_id == Some(biased_tid),
        ensures
            final(self)@ == old(self)@.merged_at(p as int),
    {
        let object = self.get_mut(p);
        match object.header.strong.merge(biased_tid) {
            HeaderMerge::Drop => {
                self.dealloc(p);
            },
            HeaderMerge::Retain => {},
        }
        assert(self@.objects =~= old(self)@.with(
            p as int,
            old(self)@.at(p as int).merged(),
        ).objects);
    }

    /// Empties a queue by merging the counts of every object in it.
    pub fn do_process(&mut self, queue: &mut ObjectQueue)
        requires
            old(self)@.wf(),
            old(self)@.mergeable(old(queue)@, old(queue).owner()),
        ensures
            final(self)@ == old(self)@.merged(old(queue)@),
            final(queue)@ == Seq::<usize>::empty(),
            final(queue).owner() == old(queue).owner(),
    {
        let ghost all = queue@;
        let ghost mut done: Seq<usize> = Seq::empty();
        let ghost before = self@;
        assert(self@.objects =~= before.merged(done).objects);
        assert(self@.discarded =~= before.merged(done).discarded);
        loop
            invariant
                before.wf(),
                before.mergeable(all, queue.owner()),
                queue.owner() == old(queue).owner(),
                all == done + queue@,
                self@ == before.merged(done),
            ensures
                queue@.len() == 0,
            decreases queue@.len(),
        {
            let ghost rest = queue@;
            match queue.pop() {
                Some(object) => {
                    proof {
                        let j = done.len() as int;
                        assert(all[j] == object);
                        assert(before.has(all[j] as int));
                        assert(!queued(done, object as int)) by {
                            if queued(done, object as int) {
                                let i = choose|i: int|
                                    0 <= i < done.len() && #[trigger] done[i] == object as int;
                                assert(all[i] == object);
                            }
                        }
                        assert(self@.objects[object as int] == before.objects[object as int]);
                        assert(self@.has(object as int));
                    }
                    self.explicit_merge(queue.short_id(), object);
                    proof {
                        let next = done.push(object);
                        assert(all =~= next + queue@);
                        assert forall|q: int| queued(next, q) <==> queued(done, q) || q
                            == object by {
                            if queued(done, q) {
                                let i = choose|i: int|
                                    0 <= i < done.len() && #[trigger] done[i] == q;
                                assert(next[i] == q);
                            }
                            if queued(next, q) {
                                let i = choose|i: int|
                                    0 <= i < next.len() && #[trigger] next[i] == q;
                                assert(i < done.len() ==> done[i] == q);
                            }
                            assert(next[done.len() as int] == object);
                        }
                        assert(self@.objects =~= before.merged(next).objects);
                        assert(next.drop_last() =~= done);
                        assert(self@.discarded =~= before.merged(next).discarded);
                        done = next;
                    }
                },
                None => {
                    break;
                },
            }
        }
        assert(done =~= all);
        assert(queue@ =~= Seq::<usize>::empty());
    }
}

} // verus!
