//! The objects and the threads that share them.
//!
//! The functions here run on behalf of one thread, the running one, and each
//! of them takes effect as a whole.
use crate::effects::{can_have_identifier, lemma_collect_drops};
use crate::error::{BiasedCountError, ImpreciseRefCountError, ZeroReferenceCountError};
use crate::header::{HeaderDecrement, RawBrcHeader};
use crate::heap::{Heap, Object};
use crate::laws::refused_only_when_full;
use crate::layout::{downgrade_step, weak_clone_step, BrcHeader, Downgrade};
use crate::object::{Gone, Obj, Refs};
use crate::thread_id::ShortThreadId;
use crate::threads::{
    lemma_initialised, LocalThreadAccessError, LocalThreadState, ThreadLocal, ThreadTable,
    ThreadsView,
};
use crate::world::{
    lemma_collected_keeps, lemma_ended_keeps, lemma_handed_out_keeps, lemma_heap_merged_nothing,
    lemma_same_infos, lemma_same_objects, lemma_world_allocated,
    lemma_world_cloned, lemma_world_downgraded, lemma_world_dropped, lemma_world_ended,
    lemma_world_initialised, lemma_world_processed, lemma_world_raw, lemma_world_reserved,
    lemma_world_shared, lemma_world_unique_dropped, lemma_world_unwrapped,
    lemma_world_weak_dropped, lemma_world_written, World,
};
use vstd::pervasive::unreached;
use vstd::prelude::*;

verus! {

/// Whether the value of an object has to be dropped once a strong reference was
/// released.
#[derive(Copy, Clone, Debug, PartialEq, Eq, Structural)]
pub struct StrongDecrementResult {
    /// Whether the value is to be dropped, as there are no more references.
    pub should_drop: bool,
}

/// All objects and all threads, and which thread is running.
pub struct Runtime<T, A> {
    pub(crate) heap: Heap<T, A>,
    pub(crate) threads: ThreadTable,
}

impl<T, A> View for Runtime<T, A> {
    type V = World<T, A>;

    closed spec fn view(&self) -> World<T, A> {
        World { heap: self.heap@, threads: self.threads@ }
    }
}

impl<T, A> Runtime<T, A> {
    pub open spec fn wf(self) -> bool {
        self@.wf() && self.parts_wf()
    }

    /// What ties the parts of the thread table together.
    pub closed spec fn parts_wf(self) -> bool {
        self.threads.parts_wf()
    }

    /// A process with one thread and no objects.
    pub fn new() -> (r: Self)
        ensures
            r.wf(),
            r@.heap.objects == Seq::<Option<Obj<T, A>>>::empty(),
            r@.heap.discarded == Seq::<T>::empty(),
            r@.threads.locals == seq![ThreadLocal::fresh()],
            r@.threads.infos.len() == 0,
            r@.threads.current == 0,
            !r@.threads.exhausted,
            refused_only_when_full(r@.threads),
            can_have_identifier(r@.threads),
    {
        Runtime { heap: Heap::new(), threads: ThreadTable::new() }
    }

    /// Starts a thread, which is not running yet, and returns its index.
    pub fn spawn_thread(&mut self) -> (r: usize)
        requires
            old(self).wf(),
        ensures
            final(self).wf(),
            r == old(self)@.threads.locals.len(),
            final(self)@ == (World {
                threads: ThreadsView {
                    locals: old(self)@.threads.locals.push(ThreadLocal::fresh()),
                    ..old(self)@.threads
                },
                ..old(self)@
            }),
    {
        let ghost before = self@;
        let r = self.threads.spawn();
        proof {
            lemma_same_infos(before, self@);
        }
        r
    }

    /// Lets another thread run.
    pub fn enter_thread(&mut self, thread: usize)
        requires
            old(self).wf(),
            thread < old(self)@.threads.locals.len(),
        ensures
            final(self).wf(),
            final(self)@ == (World {
                threads: ThreadsView { current: thread as int, ..old(self)@.threads },
                ..old(self)@
            }),
    {
        let ghost before = self@;
        self.threads.enter(thread);
        proof {
            lemma_same_infos(before, self@);
        }
    }

    /// The thread that is running.
    pub fn current_thread(&self) -> (r: usize)
        ensures
            r == self@.threads.current,
    {
        self.threads.current()
    }

    /// Notes that the running thread began or stopped to unwind from a panic.
    pub fn set_panicking(&mut self, panicking: bool)
        requires
            old(self).wf(),
        ensures
            final(self).wf(),
            final(self)@ == (World {
                threads: old(self)@.threads.with_panicking(panicking),
                ..old(self)@
            }),
    {
        let ghost before = self@;
        self.threads.set_panicking(panicking);
        proof {
            lemma_same_infos(before, self@);
        }
    }

    /// The short identifier of the running thread, where it is registered.
    pub fn this_id(&self) -> (r: Option<ShortThreadId>)
        requires
            self.wf(),
        ensures
            r == self@.this_id(),
            r matches Some(id) ==> id.wf(),
    {
        self.threads.this_id()
    }

    /// The identifier of the thread that a new object is biased towards: the
    /// running one, which is registered on first use, where it can take part in
    /// biased reference counting.
    pub(crate) fn init_tid(&mut self) -> (r: Option<ShortThreadId>)
        requires
            old(self).wf(),
        ensures
            final(self).wf(),
            final(self)@ == old(self)@.identified(),
            r == final(self)@.this_id(),
            r matches Some(id) ==> id.wf(),
    {
        let ghost before = self@;
        proof {
            assert(before.threads.local_ok(before.threads.current));
            lemma_initialised(before.threads);
            lemma_world_initialised(before);
            assert(before.initialised().threads.local_ok(before.threads.current));
        }
        match self.threads.existing_short_id() {
            Ok(short_id) => Some(short_id),
            Err(LocalThreadAccessError::Dead) | Err(LocalThreadAccessError::IdOverflow(_)) => None,
            Err(LocalThreadAccessError::Uninitialized) => match self.threads.with_current() {
                Ok(state) => Some(state.short_id()),
                Err(_) => None,
            },
        }
    }
}

impl<T, A> Runtime<T, A> {
    /// Merges the counts of all objects that wait for the thread with the state
    /// `state`, which is the running one.
    fn process_queue(&mut self, state: LocalThreadState)
        requires
            old(self).wf(),
            old(self)@.threads.this().state() == Some(state),
        ensures
            final(self).wf(),
            final(self)@ == old(self)@.processed(),
    {
        let ghost before = self@;
        let info = state.shared_info;
        proof {
            assert(before.threads.local_ok(before.threads.current));
            assert(before.threads.info_ok(info as int));
            assert(before.queue_ok(info as int));
            lemma_world_processed(before);
        }
        if self.threads.state_flag(info).is_dead_or_dying() {
            return;
        }
        let mut queue = match self.threads.lend_queue(info) {
            Some(queue) => queue,
            None => return,
        };
        let ghost lent = self.threads@;
        loop
            invariant_except_break
                self@.heap == before.heap,
                queue@ == before.threads.own_queue(),
            invariant
                before.heap.wf(),
                before.heap.mergeable(before.threads.own_queue(), state.short_id),
                queue.owner() == state.short_id,
                self.parts_wf(),
                self@.threads == lent,
            ensures
                self@.heap == before.heap.merged(before.threads.own_queue()),
                queue@ == Seq::<usize>::empty(),
            decreases 0nat,
        {
            self.heap.do_process(&mut queue);
            if queue.is_empty() {
                break;
            }
        }
        self.threads.return_queue(info, queue);
        proof {
            assert(self@.threads.infos =~= before.processed().threads.infos);
        }
    }

    /// Does the cleanup of the running thread where something waits for it.
    pub(crate) fn collect(&mut self)
        requires
            old(self).wf(),
        ensures
            final(self).wf(),
            final(self)@ == old(self)@.collected(),
    {
        let ghost before = self@;
        if self.threads.currently_needs_collect() {
            self.collect_slow();
        } else {
            proof {
                assert(before.threads.local_ok(before.threads.current));
                let i = before.threads.this().state()->0.shared_info as int;
                assert(before.threads.info_ok(i));
                assert(before.threads.own_queue() =~= Seq::empty());
                lemma_heap_merged_nothing(before.heap);
                assert(before.threads.emptied().infos =~= before.threads.infos);
            }
        }
    }

    /// The slow path of [`Self::collect`].
    fn collect_slow(&mut self)
        requires
            old(self).wf(),
        ensures
            final(self).wf(),
            final(self)@ == old(self)@.collected(),
    {
        let ghost before = self@;
        proof {
            lemma_world_initialised(before);
            lemma_initialised(before.threads);
            assert(before.initialised().threads.local_ok(before.threads.current));
        }
        match self.threads.with_current() {
            Ok(state) => {
                if self.threads.panicking() {
                    return;
                }
                let ghost after = self@;
                proof {
                    assert(after.initialised().threads == after.threads);
                    assert(after.threads.info_ok(state.shared_info as int));
                }
                if self.threads.state_flag(state.shared_info).needs_collect() {
                    self.process_queue(state);
                } else {
                    proof {
                        lemma_heap_merged_nothing(before.heap);
                        assert(before.threads.own_queue() =~= Seq::empty());
                        assert(after.threads.emptied().infos =~= after.threads.infos);
                    }
                }
            },
            Err(_) => {
                proof {
                    lemma_heap_merged_nothing(before.heap);
                }
            },
        }
    }

    /// Does the cleanup of the running thread, whatever there is to do.
    pub(crate) fn collect_force(&mut self)
        requires
            old(self).wf(),
        ensures
            final(self).wf(),
            final(self)@ == old(self)@.processed(),
    {
        let ghost before = self@;
        proof {
            lemma_world_initialised(before);
            lemma_initialised(before.threads);
            assert(before.initialised().threads.local_ok(before.threads.current));
        }
        match self.threads.with_current() {
            Ok(state) => {
                proof {
                    assert(self@.initialised().threads == self@.threads);
                }
                self.process_queue(state);
            },
            Err(_) => {
                proof {
                    lemma_heap_merged_nothing(before.heap);
                }
            },
        }
    }

    /// Hands out the values that were dropped and not handed out yet, the first one
    /// first.
    ///
    /// Making and cloning a reference collect, and have no other way to hand out the
    /// values that this drops.
    pub fn take_discarded(&mut self) -> (r: Vec<T>)
        requires
            old(self).wf(),
        ensures
            final(self).wf(),
            r@ == old(self)@.heap.discarded,
            final(self)@ == old(self)@.handed_out(),
            old(self)@.keeps(final(self)@),
    {
        proof {
            lemma_handed_out_keeps(self@, self@, 0, Gone::Nothing);
            lemma_same_objects(self@, self@.handed_out());
        }
        self.heap.take_discarded()
    }

    /// The end of the running thread, whose thread-local state is destroyed. The
    /// objects that still wait for the thread have their counts merged.
    ///
    /// Hands out the dropped values. References in them are still to be dropped.
    pub fn end_thread(&mut self) -> (r: Vec<T>)
        requires
            old(self).wf(),
        ensures
            final(self).wf(),
            r@ == old(self)@.ended().heap.discarded,
            final(self)@ == old(self)@.ended().handed_out(),
            old(self)@.heap.discarded.is_prefix_of(r@),
            final(self)@.heap.discarded.len() == 0,
            old(self)@.keeps(final(self)@),
    {
        proof {
            lemma_collect_drops(self@);
            lemma_ended_keeps(self@);
            lemma_handed_out_keeps(self@, self@.ended(), 0, Gone::Nothing);
        }
        self.end();
        self.take_discarded()
    }

    /// The end of the running thread.
    fn end(&mut self)
        requires
            old(self).wf(),
        ensures
            final(self).wf(),
            final(self)@ == old(self)@.ended(),
    {
        let ghost before = self@;
        proof {
            assert(before.threads.local_ok(before.threads.current));
            lemma_world_ended(before);
        }
        match self.threads.begin_end() {
            Some((info, queue)) => {
                let mut queue = queue;
                proof {
                    assert(before.threads.info_ok(info as int));
                    assert(before.queue_ok(info as int));
                }
                self.heap.do_process(&mut queue);
                self.threads.finish_end(info);
                proof {
                    assert(self@.threads.infos =~= before.ended().threads.infos);
                }
            },
            None => {
                proof {
                    lemma_heap_merged_nothing(before.heap);
                }
            },
        }
    }

    /// Makes the thread-local state of the running thread anew after it was destroyed,
    /// as some platforms do where a destructor still uses it. A thread that was
    /// registered before is not registered again.
    pub fn revive_thread(&mut self)
        requires
            old(self).wf(),
        ensures
            final(self).wf(),
            final(self)@ == (World { threads: old(self)@.threads.revived(), ..old(self)@ }),
    {
        let ghost before = self@;
        self.threads.revive();
        proof {
            lemma_same_infos(before, self@);
        }
    }

    /// Hands the object at the address `p` to the thread at `info` for its counts
    /// to be merged. Where that thread has ended, they are merged at once.
    fn queue_object(&mut self, info: usize, p: usize)
        requires
            old(self)@.threads.wf(),
            old(self).parts_wf(),
            info < old(self)@.threads.infos.len(),
            old(self)@.heap.has(p as int),
            old(self)@.heap.at(p as int).wf(),
            old(self)@.heap.at(p as int).awaits_merge(),
            old(self)@.heap.at(p as int).counts.biased.owner_id == Some(
                old(self)@.threads.infos[info as int].short_id,
            ),
        ensures
            final(self).parts_wf(),
            final(self)@.threads.wf(),
            final(self)@ == old(self)@.handed(info as int, p),
    {
        let ghost before = self@;
        assert(before.threads.info_ok(info as int));
        if !self.threads.push_object(info, p) {
            let short_id = self.threads.info_id(info);
            self.heap.explicit_merge(short_id, p);
        }
    }

    /// Releases the strong reference `id` to the object at the address `p`.
    fn decrement_strong(&mut self, p: usize, id: Ghost<nat>) -> (r: StrongDecrementResult)
        requires
            old(self).wf(),
            old(self)@.holds_strong(p, id@),
        ensures
            final(self).parts_wf(),
            final(self)@ == old(self)@.decremented(p, id@),
            r.should_drop == old(self)@.heap.at(p as int).counts.decrement_drops(
                old(self)@.this_id(),
            ),
    {
        let ghost before = self@;
        let this_id = self.threads.this_id();
        proof {
            before.heap.at(p as int).lemma_strong_reaches_value(id@);
            before.heap.at(p as int).lemma_released(this_id, id@);
            assert(before.object_ok(p as int));
        }
        match self.heap.decrement_strong(p, this_id, id) {
            HeaderDecrement::Queue(owner) => {
                let info = match self.threads.get_by_id(owner) {
                    Some(info) => info,
                    None => unreached(),
                };
                proof {
                    assert(before.threads.info_ok(info as int));
                }
                self.queue_object(info, p);
                StrongDecrementResult { should_drop: false }
            },
            HeaderDecrement::Drop => StrongDecrementResult { should_drop: true },
            HeaderDecrement::Retain => StrongDecrementResult { should_drop: false },
        }
    }

    /// Drops the strong reference `id` to the object at the address `p`.
    pub(crate) fn drop_strong(&mut self, p: usize, id: Ghost<nat>)
        requires
            old(self).wf(),
            old(self)@.holds_strong(p, id@),
        ensures
            final(self).wf(),
            final(self)@ == old(self)@.dropped(p, id@),
    {
        let ghost before = self@;
        proof {
            before.heap.at(p as int).lemma_strong_reaches_value(id@);
            lemma_world_dropped(before, p, id@);
        }
        let result = self.decrement_strong(p, id);
        if result.should_drop {
            self.heap.dealloc(p);
            proof {
                assert(self@.heap.objects =~= before.dropped(p, id@).heap.objects);
            }
        }
    }
}

/// Does the cleanup of the running thread where something waits for it: merges the
/// counts of the objects that wait, and drops the values that no reference is left
/// to.
///
/// A thread needs to call this only if it goes a long time without making, cloning
/// or dropping references, which collect by themselves. Nothing is cleaned up while
/// the thread unwinds from a panic.
///
/// Hands out the dropped values. References in them are still to be dropped.
pub fn collect<T, A>(rt: &mut Runtime<T, A>) -> (r: Vec<T>)
    requires
        old(rt).wf(),
    ensures
        final(rt).wf(),
        r@ == old(rt)@.collected().heap.discarded,
        final(rt)@ == old(rt)@.collected().handed_out(),
        old(rt)@.heap.discarded.is_prefix_of(r@),
        final(rt)@.heap.discarded.len() == 0,
        old(rt)@.keeps(final(rt)@),
{
    proof {
        lemma_collect_drops(rt@);
        lemma_collected_keeps(rt@);
        lemma_handed_out_keeps(rt@, rt@.collected(), 0, Gone::Nothing);
    }
    rt.collect();
    rt.take_discarded()
}

/// Does the cleanup of the running thread whatever there is to do, even while the
/// thread unwinds.
///
/// Hands out the dropped values. References in them are still to be dropped.
pub fn collect_force<T, A>(rt: &mut Runtime<T, A>) -> (r: Vec<T>)
    requires
        old(rt).wf(),
    ensures
        final(rt).wf(),
        r@ == old(rt)@.processed().heap.discarded,
        final(rt)@ == old(rt)@.processed().handed_out(),
        old(rt)@.heap.discarded.is_prefix_of(r@),
        final(rt)@.heap.discarded.len() == 0,
        old(rt)@.keeps(final(rt)@),
{
    proof {
        lemma_collect_drops(rt@);
        lemma_collected_keeps(rt@);
        lemma_handed_out_keeps(rt@, rt@.processed(), 0, Gone::Nothing);
    }
    rt.collect_force();
    rt.take_discarded()
}

impl<T, A> Runtime<T, A> {
    /// Allocates an object with one strong reference, which is biased towards the
    /// running thread.
    pub(crate) fn allocate(&mut self, value: T, alloc: A) -> (r: (usize, Ghost<nat>))
        requires
            old(self).wf(),
            old(self)@.heap.has_room(),
        ensures
            final(self).wf(),
            final(self)@ == old(self)@.allocated(value, alloc),
            r.0 == old(self)@.heap.objects.len(),
            r.1@ == old(self)@.heap.next,
            final(self)@.holds_strong(r.0, r.1@),
            final(self)@.value(r.0) == Some(value),
    {
        proof {
            lemma_world_allocated(self@, value, alloc);
        }
        let this_id = self.init_tid();
        let header = BrcHeader::new(RawBrcHeader::init(this_id), alloc);
        let id = self.heap.number();
        let refs: Ghost<Refs> = Ghost(Refs { strong: set![id@], ..Refs::none() });
        let address = self.heap.place(Object { header, value: Some(value), refs });
        (address, id)
    }

    /// Allocates an object with a unique owner and no value.
    pub(crate) fn reserve(&mut self, alloc: A) -> (r: (usize, Ghost<nat>))
        requires
            old(self).wf(),
            old(self)@.heap.has_room(),
        ensures
            final(self).wf(),
            final(self)@ == old(self)@.reserved(alloc),
            r.0 == old(self)@.heap.objects.len(),
            r.1@ == old(self)@.heap.next,
            final(self)@.holds_unique(r.0, r.1@),
    {
        proof {
            lemma_world_reserved(self@, alloc);
        }
        let header = BrcHeader::new(RawBrcHeader::new_uninit(), alloc);
        let id = self.heap.number();
        let refs: Ghost<Refs> = Ghost(Refs { unique: Some(id@), ..Refs::none() });
        let address = self.heap.place(Object { header, value: None, refs });
        (address, id)
    }

    /// Begins to share the object at the address `p`, whose unique owner `id`
    /// becomes a strong reference.
    pub(crate) fn share(&mut self, p: usize, id: Ghost<nat>)
        requires
            old(self).wf(),
            old(self)@.holds_unique(p, id@),
            old(self)@.value(p) is Some,
        ensures
            final(self).wf(),
            final(self)@ == old(self)@.shared(p, id@),
            final(self)@.holds_strong(p, id@),
    {
        proof {
            lemma_world_shared(self@, p, id@);
        }
        let this_id = self.init_tid();
        let object = self.heap.get_mut(p);
        object.header.strong = RawBrcHeader::init(this_id);
        object.refs = Ghost(Refs { unique: None, strong: set![id@], ..object.refs@ });
    }

    /// Takes one more strong reference to the object at the address `p`.
    pub(crate) fn clone_strong(&mut self, p: usize) -> (r: Ghost<nat>)
        requires
            old(self).wf(),
            old(self)@.heap.has(p as int),
            old(self)@.heap.at(p as int).alive(),
            old(self)@.heap.at(p as int).can_clone(old(self)@.this_id()),
        ensures
            final(self).wf(),
            final(self)@ == old(self)@.cloned(p),
            r@ == old(self)@.heap.next,
            final(self)@.holds_strong(p, r@),
    {
        let this_id = self.threads.this_id();
        proof {
            self@.heap.at(p as int).lemma_can_clone(this_id);
            lemma_world_cloned(self@, p);
        }
        let id = self.heap.number();
        self.heap.increment_strong(p, this_id, id);
        id
    }

    /// Takes one more strong reference to the object at the address `p`, and
    /// counts it in the shared word.
    pub(crate) fn clone_strong_shared(&mut self, p: usize) -> (r: Ghost<nat>)
        requires
            old(self).wf(),
            old(self)@.heap.has(p as int),
            old(self)@.heap.at(p as int).alive(),
            old(self)@.heap.at(p as int).can_clone_shared(),
        ensures
            final(self).wf(),
            final(self)@ == old(self)@.cloned_shared(p),
            r@ == old(self)@.heap.next,
            final(self)@.holds_strong(p, r@),
    {
        proof {
            self@.heap.at(p as int).lemma_can_clone(self@.this_id());
            lemma_world_cloned(self@, p);
        }
        let id = self.heap.number();
        self.heap.increment_strong_shared(p, id);
        id
    }

    /// Takes one more strong reference to the object at the address `p`, unless
    /// none is left.
    pub(crate) fn upgrade_weak(&mut self, p: usize) -> (r: Option<Ghost<nat>>)
        requires
            old(self).wf(),
            old(self)@.heap.has(p as int),
            !old(self)@.heap.at(p as int).refs.moved,
            old(self)@.heap.at(p as int).counts.can_increment(old(self)@.this_id()),
        ensures
            final(self).wf(),
            r is Some <==> old(self)@.heap.at(p as int).alive(),
            r is None ==> final(self)@ == old(self)@,
            r matches Some(id) ==> {
                &&& final(self)@ == old(self)@.cloned(p)
                &&& id@ == old(self)@.heap.next
                &&& final(self)@.holds_strong(p, id@)
                &&& final(self)@.value(p) == old(self)@.value(p)
            },
    {
        proof {
            if self@.heap.at(p as int).alive() {
                lemma_world_cloned(self@, p);
            }
        }
        let this_id = self.threads.this_id();
        let id: Ghost<nat> = Ghost(self.heap@.next);
        match self.heap.increment_strong_unless_zero(p, this_id, id) {
            Ok(()) => {
                let _ = self.heap.number();
                Some(id)
            },
            Err(ZeroReferenceCountError) => None,
        }
    }

    /// Takes one more weak reference to the object at the address `p`, which is
    /// reached by a strong reference.
    pub(crate) fn downgrade_strong(&mut self, p: usize) -> (r: Ghost<nat>)
        requires
            old(self).wf(),
            old(self)@.heap.has(p as int),
            old(self)@.heap.at(p as int).can_downgrade(),
            !old(self)@.heap.at(p as int).refs.moved,
        ensures
            final(self).wf(),
            final(self)@ == old(self)@.downgraded(p),
            r@ == old(self)@.heap.next,
            final(self)@.holds_weak(p, r@),
    {
        proof {
            lemma_world_downgraded(self@, p);
        }
        let id = self.heap.number();
        let object = self.heap.get_mut(p);
        match downgrade_step(object.header.weak_count) {
            Downgrade::Store(weak_count) => {
                object.header.weak_count = weak_count;
            },
            Downgrade::Locked | Downgrade::Fatal(_) => unreached(),
        }
        object.refs = Ghost(Refs { weak: object.refs@.weak.insert(id@), ..object.refs@ });
        id
    }

    /// Takes one more weak reference to the object at the address `p`, whose weak
    /// count cannot be locked.
    pub(crate) fn clone_weak(&mut self, p: usize) -> (r: Ghost<nat>)
        requires
            old(self).wf(),
            old(self)@.heap.has(p as int),
            old(self)@.heap.at(p as int).can_downgrade(),
            !old(self)@.heap.at(p as int).refs.moved,
        ensures
            final(self).wf(),
            final(self)@ == old(self)@.downgraded(p),
            r@ == old(self)@.heap.next,
            final(self)@.holds_weak(p, r@),
    {
        proof {
            lemma_world_downgraded(self@, p);
        }
        let id = self.heap.number();
        let object = self.heap.get_mut(p);
        match weak_clone_step(object.header.weak_count) {
            Ok(weak_count) => {
                object.header.weak_count = weak_count;
            },
            Err(_) => unreached(),
        }
        object.refs = Ghost(Refs { weak: object.refs@.weak.insert(id@), ..object.refs@ });
        id
    }

    /// Drops the weak reference `id` to the object at the address `p`, which frees
    /// the memory where it was the last.
    pub(crate) fn drop_weak(&mut self, p: usize, id: Ghost<nat>)
        requires
            old(self).wf(),
            old(self)@.holds_weak(p, id@),
        ensures
            final(self).wf(),
            final(self)@ == old(self)@.weak_dropped(p, id@),
    {
        proof {
            lemma_world_weak_dropped(self@, p, id@);
        }
        let object = self.heap.get_mut(p);
        object.refs = Ghost(Refs { weak: object.refs@.weak.remove(id@), ..object.refs@ });
        self.heap.release_weak(p);
        proof {
            assert(self@.heap.objects =~= old(self)@.weak_dropped(p, id@).heap.objects);
        }
    }

    /// Drops the unique owner `id` of the object at the address `p`, and with it
    /// the value, which is handed back to be dropped or not.
    pub(crate) fn drop_unique(&mut self, p: usize, id: Ghost<nat>) -> (r: Option<T>)
        requires
            old(self).wf(),
            old(self)@.holds_unique(p, id@),
        ensures
            final(self).wf(),
            final(self)@ == old(self)@.unique_dropped(p),
            r == old(self)@.value(p),
    {
        proof {
            lemma_world_unique_dropped(self@, p, id@);
        }
        let object = self.heap.get_mut(p);
        object.refs = Ghost(Refs { unique: None, ..object.refs@ });
        let value = object.value.take();
        self.heap.release_weak(p);
        proof {
            assert(self@.heap.objects =~= old(self)@.unique_dropped(p).heap.objects);
        }
        value
    }

    /// The value of the object at the address `p`.
    pub(crate) fn value(&self, p: usize) -> (r: &T)
        requires
            self@.heap.has(p as int),
            self@.value(p) is Some,
        ensures
            Some(*r) == self@.value(p),
    {
        match &self.heap.get(p).value {
            Some(value) => value,
            None => unreached(),
        }
    }

    /// The value of the object at the address `p`, to be changed.
    pub(crate) fn value_mut(&mut self, p: usize) -> (r: &mut T)
        requires
            old(self).wf(),
            old(self)@.heap.has(p as int),
            old(self)@.value(p) is Some,
        ensures
            Some(*r) == old(self)@.value(p),
            final(self)@ == old(self)@.written(p, Some(*final(r))),
            final(self).wf(),
    {
        let ghost before = self@;
        let object = self.heap.get_mut(p);
        match &mut object.value {
            Some(value) => {
                proof {
                    lemma_world_written(before, p, Some(*final(value)));
                }
                value
            },
            None => unreached(),
        }
    }

    /// The place for the value of the object at the address `p`, whose owner is
    /// unique.
    pub(crate) fn slot(&self, p: usize) -> (r: &Option<T>)
        requires
            self@.heap.has(p as int),
        ensures
            *r == self@.value(p),
    {
        &self.heap.get(p).value
    }

    /// The place for the value of the object at the address `p`, whose owner is
    /// unique, to be changed.
    pub(crate) fn slot_mut(&mut self, p: usize) -> (r: &mut Option<T>)
        requires
            old(self).wf(),
            old(self)@.heap.has(p as int),
            old(self)@.heap.at(p as int).refs.unique is Some,
        ensures
            *r == old(self)@.value(p),
            final(self)@ == old(self)@.written(p, *final(r)),
            final(self).wf(),
    {
        let ghost before = self@;
        assert forall|value: Option<T>| (#[trigger] before.written(p, value)).wf() by {
            lemma_world_written(before, p, value);
        }
        let object = self.heap.get_mut(p);
        &mut object.value
    }

    /// Moves the value out of the object at the address `p`, whose only reference
    /// is the strong reference `id`.
    pub(crate) fn take_value(&mut self, p: usize, id: Ghost<nat>) -> (r: T)
        requires
            old(self).wf(),
            old(self)@.holds_strong(p, id@),
            old(self)@.heap.at(p as int).known_unique(old(self)@.this_id()),
        ensures
            final(self).wf(),
            final(self)@ == old(self)@.unwrapped(p, id@),
            Some(r) == old(self)@.value(p),
    {
        proof {
            self@.heap.at(p as int).lemma_strong_reaches_value(id@);
            lemma_world_unwrapped(self@, p, id@);
        }
        let object = self.heap.get_mut(p);
        object.refs = Ghost(
            Refs { strong: object.refs@.strong.remove(id@), moved: true, ..object.refs@ },
        );
        match object.value.take() {
            Some(value) => value,
            None => unreached(),
        }
    }

    /// The allocator of the object at the address `p`.
    pub(crate) fn alloc_of(&self, p: usize) -> (r: &A)
        requires
            self@.heap.has(p as int),
        ensures
            *r == self@.heap.at(p as int).alloc,
    {
        &self.heap.get(p).header.alloc
    }

    /// The number of strong references to the object at the address `p`, where the
    /// running thread can determine it.
    pub(crate) fn strong_count_of(&self, p: usize) -> (r: Result<u64, ImpreciseRefCountError>)
        requires
            self.wf(),
            self@.heap.has(p as int),
        ensures
            r == self@.heap.at(p as int).counts.strong_count(self@.this_id()),
    {
        self.heap.get(p).header.strong.strong_count(self.threads.this_id())
    }

    /// The weak count of the object at the address `p`.
    pub(crate) fn weak_count_of(&self, p: usize) -> (r: u32)
        requires
            self@.heap.has(p as int),
        ensures
            r == self@.heap.at(p as int).weak_count,
    {
        self.heap.get(p).header.weak_count
    }

    /// The biased count of the object at the address `p`, where the running thread
    /// owns it.
    pub(crate) fn biased_count_of(&self, p: usize) -> (r: Result<u64, BiasedCountError>)
        requires
            self.wf(),
            self@.heap.has(p as int),
        ensures
            r == self@.heap.at(p as int).counts.biased_count(self@.this_id()),
    {
        self.heap.get(p).header.strong.biased_count(self.threads.this_id())
    }

    /// The shared count of the object at the address `p`.
    pub(crate) fn shared_count_of(&self, p: usize) -> (r: i64)
        requires
            self@.heap.has(p as int),
        ensures
            r == self@.heap.at(p as int).counts.shared.shared_count.count,
    {
        self.heap.get(p).header.strong.shared_count()
    }

    /// Whether the object at the address `p` is known to have exactly one strong
    /// reference and no weak one.
    pub(crate) fn is_unique_at(&mut self, p: usize) -> (r: bool)
        requires
            old(self).wf(),
            old(self)@.heap.has(p as int),
            old(self)@.heap.at(p as int).refs.unique is None,
        ensures
            final(self).wf(),
            final(self)@ == old(self)@,
            r == old(self)@.heap.at(p as int).known_unique(old(self)@.this_id()),
    {
        let this_id = self.threads.this_id();
        let object = self.heap.get_mut(p);
        let r = object.header.is_unique(this_id);
        proof {
            assert(self@.heap.objects =~= old(self)@.heap.objects);
        }
        r
    }

    /// Turns the strong reference `id` to the object at the address `p` into an
    /// address.
    pub(crate) fn leak_strong(&mut self, p: usize, id: Ghost<nat>)
        requires
            old(self).wf(),
            old(self)@.holds_strong(p, id@),
        ensures
            final(self).wf(),
            final(self)@ == old(self)@.strong_to_raw(p, id@),
    {
        proof {
            lemma_world_raw(self@, p, id@);
        }
        let object = self.heap.get_mut(p);
        object.refs = Ghost(object.refs@.strong_to_raw(id@));
    }

    /// Turns the address `p` into a strong reference.
    pub(crate) fn adopt_strong(&mut self, p: usize) -> (r: Ghost<nat>)
        requires
            old(self).wf(),
            old(self)@.raw_strong(p) >= 1,
        ensures
            final(self).wf(),
            final(self)@ == old(self)@.strong_from_raw(p),
            r@ == old(self)@.heap.next,
            final(self)@.holds_strong(p, r@),
    {
        proof {
            lemma_world_raw(self@, p, 0);
        }
        let id = self.heap.number();
        let object = self.heap.get_mut(p);
        object.refs = Ghost(object.refs@.strong_from_raw(id@));
        id
    }

    /// Turns the weak reference `id` to the object at the address `p` into an
    /// address.
    pub(crate) fn leak_weak(&mut self, p: usize, id: Ghost<nat>)
        requires
            old(self).wf(),
            old(self)@.holds_weak(p, id@),
        ensures
            final(self).wf(),
            final(self)@ == old(self)@.weak_to_raw(p, id@),
    {
        proof {
            lemma_world_raw(self@, p, id@);
        }
        let object = self.heap.get_mut(p);
        object.refs = Ghost(object.refs@.weak_to_raw(id@));
    }

    /// Turns the address `p` into a weak reference.
    pub(crate) fn adopt_weak(&mut self, p: usize) -> (r: Ghost<nat>)
        requires
            old(self).wf(),
            old(self)@.raw_weak(p) >= 1,
        ensures
            final(self).wf(),
            final(self)@ == old(self)@.weak_from_raw(p),
            r@ == old(self)@.heap.next,
            final(self)@.holds_weak(p, r@),
    {
        proof {
            lemma_world_raw(self@, p, 0);
        }
        let id = self.heap.number();
        let object = self.heap.get_mut(p);
        object.refs = Ghost(object.refs@.weak_from_raw(id@));
        id
    }
}

} // verus!
