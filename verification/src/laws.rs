//! What holds of the references whatever is done with them.
//!
//! Everything that the library does to the objects and the threads is a sequence of
//! the operations that are listed here.
use crate::effects::can_have_identifier;
use crate::header::Counts;
use crate::heap::{queued, HeapView};
use crate::object::{Gone, Obj};
use crate::strong::Brc;
use crate::thread_id::ShortThreadId;
use crate::threads::{
    lemma_initialised, lemma_revived, LazyState, LocalThreadAccessError, LocalThreadState,
    ThreadLocal, ThreadStateInitError, ThreadsView,
};
use crate::weak::Weak;
use crate::word::SharedCount;
use crate::world::{
    lemma_cloned_keeps, lemma_collected_keeps, lemma_dropped_keeps, lemma_ended_keeps,
    lemma_handed_out_keeps, lemma_heap_merged_nothing, lemma_objects_keep, lemma_pushed_keeps,
    lemma_raw_keeps, lemma_same_infos, lemma_same_objects, lemma_shared_keeps,
    lemma_unique_dropped_keeps, lemma_unwrapped_keeps, lemma_weak_dropped_keeps,
    lemma_world_allocated, lemma_world_cloned, lemma_world_collected, lemma_world_downgraded,
    lemma_world_dropped, lemma_world_ended, lemma_world_initialised, lemma_world_processed,
    lemma_world_raw, lemma_world_reserved, lemma_world_shared, lemma_world_unique_dropped,
    lemma_world_unwrapped, lemma_world_weak_dropped, lemma_world_written, World,
};
use vstd::prelude::*;

verus! {

/// One thing that is done to the objects and the threads.
pub enum Op<T, A> {
    /// The running thread starts another one.
    Spawn,
    /// Another thread runs.
    Enter(int),
    /// The running thread begins or stops to unwind.
    Unwind(bool),
    /// The running thread ends.
    End,
    /// The state of a thread that has ended is made anew.
    Revive,
    /// The running thread collects.
    Collect,
    /// The running thread collects whatever there is to do.
    CollectForce,
    /// The dropped values are handed out.
    HandOut,
    /// A strong reference to a new object is made.
    Allocate(T, A),
    /// A unique owner of a new object is made.
    Reserve(A),
    /// A unique owner becomes a strong reference.
    Share(usize, nat),
    /// A strong reference is taken.
    Clone(usize),
    /// A strong reference is taken and counted in the shared word.
    CloneShared(usize),
    /// A weak reference is taken.
    Downgrade(usize),
    /// A strong reference is dropped.
    Drop(usize, nat),
    /// A weak reference is dropped.
    DropWeak(usize, nat),
    /// A unique owner is dropped.
    DropUnique(usize, nat),
    /// The value is changed through the only strong reference.
    Write(usize, nat, T),
    /// The value is changed, or made or dropped, through the unique owner.
    WriteUnique(usize, nat, Option<T>),
    /// The value is moved out through the only reference.
    Unwrap(usize, nat),
    /// A strong reference is turned into an address.
    StrongToRaw(usize, nat),
    /// An address is turned into a strong reference.
    StrongFromRaw(usize),
    /// A weak reference is turned into an address.
    WeakToRaw(usize, nat),
    /// An address is turned into a weak reference.
    WeakFromRaw(usize),
}

impl<T, A> Op<T, A> {
    /// The address of the object that the operation takes a reference away from.
    pub open spec fn place(self) -> usize {
        match self {
            Op::Share(p, _) => p,
            Op::Drop(p, _) => p,
            Op::DropWeak(p, _) => p,
            Op::DropUnique(p, _) => p,
            Op::Unwrap(p, _) => p,
            Op::StrongToRaw(p, _) => p,
            Op::StrongFromRaw(p) => p,
            Op::WeakToRaw(p, _) => p,
            Op::WeakFromRaw(p) => p,
            _ => 0,
        }
    }

    /// The reference that the operation takes away.
    pub open spec fn gone(self) -> Gone {
        match self {
            Op::Share(_, _) => Gone::Unique,
            Op::Drop(_, id) => Gone::Strong(id),
            Op::DropWeak(_, id) => Gone::Weak(id),
            Op::DropUnique(_, _) => Gone::Unique,
            Op::Unwrap(_, id) => Gone::Strong(id),
            Op::StrongToRaw(_, id) => Gone::Strong(id),
            Op::StrongFromRaw(_) => Gone::RawStrong,
            Op::WeakToRaw(_, id) => Gone::Weak(id),
            Op::WeakFromRaw(_) => Gone::RawWeak,
            _ => Gone::Nothing,
        }
    }

    /// Whether the operation takes away the strong reference `id` to the object at
    /// the address `p`.
    pub open spec fn takes_strong(self, p: usize, id: nat) -> bool {
        self.place() == p && self.gone() == Gone::Strong(id)
    }

    /// Whether the operation changes the value of the object at the address `p`.
    pub open spec fn writes(self, p: usize) -> bool {
        match self {
            Op::Write(q, _, _) => p == q,
            Op::WriteUnique(q, _, _) => p == q,
            _ => false,
        }
    }
}

impl<T, A> World<T, A> {
    /// Whether an operation can be done.
    pub open spec fn enabled(self, op: Op<T, A>) -> bool {
        match op {
            Op::Enter(thread) => 0 <= thread < self.threads.locals.len(),
            Op::Allocate(_, _) => self.heap.has_room(),
            Op::Reserve(_) => self.heap.has_room(),
            Op::Share(p, id) => self.holds_unique(p, id) && self.value(p) is Some,
            Op::Clone(p) => self.heap.has(p as int) && self.heap.at(p as int).alive()
                && self.heap.at(p as int).counts.can_increment(self.this_id()),
            Op::CloneShared(p) => self.heap.has(p as int) && self.heap.at(p as int).alive()
                && self.heap.at(p as int).can_clone_shared(),
            Op::Downgrade(p) => self.heap.has(p as int) && self.heap.at(p as int).can_downgrade()
                && !self.heap.at(p as int).refs.moved,
            Op::Drop(p, id) => self.holds_strong(p, id),
            Op::DropWeak(p, id) => self.holds_weak(p, id),
            Op::DropUnique(p, id) => self.holds_unique(p, id),
            Op::Write(p, id, _) => self.holds_strong(p, id) && self.heap.at(
                p as int,
            ).refs.strong_total() == 1,
            Op::WriteUnique(p, id, _) => self.holds_unique(p, id),
            Op::Unwrap(p, id) => self.holds_strong(p, id) && self.heap.at(p as int).known_unique(
                self.this_id(),
            ),
            Op::StrongToRaw(p, id) => self.holds_strong(p, id),
            Op::StrongFromRaw(p) => self.raw_strong(p) >= 1,
            Op::WeakToRaw(p, id) => self.holds_weak(p, id),
            Op::WeakFromRaw(p) => self.raw_weak(p) >= 1,
            _ => true,
        }
    }

    /// The world after an operation.
    pub open spec fn after(self, op: Op<T, A>) -> World<T, A> {
        match op {
            Op::Spawn => World {
                threads: ThreadsView {
                    locals: self.threads.locals.push(ThreadLocal::fresh()),
                    ..self.threads
                },
                ..self
            },
            Op::Enter(thread) => World {
                threads: ThreadsView { current: thread, ..self.threads },
                ..self
            },
            Op::Unwind(panicking) => World {
                threads: self.threads.with_panicking(panicking),
                ..self
            },
            Op::End => self.ended(),
            Op::Revive => World { threads: self.threads.revived(), ..self },
            Op::Collect => self.collected(),
            Op::CollectForce => self.processed(),
            Op::HandOut => self.handed_out(),
            Op::Allocate(value, alloc) => self.allocated(value, alloc),
            Op::Reserve(alloc) => self.reserved(alloc),
            Op::Share(p, id) => self.shared(p, id),
            Op::Clone(p) => self.cloned(p),
            Op::CloneShared(p) => self.cloned_shared(p),
            Op::Downgrade(p) => self.downgraded(p),
            Op::Drop(p, id) => self.dropped(p, id),
            Op::DropWeak(p, id) => self.weak_dropped(p, id),
            Op::DropUnique(p, _) => self.unique_dropped(p),
            Op::Write(p, _, value) => self.written(p, Some(value)),
            Op::WriteUnique(p, _, value) => self.written(p, value),
            Op::Unwrap(p, id) => self.unwrapped(p, id),
            Op::StrongToRaw(p, id) => self.strong_to_raw(p, id),
            Op::StrongFromRaw(p) => self.strong_from_raw(p),
            Op::WeakToRaw(p, id) => self.weak_to_raw(p, id),
            Op::WeakFromRaw(p) => self.weak_from_raw(p),
        }
    }

    /// The world after a sequence of operations.
    pub open spec fn after_all(self, ops: Seq<Op<T, A>>) -> World<T, A>
        decreases ops.len(),
    {
        if ops.len() == 0 {
            self
        } else {
            self.after_all(ops.drop_last()).after(ops.last())
        }
    }

    /// Whether a sequence of operations can be done.
    pub open spec fn enabled_all(self, ops: Seq<Op<T, A>>) -> bool
        decreases ops.len(),
    {
        ops.len() == 0 || self.enabled_all(ops.drop_last()) && self.after_all(
            ops.drop_last(),
        ).enabled(ops.last())
    }
}

/// The threads that start, run or unwind keep the invariant.
proof fn lemma_threads_only<T, A>(w: World<T, A>, op: Op<T, A>)
    requires
        w.wf(),
        w.enabled(op),
        op is Spawn || op is Enter || op is Unwind,
    ensures
        w.after(op).wf(),
{
    let later = w.after(op);
    assert(w.threads.local_ok(w.threads.current));
    assert forall|i: int| 0 <= i < later.threads.infos.len() implies later.threads.info_ok(i) by {
        assert(w.threads.info_ok(i));
    }
    assert forall|k: int| 0 <= k < later.threads.locals.len() implies later.threads.local_ok(
        k,
    ) by {
        if k < w.threads.locals.len() {
            assert(w.threads.local_ok(k));
        }
    }
    lemma_same_infos(w, later);
}

/// Every operation keeps the invariant: the counters count exactly the references
/// that are around, and a queue holds exactly the objects that wait for its thread.
pub proof fn lemma_operation_keeps_invariant<T, A>(w: World<T, A>, op: Op<T, A>)
    requires
        w.wf(),
        w.enabled(op),
    ensures
        w.after(op).wf(),
{
    match op {
        Op::Spawn => lemma_threads_only(w, op),
        Op::Enter(_) => lemma_threads_only(w, op),
        Op::Unwind(_) => lemma_threads_only(w, op),
        Op::End => lemma_world_ended(w),
        Op::Revive => {
            lemma_revived(w.threads);
            lemma_same_infos(w, w.after(op));
        },
        Op::Collect => lemma_world_collected(w),
        Op::CollectForce => lemma_world_processed(w),
        Op::HandOut => lemma_same_objects(w, w.handed_out()),
        Op::Allocate(value, alloc) => lemma_world_allocated(w, value, alloc),
        Op::Reserve(alloc) => lemma_world_reserved(w, alloc),
        Op::Share(p, id) => lemma_world_shared(w, p, id),
        Op::Clone(p) => lemma_world_cloned(w, p),
        Op::CloneShared(p) => {
            w.heap.at(p as int).lemma_can_clone(w.this_id());
            lemma_world_cloned(w, p);
        },
        Op::Downgrade(p) => lemma_world_downgraded(w, p),
        Op::Drop(p, id) => lemma_world_dropped(w, p, id),
        Op::DropWeak(p, id) => lemma_world_weak_dropped(w, p, id),
        Op::DropUnique(p, id) => lemma_world_unique_dropped(w, p, id),
        Op::Write(p, id, value) => {
            w.heap.at(p as int).lemma_strong_reaches_value(id);
            lemma_world_written(w, p, Some(value));
        },
        Op::WriteUnique(p, _, value) => lemma_world_written(w, p, value),
        Op::Unwrap(p, id) => lemma_world_unwrapped(w, p, id),
        Op::StrongToRaw(p, id) => lemma_world_raw(w, p, id),
        Op::StrongFromRaw(p) => lemma_world_raw(w, p, 0),
        Op::WeakToRaw(p, id) => lemma_world_raw(w, p, id),
        Op::WeakFromRaw(p) => lemma_world_raw(w, p, 0),
    }
}

/// No operation takes away a reference but the one that it is about, and only a
/// write changes a value that a reference reaches.
pub proof fn lemma_operation_keeps_references<T, A>(w: World<T, A>, op: Op<T, A>)
    requires
        w.wf(),
        w.enabled(op),
        !(op is Write) && !(op is WriteUnique),
    ensures
        w.keeps_but(w.after(op), op.place(), op.gone()),
{
    match op {
        Op::End => lemma_ended_keeps(w),
        Op::Collect => lemma_collected_keeps(w),
        Op::CollectForce => lemma_collected_keeps(w),
        Op::HandOut => lemma_handed_out_keeps(w, w, 0, Gone::Nothing),
        Op::Allocate(value, alloc) => {
            let v = w.identified();
            lemma_pushed_keeps(
                w,
                w.after(op),
                Obj::initial(v.this_id(), value, alloc, v.heap.next),
            );
        },
        Op::Reserve(alloc) => {
            lemma_pushed_keeps(w, w.after(op), Obj::reserved(alloc, w.heap.next));
        },
        Op::Share(p, id) => lemma_shared_keeps(w, p, id),
        Op::Clone(p) => lemma_cloned_keeps(w, p),
        Op::CloneShared(p) => lemma_cloned_keeps(w, p),
        Op::Downgrade(p) => lemma_cloned_keeps(w, p),
        Op::Drop(p, id) => lemma_dropped_keeps(w, p, id),
        Op::DropWeak(p, id) => lemma_weak_dropped_keeps(w, p, id),
        Op::DropUnique(p, id) => lemma_unique_dropped_keeps(w, p, id),
        Op::Unwrap(p, id) => lemma_unwrapped_keeps(w, p, id),
        Op::StrongToRaw(p, id) => lemma_raw_keeps(w, p, id),
        Op::StrongFromRaw(p) => lemma_raw_keeps(w, p, 0),
        Op::WeakToRaw(p, id) => lemma_raw_keeps(w, p, id),
        Op::WeakFromRaw(p) => lemma_raw_keeps(w, p, 0),
        _ => {},
    }
}

/// A write takes no reference away, and changes no other value.
pub proof fn lemma_write_keeps_others<T, A>(w: World<T, A>, op: Op<T, A>, p: usize)
    requires
        w.wf(),
        w.enabled(op),
        op.writes(p),
    ensures
        forall|q: int|
            q != p ==> #[trigger] w.after(op).heap.objects[q] == w.heap.objects[q] || !(0 <= q
                < w.heap.objects.len()),
        w.after(op).heap.has(p as int),
        w.after(op).heap.at(p as int).refs == w.heap.at(p as int).refs,
        w.after(op).heap.at(p as int).counts == w.heap.at(p as int).counts,
        w.after(op).heap.at(p as int).alloc == w.heap.at(p as int).alloc,
{
}

/// Every sequence of operations keeps the invariant.
pub proof fn lemma_operations_keep_invariant<T, A>(w: World<T, A>, ops: Seq<Op<T, A>>)
    requires
        w.wf(),
        w.enabled_all(ops),
    ensures
        w.after_all(ops).wf(),
    decreases ops.len(),
{
    if ops.len() > 0 {
        lemma_operations_keep_invariant(w, ops.drop_last());
        lemma_operation_keeps_invariant(w.after_all(ops.drop_last()), ops.last());
    }
}

/// A strong reference keeps its object and a value in it alive, whatever else is
/// done, until the reference itself is given up. Without a write, it is the same
/// value.
pub proof fn lemma_strong_reference_keeps_value<T, A>(
    w: World<T, A>,
    ops: Seq<Op<T, A>>,
    p: usize,
    id: nat,
)
    requires
        w.wf(),
        w.enabled_all(ops),
        w.holds_strong(p, id),
        forall|i: int| 0 <= i < ops.len() ==> !(#[trigger] ops[i]).takes_strong(p, id),
    ensures
        w.after_all(ops).holds_strong(p, id),
        w.after_all(ops).value(p) is Some,
        (forall|i: int| 0 <= i < ops.len() ==> !(#[trigger] ops[i]).writes(p)) ==> w.after_all(
            ops,
        ).value(p) == w.value(p),
    decreases ops.len(),
{
    if ops.len() > 0 {
        let rest = ops.drop_last();
        let op = ops.last();
        let middle = w.after_all(rest);
        assert forall|i: int| 0 <= i < rest.len() implies !(#[trigger] rest[i]).takes_strong(
            p,
            id,
        ) by {
            assert(rest[i] == ops[i]);
        }
        assert(!ops[ops.len() - 1].takes_strong(p, id));
        lemma_strong_reference_keeps_value(w, rest, p, id);
        lemma_operations_keep_invariant(w, rest);
        lemma_operation_keeps_invariant(middle, op);
        if !(op is Write) && !(op is WriteUnique) {
            lemma_operation_keeps_references(middle, op);
        }
        if forall|i: int| 0 <= i < ops.len() ==> !(#[trigger] ops[i]).writes(p) {
            assert forall|i: int| 0 <= i < rest.len() implies !(#[trigger] rest[i]).writes(
                p,
            ) by {
                assert(rest[i] == ops[i]);
            }
            assert(!ops[ops.len() - 1].writes(p));
        }
        middle.heap.at(p as int).lemma_strong_reaches_value(id);
    }
    w.after_all(ops).heap.at(p as int).lemma_strong_reaches_value(id);
}

/// A weak reference keeps the memory of its object from being freed, whatever else
/// is done, until the reference itself is given up.
pub proof fn lemma_weak_reference_keeps_memory<T, A>(
    w: World<T, A>,
    ops: Seq<Op<T, A>>,
    p: usize,
    id: nat,
)
    requires
        w.wf(),
        w.enabled_all(ops),
        w.holds_weak(p, id),
        forall|i: int|
            0 <= i < ops.len() ==> !((#[trigger] ops[i]).place() == p && ops[i].gone()
                == Gone::Weak(id)),
    ensures
        w.after_all(ops).holds_weak(p, id),
    decreases ops.len(),
{
    if ops.len() > 0 {
        let rest = ops.drop_last();
        let op = ops.last();
        let middle = w.after_all(rest);
        assert forall|i: int| 0 <= i < rest.len() implies !((#[trigger] rest[i]).place() == p
            && rest[i].gone() == Gone::Weak(id)) by {
            assert(rest[i] == ops[i]);
        }
        assert(!(ops[ops.len() - 1].place() == p && ops[ops.len() - 1].gone() == Gone::Weak(id)));
        lemma_weak_reference_keeps_memory(w, rest, p, id);
        lemma_operations_keep_invariant(w, rest);
        if !(op is Write) && !(op is WriteUnique) {
            lemma_operation_keeps_references(middle, op);
        }
    }
}

/// A shared object without a value stays without one, whatever is done: a value is
/// dropped or moved out at most once.
pub proof fn lemma_value_gone_for_good<T, A>(w: World<T, A>, ops: Seq<Op<T, A>>, p: usize)
    requires
        w.wf(),
        w.enabled_all(ops),
        w.heap.has(p as int),
        w.heap.at(p as int).refs.unique is None,
        w.value(p) is None,
    ensures
        ({
            let later = w.after_all(ops);
            later.heap.has(p as int) ==> later.heap.at(p as int).refs.unique is None
                && later.value(p) is None
        }),
    decreases ops.len(),
{
    if ops.len() > 0 {
        let middle = w.after_all(ops.drop_last());
        lemma_value_gone_for_good(w, ops.drop_last(), p);
        lemma_operations_keep_invariant(w, ops.drop_last());
        lemma_objects_stay(w, ops.drop_last());
        if middle.heap.has(p as int) {
            lemma_settled(middle, ops.last(), p);
        } else {
            lemma_stays_freed(middle, ops.last(), p);
        }
    }
}

/// Once the counts of an object are merged, it is never biased again, whatever is done.
pub proof fn lemma_merged_for_good<T, A>(w: World<T, A>, ops: Seq<Op<T, A>>, p: usize)
    requires
        w.wf(),
        w.enabled_all(ops),
        w.heap.has(p as int),
        w.heap.at(p as int).refs.unique is None,
        w.heap.at(p as int).counts.shared.merged,
    ensures
        ({
            let later = w.after_all(ops);
            later.heap.has(p as int) ==> {
                &&& later.heap.at(p as int).refs.unique is None
                &&& later.heap.at(p as int).counts.shared.merged
                &&& later.heap.at(p as int).counts.biased.owner_id is None
            }
        }),
    decreases ops.len(),
{
    if ops.len() > 0 {
        let middle = w.after_all(ops.drop_last());
        lemma_merged_for_good(w, ops.drop_last(), p);
        lemma_operations_keep_invariant(w, ops.drop_last());
        lemma_objects_stay(w, ops.drop_last());
        if middle.heap.has(p as int) {
            lemma_settled(middle, ops.last(), p);
        } else {
            lemma_stays_freed(middle, ops.last(), p);
        }
    }
    lemma_operations_keep_invariant(w, ops);
}

/// An object stays biased towards the same thread until its counts are merged.
pub proof fn lemma_owner_until_merged<T, A>(w: World<T, A>, op: Op<T, A>, p: usize)
    requires
        w.wf(),
        w.enabled(op),
        w.heap.has(p as int),
        w.heap.at(p as int).biased(),
    ensures
        w.after(op).heap.has(p as int) && w.after(op).heap.at(p as int).biased() ==> w.after(
            op,
        ).heap.at(p as int).counts.biased.owner_id == w.heap.at(p as int).counts.biased.owner_id,
{
    lemma_settled(w, op, p);
}

/// A new object is biased towards the thread that made it, where that thread has an
/// identifier, and whatever is done later, it is never biased towards another one.
pub proof fn lemma_biased_towards_maker<T, A>(
    w: World<T, A>,
    value: T,
    alloc: A,
    ops: Seq<Op<T, A>>,
)
    requires
        w.wf(),
        w.heap.has_room(),
        w.allocated(value, alloc).enabled_all(ops),
    ensures
        ({
            let p = w.heap.objects.len() as int;
            let made = w.allocated(value, alloc);
            let later = made.after_all(ops);
            &&& made.heap.at(p).biased() <==> made.this_id() is Some
            &&& made.heap.at(p).counts.biased.owner_id == made.this_id()
            &&& later.heap.has(p) ==> later.heap.at(p).refs.unique is None
            &&& later.heap.has(p) && later.heap.at(p).biased()
                ==> later.heap.at(p).counts.biased.owner_id == made.this_id()
        }),
    decreases ops.len(),
{
    let p = w.heap.objects.len() as usize;
    let made = w.allocated(value, alloc);
    lemma_world_allocated(w, value, alloc);
    if ops.len() > 0 {
        let rest = ops.drop_last();
        let middle = made.after_all(rest);
        lemma_biased_towards_maker(w, value, alloc, rest);
        lemma_operations_keep_invariant(made, rest);
        if middle.heap.has(p as int) {
            lemma_settled(middle, ops.last(), p);
        } else {
            lemma_objects_stay(made, rest);
            lemma_stays_freed(middle, ops.last(), p);
        }
    }
}

/// No operation takes an address away.
proof fn lemma_objects_stay<T, A>(w: World<T, A>, ops: Seq<Op<T, A>>)
    requires
        w.wf(),
        w.enabled_all(ops),
    ensures
        w.heap.objects.len() <= w.after_all(ops).heap.objects.len(),
    decreases ops.len(),
{
    if ops.len() > 0 {
        let middle = w.after_all(ops.drop_last());
        lemma_objects_stay(w, ops.drop_last());
        lemma_operations_keep_invariant(w, ops.drop_last());
        if !(ops.last() is Write) && !(ops.last() is WriteUnique) {
            lemma_operation_keeps_references(middle, ops.last());
        }
    }
}

/// What an operation leaves as it is of a shared object.
proof fn lemma_settled<T, A>(w: World<T, A>, op: Op<T, A>, p: usize)
    requires
        w.wf(),
        w.enabled(op),
        w.heap.has(p as int),
        w.heap.at(p as int).refs.unique is None,
    ensures
        w.after(op).heap.has(p as int) ==> {
            let before = w.heap.at(p as int);
            let later = w.after(op).heap.at(p as int);
            &&& later.refs.unique is None
            &&& before.value is None ==> later.value is None
            &&& before.counts.shared.merged ==> later.counts.shared.merged
            &&& later.counts.shared.merged || later.counts.biased.owner_id
                == before.counts.biased.owner_id
        },
{
    let later = w.after(op);
    assert(w.threads.local_ok(w.threads.current));
    if op is End || op is Collect || op is CollectForce {
        let queue = w.threads.own_queue();
        match w.threads.this().state() {
            Some(state) => {
                assert(w.queue_ok(state.shared_info as int));
            },
            None => {
                lemma_heap_merged_nothing(w.heap);
            },
        }
        if queued(queue, p as int) {
            let j = choose|j: int| 0 <= j < queue.len() && #[trigger] queue[j] == p;
            assert(w.heap.at(queue[j] as int).awaits_merge());
            w.heap.at(p as int).lemma_merged();
        }
    }
    match op {
        Op::Drop(q, id) => {
            let object = w.heap.at(q as int);
            object.lemma_strong_reaches_value(id);
            object.lemma_released(w.this_id(), id);
        },
        Op::Write(q, id, _) => {
            w.heap.at(q as int).lemma_strong_reaches_value(id);
        },
        _ => {},
    }
}

/// A value that leaves a shared object, and was not moved out of it, is among the
/// dropped values that are to be handed out.
pub proof fn lemma_dropped_value_discarded<T, A>(w: World<T, A>, op: Op<T, A>, p: usize)
    requires
        w.wf(),
        w.enabled(op),
        w.heap.has(p as int),
        w.heap.at(p as int).refs.unique is None,
        w.value(p) is Some,
        !(op is Unwrap && op.place() == p),
        w.after(op).heap.has(p as int) ==> w.after(op).value(p) is None,
    ensures
        w.after(op).heap.discarded.contains(w.value(p)->0),
{
    let later = w.after(op);
    let value = w.value(p)->0;
    assert(w.threads.local_ok(w.threads.current));
    if op is End || op is Collect || op is CollectForce {
        let queue = w.threads.own_queue();
        match w.threads.this().state() {
            Some(state) => {
                assert(w.queue_ok(state.shared_info as int));
            },
            None => {
                lemma_heap_merged_nothing(w.heap);
            },
        }
        assert(queued(queue, p as int));
        let j = choose|j: int| 0 <= j < queue.len() && #[trigger] queue[j] == p;
        assert(w.heap.at(queue[j] as int).awaits_merge());
        w.heap.at(p as int).lemma_merged();
        lemma_dead_value_among(w.heap, queue, j);
        let values = w.heap.dead_values(queue);
        let i = choose|i: int| 0 <= i < values.len() && values[i] == value;
        assert(later.heap.discarded[w.heap.discarded.len() + i] == value);
    }
    match op {
        Op::Drop(q, id) => {
            let object = w.heap.at(q as int);
            object.lemma_strong_reaches_value(id);
            object.lemma_released(w.this_id(), id);
            assert(q == p);
            assert(later.heap.discarded == w.heap.discarded.push(value));
            assert(later.heap.discarded[w.heap.discarded.len() as int] == value);
        },
        Op::DropWeak(q, id) => {
            w.heap.at(q as int).lemma_weak_dropped(id);
        },
        _ => {},
    }
}

/// The value of every object in a queue that no reference is left to is among those
/// that merging drops.
proof fn lemma_dead_value_among<T, A>(h: HeapView<T, A>, queue: Seq<usize>, j: int)
    requires
        0 <= j < queue.len(),
        h.dead_value(queue[j] as int) is Some,
    ensures
        h.dead_values(queue).contains(h.dead_value(queue[j] as int)->0),
    decreases queue.len(),
{
    let rest = queue.drop_last();
    let value = h.dead_value(queue[j] as int)->0;
    let values = h.dead_values(queue);
    if j < queue.len() - 1 {
        assert(rest[j] == queue[j]);
        lemma_dead_value_among(h, rest, j);
        let i = choose|i: int|
            0 <= i < h.dead_values(rest).len() && h.dead_values(rest)[i] == value;
        assert(values[i] == value);
    } else {
        assert(values[h.dead_values(rest).len() as int] == value);
    }
}

/// Memory that was freed is not used again, whatever is done.
pub proof fn lemma_freed_for_good<T, A>(w: World<T, A>, ops: Seq<Op<T, A>>, p: usize)
    requires
        w.wf(),
        w.enabled_all(ops),
        p < w.heap.objects.len(),
        !w.heap.has(p as int),
    ensures
        !w.after_all(ops).heap.has(p as int),
        p < w.after_all(ops).heap.objects.len(),
    decreases ops.len(),
{
    if ops.len() > 0 {
        lemma_freed_for_good(w, ops.drop_last(), p);
        lemma_operations_keep_invariant(w, ops.drop_last());
        lemma_stays_freed(w.after_all(ops.drop_last()), ops.last(), p);
    }
}

/// No operation uses memory again that was freed.
proof fn lemma_stays_freed<T, A>(w: World<T, A>, op: Op<T, A>, p: usize)
    requires
        w.wf(),
        w.enabled(op),
        p < w.heap.objects.len(),
        !w.heap.has(p as int),
    ensures
        !w.after(op).heap.has(p as int),
        p < w.after(op).heap.objects.len(),
{
    if !(op is Write) && !(op is WriteUnique) {
        lemma_operation_keeps_references(w, op);
        assert(w.after(op).heap.has(p as int) ==> w.heap.has(p as int));
    }
}

/// A value that no strong reference is left to has been dropped, or its object waits
/// in the queue of a live thread, which has been told to collect.
pub proof fn lemma_unreferenced_dropped_or_queued<T, A>(w: World<T, A>, p: usize)
    requires
        w.wf(),
        w.heap.has(p as int),
        w.heap.at(p as int).refs.unique is None,
        w.heap.at(p as int).refs.strong_total() == 0,
    ensures
        w.value(p) is None || {
            let owner = w.heap.at(p as int).owner_index();
            &&& w.heap.at(p as int).awaits_merge()
            &&& 0 <= owner < w.threads.infos.len()
            &&& w.threads.infos[owner].queue is Some
            &&& w.threads.infos[owner].flag is QueuedObjects
            &&& queued(w.threads.infos[owner].objects(), p as int)
        },
{
    let object = w.heap.at(p as int);
    assert(w.object_ok(p as int));
    if object.value is Some {
        let owner = object.owner_index();
        assert(w.threads.info_ok(owner));
        let queue = w.threads.infos[owner].objects();
        let j = choose|j: int| 0 <= j < queue.len() && #[trigger] queue[j] == p as int;
        assert(queue.len() > 0);
    }
}

/// The counts of every object in a queue can be merged: its memory was not freed, it is
/// biased towards the thread of the queue, and the sum fits in the shared counter.
pub proof fn lemma_queued_can_be_merged<T, A>(w: World<T, A>, i: int, j: int)
    requires
        w.wf(),
        0 <= i < w.threads.infos.len(),
        0 <= j < w.threads.infos[i].objects().len(),
    ensures
        ({
            let p = w.threads.infos[i].objects()[j] as int;
            &&& w.heap.has(p)
            &&& w.heap.at(p).awaits_merge()
            &&& w.heap.at(p).counts.biased.owner_id == Some(w.threads.infos[i].short_id)
            &&& 0 <= w.heap.at(p).counts.strong() <= SharedCount::MAX
        }),
{
    assert(w.queue_ok(i));
    assert(w.heap.has(w.threads.infos[i].objects()[j] as int));
}

/// No object waits for a thread that has ended.
pub proof fn lemma_nothing_waits_for_dead<T, A>(w: World<T, A>, p: usize)
    requires
        w.wf(),
        w.heap.has(p as int),
        w.heap.at(p as int).awaits_merge(),
    ensures
        w.threads.infos[w.heap.at(p as int).owner_index()].queue is Some,
        w.threads.infos[w.heap.at(p as int).owner_index()].flag.live(),
{
    let owner = w.heap.at(p as int).owner_index();
    assert(w.object_ok(p as int));
    assert(w.threads.info_ok(owner));
    let queue = w.threads.infos[owner].objects();
    let j = choose|j: int| 0 <= j < queue.len() && #[trigger] queue[j] == p as int;
    assert(queue.len() > 0);
}

/// A value whose destruction was deferred is dropped when the thread that its object
/// is biased towards collects, or when that thread ends, and is then among the values
/// that are to be handed out.
pub proof fn lemma_deferred_destruction<T, A>(w: World<T, A>, p: usize)
    requires
        w.wf(),
        w.heap.has(p as int),
        w.heap.at(p as int).awaits_merge(),
        w.heap.at(p as int).refs.strong_total() == 0,
        w.heap.at(p as int).counts.biased.owner_id == w.this_id(),
    ensures
        w.processed().heap.has(p as int) ==> w.processed().value(p) is None,
        w.ended().heap.has(p as int) ==> w.ended().value(p) is None,
        w.value(p) is Some,
        w.processed().heap.discarded.contains(w.value(p)->0),
        w.ended().heap.discarded.contains(w.value(p)->0),
        !w.panicking() ==> w.collected() == w.processed(),
{
    assert(w.object_ok(p as int));
    assert(w.threads.local_ok(w.threads.current));
    w.heap.at(p as int).lemma_merged();
    lemma_dropped_value_discarded(w, Op::CollectForce, p);
    lemma_dropped_value_discarded(w, Op::End, p);
}

/// The memory of an object is there only as long as a reference to it is around, the
/// value was moved out of it, or it waits for its counts to be merged.
pub proof fn lemma_memory_has_reason<T, A>(w: World<T, A>, p: usize)
    requires
        w.wf(),
        w.heap.has(p as int),
    ensures
        ({
            let object = w.heap.at(p as int);
            ||| object.refs.strong_total() > 0
            ||| object.refs.weak_total() > 0
            ||| object.refs.unique is Some
            ||| object.awaits_merge()
        }),
{
}

/// The counters of a shared object count exactly its references: the strong ones in
/// both words together, and the weak ones beside one that all strong references
/// share.
pub proof fn lemma_counters_count_references<T, A>(w: World<T, A>, p: usize)
    requires
        w.wf(),
        w.heap.has(p as int),
        w.heap.at(p as int).refs.unique is None,
    ensures
        w.heap.at(p as int).counts.strong() == w.heap.at(p as int).refs.strong_total(),
        w.heap.at(p as int).counts.shared.merged ==> w.heap.at(
            p as int,
        ).counts.biased.biased_count == 0,
        w.heap.at(p as int).weak_count == w.heap.at(p as int).refs.weak_total() + if w.heap.at(
            p as int,
        ).counts.dead() {
            0int
        } else {
            1
        },
{
}

/// Only the thread that an object is biased towards changes the biased word.
pub proof fn lemma_only_owner_counts_biased(counts: Counts, this_id: Option<ShortThreadId>)
    requires
        !counts.biased.owned_by(this_id),
    ensures
        counts.incremented(this_id).biased == counts.biased,
        counts.decremented(this_id).biased == counts.biased,
{
}

/// Taking a reference and releasing it again on one thread leaves the number of
/// references as it was, and neither drops the value nor queues the object. Where
/// the biased counter has room, both words are as before.
pub proof fn lemma_clone_then_drop(counts: Counts, this_id: Option<ShortThreadId>)
    requires
        counts.wf(),
        !counts.dead(),
        counts.can_increment(this_id),
    ensures
        counts.incremented(this_id).decremented(this_id).strong() == counts.strong(),
        !counts.incremented(this_id).decrement_queues(this_id),
        counts.incremented(this_id).decrement_drops(this_id) ==> counts.strong() == 0,
        counts.biased.owned_by(this_id) == counts.increments_biased(this_id)
            ==> counts.incremented(this_id).decremented(this_id) == counts,
{
}

/// Merging the counts keeps the number of references, and counts all of them in the
/// shared word.
pub proof fn lemma_merge_keeps_number(counts: Counts)
    requires
        counts.wf(),
        counts.strong() <= SharedCount::MAX,
    ensures
        counts.merged().wf(),
        counts.merged().strong() == counts.strong(),
        counts.merged().shared.shared_count.count == counts.strong(),
{
}

/// A weak reference can be upgraded exactly while the object is shared and its value
/// is there.
pub proof fn lemma_upgradable_while_value<T, A>(w: World<T, A>, weak: Weak<T, A>)
    requires
        w.wf(),
        weak.owned_in(w),
        !weak.reserved(),
    ensures
        weak.upgradable(w) <==> weak.object(w).refs.unique is None && weak.object(w).value is Some,
{
    weak.object(w).lemma_weak_reaches_counts(weak.id());
}

/// Taking a weak reference from a strong one adds one to the number of weak
/// references, and leaves the strong count and the value as they are. It can be
/// upgraded to a reference to the same object, and dropping it brings the number of
/// weak references back.
pub proof fn lemma_downgrade_round_trip<T, A>(w: World<T, A>, this: Brc<T, A>, weak: Weak<T, A>)
    requires
        w.wf(),
        this.valid_in(w),
        this.object(w).can_downgrade(),
        this.object(w).counts.can_increment(w.this_id()),
        weak.address() == this.address(),
        weak.id() == w.heap.next,
    ensures
        ({
            let object = this.object(w);
            let downgraded = w.downgraded(this.address());
            let upgraded = downgraded.cloned(weak.address());
            let back = downgraded.weak_dropped(weak.address(), weak.id());
            let beside = upgraded.weak_dropped(weak.address(), weak.id());
            &&& downgraded.wf() && this.valid_in(downgraded) && weak.owned_in(downgraded)
            &&& this.object(downgraded).refs.weak_total() == object.refs.weak_total() + 1
            &&& this.object(downgraded).refs.strong_total() == object.refs.strong_total()
            &&& this.object(downgraded).counts == object.counts
            &&& this.object(downgraded).value == object.value
            &&& weak.upgradable(downgraded)
            &&& upgraded.wf() && upgraded.holds_strong(this.address(), downgraded.heap.next)
            &&& this.object(upgraded).refs.strong_total() == object.refs.strong_total() + 1
            &&& this.object(upgraded).refs.weak_total() == object.refs.weak_total() + 1
            &&& this.object(upgraded).value == object.value
            &&& back.wf() && this.valid_in(back)
            &&& this.object(back).refs.weak_total() == object.refs.weak_total()
            &&& this.object(back).counts == object.counts
            &&& this.object(back).value == object.value
            &&& beside.wf() && this.valid_in(beside)
            &&& beside.holds_strong(this.address(), downgraded.heap.next)
            &&& this.object(beside).refs.strong_total() == object.refs.strong_total() + 1
            &&& this.object(beside).refs.weak_total() == object.refs.weak_total()
            &&& this.object(beside).value == object.value
        }),
{
    let p = this.address();
    let object = this.object(w);
    let downgraded = w.downgraded(p);
    let upgraded = downgraded.cloned(p);
    w.lemma_address(p);
    object.lemma_strong_reaches_value(this.id());
    lemma_world_downgraded(w, p);
    lemma_world_cloned(downgraded, p);
    assert(!object.refs.weak.contains(weak.id()));
    assert(!object.refs.strong.contains(downgraded.heap.next));
    assert(upgraded.holds_weak(p, weak.id()));
    lemma_world_weak_dropped(downgraded, p, weak.id());
    lemma_world_weak_dropped(upgraded, p, weak.id());
    assert(object.refs.weak.insert(weak.id()).remove(weak.id()) =~= object.refs.weak);
}

/// A weak reference to an object that does not wait for its counts to be merged can be
/// upgraded exactly where a strong reference is left. This adds one strong reference
/// to the same value, and dropping that one, with or without collecting, brings the
/// number back.
pub proof fn lemma_upgrade_round_trip<T, A>(w: World<T, A>, weak: Weak<T, A>)
    requires
        w.wf(),
        weak.owned_in(w),
        !weak.reserved() ==> !weak.object(w).awaits_merge(),
        weak.upgradable(w) ==> weak.object(w).counts.can_increment(w.this_id()),
    ensures
        weak.upgradable(w) <==> !weak.reserved() && weak.object(w).refs.strong_total() > 0,
        weak.upgradable(w) ==> {
            let object = weak.object(w);
            let id = w.heap.next;
            let upgraded = w.cloned(weak.address());
            let dropped = upgraded.dropped(weak.address(), id);
            let collected = upgraded.collected().dropped(weak.address(), id);
            &&& upgraded.wf() && upgraded.holds_strong(weak.address(), id)
            &&& weak.object(upgraded).refs.strong_total() == object.refs.strong_total() + 1
            &&& weak.object(upgraded).refs.weak_total() == object.refs.weak_total()
            &&& weak.object(upgraded).value == object.value
            &&& dropped.wf() && weak.owned_in(dropped)
            &&& weak.object(dropped).refs.strong_total() == object.refs.strong_total()
            &&& weak.object(dropped).refs.weak_total() == object.refs.weak_total()
            &&& weak.object(dropped).value == object.value
            &&& collected.wf() && weak.owned_in(collected)
            &&& weak.object(collected).refs.strong_total() == object.refs.strong_total()
            &&& weak.object(collected).refs.weak_total() == object.refs.weak_total()
            &&& weak.object(collected).value == object.value
        },
{
    if !weak.reserved() {
        let p = weak.address();
        let object = weak.object(w);
        object.lemma_weak_reaches_counts(weak.id());
        if weak.upgradable(w) {
            let id = w.heap.next;
            let upgraded = w.cloned(p);
            lemma_world_cloned(w, p);
            object.lemma_cloned(w.this_id(), id);
            lemma_cloned_keeps(w, p);
            assert(w.holds_weak(p, weak.id()));
            assert(upgraded.holds_weak(p, weak.id()));
            lemma_drop_beside_others(upgraded, p, id);
            lemma_world_collected(upgraded);
            lemma_collected_keeps(upgraded);
            lemma_collected_leaves(upgraded, p);
            lemma_drop_beside_others(upgraded.collected(), p, id);
            lemma_dropped_keeps(upgraded, p, id);
            lemma_dropped_keeps(upgraded.collected(), p, id);
            assert(upgraded.collected().holds_weak(p, weak.id()));
        }
    }
}

/// Collecting leaves an object as it is that does not wait for its counts to be merged.
proof fn lemma_collected_leaves<T, A>(w: World<T, A>, p: usize)
    requires
        w.wf(),
        w.heap.has(p as int),
        !w.heap.at(p as int).awaits_merge(),
    ensures
        w.collected().heap.has(p as int),
        w.collected().heap.at(p as int) == w.heap.at(p as int),
{
    assert(w.threads.local_ok(w.threads.current));
    let queue = w.threads.own_queue();
    match w.threads.this().state() {
        Some(state) => {
            assert(w.queue_ok(state.shared_info as int));
        },
        None => {
            lemma_heap_merged_nothing(w.heap);
        },
    }
    if queued(queue, p as int) {
        let j = choose|j: int| 0 <= j < queue.len() && #[trigger] queue[j] == p;
        assert(w.heap.at(queue[j] as int).awaits_merge());
    }
}

/// Dropping a strong reference beside others leaves all else as it is.
proof fn lemma_drop_beside_others<T, A>(w: World<T, A>, p: usize, id: nat)
    requires
        w.wf(),
        w.holds_strong(p, id),
        w.heap.at(p as int).refs.strong_total() >= 2,
        !w.heap.at(p as int).awaits_merge(),
    ensures
        ({
            let object = w.heap.at(p as int);
            let later = w.dropped(p, id);
            &&& later.wf()
            &&& later.heap.has(p as int)
            &&& later.heap.at(p as int).refs.strong_total() == object.refs.strong_total() - 1
            &&& later.heap.at(p as int).refs.weak == object.refs.weak
            &&& later.heap.at(p as int).refs.weak_total() == object.refs.weak_total()
            &&& later.heap.at(p as int).value == object.value
        }),
{
    let object = w.heap.at(p as int);
    object.lemma_strong_reaches_value(id);
    object.lemma_released(w.this_id(), id);
    lemma_world_dropped(w, p, id);
    if object.counts.decrement_queues(w.this_id()) {
        object.released(w.this_id(), id).lemma_merged();
    }
}

/// The weak reference that refers to nothing can never be upgraded.
pub proof fn lemma_reserved_never_upgradable<T, A>(w: World<T, A>, weak: Weak<T, A>)
    requires
        weak.reserved(),
    ensures
        !weak.upgradable(w),
{
}

/// Weak references to an object with a unique owner cannot be upgraded until the
/// object is shared, and can be from then on.
pub proof fn lemma_unique_not_upgradable<T, A>(
    w: World<T, A>,
    weak: Weak<T, A>,
    p: usize,
    id: nat,
)
    requires
        w.wf(),
        w.holds_unique(p, id),
        w.value(p) is Some,
        weak.owned_in(w),
        !weak.reserved(),
        weak.address() == p,
    ensures
        !weak.upgradable(w),
        weak.owned_in(w.shared(p, id)),
        weak.upgradable(w.shared(p, id)),
{
    lemma_world_initialised(w);
    lemma_shared_keeps(w, p, id);
    assert(w.holds_weak(weak.address(), weak.id()));
}

/// A reference that is turned into an address and back is a reference to the same
/// object, with the same counts and the same value.
pub proof fn lemma_raw_round_trip<T, A>(w: World<T, A>, p: usize, id: nat)
    requires
        w.wf(),
        w.holds_strong(p, id),
    ensures
        ({
            let later = w.strong_to_raw(p, id).strong_from_raw(p);
            &&& later.wf()
            &&& later.holds_strong(p, w.heap.next)
            &&& later.value(p) == w.value(p)
            &&& later.heap.at(p as int).counts == w.heap.at(p as int).counts
            &&& later.raw_strong(p) == w.raw_strong(p)
            &&& w.keeps_but(later, p, Gone::Strong(id))
        }),
{
    let middle = w.strong_to_raw(p, id);
    let later = middle.strong_from_raw(p);
    lemma_world_raw(w, p, id);
    lemma_world_raw(middle, p, 0);
    lemma_objects_keep(w, later, p, Gone::Strong(id));
}

/// A weak reference that is turned into an address and back is a weak reference to
/// the same object, with the same counts.
pub proof fn lemma_weak_raw_round_trip<T, A>(w: World<T, A>, p: usize, id: nat)
    requires
        w.wf(),
        w.holds_weak(p, id),
    ensures
        ({
            let later = w.weak_to_raw(p, id).weak_from_raw(p);
            &&& later.wf()
            &&& later.holds_weak(p, w.heap.next)
            &&& later.heap.at(p as int).counts == w.heap.at(p as int).counts
            &&& later.heap.at(p as int).weak_count == w.heap.at(p as int).weak_count
            &&& later.raw_weak(p) == w.raw_weak(p)
            &&& w.keeps_but(later, p, Gone::Weak(id))
        }),
{
    let middle = w.weak_to_raw(p, id);
    let later = middle.weak_from_raw(p);
    lemma_world_raw(w, p, id);
    lemma_world_raw(middle, p, 0);
    lemma_objects_keep(w, later, p, Gone::Weak(id));
}

/// A thread that has died never takes part in biased reference counting again,
/// whatever is done: it has no identifier, and finds no state.
pub proof fn lemma_dead_for_good<T, A>(w: World<T, A>, ops: Seq<Op<T, A>>, k: int)
    requires
        w.wf(),
        w.enabled_all(ops),
        0 <= k < w.threads.locals.len(),
        w.threads.locals[k].fast.status is DeadOrDying,
    ensures
        ({
            let later = w.after_all(ops);
            &&& k < later.threads.locals.len()
            &&& later.threads.locals[k].fast.status is DeadOrDying
            &&& later.threads.locals[k].fast.short_id is None
            &&& later.threads.locals[k].state() is None
        }),
    decreases ops.len(),
{
    if ops.len() > 0 {
        let middle = w.after_all(ops.drop_last());
        lemma_dead_for_good(w, ops.drop_last(), k);
        lemma_operations_keep_invariant(w, ops.drop_last());
        assert(middle.threads.local_ok(k));
    }
    lemma_operations_keep_invariant(w, ops);
    assert(w.after_all(ops).threads.local_ok(k));
}

/// Two registered threads have different identifiers.
pub proof fn lemma_thread_ids_differ(t: ThreadsView, k: int, l: int)
    requires
        t.wf(),
        0 <= k < t.locals.len(),
        0 <= l < t.locals.len(),
        k != l,
        t.locals[k].state() is Some,
        t.locals[l].state() is Some,
    ensures
        t.locals[k].state()->0.short_id != t.locals[l].state()->0.short_id,
{
    assert(t.local_ok(k));
    assert(t.local_ok(l));
}

/// Identifiers are given once and for all: whatever is done, a registered thread that has
/// ended stays dead, and what is known of any registered thread under its identifier
/// belongs to the same thread as before.
pub proof fn lemma_identifiers_for_good<T, A>(w: World<T, A>, ops: Seq<Op<T, A>>, i: int)
    requires
        w.wf(),
        w.enabled_all(ops),
        0 <= i < w.threads.infos.len(),
    ensures
        ({
            let before = w.threads.infos[i];
            let later = w.after_all(ops).threads.infos[i];
            &&& w.threads.infos.len() <= w.after_all(ops).threads.infos.len() <= 0xfff
            &&& later.short_id == before.short_id
            &&& later.thread == before.thread
            &&& before.queue is None ==> later.queue is None && later.flag is Dead
        }),
    decreases ops.len(),
{
    lemma_operations_keep_invariant(w, ops);
    assert(w.threads.info_ok(i));
    if ops.len() > 0 {
        let middle = w.after_all(ops.drop_last());
        lemma_identifiers_for_good(w, ops.drop_last(), i);
        lemma_operations_keep_invariant(w, ops.drop_last());
        lemma_identifiers_stay(middle, ops.last(), i);
        assert(w.after_all(ops).threads.info_ok(i));
    }
}

/// No operation gives an identifier to another thread.
proof fn lemma_identifiers_stay<T, A>(w: World<T, A>, op: Op<T, A>, i: int)
    requires
        w.wf(),
        w.enabled(op),
        0 <= i < w.threads.infos.len(),
    ensures
        w.threads.infos.len() <= w.after(op).threads.infos.len(),
        w.after(op).threads.infos[i].short_id == w.threads.infos[i].short_id,
        w.after(op).threads.infos[i].thread == w.threads.infos[i].thread,
        w.threads.infos[i].queue is None ==> w.after(op).threads.infos[i].queue is None,
{
    assert(w.threads.local_ok(w.threads.current));
    lemma_initialised(w.threads);
    assert(w.threads.initialised().infos[i] == w.threads.infos[i]);
    assert(w.threads.initialised().local_ok(w.threads.current));
    match op {
        Op::Drop(p, id) => {
            w.heap.at(p as int).lemma_strong_reaches_value(id);
            w.heap.at(p as int).lemma_released(w.this_id(), id);
            assert(w.object_ok(p as int));
        },
        _ => {},
    }
}

/// A registered thread stays registered under its identifier until it ends itself, whatever
/// is done.
pub proof fn lemma_registered_until_end<T, A>(w: World<T, A>, op: Op<T, A>, k: int)
    requires
        w.wf(),
        w.enabled(op),
        0 <= k < w.threads.locals.len(),
        w.threads.locals[k].slow matches LazyState::Ready(Ok(_)),
        !(op is End && w.threads.current == k),
    ensures
        k < w.after(op).threads.locals.len(),
        w.after(op).threads.locals[k].slow == w.threads.locals[k].slow,
        w.after(op).threads.locals[k].fast == w.threads.locals[k].fast,
        w.after(op).threads.infos[w.threads.locals[k].state()->0.shared_info as int].queue is Some,
{
    lemma_operation_keeps_invariant(w, op);
    assert(w.threads.local_ok(k));
    assert(w.threads.local_ok(w.threads.current));
    lemma_initialised(w.threads);
    assert(w.after(op).threads.local_ok(k));
}

/// Whether every thread that was refused for want of an identifier was so once all
/// identifiers were given.
pub open spec fn refused_only_when_full(t: ThreadsView) -> bool {
    forall|k: int|
        0 <= k < t.locals.len() ==> (#[trigger] t.locals[k].slow matches LazyState::Ready(
            Err(ThreadStateInitError::IdOverflow(_)),
        ) ==> t.infos.len() == 0xfff)
}

/// As long as fewer than 0xfff threads were registered, no thread is refused, whatever is done.
pub proof fn lemma_refused_only_when_full<T, A>(w: World<T, A>, ops: Seq<Op<T, A>>)
    requires
        w.wf(),
        w.enabled_all(ops),
        refused_only_when_full(w.threads),
    ensures
        refused_only_when_full(w.after_all(ops).threads),
    decreases ops.len(),
{
    lemma_operations_keep_invariant(w, ops);
    if ops.len() > 0 {
        let op = ops.last();
        let middle = w.after_all(ops.drop_last());
        let later = w.after_all(ops);
        lemma_refused_only_when_full(w, ops.drop_last());
        lemma_operations_keep_invariant(w, ops.drop_last());
        if middle.threads.infos.len() > 0 {
            lemma_identifiers_stay(middle, op, 0);
        }
        lemma_initialised(middle.threads);
        assert(middle.threads.local_ok(middle.threads.current));
        assert forall|k: int| 0 <= k < later.threads.locals.len() implies (
        #[trigger] later.threads.locals[k].slow matches LazyState::Ready(
            Err(ThreadStateInitError::IdOverflow(_)),
        ) ==> later.threads.infos.len() == 0xfff) by {
            if k < middle.threads.locals.len() {
                assert(middle.threads.locals[k].slow == middle.threads.locals[k].slow);
            }
        }
    }
}

/// What a thread finds of its state: the state itself where it is registered, that there is
/// no identifier for it where it was refused for that, and that it is dead otherwise.
pub proof fn lemma_state_found(t: ThreadsView)
    requires
        t.wf(),
    ensures
        t.initialised().this_id() matches Some(id) ==> t.initialised().access() == Ok::<
            _,
            LocalThreadAccessError,
        >(LocalThreadState { shared_info: (id.id - 1) as usize, short_id: id }),
        t.initialised().this_id() is None ==> t.initialised().access() is Err,
        t.initialised().access() matches Err(e) ==> (e == LocalThreadAccessError::Dead
            <==> t.locals[t.current].fast.status is DeadOrDying
            || t.locals[t.current].slow is Destroyed),
        t.initialised().access() matches Err(e) ==> e == LocalThreadAccessError::Dead
            || e is IdOverflow,
{
    lemma_initialised(t);
    assert(t.local_ok(t.current));
    assert(t.initialised().local_ok(t.current));
}

/// Starting a thread, letting another one run, unwinding, and making a state anew touch
/// neither an object nor a queue. A thread that starts has not used its state yet, and the
/// state of every other thread stays as it is.
pub proof fn lemma_threads_only_effect<T, A>(w: World<T, A>, op: Op<T, A>)
    requires
        w.wf(),
        w.enabled(op),
        op is Spawn || op is Enter || op is Unwind || op is Revive,
    ensures
        w.after(op).heap == w.heap,
        w.after(op).threads.infos == w.threads.infos,
        w.after(op).threads.exhausted == w.threads.exhausted,
        forall|k: int|
            0 <= k < w.threads.locals.len() && !(k == w.threads.current && (op is Unwind
                || op is Revive)) ==> #[trigger] w.after(op).threads.locals[k]
                == w.threads.locals[k],
        op is Spawn ==> {
            let fresh = w.after(op).threads.locals[w.threads.locals.len() as int];
            &&& fresh.slow is Unset
            &&& fresh.fast.status is Uninit
            &&& fresh.fast.short_id is None
            &&& !fresh.panicking
        },
        op matches Op::Enter(thread) ==> w.after(op).threads.current == thread,
        !(op is Enter) ==> w.after(op).threads.current == w.threads.current,
        op matches Op::Unwind(panicking) ==> {
            let here = w.threads.locals[w.threads.current];
            w.after(op).threads.locals[w.threads.current] == (ThreadLocal { panicking, ..here })
        },
        op is Revive ==> {
            let here = w.threads.locals[w.threads.current];
            let later = w.after(op).threads.locals[w.threads.current];
            &&& later.fast == here.fast
            &&& later.panicking == here.panicking
            &&& here.slow is Destroyed ==> later.slow is Unset
            &&& !(here.slow is Destroyed) ==> later.slow == here.slow
        },
{
}

/// As long as fewer than 0xfff threads were registered, every thread that has not ended has an
/// identifier or gets one on first use, whatever was done before. So what it makes is biased
/// towards it.
pub proof fn lemma_live_threads_have_identifiers<T, A>(w: World<T, A>, ops: Seq<Op<T, A>>)
    requires
        w.wf(),
        w.enabled_all(ops),
        refused_only_when_full(w.threads),
    ensures
        ({
            let later = w.after_all(ops).threads;
            let here = later.locals[later.current];
            later.infos.len() < 0xfff && !(here.fast.status is DeadOrDying) && !(
            here.slow is Destroyed) ==> can_have_identifier(later)
        }),
{
    let later = w.after_all(ops).threads;
    lemma_refused_only_when_full(w, ops);
    lemma_operations_keep_invariant(w, ops);
    assert(later.local_ok(later.current));
    assert(later.locals[later.current].slow == later.locals[later.current].slow);
}

} // verus!
