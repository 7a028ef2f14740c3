//! Where the values are, whatever is done.
//!
//! A value lies in an object, or it was dropped and waits to be handed out, or it was
//! handed to the caller. It is never lost and never there twice.
use crate::effects::{lemma_collect_drops, lemma_drop_effect, lemma_weak_drop_effect};
use crate::heap::{queued, with_last, HeapView};
use crate::laws::{lemma_operations_keep_invariant, Op};
use crate::object::Obj;
use crate::world::{
    lemma_collected_keeps, lemma_heap_merged_nothing, lemma_world_collected, World,
};
use vstd::prelude::*;

verus! {

/// How many times a value is in an object: once or not at all.
pub open spec fn times_in<T, A>(object: Option<Obj<T, A>>, value: T) -> nat {
    if object is Some && object->0.value == Some(value) {
        1
    } else {
        0
    }
}

/// How many times a value is in all objects.
pub open spec fn times_in_all<T, A>(objects: Seq<Option<Obj<T, A>>>, value: T) -> nat
    decreases objects.len(),
{
    if objects.len() == 0 {
        0
    } else {
        times_in_all(objects.drop_last(), value) + times_in(objects.last(), value)
    }
}

/// How many times a value is in a sequence.
pub open spec fn times_among<T>(values: Seq<T>, value: T) -> nat
    decreases values.len(),
{
    if values.len() == 0 {
        0
    } else {
        times_among(values.drop_last(), value) + if values.last() == value {
            1nat
        } else {
            0
        }
    }
}

impl<T, A> World<T, A> {
    /// How many times a value is in an object or among the dropped values.
    pub open spec fn times(self, value: T) -> nat {
        times_in_all(self.heap.objects, value) + times_among(self.heap.discarded, value)
    }

    /// How many times an operation brings a value in.
    pub open spec fn brought(self, op: Op<T, A>, value: T) -> nat {
        let new = match op {
            Op::Allocate(new, _) => Some(new),
            Op::Write(_, _, new) => Some(new),
            Op::WriteUnique(_, _, new) => new,
            _ => None,
        };
        if new == Some(value) {
            1
        } else {
            0
        }
    }

    /// How many times an operation gives a value to the caller: with those that it hands
    /// out, or as the one that another one takes the place of or that is moved out.
    pub open spec fn given(self, op: Op<T, A>, value: T) -> nat {
        match op {
            Op::HandOut => times_among(self.heap.discarded, value),
            Op::Write(p, _, _) => times_in(self.heap.objects[p as int], value),
            Op::WriteUnique(p, _, _) => times_in(self.heap.objects[p as int], value),
            Op::Unwrap(p, _) => times_in(self.heap.objects[p as int], value),
            Op::DropUnique(p, _) => times_in(self.heap.objects[p as int], value),
            _ => 0,
        }
    }

    /// How many times a sequence of operations brings a value in.
    pub open spec fn brought_all(self, ops: Seq<Op<T, A>>, value: T) -> nat
        decreases ops.len(),
    {
        if ops.len() == 0 {
            0
        } else {
            self.brought_all(ops.drop_last(), value) + self.after_all(ops.drop_last()).brought(
                ops.last(),
                value,
            )
        }
    }

    /// How many times a sequence of operations gives a value to the caller.
    pub open spec fn given_all(self, ops: Seq<Op<T, A>>, value: T) -> nat
        decreases ops.len(),
    {
        if ops.len() == 0 {
            0
        } else {
            self.given_all(ops.drop_last(), value) + self.after_all(ops.drop_last()).given(
                ops.last(),
                value,
            )
        }
    }
}

/// Replacing an object takes its value away and brings that of the new one.
proof fn lemma_times_updated<T, A>(
    objects: Seq<Option<Obj<T, A>>>,
    p: int,
    object: Option<Obj<T, A>>,
    value: T,
)
    requires
        0 <= p < objects.len(),
    ensures
        times_in_all(objects.update(p, object), value) + times_in(objects[p], value)
            == times_in_all(objects, value) + times_in(object, value),
    decreases objects.len(),
{
    let updated = objects.update(p, object);
    if p == objects.len() - 1 {
        assert(updated.drop_last() =~= objects.drop_last());
    } else {
        assert(updated.drop_last() =~= objects.drop_last().update(p, object));
        lemma_times_updated(objects.drop_last(), p, object, value);
    }
}

/// A value is as many times in two sequences as in both of them one after the other.
proof fn lemma_times_among_both<T>(first: Seq<T>, rest: Seq<T>, value: T)
    ensures
        times_among(first + rest, value) == times_among(first, value) + times_among(rest, value),
    decreases rest.len(),
{
    if rest.len() == 0 {
        assert(first + rest =~= first);
    } else {
        assert((first + rest).drop_last() =~= first + rest.drop_last());
        lemma_times_among_both(first, rest.drop_last(), value);
    }
}

/// One more value at the end is there once more.
proof fn lemma_times_among_last<T>(values: Seq<T>, last: Option<T>, value: T)
    ensures
        times_among(with_last(values, last), value) == times_among(values, value) + if last
            == Some(value) {
            1nat
        } else {
            0
        },
{
    if last is Some {
        assert(values.push(last->0).drop_last() =~= values);
    }
}

/// Merging the counts of the objects in a queue moves the values that it drops out of the
/// objects.
proof fn lemma_times_merged<T, A>(h: HeapView<T, A>, queue: Seq<usize>, value: T)
    requires
        queue.no_duplicates(),
        forall|j: int| 0 <= j < queue.len() ==> h.has(#[trigger] queue[j] as int),
    ensures
        times_in_all(h.merged(queue).objects, value) + times_among(h.dead_values(queue), value)
            == times_in_all(h.objects, value),
    decreases queue.len(),
{
    if queue.len() == 0 {
        assert(queue =~= Seq::empty());
        lemma_heap_merged_nothing(h);
    } else {
        let rest = queue.drop_last();
        let p = queue.last() as int;
        let middle = h.merged(rest);
        let after = h.at(p).merged();
        assert(h.has(queue[queue.len() - 1] as int));
        assert forall|j: int| 0 <= j < rest.len() implies h.has(#[trigger] rest[j] as int) by {
            assert(rest[j] == queue[j]);
        }
        lemma_times_merged(h, rest, value);
        assert(!queued(rest, p)) by {
            if queued(rest, p) {
                let j = choose|j: int| 0 <= j < rest.len() && #[trigger] rest[j] == p;
                assert(queue[j] == queue[queue.len() - 1]);
            }
        }
        assert(h.merged(queue).objects =~= middle.objects.update(p, after)) by {
            assert forall|q: int| queued(queue, q) <==> queued(rest, q) || q == p by {
                if queued(queue, q) {
                    let j = choose|j: int| 0 <= j < queue.len() && #[trigger] queue[j] == q;
                    assert(j < rest.len() ==> rest[j] == q);
                }
                if queued(rest, q) {
                    let j = choose|j: int| 0 <= j < rest.len() && #[trigger] rest[j] == q;
                    assert(queue[j] == q);
                }
                assert(queue[queue.len() - 1] == p);
            }
        }
        assert(middle.objects[p] == h.objects[p]);
        lemma_times_updated(middle.objects, p, after, value);
        lemma_times_among_last(h.dead_values(rest), h.dead_value(p), value);
    }
}

/// No operation loses a value or makes another one of it: what was there or is brought in is
/// still there, or is given to the caller.
pub proof fn lemma_operation_keeps_values<T, A>(w: World<T, A>, op: Op<T, A>, value: T)
    requires
        w.wf(),
        w.enabled(op),
    ensures
        w.times(value) + w.brought(op, value) == w.after(op).times(value) + w.given(op, value),
{
    let later = w.after(op);
    assert(w.threads.local_ok(w.threads.current));
    match op {
        Op::End | Op::Collect | Op::CollectForce => {
            let queue = w.threads.own_queue();
            match w.threads.this().state() {
                Some(state) => {
                    assert(w.queue_ok(state.shared_info as int));
                },
                None => {},
            }
            lemma_times_merged(w.heap, queue, value);
            lemma_times_among_both(w.heap.discarded, w.heap.dead_values(queue), value);
        },
        Op::Allocate(_, _) | Op::Reserve(_) => {
            assert(later.heap.objects.drop_last() =~= w.heap.objects);
        },
        Op::Drop(p, id) => {
            lemma_drop_effect(w, p, id);
            let object = later.heap.objects[p as int];
            lemma_times_updated(w.heap.objects, p as int, object, value);
            assert(later.heap.objects =~= w.heap.objects.update(p as int, object));
            lemma_times_among_last(w.heap.discarded, w.value(p), value);
        },
        Op::Share(p, _)
        | Op::Clone(p)
        | Op::CloneShared(p)
        | Op::Downgrade(p)
        | Op::DropUnique(p, _)
        | Op::Write(p, _, _)
        | Op::WriteUnique(p, _, _)
        | Op::Unwrap(p, _)
        | Op::StrongToRaw(p, _)
        | Op::StrongFromRaw(p)
        | Op::WeakToRaw(p, _)
        | Op::WeakFromRaw(p) => {
            let object = later.heap.objects[p as int];
            lemma_times_updated(w.heap.objects, p as int, object, value);
            assert(later.heap.objects =~= w.heap.objects.update(p as int, object));
        },
        Op::DropWeak(p, id) => {
            let object = later.heap.objects[p as int];
            lemma_weak_drop_effect(w, p, id);
            lemma_times_updated(w.heap.objects, p as int, object, value);
            assert(later.heap.objects =~= w.heap.objects.update(p as int, object));
        },
        _ => {},
    }
}

/// Whatever is done, a value that was there or was brought in is there just as many times: in
/// an object, among the dropped values, or with the caller.
pub proof fn lemma_values_kept<T, A>(w: World<T, A>, ops: Seq<Op<T, A>>, value: T)
    requires
        w.wf(),
        w.enabled_all(ops),
    ensures
        w.times(value) + w.brought_all(ops, value) == w.after_all(ops).times(value) + w.given_all(
            ops,
            value,
        ),
    decreases ops.len(),
{
    if ops.len() > 0 {
        let rest = ops.drop_last();
        lemma_values_kept(w, rest, value);
        lemma_operations_keep_invariant(w, rest);
        lemma_operation_keeps_values(w.after_all(rest), ops.last(), value);
    }
}

/// A value that was dropped stays among those that are to be handed out until they are, and
/// in its place.
pub proof fn lemma_operation_keeps_dropped<T, A>(w: World<T, A>, op: Op<T, A>)
    requires
        w.wf(),
        w.enabled(op),
        !(op is HandOut),
    ensures
        w.heap.discarded.is_prefix_of(w.after(op).heap.discarded),
{
    match op {
        Op::End | Op::Collect | Op::CollectForce => {
            lemma_collect_drops(w);
        },
        Op::Drop(p, id) => {
            lemma_drop_effect(w, p, id);
        },
        _ => {},
    }
}

/// Whatever is done, the values that were dropped are all among those that are to be handed
/// out, and in front, until they are handed out.
pub proof fn lemma_dropped_until_handed_out<T, A>(w: World<T, A>, ops: Seq<Op<T, A>>)
    requires
        w.wf(),
        w.enabled_all(ops),
        forall|i: int| 0 <= i < ops.len() ==> !(#[trigger] ops[i] is HandOut),
    ensures
        w.heap.discarded.is_prefix_of(w.after_all(ops).heap.discarded),
    decreases ops.len(),
{
    if ops.len() > 0 {
        let rest = ops.drop_last();
        let middle = w.after_all(rest);
        assert forall|i: int| 0 <= i < rest.len() implies !(#[trigger] rest[i] is HandOut) by {
            assert(rest[i] == ops[i]);
        }
        lemma_dropped_until_handed_out(w, rest);
        lemma_operations_keep_invariant(w, rest);
        assert(!(ops[ops.len() - 1] is HandOut));
        lemma_operation_keeps_dropped(middle, ops.last());
        assert(w.heap.discarded =~= w.after_all(ops).heap.discarded.subrange(
            0,
            w.heap.discarded.len() as int,
        ));
    }
}

/// Dropping a reference after collecting hands out all values that were to be handed out
/// before, then those that collecting drops, and last the value of the object itself where
/// it is dropped with the reference.
pub proof fn lemma_drop_hands_out_all<T, A>(w: World<T, A>, p: usize, id: nat)
    requires
        w.wf(),
        w.holds_strong(p, id),
    ensures
        ({
            let collected = w.collected();
            let later = collected.dropped(p, id);
            let discarded = later.heap.discarded;
            &&& w.heap.discarded.is_prefix_of(collected.heap.discarded)
            &&& collected.heap.discarded.is_prefix_of(discarded)
            &&& w.heap.discarded.is_prefix_of(discarded)
            &&& later.heap.has(p as int) && later.value(p) is Some ==> discarded
                == collected.heap.discarded
            &&& !(later.heap.has(p as int) && later.value(p) is Some) ==> discarded
                == collected.heap.discarded.push(w.value(p)->0)
        }),
{
    lemma_collect_drops(w);
    lemma_world_collected(w);
    lemma_collected_keeps(w);
    assert(w.collected().holds_strong(p, id));
    lemma_drop_effect(w.collected(), p, id);
    assert(w.heap.discarded =~= w.collected().dropped(p, id).heap.discarded.subrange(
        0,
        w.heap.discarded.len() as int,
    ));
}

} // verus!
