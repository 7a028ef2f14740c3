//! What each operation does to the references, the values, the counters and the
//! threads.
//!
//! Everything is said of what is there before and after an operation: which
//! references there are to an object, which value it has, what its two words hold,
//! and which objects wait for which thread.
use crate::error::{BiasedCountError, ImpreciseRefCountError};
use crate::heap::{queued, HeapView};
use crate::object::{lemma_contains_len, Obj, Refs};
use crate::thread_id::ShortThreadId;
use crate::threads::{
    lemma_initialised, LazyState, ThreadStateInitError, ThreadsView,
};
use crate::world::{
    lemma_collected_keeps, lemma_world_collected, lemma_world_processed, World,
};
use vstd::prelude::*;

verus! {

/// The number of strong references: those that are held, those that were turned into
/// addresses, and the one that is still counted once the value was moved out.
pub open spec fn strong_number(refs: Refs) -> nat {
    refs.strong.len() + refs.raw_strong + if refs.moved {
        1nat
    } else {
        0
    }
}

/// The number of weak references: those that are held and those that were turned into
/// addresses.
pub open spec fn weak_number(refs: Refs) -> nat {
    refs.weak.len() + refs.raw_weak
}

/// The thread that an object is biased towards can always determine the number of its
/// strong references, queued or not. So there a reference is known to be the only one
/// exactly where it is.
pub proof fn lemma_owner_knows_number<T, A>(
    w: World<T, A>,
    p: usize,
    this_id: Option<ShortThreadId>,
)
    requires
        w.wf(),
        w.heap.has(p as int),
        w.heap.at(p as int).refs.unique is None,
        w.heap.at(p as int).counts.biased.owner_id is Some,
        w.heap.at(p as int).counts.biased.owner_id == this_id,
    ensures
        strong_number(w.heap.at(p as int).refs) <= u64::MAX,
        w.heap.at(p as int).counts.strong_count(this_id) == Ok::<u64, ImpreciseRefCountError>(
            strong_number(w.heap.at(p as int).refs) as u64,
        ),
        w.heap.at(p as int).known_unique(this_id) <==> strong_number(w.heap.at(p as int).refs)
            == 1 && weak_number(w.heap.at(p as int).refs) == 0,
{
}

/// Once the counts of an object are merged, every thread can determine the number of
/// its strong references, and knows the only reference to be the only one.
pub proof fn lemma_merged_number_known<T, A>(
    w: World<T, A>,
    p: usize,
    this_id: Option<ShortThreadId>,
)
    requires
        w.wf(),
        w.heap.has(p as int),
        w.heap.at(p as int).refs.unique is None,
        w.heap.at(p as int).counts.shared.merged,
    ensures
        strong_number(w.heap.at(p as int).refs) <= u64::MAX,
        w.heap.at(p as int).counts.strong_count(this_id) == Ok::<u64, ImpreciseRefCountError>(
            strong_number(w.heap.at(p as int).refs) as u64,
        ),
        w.heap.at(p as int).known_unique(this_id) <==> strong_number(w.heap.at(p as int).refs)
            == 1 && weak_number(w.heap.at(p as int).refs) == 0,
{
}

/// A thread that an object is not biased towards learns how many strong references the
/// shared word counts while the object is biased, which is never more than there are,
/// and does not take any reference for the only one.
pub proof fn lemma_others_know_bound<T, A>(
    w: World<T, A>,
    p: usize,
    this_id: Option<ShortThreadId>,
)
    requires
        w.wf(),
        w.heap.has(p as int),
        w.heap.at(p as int).refs.unique is None,
        !w.heap.at(p as int).counts.shared.merged,
        w.heap.at(p as int).counts.biased.owner_id != this_id,
    ensures
        ({
            let object = w.heap.at(p as int);
            let count = object.counts.shared.shared_count.count;
            &&& object.counts.strong_count(this_id) matches Err(e)
            &&& count >= 0 ==> e.lower_bound == count
            &&& count < 0 ==> e.lower_bound == 0
            &&& e.lower_bound <= strong_number(object.refs)
            &&& !object.known_unique(this_id)
        }),
{
}

/// An object that is not shared yet has no strong reference, as every thread can tell.
pub proof fn lemma_unshared_has_no_strong<T, A>(
    w: World<T, A>,
    p: usize,
    this_id: Option<ShortThreadId>,
)
    requires
        w.wf(),
        w.heap.has(p as int),
        w.heap.at(p as int).refs.unique is Some,
    ensures
        strong_number(w.heap.at(p as int).refs) == 0,
        w.heap.at(p as int).counts.strong_count(this_id) == Ok::<u64, ImpreciseRefCountError>(0),
{
}

/// The two counters that can be read add up to the number of strong references. The
/// thread that an object is biased towards reads both of them, and all other threads
/// learn whether there is a biased count at all.
pub proof fn lemma_counters_add_up<T, A>(w: World<T, A>, p: usize, this_id: Option<ShortThreadId>)
    requires
        w.wf(),
        w.heap.has(p as int),
        w.heap.at(p as int).refs.unique is None,
    ensures
        ({
            let object = w.heap.at(p as int);
            let owner = object.counts.biased.owner_id;
            let count = object.counts.shared.shared_count.count;
            &&& owner is None <==> object.counts.shared.merged
            &&& owner is None ==> {
                &&& object.counts.biased_count(this_id) == Err::<u64, BiasedCountError>(
                    BiasedCountError::NotBiased,
                )
                &&& count == strong_number(object.refs)
            }
            &&& owner is Some && owner != this_id ==> object.counts.biased_count(this_id) == Err::<
                u64,
                BiasedCountError,
            >(BiasedCountError::WrongThread)
            &&& owner is Some && owner == this_id ==> {
                &&& object.counts.biased_count(this_id) matches Ok(biased)
                &&& biased >= 1
                &&& biased + count == strong_number(object.refs)
            }
        }),
{
}

/// A thread has an identifier exactly while it is registered, and the shared state of
/// that number is its own.
pub proof fn lemma_identifier_while_registered(t: ThreadsView)
    requires
        t.wf(),
    ensures
        t.locals[t.current].slow matches LazyState::Ready(Ok(state)) ==> {
            &&& t.this_id() == Some(state.short_id)
            &&& 1 <= state.short_id.id <= t.infos.len()
            &&& t.infos[state.short_id.id - 1].thread == t.current
            &&& t.infos[state.short_id.id - 1].queue is Some
        },
        !(t.locals[t.current].slow matches LazyState::Ready(Ok(_))) ==> t.this_id() is None,
{
    assert(t.local_ok(t.current));
}

/// A live thread that has not used its state yet is registered on first use, as long as
/// fewer than 0xfff threads were, whatever became of those. It gets the next
/// identifier and an empty queue, and no other thread notices.
pub proof fn lemma_first_use_registers(t: ThreadsView)
    requires
        t.wf(),
        t.locals[t.current].slow is Unset,
        !(t.locals[t.current].fast.status is DeadOrDying),
        t.infos.len() < 0xfff,
    ensures
        ({
            let later = t.initialised();
            &&& later.locals[t.current].slow matches LazyState::Ready(Ok(state))
            &&& state.short_id.id == t.infos.len() + 1
            &&& state.shared_info == t.infos.len()
            &&& later.this_id() == Some(state.short_id)
            &&& later.infos.len() == t.infos.len() + 1
            &&& later.infos.last().short_id == state.short_id
            &&& later.infos.last().flag is Live
            &&& later.infos.last().queue == Some(Seq::<usize>::empty())
            &&& later.infos.last().thread == t.current
            &&& later.infos.drop_last() == t.infos
            &&& later.locals[t.current].panicking == t.locals[t.current].panicking
        }),
        t.initialised().current == t.current,
        t.initialised().locals.len() == t.locals.len(),
        forall|k: int|
            0 <= k < t.locals.len() && k != t.current ==> #[trigger] t.initialised().locals[k]
                == t.locals[k],
        t.initialised().exhausted == t.exhausted,
        t.identified() == t.initialised(),
{
    assert(t.initialised().infos.drop_last() =~= t.infos);
}

/// Once 0xfff threads were registered, no other one is, and a thread that has died is not
/// either. Neither has an identifier, and nothing else changes.
pub proof fn lemma_not_registered(t: ThreadsView)
    requires
        t.wf(),
        t.locals[t.current].slow is Unset,
        t.locals[t.current].fast.status is DeadOrDying || t.infos.len() >= 0xfff,
    ensures
        t.initialised().this_id() is None,
        t.identified().this_id() is None,
        t.initialised().infos == t.infos,
        t.identified().infos == t.infos,
        t.initialised().current == t.current,
        t.initialised().locals.len() == t.locals.len(),
        t.initialised().locals[t.current].fast == t.locals[t.current].fast,
        t.initialised().locals[t.current].panicking == t.locals[t.current].panicking,
        t.initialised().locals[t.current].slow matches LazyState::Ready(Err(e)) && (e
            == ThreadStateInitError::AlreadyDied
            <==> t.locals[t.current].fast.status is DeadOrDying),
        forall|k: int|
            0 <= k < t.locals.len() && k != t.current ==> #[trigger] t.initialised().locals[k]
                == t.locals[k],
{
    assert(t.local_ok(t.current));
}

/// A thread whose state was initialised, or destroyed, is not initialised again.
pub proof fn lemma_initialised_once(t: ThreadsView)
    requires
        t.wf(),
        !(t.locals[t.current].slow is Unset),
    ensures
        t.initialised() == t,
        t.identified() == t,
{
}

/// Whether the running thread is alive and either is registered or can be: its state was
/// not destroyed, and there is an identifier for it.
pub open spec fn can_have_identifier(t: ThreadsView) -> bool {
    match t.locals[t.current].slow {
        LazyState::Ready(Ok(_)) => true,
        LazyState::Unset => !(t.locals[t.current].fast.status is DeadOrDying) && t.infos.len()
            < 0xfff,
        _ => false,
    }
}

/// Whether the objects of two worlds are the same but for the one at the address `p`, and
/// so are the dropped values and the threads.
pub open spec fn only_object_changes<T, A>(w: World<T, A>, later: World<T, A>, p: usize) -> bool {
    &&& later.heap.objects.len() == w.heap.objects.len()
    &&& forall|q: int|
        0 <= q < w.heap.objects.len() && q != p ==> #[trigger] later.heap.objects[q]
            == w.heap.objects[q]
    &&& later.heap.discarded == w.heap.discarded
    &&& later.threads == w.threads
}

/// Whether the words of an object say that it has one strong reference, biased towards the
/// thread with the identifier `owner`, or towards none.
pub open spec fn counts_one<T, A>(object: Obj<T, A>, owner: Option<ShortThreadId>) -> bool {
    &&& object.counts.biased.owner_id == owner
    &&& object.counts.shared.merged == owner is None
    &&& !object.counts.shared.queued
    &&& object.counts.biased.biased_count == if owner is Some {
        1u32
    } else {
        0
    }
    &&& object.counts.shared.shared_count.count == if owner is Some {
        0i64
    } else {
        1
    }
}

/// A new object holds the given value and allocator, and the new reference is the only one
/// to it. Nothing happens to any other object, and no value is dropped.
pub proof fn lemma_new_object<T, A>(w: World<T, A>, value: T, alloc: A)
    requires
        w.wf(),
        w.heap.has_room(),
    ensures
        ({
            let later = w.allocated(value, alloc);
            let object = later.heap.at(w.heap.objects.len() as int);
            &&& later.heap.objects == w.heap.objects.push(Some(object))
            &&& later.heap.discarded == w.heap.discarded
            &&& later.heap.next == w.heap.next + 1
            &&& object.value == Some(value)
            &&& object.alloc == alloc
            &&& object.weak_count == 1
            &&& object.refs.strong == set![w.heap.next]
            &&& strong_number(object.refs) == 1
            &&& weak_number(object.refs) == 0
            &&& object.refs.unique is None
            &&& !object.refs.moved
            &&& counts_one(object, later.this_id())
        }),
{
    assert(set![w.heap.next].len() == 1);
    assert(Set::<nat>::empty().len() == 0);
}

/// A new object is biased towards the thread that made it, with a biased count of 1 and a
/// shared count of 0, where that thread is alive and has an identifier or can have one.
/// Collecting before makes no difference.
pub proof fn lemma_new_object_biased<T, A>(w: World<T, A>, value: T, alloc: A)
    requires
        w.wf(),
        w.heap.has_room(),
        can_have_identifier(w.threads),
    ensures
        ({
            let p = w.heap.objects.len() as int;
            let later = w.allocated(value, alloc);
            let collected = w.collected().allocated(value, alloc);
            &&& later.this_id() is Some
            &&& later.heap.at(p).counts.biased.owner_id == later.this_id()
            &&& later.heap.at(p).counts.biased_count(later.this_id()) == Ok::<
                u64,
                BiasedCountError,
            >(1)
            &&& later.heap.at(p).counts.shared.shared_count.count == 0
            &&& later.threads.infos[later.this_id()->0.id - 1].thread == w.threads.current
            &&& collected.this_id() == later.this_id()
            &&& collected.heap.objects.len() == p + 1
            &&& collected.heap.at(p).counts.biased.owner_id == later.this_id()
            &&& collected.heap.at(p).counts.biased_count(later.this_id()) == Ok::<
                u64,
                BiasedCountError,
            >(1)
            &&& collected.heap.at(p).counts.shared.shared_count.count == 0
            &&& collected.heap.at(p).value == Some(value)
        }),
{
    lemma_initialised(w.threads);
    assert(w.threads.local_ok(w.threads.current));
    assert(w.threads.initialised().local_ok(w.threads.current));
    lemma_world_collected(w);
    lemma_collected_keeps(w);
}

/// A thread that is dead, or that there is no identifier for, makes objects that are biased
/// towards no thread, with a shared count of 1.
pub proof fn lemma_new_object_unbiased<T, A>(w: World<T, A>, value: T, alloc: A)
    requires
        w.wf(),
        w.heap.has_room(),
        !can_have_identifier(w.threads),
    ensures
        w.allocated(value, alloc).this_id() is None,
        counts_one(w.allocated(value, alloc).heap.at(w.heap.objects.len() as int), None),
{
    lemma_initialised(w.threads);
    assert(w.threads.local_ok(w.threads.current));
    assert(w.threads.initialised().local_ok(w.threads.current));
}

/// Making an object registers the running thread where it has to be, and does nothing else
/// to the threads.
pub proof fn lemma_new_object_threads<T, A>(w: World<T, A>, value: T, alloc: A)
    requires
        w.wf(),
    ensures
        w.threads.locals[w.threads.current].fast.status is DeadOrDying ==> w.allocated(
            value,
            alloc,
        ).threads == w.threads,
        !(w.threads.locals[w.threads.current].fast.status is DeadOrDying) ==> w.allocated(
            value,
            alloc,
        ).threads == w.threads.initialised(),
{
}

/// An object that is made without a value has a unique owner and no other reference.
/// Nothing happens to any other object or to the threads.
pub proof fn lemma_reserved_object<T, A>(w: World<T, A>, alloc: A)
    requires
        w.wf(),
        w.heap.has_room(),
    ensures
        ({
            let later = w.reserved(alloc);
            let object = later.heap.at(w.heap.objects.len() as int);
            &&& later.heap.objects == w.heap.objects.push(Some(object))
            &&& later.heap.discarded == w.heap.discarded
            &&& later.heap.next == w.heap.next + 1
            &&& later.threads == w.threads
            &&& object.value is None
            &&& object.alloc == alloc
            &&& object.weak_count == 1
            &&& object.refs.unique == Some(w.heap.next)
            &&& strong_number(object.refs) == 0
            &&& weak_number(object.refs) == 0
            &&& object.counts.biased.owner_id is None
            &&& object.counts.biased.biased_count == 0
            &&& object.counts.shared.merged
            &&& !object.counts.shared.queued
            &&& object.counts.shared.shared_count.count == 0
            &&& !object.alive()
        }),
{
    assert(Set::<nat>::empty().len() == 0);
}

/// Sharing an object turns its unique owner into the only strong reference, biased as that
/// of a new object is. The value, the allocator and the weak references stay.
pub proof fn lemma_share_effect<T, A>(w: World<T, A>, p: usize, id: nat)
    requires
        w.wf(),
        w.holds_unique(p, id),
        w.value(p) is Some,
    ensures
        ({
            let before = w.heap.at(p as int);
            let later = w.shared(p, id);
            let object = later.heap.at(p as int);
            &&& only_object_changes(w, World { threads: w.threads, ..later }, p)
            &&& later.threads == w.threads.identified()
            &&& later.heap.next == w.heap.next
            &&& later.heap.has(p as int)
            &&& object.value == before.value
            &&& object.alloc == before.alloc
            &&& object.weak_count == before.weak_count
            &&& object.refs == (Refs { unique: None, strong: set![id], ..before.refs })
            &&& strong_number(object.refs) == 1
            &&& object.alive()
            &&& counts_one(object, later.this_id())
            &&& can_have_identifier(w.threads) <==> later.this_id() is Some
        }),
{
    assert(set![id].len() == 1);
    assert(w.heap.at(p as int).wf());
    lemma_initialised(w.threads);
    assert(w.threads.local_ok(w.threads.current));
    assert(w.threads.initialised().local_ok(w.threads.current));
}

/// Taking a strong reference adds one to the number of strong references, and leaves the
/// value, the allocator, the bias and all else as they are. The owner counts it in the
/// biased word while that has room, and every other thread in the shared word.
pub proof fn lemma_clone_effect<T, A>(w: World<T, A>, p: usize)
    requires
        w.wf(),
        w.heap.has(p as int),
        w.heap.at(p as int).alive(),
        w.heap.at(p as int).counts.can_increment(w.this_id()),
    ensures
        ({
            let before = w.heap.at(p as int);
            let later = w.cloned(p);
            let object = later.heap.at(p as int);
            let owner = before.counts.biased.owner_id;
            let here = owner is Some && owner == w.this_id()
                && before.counts.biased.biased_count < 0xf_ffff;
            &&& only_object_changes(w, later, p)
            &&& later.heap.next == w.heap.next + 1
            &&& later.heap.has(p as int)
            &&& object.value == before.value
            &&& object.alloc == before.alloc
            &&& object.weak_count == before.weak_count
            &&& object.refs == (Refs {
                strong: before.refs.strong.insert(w.heap.next),
                ..before.refs
            })
            &&& strong_number(object.refs) == strong_number(before.refs) + 1
            &&& object.counts.biased.owner_id == owner
            &&& object.counts.shared.merged == before.counts.shared.merged
            &&& object.counts.shared.queued == before.counts.shared.queued
            &&& object.counts.biased.biased_count == before.counts.biased.biased_count + if here {
                1int
            } else {
                0
            }
            &&& object.counts.shared.shared_count.count == before.counts.shared.shared_count.count
                + if here {
                0int
            } else {
                1
            }
        }),
{
    assert(w.heap.at(p as int).refs.below(w.heap.next));
    assert(w.heap.at(p as int).wf());
}

/// Taking a strong reference that is to be shared counts it in the shared word on every
/// thread, and leaves all else as it is.
pub proof fn lemma_clone_shared_effect<T, A>(w: World<T, A>, p: usize)
    requires
        w.wf(),
        w.heap.has(p as int),
        w.heap.at(p as int).alive(),
        w.heap.at(p as int).can_clone_shared(),
    ensures
        ({
            let before = w.heap.at(p as int);
            let later = w.cloned_shared(p);
            let object = later.heap.at(p as int);
            &&& only_object_changes(w, later, p)
            &&& later.heap.next == w.heap.next + 1
            &&& later.heap.has(p as int)
            &&& object.value == before.value
            &&& object.alloc == before.alloc
            &&& object.weak_count == before.weak_count
            &&& object.refs == (Refs {
                strong: before.refs.strong.insert(w.heap.next),
                ..before.refs
            })
            &&& strong_number(object.refs) == strong_number(before.refs) + 1
            &&& object.counts.biased == before.counts.biased
            &&& object.counts.shared.merged == before.counts.shared.merged
            &&& object.counts.shared.queued == before.counts.shared.queued
            &&& object.counts.shared.shared_count.count == before.counts.shared.shared_count.count
                + 1
        }),
{
    assert(w.heap.at(p as int).refs.below(w.heap.next));
    assert(w.heap.at(p as int).wf());
}

/// Strong references can be taken until a counter runs out: on the thread that the object
/// is biased towards while the biased counter has room for another one, and on every
/// thread while the shared counter is below half its range. A merge to come must fit.
pub proof fn lemma_room_to_clone<T, A>(w: World<T, A>, p: usize, this_id: Option<ShortThreadId>)
    requires
        w.wf(),
        w.heap.has(p as int),
    ensures
        ({
            let object = w.heap.at(p as int);
            let count = object.counts.shared.shared_count.count;
            let owner = object.counts.biased.owner_id;
            let here = owner is Some && owner == this_id
                && object.counts.biased.biased_count < 0xf_ffff;
            let fits = object.counts.shared.queued && !object.counts.shared.merged
                ==> strong_number(object.refs) < 0x1fff_ffff_ffff_ffff;
            &&& object.can_clone(this_id) <==> fits && (here || count <= 0x0fff_ffff_ffff_ffff)
            &&& object.can_clone_shared() <==> count <= 0x0fff_ffff_ffff_ffff
            &&& object.counts.can_increment(this_id) <==> fits && (here || count
                < 0x1fff_ffff_ffff_ffff)
        }),
{
    assert(w.heap.at(p as int).wf());
}

/// Weak references can be taken until the weak counter, which counts one for all strong
/// references, is above half its range.
pub proof fn lemma_room_to_downgrade<T, A>(w: World<T, A>, p: usize)
    requires
        w.wf(),
        w.heap.has(p as int),
    ensures
        w.heap.at(p as int).can_downgrade() <==> w.heap.at(p as int).weak_count <= 0x7fff_ffff,
        weak_number(w.heap.at(p as int).refs) < 0x7fff_ffff ==> w.heap.at(
            p as int,
        ).can_downgrade(),
{
    assert(w.heap.at(p as int).wf());
}

/// A strong reference can be taken from a weak one exactly while the object is shared and
/// its value was neither dropped nor moved out. While a strong reference is held it can.
pub proof fn lemma_alive_while_value<T, A>(w: World<T, A>, p: usize)
    requires
        w.wf(),
        w.heap.has(p as int),
    ensures
        w.heap.at(p as int).alive() <==> w.heap.at(p as int).refs.unique is None && w.heap.at(
            p as int,
        ).value is Some,
        strong_number(w.heap.at(p as int).refs) > 0 && !w.heap.at(p as int).refs.moved
            ==> w.heap.at(p as int).alive(),
{
    assert(w.heap.at(p as int).wf());
}

/// Taking a weak reference adds one to the number of weak references, and leaves the
/// strong ones, the value and all else as they are.
pub proof fn lemma_downgrade_effect<T, A>(w: World<T, A>, p: usize)
    requires
        w.wf(),
        w.heap.has(p as int),
        w.heap.at(p as int).can_downgrade(),
    ensures
        ({
            let before = w.heap.at(p as int);
            let later = w.downgraded(p);
            let object = later.heap.at(p as int);
            &&& only_object_changes(w, later, p)
            &&& later.heap.next == w.heap.next + 1
            &&& later.heap.has(p as int)
            &&& object.value == before.value
            &&& object.alloc == before.alloc
            &&& object.counts == before.counts
            &&& object.weak_count == before.weak_count + 1
            &&& object.refs == (Refs {
                weak: before.refs.weak.insert(w.heap.next),
                ..before.refs
            })
            &&& weak_number(object.refs) == weak_number(before.refs) + 1
        }),
{
    assert(w.heap.at(p as int).refs.below(w.heap.next));
    assert(w.heap.at(p as int).wf());
}

/// Dropping a weak reference takes one away, and frees the memory exactly where no other
/// reference of any kind is left and the object does not wait for its counts to be
/// merged. It drops no value.
pub proof fn lemma_weak_drop_effect<T, A>(w: World<T, A>, p: usize, id: nat)
    requires
        w.wf(),
        w.holds_weak(p, id),
    ensures
        ({
            let before = w.heap.at(p as int);
            let later = w.weak_dropped(p, id);
            let object = later.heap.at(p as int);
            &&& only_object_changes(w, later, p)
            &&& later.heap.next == w.heap.next
            &&& !later.heap.has(p as int) <==> weak_number(before.refs) == 1 && strong_number(
                before.refs,
            ) == 0 && before.refs.unique is None && before.value is None
            &&& later.heap.has(p as int) ==> {
                &&& object.value == before.value
                &&& object.alloc == before.alloc
                &&& object.counts == before.counts
                &&& object.weak_count == before.weak_count - 1
                &&& object.refs == (Refs { weak: before.refs.weak.remove(id), ..before.refs })
                &&& weak_number(object.refs) == weak_number(before.refs) - 1
            }
        }),
{
    let before = w.heap.at(p as int);
    assert(before.wf());
    lemma_contains_len(before.refs.weak, id);
}

/// Dropping the unique owner frees the memory exactly where there is no weak reference.
/// What is left of the object otherwise has no value and is never shared.
pub proof fn lemma_unique_drop_effect<T, A>(w: World<T, A>, p: usize, id: nat)
    requires
        w.wf(),
        w.holds_unique(p, id),
    ensures
        ({
            let before = w.heap.at(p as int);
            let later = w.unique_dropped(p);
            let object = later.heap.at(p as int);
            &&& only_object_changes(w, later, p)
            &&& later.heap.next == w.heap.next
            &&& later.heap.has(p as int) <==> weak_number(before.refs) > 0
            &&& later.heap.has(p as int) ==> {
                &&& object.value is None
                &&& object.alloc == before.alloc
                &&& object.weak_count == before.weak_count - 1
                &&& object.refs == (Refs { unique: None, ..before.refs })
                &&& strong_number(object.refs) == 0
                &&& !object.alive()
            }
        }),
{
    assert(w.heap.at(p as int).wf());
}

/// A write changes the value of one object and nothing else.
pub proof fn lemma_write_effect<T, A>(w: World<T, A>, p: usize, value: Option<T>)
    requires
        w.heap.has(p as int),
    ensures
        ({
            let before = w.heap.at(p as int);
            let later = w.written(p, value);
            let object = later.heap.at(p as int);
            &&& only_object_changes(w, later, p)
            &&& later.heap.next == w.heap.next
            &&& later.heap.has(p as int)
            &&& object.value == value
            &&& object.alloc == before.alloc
            &&& object.counts == before.counts
            &&& object.weak_count == before.weak_count
            &&& object.refs == before.refs
        }),
{
}

/// Moving the value out leaves the object with neither a value nor a reference that
/// anything could be done with. No value is dropped, and the memory is not freed.
pub proof fn lemma_unwrap_effect<T, A>(w: World<T, A>, p: usize, id: nat)
    requires
        w.wf(),
        w.holds_strong(p, id),
        w.heap.at(p as int).known_unique(w.this_id()),
    ensures
        ({
            let before = w.heap.at(p as int);
            let later = w.unwrapped(p, id);
            let object = later.heap.at(p as int);
            &&& only_object_changes(w, later, p)
            &&& later.heap.next == w.heap.next
            &&& before.value is Some
            &&& later.heap.has(p as int)
            &&& object.value is None
            &&& object.alloc == before.alloc
            &&& object.counts == before.counts
            &&& object.weak_count == before.weak_count
            &&& object.refs.moved
            &&& object.refs.strong =~= Set::empty()
            &&& object.refs.raw_strong == 0
            &&& weak_number(object.refs) == 0
            &&& object.refs.unique is None
        }),
{
    w.heap.at(p as int).lemma_strong_reaches_value(id);
    w.heap.at(p as int).lemma_unwrapped(w.this_id(), id);
    lemma_contains_len(w.heap.at(p as int).refs.strong, id);
}

/// Turning a reference into an address, or an address into a reference, changes neither a
/// counter nor a value nor the number of references. It changes only which of them are
/// held.
pub proof fn lemma_raw_effect<T, A>(w: World<T, A>, p: usize, id: nat)
    requires
        w.wf(),
        w.heap.has(p as int),
    ensures
        ({
            let before = w.heap.at(p as int);
            let same = |later: World<T, A>|
                {
                    &&& only_object_changes(w, later, p)
                    &&& later.heap.has(p as int)
                    &&& later.heap.at(p as int) == (Obj {
                        refs: later.heap.at(p as int).refs,
                        ..before
                    })
                    &&& strong_number(later.heap.at(p as int).refs) == strong_number(before.refs)
                    &&& weak_number(later.heap.at(p as int).refs) == weak_number(before.refs)
                    &&& later.heap.at(p as int).refs.unique == before.refs.unique
                    &&& later.heap.at(p as int).refs.moved == before.refs.moved
                };
            &&& w.holds_strong(p, id) ==> {
                let later = w.strong_to_raw(p, id);
                &&& same(later)
                &&& later.heap.next == w.heap.next
                &&& later.heap.at(p as int).refs.strong == before.refs.strong.remove(id)
                &&& later.raw_strong(p) == w.raw_strong(p) + 1
                &&& later.heap.at(p as int).refs.weak == before.refs.weak
            }
            &&& w.holds_weak(p, id) ==> {
                let later = w.weak_to_raw(p, id);
                &&& same(later)
                &&& later.heap.next == w.heap.next
                &&& later.heap.at(p as int).refs.weak == before.refs.weak.remove(id)
                &&& later.raw_weak(p) == w.raw_weak(p) + 1
                &&& later.heap.at(p as int).refs.strong == before.refs.strong
            }
            &&& before.refs.raw_strong >= 1 ==> {
                let later = w.strong_from_raw(p);
                &&& same(later)
                &&& later.heap.next == w.heap.next + 1
                &&& later.heap.at(p as int).refs.strong == before.refs.strong.insert(w.heap.next)
                &&& later.raw_strong(p) == w.raw_strong(p) - 1
                &&& later.heap.at(p as int).refs.weak == before.refs.weak
            }
            &&& before.refs.raw_weak >= 1 ==> {
                let later = w.weak_from_raw(p);
                &&& same(later)
                &&& later.heap.next == w.heap.next + 1
                &&& later.heap.at(p as int).refs.weak == before.refs.weak.insert(w.heap.next)
                &&& later.raw_weak(p) == w.raw_weak(p) - 1
                &&& later.heap.at(p as int).refs.strong == before.refs.strong
            }
        }),
{
    let before = w.heap.at(p as int);
    assert(before.wf());
    assert(before.refs.below(w.heap.next));
    if w.holds_strong(p, id) {
        lemma_contains_len(before.refs.strong, id);
    }
    if w.holds_weak(p, id) {
        lemma_contains_len(before.refs.weak, id);
    }
}

/// Handing out the dropped values leaves none behind, and all else as it is.
pub proof fn lemma_hand_out_effect<T, A>(w: World<T, A>)
    ensures
        w.handed_out().heap.discarded.len() == 0,
        w.handed_out().heap.objects == w.heap.objects,
        w.handed_out().heap.next == w.heap.next,
        w.handed_out().threads == w.threads,
{
}

/// Whether the value of an object with one strong reference has to wait for the thread that
/// the object is biased towards once that reference is released: the object is queued
/// there already, or another thread releases it while that thread lives.
pub open spec fn value_has_to_wait<T, A>(w: World<T, A>, p: usize) -> bool {
    let counts = w.heap.at(p as int).counts;
    &&& !counts.shared.merged
    &&& counts.shared.queued || counts.biased.owner_id != w.this_id()
        && w.threads.infos[counts.biased.owner_id->0.id - 1].queue is Some
}

/// Dropping a strong reference takes that one away. The value is dropped with the last
/// one, at once unless it has to wait for the thread that the object is biased towards,
/// and then is the last of the dropped values. The memory is freed where there is no weak
/// reference either.
pub proof fn lemma_drop_effect<T, A>(w: World<T, A>, p: usize, id: nat)
    requires
        w.wf(),
        w.holds_strong(p, id),
    ensures
        ({
            let before = w.heap.at(p as int);
            let later = w.dropped(p, id);
            let object = later.heap.at(p as int);
            let last = strong_number(before.refs) == 1;
            &&& later.heap.objects.len() == w.heap.objects.len()
            &&& forall|q: int|
                0 <= q < w.heap.objects.len() && q != p ==> #[trigger] later.heap.objects[q]
                    == w.heap.objects[q]
            &&& later.heap.next == w.heap.next
            &&& before.value is Some
            &&& if last && !value_has_to_wait(w, p) {
                &&& later.heap.discarded == w.heap.discarded.push(before.value->0)
                &&& later.heap.has(p as int) <==> weak_number(before.refs) > 0
                &&& later.heap.has(p as int) ==> object.value is None && object.weak_count
                    == before.weak_count - 1
            } else {
                &&& later.heap.discarded == w.heap.discarded
                &&& later.heap.has(p as int)
                &&& object.value == before.value
                &&& object.weak_count == before.weak_count
            }
            &&& later.heap.has(p as int) ==> {
                &&& object.alloc == before.alloc
                &&& object.refs == (Refs { strong: before.refs.strong.remove(id), ..before.refs })
                &&& strong_number(object.refs) == strong_number(before.refs) - 1
            }
        }),
{
    let before = w.heap.at(p as int);
    assert(before.wf());
    assert(w.object_ok(p as int));
    before.lemma_strong_reaches_value(id);
    before.lemma_released(w.this_id(), id);
    lemma_contains_len(before.refs.strong, id);
    lemma_identifier_while_registered(w.threads);
    if !before.counts.shared.merged {
        assert(w.threads.info_ok(before.owner_index()));
    }
}

/// A strong reference that other ones are beside is released from a merged count in the
/// shared word, by the owner from the biased word, and by any other thread from the shared
/// word. Where the shared word counts no reference, the object is put at the end of the
/// queue of its owner, or its counts are merged at once where that thread has ended.
/// The owner gives up ownership with its last biased reference, but only once the object
/// is not queued.
pub proof fn lemma_release_counts<T, A>(w: World<T, A>, p: usize, id: nat)
    requires
        w.wf(),
        w.holds_strong(p, id),
        strong_number(w.heap.at(p as int).refs) > 1 || value_has_to_wait(w, p),
    ensures
        ({
            let before = w.heap.at(p as int).counts;
            let later = w.dropped(p, id);
            let counts = later.heap.at(p as int).counts;
            let owner = before.biased.owner_id;
            let here = owner is Some && owner == w.this_id();
            let index = owner->0.id - 1;
            let count = before.shared.shared_count.count;
            if before.shared.merged || !here && (before.shared.queued || count >= 1) || here
                && before.biased.biased_count == 1 && before.shared.queued {
                &&& later.threads == w.threads
                &&& counts.biased == before.biased
                &&& counts.shared.merged == before.shared.merged
                &&& counts.shared.queued == before.shared.queued
                &&& counts.shared.shared_count.count == count - 1
            } else if here && before.biased.biased_count > 1 {
                &&& later.threads == w.threads
                &&& counts.shared == before.shared
                &&& counts.biased.owner_id == owner
                &&& counts.biased.biased_count == before.biased.biased_count - 1
            } else if here {
                &&& later.threads == w.threads
                &&& counts.biased.owner_id is None
                &&& counts.biased.biased_count == 0
                &&& counts.shared.merged
                &&& !counts.shared.queued
                &&& counts.shared.shared_count.count == count
            } else if w.threads.infos[index].queue is Some {
                &&& counts.biased == before.biased
                &&& !counts.shared.merged
                &&& counts.shared.queued
                &&& counts.shared.shared_count.count == -1
                &&& later.threads.infos.len() == w.threads.infos.len()
                &&& later.threads.infos[index].queue == Some(
                    w.threads.infos[index].queue->0.push(p),
                )
                &&& later.threads.infos[index].flag is QueuedObjects
                &&& later.threads.infos[index].short_id == w.threads.infos[index].short_id
                &&& later.threads.infos[index].thread == w.threads.infos[index].thread
                &&& forall|i: int|
                    0 <= i < w.threads.infos.len() && i != index
                        ==> #[trigger] later.threads.infos[i] == w.threads.infos[i]
                &&& later.threads.locals == w.threads.locals
                &&& later.threads.current == w.threads.current
                &&& later.threads.exhausted == w.threads.exhausted
            } else {
                &&& later.threads == w.threads
                &&& counts.biased.owner_id is None
                &&& counts.biased.biased_count == 0
                &&& counts.shared.merged
                &&& counts.shared.shared_count.count == strong_number(w.heap.at(p as int).refs) - 1
            }
        }),
{
    let before = w.heap.at(p as int);
    assert(before.wf());
    assert(w.object_ok(p as int));
    before.lemma_strong_reaches_value(id);
    before.lemma_released(w.this_id(), id);
    lemma_contains_len(before.refs.strong, id);
    lemma_identifier_while_registered(w.threads);
    if !before.counts.shared.merged {
        assert(w.threads.info_ok(before.owner_index()));
    }
}

/// The drop of a last reference whose value does not wait does nothing to the threads.
pub proof fn lemma_last_drop_threads<T, A>(w: World<T, A>, p: usize, id: nat)
    requires
        w.wf(),
        w.holds_strong(p, id),
        strong_number(w.heap.at(p as int).refs) == 1,
        !value_has_to_wait(w, p),
    ensures
        w.dropped(p, id).threads == w.threads,
{
    let before = w.heap.at(p as int);
    assert(before.wf());
    assert(w.object_ok(p as int));
    lemma_identifier_while_registered(w.threads);
    lemma_contains_len(before.refs.strong, id);
}

/// The objects that wait for the running thread, the one that was queued first in front.
pub open spec fn waiting(t: ThreadsView) -> Seq<usize> {
    match t.locals[t.current].slow {
        LazyState::Ready(Ok(state)) => match t.infos[state.shared_info as int].queue {
            Some(queue) => queue,
            None => Seq::empty(),
        },
        _ => Seq::empty(),
    }
}

/// Whether the counts of every object that waits for the running thread were merged between
/// two worlds. An object that a strong reference is left to keeps its value, its memory
/// and all references, and every other one loses its value, and its memory too where there
/// is no weak reference. All objects that do not wait stay as they are.
pub open spec fn merges_waiting<T, A>(w: World<T, A>, later: World<T, A>) -> bool {
    &&& later.heap.objects.len() == w.heap.objects.len()
    &&& later.heap.next == w.heap.next
    &&& forall|p: int|
        0 <= p < w.heap.objects.len() && !waiting(w.threads).contains(p as usize)
            ==> #[trigger] later.heap.objects[p] == w.heap.objects[p]
    &&& forall|p: int| #[trigger]
        w.heap.has(p) && waiting(w.threads).contains(p as usize) ==> {
            let before = w.heap.at(p);
            let object = later.heap.at(p);
            let number = strong_number(before.refs);
            &&& later.heap.has(p) <==> number > 0 || weak_number(before.refs) > 0
            &&& later.heap.has(p) ==> {
                &&& object.refs == before.refs
                &&& object.alloc == before.alloc
                &&& object.counts.biased.owner_id is None
                &&& object.counts.biased.biased_count == 0
                &&& object.counts.shared.merged
                &&& object.counts.shared.queued
                &&& object.counts.shared.shared_count.count == number
                &&& object.weak_count == before.weak_count - if number > 0 {
                    0int
                } else {
                    1
                }
                &&& number > 0 ==> object.value == before.value
                &&& number == 0 ==> object.value is None
            }
        }
}

/// The objects that wait for the running thread are those in its queue.
proof fn lemma_waiting(t: ThreadsView, p: int)
    requires
        t.wf(),
        0 <= p <= usize::MAX,
    ensures
        t.own_queue() == waiting(t),
        queued(t.own_queue(), p) <==> waiting(t).contains(p as usize),
{
    assert(t.local_ok(t.current));
    let queue = t.own_queue();
    if queued(queue, p) {
        let j = choose|j: int| 0 <= j < queue.len() && #[trigger] queue[j] == p;
        assert(queue[j] == p as usize);
    }
    if queue.contains(p as usize) {
        let j = choose|j: int| 0 <= j < queue.len() && queue[j] == p as usize;
        assert(queue[j] == p);
    }
}

/// Merging the counts of the objects in the queue of the running thread is merging those
/// that wait.
proof fn lemma_merged_waiting<T, A>(w: World<T, A>, later: World<T, A>)
    requires
        w.wf(),
        later.heap == w.heap.merged(w.threads.own_queue()),
    ensures
        merges_waiting(w, later),
{
    let queue = w.threads.own_queue();
    assert(w.threads.local_ok(w.threads.current));
    assert forall|p: int|
        0 <= p < w.heap.objects.len() && !waiting(w.threads).contains(
            p as usize,
        ) implies #[trigger] later.heap.objects[p] == w.heap.objects[p] by {
        lemma_waiting(w.threads, p);
    }
    assert forall|p: int| #[trigger] w.heap.has(p) && waiting(w.threads).contains(
        p as usize,
    ) implies {
        let before = w.heap.at(p);
        let object = later.heap.at(p);
        let number = strong_number(before.refs);
        &&& later.heap.has(p) <==> number > 0 || weak_number(before.refs) > 0
        &&& later.heap.has(p) ==> {
            &&& object.refs == before.refs
            &&& object.alloc == before.alloc
            &&& object.counts.biased.owner_id is None
            &&& object.counts.biased.biased_count == 0
            &&& object.counts.shared.merged
            &&& object.counts.shared.queued
            &&& object.counts.shared.shared_count.count == number
            &&& object.weak_count == before.weak_count - if number > 0 {
                0int
            } else {
                1
            }
            &&& number > 0 ==> object.value == before.value
            &&& number == 0 ==> object.value is None
        }
    } by {
        lemma_waiting(w.threads, p);
        let state = w.threads.this().state()->0;
        assert(w.queue_ok(state.shared_info as int));
        let j = choose|j: int| 0 <= j < queue.len() && #[trigger] queue[j] == p;
        assert(w.heap.at(queue[j] as int).awaits_merge());
        assert(w.heap.at(p).wf());
    }
}

/// Collecting merges the counts of all objects that wait for the running thread, unless
/// that thread unwinds from a panic. Then it touches no object and drops no value.
/// Collecting whatever there is to do merges them even then, and so does the end of the
/// thread.
pub proof fn lemma_collect_effect<T, A>(w: World<T, A>)
    requires
        w.wf(),
    ensures
        merges_waiting(w, w.processed()),
        merges_waiting(w, w.ended()),
        w.ended().heap == w.processed().heap,
        !w.threads.locals[w.threads.current].panicking ==> w.collected() == w.processed(),
        w.threads.locals[w.threads.current].panicking ==> {
            &&& w.collected().heap == w.heap
            &&& w.collected().threads == w.threads.initialised()
        },
{
    lemma_merged_waiting(w, w.processed());
    lemma_merged_waiting(w, w.ended());
}

/// After a thread has collected nothing waits for it and its flag says so, and it is
/// registered where it can be. What waits for other threads still waits.
pub proof fn lemma_collect_threads<T, A>(w: World<T, A>)
    requires
        w.wf(),
    ensures
        ({
            let later = w.processed().threads;
            &&& waiting(later).len() == 0
            &&& later.current == w.threads.current
            &&& later.locals == w.threads.initialised().locals
            &&& later.exhausted == w.threads.initialised().exhausted
            &&& later.infos.len() == w.threads.initialised().infos.len()
            &&& later.this_id() matches Some(id) ==> {
                &&& later.infos[id.id - 1].queue == Some(Seq::<usize>::empty())
                &&& later.infos[id.id - 1].flag is Live
                &&& later.infos[id.id - 1].thread == w.threads.current
            }
            &&& forall|i: int|
                0 <= i < w.threads.infos.len() && later.this_id() != Some(
                    w.threads.infos[i].short_id,
                ) ==> #[trigger] later.infos[i] == w.threads.infos[i]
        }),
{
    let t = w.threads.initialised();
    lemma_initialised(w.threads);
    assert(t.local_ok(t.current));
    lemma_world_processed(w);
    assert(w.processed().threads.local_ok(t.current));
    assert forall|i: int|
        0 <= i < w.threads.infos.len() && w.processed().threads.this_id() != Some(
            w.threads.infos[i].short_id,
        ) implies #[trigger] w.processed().threads.infos[i] == w.threads.infos[i] by {
        assert(w.threads.info_ok(i));
        assert(t.infos[i] == w.threads.infos[i]);
    }
}

/// A thread that has ended has neither an identifier nor a queue, and is marked as dead
/// where it was registered. Nothing else happens to the threads.
pub proof fn lemma_end_threads<T, A>(w: World<T, A>)
    requires
        w.wf(),
    ensures
        ({
            let later = w.ended().threads;
            let here = w.threads.current;
            &&& later.current == here
            &&& later.exhausted == w.threads.exhausted
            &&& later.this_id() is None
            &&& later.locals.len() == w.threads.locals.len()
            &&& later.locals[here].slow is Destroyed
            &&& later.locals[here].panicking == w.threads.locals[here].panicking
            &&& w.this_id() is Some ==> later.locals[here].fast.status is DeadOrDying
            &&& w.this_id() is None ==> later.locals[here].fast == w.threads.locals[here].fast
            &&& forall|k: int|
                0 <= k < w.threads.locals.len() && k != here ==> #[trigger] later.locals[k]
                    == w.threads.locals[k]
            &&& later.infos.len() == w.threads.infos.len()
            &&& w.this_id() matches Some(id) ==> {
                &&& later.infos[id.id - 1].queue is None
                &&& later.infos[id.id - 1].flag is Dead
                &&& later.infos[id.id - 1].short_id == id
                &&& later.infos[id.id - 1].thread == here
            }
            &&& forall|i: int|
                0 <= i < w.threads.infos.len() && w.this_id() != Some(
                    w.threads.infos[i].short_id,
                ) ==> #[trigger] later.infos[i] == w.threads.infos[i]
        }),
{
    assert(w.threads.local_ok(w.threads.current));
    lemma_identifier_while_registered(w.threads);
    assert forall|i: int|
        0 <= i < w.threads.infos.len() && w.this_id() != Some(
            w.threads.infos[i].short_id,
        ) implies #[trigger] w.ended().threads.infos[i] == w.threads.infos[i] by {
        assert(w.threads.info_ok(i));
    }
    if w.this_id() is Some {
        assert(w.threads.info_ok(w.this_id()->0.id - 1));
    }
}

/// The values that merging drops come in the order of the queue: those of its first part,
/// followed by those of the rest.
pub proof fn lemma_dead_values_in_order<T, A>(
    h: HeapView<T, A>,
    first: Seq<usize>,
    rest: Seq<usize>,
)
    ensures
        h.dead_values(first + rest) == h.dead_values(first) + h.dead_values(rest),
    decreases rest.len(),
{
    if rest.len() == 0 {
        assert(first + rest =~= first);
        assert(h.dead_values(rest) =~= Seq::empty());
        assert(h.dead_values(first) + h.dead_values(rest) =~= h.dead_values(first));
    } else {
        assert((first + rest).drop_last() =~= first + rest.drop_last());
        lemma_dead_values_in_order(h, first, rest.drop_last());
        assert(h.dead_values(first + rest) =~= h.dead_values(first) + h.dead_values(rest));
    }
}

/// Collecting, and the end of a thread, keep all values that were dropped before and not
/// handed out yet, in front of those that are dropped now. Of the objects that wait, those
/// that no strong reference is left to lose their value, which is then among the dropped
/// ones, and no other value is.
pub proof fn lemma_collect_drops<T, A>(w: World<T, A>)
    requires
        w.wf(),
    ensures
        w.processed().heap.discarded == w.heap.discarded + w.heap.dead_values(
            waiting(w.threads),
        ),
        w.ended().heap.discarded == w.processed().heap.discarded,
        forall|j: int|
            0 <= j < waiting(w.threads).len() ==> {
                let p = #[trigger] waiting(w.threads)[j];
                w.heap.dead_values(seq![p]) == if strong_number(w.heap.at(p as int).refs) == 0 {
                    seq![w.value(p)->0]
                } else {
                    Seq::<T>::empty()
                }
            },
        w.heap.dead_values(Seq::empty()) == Seq::<T>::empty(),
        w.collected().heap.discarded == if w.threads.locals[w.threads.current].panicking {
            w.heap.discarded
        } else {
            w.processed().heap.discarded
        },
{
    lemma_waiting(w.threads, 0);
    let queue = w.threads.own_queue();
    assert(w.threads.local_ok(w.threads.current));
    assert forall|j: int| 0 <= j < waiting(w.threads).len() implies {
        let p = #[trigger] waiting(w.threads)[j];
        w.heap.dead_values(seq![p]) == if strong_number(w.heap.at(p as int).refs) == 0 {
            seq![w.value(p)->0]
        } else {
            Seq::<T>::empty()
        }
    } by {
        let p = waiting(w.threads)[j];
        let state = w.threads.this().state()->0;
        assert(w.queue_ok(state.shared_info as int));
        assert(w.heap.at(queue[j] as int).awaits_merge());
        assert(w.heap.at(p as int).wf());
        assert(seq![p].drop_last() =~= Seq::<usize>::empty());
        assert(w.heap.dead_values(Seq::<usize>::empty()) =~= Seq::<T>::empty());
        reveal_with_fuel(HeapView::dead_values, 2);
        assert(w.heap.dead_values(seq![p]) =~= if strong_number(w.heap.at(p as int).refs) == 0 {
            seq![w.value(p)->0]
        } else {
            Seq::<T>::empty()
        });
    }
}

/// Collecting leaves an object that a strong reference is left to with all its references, its
/// value and its allocator, whether it waits or not.
pub proof fn lemma_collect_keeps_object<T, A>(w: World<T, A>, p: usize)
    requires
        w.wf(),
        w.heap.has(p as int),
        strong_number(w.heap.at(p as int).refs) > 0,
    ensures
        ({
            let before = w.heap.at(p as int);
            let object = w.collected().heap.at(p as int);
            &&& w.collected().heap.has(p as int)
            &&& object.refs == before.refs
            &&& object.value == before.value
            &&& object.alloc == before.alloc
            &&& object.weak_count == before.weak_count
            &&& object.counts == before.counts || object.counts.shared.merged
                && object.counts.shared.shared_count.count == strong_number(before.refs)
        }),
{
    lemma_collect_effect(w);
    assert(w.heap.objects[p as int] is Some);
}

/// Merging the counts of one object that waits counts all its references in the shared word.
/// The value of one without a strong reference is dropped, and its memory is freed where
/// there is no weak reference. All other objects stay as they are.
pub proof fn lemma_merge_one_effect<T, A>(h: HeapView<T, A>, p: usize)
    requires
        h.has(p as int),
        h.at(p as int).wf(),
        h.at(p as int).awaits_merge(),
    ensures
        ({
            let before = h.at(p as int);
            let later = h.merged_at(p as int);
            let object = later.at(p as int);
            let number = strong_number(before.refs);
            &&& later.objects.len() == h.objects.len()
            &&& forall|q: int|
                0 <= q < h.objects.len() && q != p ==> #[trigger] later.objects[q] == h.objects[q]
            &&& later.next == h.next
            &&& later.has(p as int) <==> number > 0 || weak_number(before.refs) > 0
            &&& later.has(p as int) ==> {
                &&& object.refs == before.refs
                &&& object.alloc == before.alloc
                &&& object.counts.biased.owner_id is None
                &&& object.counts.shared.merged
                &&& object.counts.shared.shared_count.count == number
            }
            &&& number > 0 ==> {
                &&& object.value == before.value
                &&& object.weak_count == before.weak_count
                &&& later.discarded == h.discarded
            }
            &&& number == 0 ==> {
                &&& before.value is Some
                &&& later.has(p as int) ==> object.value is None
                &&& later.discarded == h.discarded.push(before.value->0)
            }
        }),
{
}

/// There is memory for one more object until every address but the reserved one is taken.
pub proof fn lemma_room_for_objects<T, A>(h: HeapView<T, A>)
    ensures
        h.has_room() <==> h.objects.len() < usize::MAX,
{
}

} // verus!
