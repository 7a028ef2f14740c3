//! The concurrent collections that threads share.
//!
//! The queue of objects that wait for a thread is a [`SegQueue`], and the list
//! of all threads that were ever registered is a [`boxcar::Vec`]. An exclusive
//! borrow stands for the moment in which one thread works on the collection, so
//! that its contents before and after can be named.
use crate::thread_id::{ShortThreadId, UniqueThreadId};
use crossbeam_queue::SegQueue;
use vstd::prelude::*;

verus! {

#[verifier::external_type_specification]
#[verifier::external_body]
#[verifier::reject_recursive_types(T)]
pub struct ExSegQueue<T>(crossbeam_queue::SegQueue<T>);

#[verifier::external_type_specification]
#[verifier::external_body]
#[verifier::reject_recursive_types(T)]
pub struct ExBoxcarVec<T>(boxcar::Vec<T>);

/// The items of a queue, the next one to be popped first.
pub uninterp spec fn queue_contents(queue: SegQueue<usize>) -> Seq<usize>;

/// The items of a list of threads, in the order of registration.
pub uninterp spec fn thread_entries(threads: boxcar::Vec<u16>) -> Seq<u16>;

/// Calls `SegQueue::new`, which makes an empty queue.
#[verifier::external_body]
pub(crate) fn queue_new() -> (r: SegQueue<usize>)
    ensures
        queue_contents(r) == Seq::<usize>::empty(),
{
    SegQueue::new()
}

/// Calls `SegQueue::push`, which adds an item at the end.
#[verifier::external_body]
pub(crate) fn queue_push(queue: &mut SegQueue<usize>, item: usize)
    ensures
        queue_contents(*final(queue)) == queue_contents(*old(queue)).push(item),
{
    queue.push(item)
}

/// Calls `SegQueue::pop`, which removes the item at the front, or gives `None`
/// where the queue is empty.
#[verifier::external_body]
pub(crate) fn queue_pop(queue: &mut SegQueue<usize>) -> (r: Option<usize>)
    ensures
        queue_contents(*old(queue)).len() == 0 ==> r is None && queue_contents(*final(queue))
            == queue_contents(*old(queue)),
        queue_contents(*old(queue)).len() > 0 ==> r == Some(queue_contents(*old(queue))[0])
            && queue_contents(*final(queue)) == queue_contents(*old(queue)).drop_first(),
{
    queue.pop()
}

/// Calls `SegQueue::is_empty`.
#[verifier::external_body]
pub(crate) fn queue_is_empty(queue: &SegQueue<usize>) -> (r: bool)
    ensures
        r == (queue_contents(*queue).len() == 0),
{
    queue.is_empty()
}

/// The entry of the thread that is registered at `index`: its short identifier,
/// or zero where the identifier overflows.
pub open spec fn entry_at(index: int) -> u16 {
    if index < ShortThreadId::MAX {
        (index + 1) as u16
    } else {
        0
    }
}

/// The entry of the thread that is registered at `index`.
pub fn thread_entry(index: usize) -> (r: u16)
    requires
        index < usize::MAX,
    ensures
        r == entry_at(index as int),
{
    match ShortThreadId::try_from(UniqueThreadId::from_index(index)) {
        Ok(short_id) => short_id.value(),
        Err(_) => 0,
    }
}

/// Calls `boxcar::Vec::new`, which makes an empty list.
#[verifier::external_body]
pub(crate) fn threads_new() -> (r: boxcar::Vec<u16>)
    ensures
        thread_entries(r) == Seq::<u16>::empty(),
{
    boxcar::Vec::new()
}

/// Calls `boxcar::Vec::push_with`, which appends what [`thread_entry`] gives for
/// the index of the new item, and returns that index.
#[verifier::external_body]
pub(crate) fn threads_push(threads: &mut boxcar::Vec<u16>) -> (r: usize)
    requires
        thread_entries(*old(threads)).len() <= ShortThreadId::MAX,
    ensures
        r == thread_entries(*old(threads)).len(),
        thread_entries(*final(threads)) == thread_entries(*old(threads)).push(
            entry_at(thread_entries(*old(threads)).len() as int),
        ),
{
    threads.push_with(|index| thread_entry(index))
}

/// Calls `boxcar::Vec::get`, which gives the item at an index, or `None` where
/// there is none.
#[verifier::external_body]
pub(crate) fn threads_get(threads: &boxcar::Vec<u16>, index: usize) -> (r: Option<u16>)
    ensures
        index < thread_entries(*threads).len() ==> r == Some(
            thread_entries(*threads)[index as int],
        ),
        index >= thread_entries(*threads).len() ==> r is None,
{
    threads.get(index).copied()
}

/// The first 0xfff threads are entered with their number, counted from 1, and all later ones
/// with zero.
pub proof fn lemma_entries(index: int)
    requires
        index >= 0,
    ensures
        index < 0xfff ==> entry_at(index) == index + 1,
        index >= 0xfff ==> entry_at(index) == 0,
{
}

} // verus!
