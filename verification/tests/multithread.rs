//! Tests the interactions between multiple threads.
use biasedrc::BiasedCountError::{NotBiased, WrongThread};
use biasedrc::{Brc, Runtime};
use std::sync::atomic::{AtomicU32, Ordering};

struct DropCounter<'a>(&'a AtomicU32);

impl Drop for DropCounter<'_> {
    fn drop(&mut self) {
        let _ = self.0.fetch_update(Ordering::SeqCst, Ordering::SeqCst, |x| {
            Some(x.checked_add(1).unwrap())
        });
    }
}

/// Tests multiple threads, scoped so that it is necessary to add to the queue and
/// merge reference counts.
///
/// This corresponds to [`BehaviorAfterMerge::ImmediateDestruction`].
#[test]
fn requires_merge() {
    let counter = AtomicU32::new(0);
    let mut rt = Runtime::new();
    let main = rt.current_thread();
    let one = Brc::new(DropCounter(&counter), &mut rt);
    let other = rt.spawn_thread();
    rt.enter_thread(other);
    let two = Brc::clone(&one, &mut rt);
    Brc::drop(one, &mut rt);
    biasedrc::collect_force(&mut rt);
    Brc::drop(two, &mut rt);
    rt.end_thread();
    rt.enter_thread(main);
    assert_eq!(counter.load(Ordering::SeqCst), 0);
    biasedrc::collect_force(&mut rt);
    assert_eq!(counter.load(Ordering::SeqCst), 1);
}

/// Tests multiple threads, scoped so that it is necessary to add to the queue and
/// merge reference counts.
///
/// This corresponds to [`BehaviorAfterMerge::StillShared`].
#[test]
fn requires_merge_then_still_shared() {
    let drop_counter = AtomicU32::new(0);
    let mut rt = Runtime::new();
    let first = rt.spawn_thread();
    let second = rt.spawn_thread();

    rt.enter_thread(first);
    let biased = Brc::new(DropCounter(&drop_counter), &mut rt);
    let [biased1, biased2] = [Brc::clone(&biased, &mut rt), biased];

    rt.enter_thread(second);
    assert_eq!(Brc::shared_count(&biased1, &rt), 0);
    Brc::drop(biased1, &mut rt); // will make the shared count negative, requiring queuing
    assert_eq!(Brc::shared_count(&biased2, &rt), -1);

    rt.enter_thread(first);
    biasedrc::collect_force(&mut rt);

    rt.enter_thread(second);
    assert_eq!(Brc::shared_count(&biased2, &rt), 1);
    assert_eq!(drop_counter.load(Ordering::SeqCst), 0);
    Brc::drop(biased2, &mut rt);
    assert_eq!(drop_counter.load(Ordering::SeqCst), 1);
}

#[derive(Copy, Clone, Debug)]
enum BehaviorAfterMerge {
    ImmediateDestruction,
    StillShared,
}

#[test]
fn requires_merge_after_thread_death() {
    requires_merge_after_thread_death_with(BehaviorAfterMerge::ImmediateDestruction);
}

#[test]
fn requires_merge_after_thread_death_then_still_shared() {
    requires_merge_after_thread_death_with(BehaviorAfterMerge::StillShared);
}

/// Tests multiple threads, scoped so that it is necessary to add to the queue and
/// merge reference counts after the thread has already died.
///
/// There are two cases: One where we have to execute the destructor immediately after
/// merge ([`BehaviorAfterMerge::ImmediateDestruction`] and one where shared references
/// are still live so we do the destruction later ([`BehaviorAfterMerge::StillShared`]).
fn requires_merge_after_thread_death_with(mode: BehaviorAfterMerge) {
    let counter = AtomicU32::new(0);
    let mut rt = Runtime::new();
    let first = rt.spawn_thread();
    let second = rt.spawn_thread();

    rt.enter_thread(first);
    // send the biased reference to the other thread
    let biased = Brc::new(DropCounter(&counter), &mut rt);

    rt.enter_thread(second);
    let shared = match mode {
        BehaviorAfterMerge::ImmediateDestruction => None,
        BehaviorAfterMerge::StillShared => Some(Brc::clone(&biased, &mut rt)),
    };
    // wait until the first thread dies
    rt.enter_thread(first);
    rt.end_thread();
    rt.enter_thread(second);
    assert_eq!(counter.load(Ordering::SeqCst), 0);
    // this will drop the shared count to -1, necessitating a merge
    Brc::drop(biased, &mut rt);
    // the merge should have been performed immediately since the first thread has died
    assert_eq!(
        counter.load(Ordering::SeqCst),
        match mode {
            BehaviorAfterMerge::ImmediateDestruction => 1,
            BehaviorAfterMerge::StillShared => 0,
        }
    );
    if let Some(shared) = shared {
        Brc::drop(shared, &mut rt);
    }
    assert_eq!(counter.load(Ordering::SeqCst), 1);
}

/// Tests multiple threads, scoped so that all uses are dominated by a biased
/// reference.
#[test]
fn dominated_biased() {
    let mut rt = Runtime::new();
    let main = rt.current_thread();
    let one = Brc::new(42, &mut rt);
    let second = rt.spawn_thread();
    let third = rt.spawn_thread();
    rt.enter_thread(second);
    let two = Brc::clone(&one, &mut rt);
    Brc::drop(two, &mut rt);
    rt.end_thread();
    rt.enter_thread(third);
    let three = Brc::clone(&one, &mut rt);
    Brc::drop(three, &mut rt);
    rt.end_thread();
    rt.enter_thread(main);
    Brc::drop(one, &mut rt);
}

/// Tests multiple threads, scoped so that the biased thread has to unbias its reference
/// while shared references are still active.
#[test]
fn unbias() {
    let counter = AtomicU32::new(0);
    let mut rt = Runtime::new();
    let first = rt.spawn_thread();
    let second = rt.spawn_thread();

    rt.enter_thread(first);
    let biased = Brc::new(DropCounter(&counter), &mut rt); // biased = 1 and shared = 0
    assert_eq!(Brc::biased_and_shared_counts(&biased, &rt), (Ok(1), 0));

    // the other thread receives the object and clones it,
    // at which point we have biased = 1 and shared = 1
    rt.enter_thread(second);
    assert_eq!(
        Brc::biased_and_shared_counts(&biased, &rt),
        (Err(WrongThread), 0)
    );
    // clone it to get a shared reference
    let shared = Brc::clone(&biased, &mut rt);
    assert_eq!(
        Brc::biased_and_shared_counts(&shared, &rt),
        (Err(WrongThread), 1)
    );

    // the biased reference is sent back,
    // so that it is dropped while there still is a live shared reference
    rt.enter_thread(first);
    assert_eq!(Brc::biased_and_shared_counts(&biased, &rt), (Ok(1), 1));
    // after this, only the shared count is live, so we need to unbias it
    Brc::drop(biased, &mut rt);
    assert_eq!(counter.load(Ordering::SeqCst), 0);

    // at which point the shared reference should no longer be biased,
    // and we should have a single shared reference
    rt.enter_thread(second);
    assert_eq!(
        Brc::biased_and_shared_counts(&shared, &rt),
        (Err(NotBiased), 1)
    );
    Brc::drop(shared, &mut rt);
    assert_eq!(counter.load(Ordering::SeqCst), 1);
}
