//! The threads, their queues and what collecting does.
use biasedrc::thread_id::{ShortThreadId, ThreadIdOverflowError};
use biasedrc::threads::{LocalThreadAccessError, ObjectQueue, ThreadStateFlag, ThreadTable};
use biasedrc::{collect, collect_force, BiasedCountError, Brc, Global, Runtime};
use std::cell::Cell;

struct Noisy<'a>(&'a Cell<u32>);

impl Drop for Noisy<'_> {
    fn drop(&mut self) {
        self.0.set(self.0.get() + 1);
    }
}

#[test]
fn flags_follow_the_queue() {
    use_flag(ThreadStateFlag::Live, true, ThreadStateFlag::QueuedObjects, ThreadStateFlag::Live);
    use_flag(
        ThreadStateFlag::QueuedObjects,
        true,
        ThreadStateFlag::QueuedObjects,
        ThreadStateFlag::Live,
    );
    use_flag(ThreadStateFlag::Dying, false, ThreadStateFlag::Dying, ThreadStateFlag::Dying);
    use_flag(ThreadStateFlag::Dead, false, ThreadStateFlag::Dead, ThreadStateFlag::Dead);
    assert!(!ThreadStateFlag::Live.needs_collect());
    assert!(ThreadStateFlag::QueuedObjects.needs_collect());
    assert!(ThreadStateFlag::Dying.needs_collect());
}

fn use_flag(
    flag: ThreadStateFlag,
    live: bool,
    pushed: ThreadStateFlag,
    processed: ThreadStateFlag,
) {
    assert_eq!(flag.is_live(), live);
    assert_eq!(flag.is_dead_or_dying(), !live);
    assert_eq!(flag.after_push(), pushed);
    assert_eq!(flag.after_process(), processed);
}

#[test]
fn queue_is_first_in_first_out() {
    let short_id = ShortThreadId::new(3).unwrap();
    let mut queue = ObjectQueue::new(short_id);
    assert!(queue.is_empty());
    assert_eq!(queue.pop(), None);
    queue.push(10);
    queue.push(20);
    assert!(!queue.is_empty());
    assert_eq!(queue.pop(), Some(10));
    assert_eq!(queue.pop(), Some(20));
    assert!(queue.is_empty());
    assert_eq!(queue.short_id(), short_id);
}

#[test]
fn thread_is_registered_on_first_use() {
    let mut table = ThreadTable::new();
    assert_eq!(table.existing_short_id(), Err(LocalThreadAccessError::Uninitialized));
    assert!(table.currently_needs_collect());
    let state = table.with_current().unwrap();
    assert_eq!(state.short_id().value(), 1);
    assert_eq!(table.existing_short_id(), Ok(state.short_id()));
    assert!(!table.currently_needs_collect());
    let other = table.spawn();
    table.enter(other);
    assert_eq!(table.current(), other);
    assert_eq!(table.with_current().unwrap().short_id().value(), 2);
    assert_eq!(table.get_by_id(ShortThreadId::new(2).unwrap()), Some(1));
    assert_eq!(table.get_by_id(ShortThreadId::new(3).unwrap()), None);
    assert!(table.push_object(1, 99));
    assert!(table.currently_needs_collect());
    assert_eq!(table.state_flag(1), ThreadStateFlag::QueuedObjects);
    assert_eq!(table.state_flag(0), ThreadStateFlag::Live);
    assert_eq!(table.info_id(1).value(), 2);
}

#[test]
fn identifiers_run_out() {
    let mut table = ThreadTable::new();
    for k in 0..0xfff {
        let state = table.with_current().unwrap();
        assert_eq!(state.short_id().value() as usize, k + 1);
        let next = table.spawn();
        table.enter(next);
    }
    let refused = Err(LocalThreadAccessError::IdOverflow(ThreadIdOverflowError));
    assert_eq!(table.with_current(), refused);
    assert_eq!(table.with_current(), refused);
    let next = table.spawn();
    table.enter(next);
    assert_eq!(table.with_current(), refused);
    assert_eq!(table.existing_short_id(), Err(LocalThreadAccessError::Uninitialized));
}

#[test]
fn thread_without_identifier_makes_merged_objects() {
    let mut rt: Runtime<u8, Global> = Runtime::new();
    for _ in 0..0xfff {
        collect(&mut rt);
        let next = rt.spawn_thread();
        rt.enter_thread(next);
    }
    let one = Brc::new(1, &mut rt);
    assert_eq!(rt.this_id(), None);
    assert_eq!(Brc::biased_count(&one, &rt), Err(BiasedCountError::NotBiased));
    assert_eq!(Brc::shared_count(&one, &rt), 1);
    assert_eq!(Brc::strong_count(&one, &rt), Ok(1));
    assert!(Brc::is_unique(&one, &mut rt));
    let two = Brc::clone(&one, &mut rt);
    assert_eq!(Brc::shared_count(&one, &rt), 2);
    Brc::drop(one, &mut rt);
    Brc::drop(two, &mut rt);
}

#[test]
fn dead_thread_is_not_registered_again() {
    let mut rt: Runtime<u8, Global> = Runtime::new();
    let one = Brc::new(1, &mut rt);
    assert_eq!(Brc::biased_count(&one, &rt), Ok(1));
    rt.end_thread();
    assert_eq!(Brc::biased_count(&one, &rt), Err(BiasedCountError::WrongThread));
    let two = Brc::new(2, &mut rt);
    assert_eq!(rt.this_id(), None);
    assert_eq!(Brc::biased_count(&two, &rt), Err(BiasedCountError::NotBiased));
    assert_eq!(Brc::shared_count(&two, &rt), 1);
    // the owner of the first object has ended, so its counts are merged at once
    Brc::drop(one, &mut rt);
    Brc::drop(two, &mut rt);
}

#[test]
fn revived_thread_is_not_registered_again() {
    let mut rt: Runtime<u8, Global> = Runtime::new();
    let one = Brc::new(1, &mut rt);
    rt.end_thread();
    rt.revive_thread();
    let two = Brc::new(2, &mut rt);
    assert_eq!(rt.this_id(), None);
    assert_eq!(Brc::biased_count(&one, &rt), Err(BiasedCountError::WrongThread));
    assert_eq!(Brc::biased_count(&two, &rt), Err(BiasedCountError::NotBiased));
    let mut table = ThreadTable::new();
    let state = table.with_current();
    table.revive();
    assert_eq!(table.with_current(), state);
    Brc::drop(one, &mut rt);
    Brc::drop(two, &mut rt);
}

#[test]
fn queued_object_stays_until_its_counts_are_merged() {
    let dropped = Cell::new(0);
    let mut rt = Runtime::new();
    let owner = rt.current_thread();
    let one = Brc::new(Noisy(&dropped), &mut rt);
    let two = Brc::clone(&one, &mut rt);
    let other = rt.spawn_thread();
    rt.enter_thread(other);
    Brc::drop(one, &mut rt);
    let three = Brc::clone(&two, &mut rt);
    assert_eq!(Brc::shared_count(&three, &rt), 0);
    rt.enter_thread(owner);
    Brc::drop_no_collect(two, &mut rt);
    assert_eq!(dropped.get(), 0);
    assert_eq!(Brc::biased_and_shared_counts(&three, &rt), (Ok(1), 0));
    let weak = Brc::downgrade(&three, &mut rt);
    Brc::drop_no_collect(three, &mut rt);
    assert_eq!(dropped.get(), 0);
    assert_eq!(weak.strong_count(&rt), Ok(0));
    collect(&mut rt);
    assert_eq!(dropped.get(), 1);
    assert!(weak.upgrade(&mut rt).is_none());
    weak.drop(&mut rt);
}

#[test]
fn deferred_destruction_happens_when_the_owner_collects() {
    let dropped = Cell::new(0);
    let mut rt = Runtime::new();
    let owner = rt.current_thread();
    let one = Brc::new(Noisy(&dropped), &mut rt);
    let weak = Brc::downgrade(&one, &mut rt);
    let other = rt.spawn_thread();
    rt.enter_thread(other);
    Brc::drop(one, &mut rt);
    assert_eq!(dropped.get(), 0);
    // another thread cannot do the cleanup
    collect_force(&mut rt);
    assert_eq!(dropped.get(), 0);
    rt.enter_thread(owner);
    collect(&mut rt);
    assert_eq!(dropped.get(), 1);
    assert_eq!(weak.strong_count(&rt), Ok(0));
    // collecting twice does nothing more
    collect(&mut rt);
    assert_eq!(dropped.get(), 1);
    weak.drop(&mut rt);
}

#[test]
fn deferred_destruction_happens_when_the_owner_ends() {
    let dropped = Cell::new(0);
    let mut rt = Runtime::new();
    let owner = rt.current_thread();
    let one = Brc::new(Noisy(&dropped), &mut rt);
    let other = rt.spawn_thread();
    rt.enter_thread(other);
    Brc::drop(one, &mut rt);
    rt.enter_thread(owner);
    rt.end_thread();
    assert_eq!(dropped.get(), 1);
}

#[test]
fn new_clone_and_drop_collect() {
    for kind in 0..3 {
        let dropped = Cell::new(0);
        let mut rt = Runtime::new();
        let owner = rt.current_thread();
        let one = Brc::new(Noisy(&dropped), &mut rt);
        let kept = Brc::new(Noisy(&dropped), &mut rt);
        let other = rt.spawn_thread();
        rt.enter_thread(other);
        Brc::drop(one, &mut rt);
        rt.enter_thread(owner);
        assert_eq!(dropped.get(), 0);
        match kind {
            0 => {
                let _ = Brc::new(Noisy(&dropped), &mut rt);
                assert_eq!(rt.take_discarded().len(), 1);
                assert_eq!(dropped.get(), 1);
            }
            1 => {
                let _ = Brc::clone(&kept, &mut rt);
                assert_eq!(rt.take_discarded().len(), 1);
                assert_eq!(dropped.get(), 1);
            }
            _ => {
                Brc::drop(kept, &mut rt);
                assert_eq!(dropped.get(), 2);
            }
        }
    }
}

#[test]
fn no_collect_variants_do_not_collect() {
    let dropped = Cell::new(0);
    let mut rt = Runtime::new();
    let owner = rt.current_thread();
    let one = Brc::new(Noisy(&dropped), &mut rt);
    let kept = Brc::new(Noisy(&dropped), &mut rt);
    let other = rt.spawn_thread();
    rt.enter_thread(other);
    Brc::drop(one, &mut rt);
    rt.enter_thread(owner);
    let two = Brc::clone_no_collect(&kept, &mut rt);
    Brc::drop_no_collect(two, &mut rt);
    assert_eq!(dropped.get(), 0);
    assert_eq!(Brc::strong_count(&kept, &rt), Ok(1));
    Brc::drop(kept, &mut rt);
    assert_eq!(dropped.get(), 2);
}

#[test]
fn unwinding_thread_does_not_collect() {
    let dropped = Cell::new(0);
    let mut rt = Runtime::new();
    let owner = rt.current_thread();
    let one = Brc::new(Noisy(&dropped), &mut rt);
    let other = rt.spawn_thread();
    rt.enter_thread(other);
    Brc::drop(one, &mut rt);
    rt.enter_thread(owner);
    rt.set_panicking(true);
    collect(&mut rt);
    assert_eq!(dropped.get(), 0);
    collect_force(&mut rt);
    assert_eq!(dropped.get(), 1);
    rt.set_panicking(false);
}

#[test]
fn unwinding_owner_can_drop_a_queued_object() {
    let dropped = Cell::new(0);
    let mut rt = Runtime::new();
    let owner = rt.current_thread();
    let one = Brc::new(Noisy(&dropped), &mut rt);
    let two = Brc::clone(&one, &mut rt);
    let three = Brc::clone(&one, &mut rt);
    let other = rt.spawn_thread();
    rt.enter_thread(other);
    Brc::drop(one, &mut rt);
    rt.enter_thread(owner);
    rt.set_panicking(true);
    Brc::drop(two, &mut rt);
    Brc::drop(three, &mut rt);
    assert_eq!(dropped.get(), 0);
    rt.end_thread();
    assert_eq!(dropped.get(), 1);
}

#[test]
fn merged_objects_are_never_biased_again() {
    let mut rt = Runtime::new();
    let owner = rt.current_thread();
    let one = Brc::new(1, &mut rt);
    let two = Brc::clone(&one, &mut rt);
    let other = rt.spawn_thread();
    rt.enter_thread(other);
    Brc::drop(two, &mut rt);
    rt.enter_thread(owner);
    collect(&mut rt);
    assert_eq!(Brc::biased_and_shared_counts(&one, &rt), (Err(BiasedCountError::NotBiased), 1));
    let three = Brc::clone(&one, &mut rt);
    assert_eq!(Brc::biased_and_shared_counts(&three, &rt), (Err(BiasedCountError::NotBiased), 2));
}

#[test]
fn registered_threads_have_different_identifiers() {
    let mut rt: Runtime<u8, Global> = Runtime::new();
    collect(&mut rt);
    let first = rt.this_id();
    let other = rt.spawn_thread();
    rt.enter_thread(other);
    assert_eq!(rt.this_id(), None);
    collect_force(&mut rt);
    assert!(rt.this_id().is_some());
    assert_ne!(rt.this_id(), first);
}
