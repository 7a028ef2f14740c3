//! Strong, weak and unique references.
use biasedrc::weak::RESERVED_ADDRESS;
use biasedrc::{
    Allocator, Brc, Global, ImpreciseRefCountError, Runtime, UniqueBrc, UniqueUninitBrc, Weak,
};
use std::cell::Cell;

struct Noisy<'a>(&'a Cell<u32>, u32);

impl Drop for Noisy<'_> {
    fn drop(&mut self) {
        self.0.set(self.0.get() + 1);
    }
}

#[test]
fn counts_are_exact_on_the_biased_thread() {
    let mut rt = Runtime::new();
    let owner = rt.current_thread();
    let one = Brc::new(7, &mut rt);
    let two = Brc::clone(&one, &mut rt);
    let three = Brc::clone_shared(&one, &mut rt);
    assert_eq!(Brc::biased_and_shared_counts(&one, &rt), (Ok(2), 1));
    assert_eq!(Brc::strong_count(&one, &rt), Ok(3));
    assert!(!Brc::is_unique(&one, &mut rt));
    let other = rt.spawn_thread();
    rt.enter_thread(other);
    assert_eq!(Brc::strong_count(&one, &rt), Err(ImpreciseRefCountError { lower_bound: 1 }));
    assert!(!Brc::is_unique(&one, &mut rt));
    Brc::drop(three, &mut rt);
    assert_eq!(Brc::strong_count(&one, &rt), Err(ImpreciseRefCountError { lower_bound: 0 }));
    rt.enter_thread(owner);
    Brc::drop(two, &mut rt);
    assert_eq!(Brc::strong_count(&one, &rt), Ok(1));
    assert!(Brc::is_unique(&one, &mut rt));
}

#[test]
fn uniqueness_counts_weak_references() {
    let mut rt = Runtime::new();
    let mut one = Brc::new(7, &mut rt);
    assert!(Brc::is_unique(&one, &mut rt));
    assert_eq!(Brc::weak_count(&one, &rt), Ok(0));
    let weak = Brc::downgrade(&one, &mut rt);
    assert_eq!(Brc::weak_count(&one, &rt), Ok(1));
    assert!(!Brc::is_unique(&one, &mut rt));
    assert!(Brc::get_mut(&mut one, &mut rt).is_none());
    weak.drop(&mut rt);
    *Brc::get_mut(&mut one, &mut rt).unwrap() = 8;
    assert_eq!(*Brc::deref(&one, &rt), 8);
    *Brc::get_mut_unchecked(&mut one, &mut rt) = 9;
    assert_eq!(*Brc::deref(&one, &rt), 9);
}

#[test]
fn unwrap_moves_the_value_out() {
    let dropped = Cell::new(0);
    let mut rt = Runtime::new();
    let one = Brc::new(Noisy(&dropped, 5), &mut rt);
    let two = Brc::clone(&one, &mut rt);
    let one = match Brc::try_unwrap(one, &mut rt) {
        Ok(_) => unreachable!(),
        Err(one) => one,
    };
    assert_eq!(Brc::deref(&one, &rt).1, 5);
    assert!(Brc::into_inner(one, &mut rt).is_none());
    assert_eq!(dropped.get(), 0);
    let value = Brc::into_inner(two, &mut rt).unwrap();
    assert_eq!((value.1, dropped.get()), (5, 0));
    let three = Brc::new(value, &mut rt);
    let value = match Brc::try_unwrap(three, &mut rt) {
        Ok(value) => value,
        Err(_) => unreachable!(),
    };
    assert_eq!(value.1, 5);
}

#[test]
fn unwrap_fails_on_other_threads() {
    let mut rt = Runtime::new();
    let one = Brc::new(3, &mut rt);
    let other = rt.spawn_thread();
    rt.enter_thread(other);
    let one = match Brc::try_unwrap(one, &mut rt) {
        Ok(_) => unreachable!(),
        Err(one) => one,
    };
    assert_eq!(*Brc::deref(&one, &rt), 3);
}

#[test]
fn make_mut_copies_shared_values() {
    let mut rt = Runtime::new();
    let mut one = Brc::new(String::from("a"), &mut rt);
    let before = Brc::as_ptr(&one);
    Brc::make_mut(&mut one, &mut rt).push('b');
    assert_eq!(Brc::as_ptr(&one), before);
    let two = Brc::clone(&one, &mut rt);
    Brc::make_mut(&mut one, &mut rt).push('c');
    assert_ne!(Brc::as_ptr(&one), before);
    assert!(!Brc::ptr_eq(&one, &two));
    assert_eq!(Brc::deref(&one, &rt), "abc");
    assert_eq!(Brc::deref(&two, &rt), "ab");
    assert_eq!(Brc::strong_count(&two, &rt), Ok(1));
    assert_eq!(Brc::strong_count(&one, &rt), Ok(1));
}

#[derive(Copy, Clone, Debug, PartialEq, Eq)]
struct Tagged(u8);

impl Allocator for Tagged {
    fn reserved<'a>() -> Option<&'a Self> {
        None
    }
}

struct Node {
    name: u32,
    next: Option<Brc<Node>>,
}

#[test]
fn dropped_values_are_handed_out_with_their_references() {
    let mut rt: Runtime<Node, Global> = Runtime::new();
    let tail = Brc::new(Node { name: 1, next: None }, &mut rt);
    let weak = Brc::downgrade(&tail, &mut rt);
    let head = Brc::new(Node { name: 2, next: Some(tail) }, &mut rt);
    let mut dropped = Brc::drop(head, &mut rt);
    assert_eq!(dropped.len(), 1);
    let head = dropped.pop().unwrap();
    assert_eq!(head.name, 2);
    assert_eq!(weak.strong_count(&rt), Ok(1));
    let dropped = Brc::drop(head.next.unwrap(), &mut rt);
    assert_eq!(dropped.iter().map(|node| node.name).collect::<Vec<u32>>(), vec![1]);
    assert_eq!(weak.strong_count(&rt), Ok(0));
    weak.drop(&mut rt);
    let unique = UniqueBrc::new(Node { name: 3, next: None }, &mut rt);
    assert_eq!(UniqueBrc::drop(unique, &mut rt).name, 3);
}

#[test]
fn values_dropped_on_the_way_wait_to_be_handed_out() {
    let mut rt: Runtime<u32, Global> = Runtime::new();
    let owner = rt.current_thread();
    let one = Brc::new(1, &mut rt);
    let two = Brc::new(2, &mut rt);
    let other = rt.spawn_thread();
    rt.enter_thread(other);
    assert_eq!(Brc::drop(one, &mut rt), vec![]);
    rt.enter_thread(owner);
    let three = Brc::clone(&two, &mut rt);
    assert_eq!(rt.take_discarded(), vec![1]);
    assert_eq!(rt.take_discarded(), vec![]);
    assert_eq!(Brc::into_inner(two, &mut rt), None);
    assert_eq!(Brc::drop(three, &mut rt), vec![2]);
}

#[test]
fn downgrade_and_drop_bring_the_weak_count_back() {
    let mut rt: Runtime<u32, Global> = Runtime::new();
    let one = Brc::new(7, &mut rt);
    assert_eq!(Brc::weak_count(&one, &rt), Ok(0));
    let weak = Brc::downgrade(&one, &mut rt);
    assert_eq!(Brc::weak_count(&one, &rt), Ok(1));
    assert_eq!(Brc::strong_count(&one, &rt), Ok(1));
    let two = weak.upgrade(&mut rt).unwrap();
    assert!(Brc::ptr_eq(&one, &two));
    assert_eq!(Brc::strong_count(&one, &rt), Ok(2));
    assert_eq!(Brc::weak_count(&one, &rt), Ok(1));
    Brc::drop(two, &mut rt);
    assert_eq!(Brc::strong_count(&one, &rt), Ok(1));
    weak.drop(&mut rt);
    assert_eq!(Brc::weak_count(&one, &rt), Ok(0));
    assert_eq!(Brc::drop(one, &mut rt), vec![7]);
}

#[test]
fn allocator_stays_with_the_object() {
    let mut rt: Runtime<i32, Tagged> = Runtime::new();
    let one = Brc::new_in(1, Tagged(17), &mut rt);
    let weak = Brc::downgrade(&one, &mut rt);
    assert_eq!(*Brc::allocator(&one, &rt), Tagged(17));
    assert_eq!(*weak.allocator(&rt), Tagged(17));
    let (raw, alloc) = Brc::into_raw_with_allocator(one, &mut rt);
    assert_eq!(alloc, Tagged(17));
    let one = Brc::from_raw_in(raw, alloc, &mut rt);
    assert_eq!(*Brc::allocator(&one, &rt), Tagged(17));
    let two = Brc::new_with_in(|| 2, Tagged(18), &mut rt);
    assert_eq!((*Brc::deref(&two, &rt), *Brc::allocator(&two, &rt)), (2, Tagged(18)));
    let three = UniqueBrc::into_shared(UniqueBrc::new_in(3, Tagged(19), &mut rt), &mut rt);
    assert_eq!((*Brc::deref(&three, &rt), *Brc::allocator(&three, &rt)), (3, Tagged(19)));
}

#[test]
fn raw_round_trip() {
    let dropped = Cell::new(0);
    let mut rt = Runtime::new();
    let one = Brc::new(Noisy(&dropped, 1), &mut rt);
    let address = Brc::as_ptr(&one);
    let raw = Brc::into_raw(one, &mut rt);
    assert_eq!(raw, address);
    let one = Brc::from_raw(raw, &mut rt);
    assert_eq!(Brc::strong_count(&one, &rt), Ok(1));
    Brc::increment_strong_count(raw, &mut rt);
    assert_eq!(Brc::strong_count(&one, &rt), Ok(2));
    Brc::decrement_strong_count(raw, &mut rt);
    assert_eq!(Brc::strong_count(&one, &rt), Ok(1));
    assert_eq!(dropped.get(), 0);
    let raw = Brc::into_raw(one, &mut rt);
    Brc::decrement_strong_count(raw, &mut rt);
    assert_eq!(dropped.get(), 1);
}

#[test]
fn weak_raw_round_trip() {
    let mut rt = Runtime::new();
    let one = Brc::new(1, &mut rt);
    let weak = Brc::downgrade(&one, &mut rt);
    let raw = weak.into_raw(&mut rt);
    assert_eq!(raw, Brc::as_ptr(&one));
    let weak: Weak<i32> = Weak::from_raw(raw, &mut rt);
    assert!(weak.upgrade(&mut rt).is_some());
    let dummy = Weak::<i32>::new();
    assert_eq!(dummy.as_ptr(), RESERVED_ADDRESS);
    let raw = dummy.into_raw(&mut rt);
    assert_eq!(raw, usize::MAX);
    let dummy: Weak<i32> = Weak::from_raw(raw, &mut rt);
    assert!(dummy.upgrade(&mut rt).is_none());
}

#[test]
fn weak_counts() {
    let mut rt = Runtime::new();
    let owner = rt.current_thread();
    let one = Brc::new(1, &mut rt);
    let weak = Brc::downgrade(&one, &mut rt);
    let more = weak.clone(&mut rt);
    assert_eq!(weak.weak_count(&rt), Ok(2));
    assert_eq!(weak.strong_count(&rt), Ok(1));
    assert!(weak.ptr_eq(&more));
    let other = rt.spawn_thread();
    rt.enter_thread(other);
    assert_eq!(weak.weak_count(&rt), Err(ImpreciseRefCountError { lower_bound: 0 }));
    let two = Brc::clone(&one, &mut rt);
    assert_eq!(weak.weak_count(&rt), Ok(2));
    assert_eq!(weak.strong_count(&rt), Err(ImpreciseRefCountError { lower_bound: 1 }));
    Brc::drop(two, &mut rt);
    rt.enter_thread(owner);
    Brc::drop(one, &mut rt);
    assert_eq!(weak.weak_count(&rt), Ok(0));
    assert_eq!(weak.strong_count(&rt), Ok(0));
    assert!(weak.upgrade(&mut rt).is_none());
    more.drop(&mut rt);
    weak.drop(&mut rt);
}

#[test]
fn reserved_weak_reference() {
    let mut rt: Runtime<i32, Global> = Runtime::new();
    let one = Brc::new(1, &mut rt);
    let real = Brc::downgrade(&one, &mut rt);
    let dummy: Weak<i32> = Weak::default();
    assert_eq!(dummy.strong_count(&rt), Ok(0));
    assert_eq!(dummy.weak_count(&rt), Ok(0));
    assert_eq!(*dummy.allocator(&rt), Global);
    assert!(!dummy.ptr_eq(&real));
    assert!(dummy.ptr_eq(&dummy.clone(&mut rt)));
    assert!(dummy.clone(&mut rt).upgrade(&mut rt).is_none());
    dummy.drop(&mut rt);
}

#[test]
fn upgrade_revives_an_object_that_waits_for_its_owner() {
    let dropped = Cell::new(0);
    let mut rt = Runtime::new();
    let owner = rt.current_thread();
    let one = Brc::new(Noisy(&dropped, 4), &mut rt);
    let weak = Brc::downgrade(&one, &mut rt);
    let other = rt.spawn_thread();
    rt.enter_thread(other);
    Brc::drop(one, &mut rt);
    let again = weak.upgrade(&mut rt).unwrap();
    assert_eq!(Brc::deref(&again, &rt).1, 4);
    rt.enter_thread(owner);
    biasedrc::collect(&mut rt);
    assert_eq!(dropped.get(), 0);
    assert_eq!(Brc::strong_count(&again, &rt), Ok(1));
    Brc::drop(again, &mut rt);
    assert_eq!(dropped.get(), 1);
}

#[test]
fn other_references_are_left_alone() {
    let dropped = Cell::new(0);
    let mut rt = Runtime::new();
    let one = Brc::new(Noisy(&dropped, 1), &mut rt);
    let two = Brc::new(Noisy(&dropped, 2), &mut rt);
    let weak = Brc::downgrade(&two, &mut rt);
    let three = Brc::clone(&two, &mut rt);
    Brc::drop(one, &mut rt);
    Brc::drop(three, &mut rt);
    assert_eq!(dropped.get(), 1);
    assert_eq!(Brc::deref(&two, &rt).1, 2);
    assert!(weak.upgrade(&mut rt).is_some());
}

#[test]
fn unique_objects() {
    let dropped = Cell::new(0);
    let mut rt = Runtime::new();
    let mut unique = UniqueBrc::new(Noisy(&dropped, 1), &mut rt);
    let weak = UniqueBrc::downgrade(&unique, &mut rt);
    assert!(weak.upgrade(&mut rt).is_none());
    assert_eq!(weak.strong_count(&rt), Ok(0));
    UniqueBrc::deref_mut(&mut unique, &mut rt).1 = 2;
    assert_eq!(UniqueBrc::deref(&unique, &rt).1, 2);
    let strong = UniqueBrc::into_shared(unique, &mut rt);
    assert_eq!(Brc::biased_and_shared_counts(&strong, &rt), (Ok(1), 0));
    let again = weak.upgrade(&mut rt).unwrap();
    assert!(Brc::ptr_eq(&strong, &again));
    Brc::drop(strong, &mut rt);
    Brc::drop(again, &mut rt);
    assert_eq!(dropped.get(), 1);
    assert!(weak.upgrade(&mut rt).is_none());
    weak.drop(&mut rt);
}

#[test]
fn unique_owner_drops_the_value() {
    let dropped = Cell::new(0);
    let mut rt = Runtime::new();
    let unique = UniqueBrc::new_with(|| Noisy(&dropped, 1), &mut rt);
    let weak = UniqueBrc::downgrade(&unique, &mut rt);
    UniqueBrc::drop(unique, &mut rt);
    assert_eq!(dropped.get(), 1);
    assert!(weak.upgrade(&mut rt).is_none());
    weak.drop(&mut rt);
    let unique = UniqueBrc::new_with_in(|| Noisy(&dropped, 2), Global, &mut rt);
    UniqueBrc::drop(unique, &mut rt);
    assert_eq!(dropped.get(), 2);
}

#[test]
fn uninitialised_objects() {
    let dropped = Cell::new(0);
    let mut rt = Runtime::new();
    let mut uninit = UniqueUninitBrc::new(&mut rt);
    assert!(uninit.as_uninit_ref(&rt).is_none());
    assert_eq!(uninit.as_ptr(), uninit.as_mut_ptr());
    let weak = UniqueUninitBrc::downgrade(&uninit, &mut rt);
    assert!(weak.upgrade(&mut rt).is_none());
    *uninit.as_uninit_mut(&mut rt) = Some(Noisy(&dropped, 1));
    assert_eq!(uninit.assume_init_ref(&rt).1, 1);
    uninit.assume_init_mut(&mut rt).1 = 2;
    assert_eq!(uninit.assume_init_ref(&rt).1, 2);
    uninit.assume_init_drop(&mut rt);
    assert_eq!(dropped.get(), 1);
    let unique = uninit.write(Noisy(&dropped, 3), &mut rt);
    assert_eq!(UniqueBrc::deref(&unique, &rt).1, 3);
    let strong = UniqueBrc::into_shared(unique, &mut rt);
    assert_eq!(Brc::deref(&strong, &rt).1, 3);
    assert!(weak.upgrade(&mut rt).is_some());
    assert_eq!(dropped.get(), 1);
}

#[test]
fn uninitialised_owner_leaves_the_value_alone() {
    let dropped = Cell::new(0);
    let mut rt = Runtime::new();
    let uninit = UniqueUninitBrc::new_in(Global, &mut rt);
    *uninit.as_uninit_mut(&mut rt) = Some(Noisy(&dropped, 1));
    let unique = uninit.write(Noisy(&dropped, 2), &mut rt);
    assert_eq!(dropped.get(), 0);
    UniqueBrc::drop(unique, &mut rt);
    assert_eq!(dropped.get(), 1);
    let uninit = UniqueUninitBrc::new(&mut rt);
    *uninit.as_uninit_mut(&mut rt) = Some(Noisy(&dropped, 3));
    uninit.drop(&mut rt);
    assert_eq!(dropped.get(), 1);
    let uninit = UniqueUninitBrc::new(&mut rt);
    *uninit.as_uninit_mut(&mut rt) = Some(Noisy(&dropped, 4));
    let unique = uninit.assume_init(&rt);
    assert_eq!(UniqueBrc::deref(&unique, &rt).1, 4);
    UniqueBrc::drop(unique, &mut rt);
    assert_eq!(dropped.get(), 2);
}

#[test]
fn weak_reference_is_lent_out() {
    let mut rt = Runtime::new();
    let uninit: UniqueUninitBrc<i32> = UniqueUninitBrc::new(&mut rt);
    let address = uninit.as_ptr();
    let weak = uninit.with_weak_ref(|weak| {
        assert_eq!(weak.as_ptr(), address);
        assert!(weak.upgrade(&mut rt).is_none());
        weak.clone(&mut rt)
    });
    let strong = UniqueBrc::into_shared(uninit.write(6, &mut rt), &mut rt);
    assert_eq!(Brc::weak_count(&strong, &rt), Ok(1));
    let again = weak.upgrade(&mut rt).unwrap();
    assert_eq!(*Brc::deref(&again, &rt), 6);
}

#[test]
fn pinned_values() {
    let dropped = Cell::new(0);
    let mut rt = Runtime::new();
    let one = Brc::pin(Noisy(&dropped, 1), &mut rt);
    let two = one.clone(&mut rt);
    assert_eq!(two.deref(&rt).1, 1);
    one.drop(&mut rt);
    assert_eq!(dropped.get(), 0);
    two.drop(&mut rt);
    assert_eq!(dropped.get(), 1);
    let three = Brc::pin_in(Noisy(&dropped, 2), Global, &mut rt);
    assert_eq!(three.deref(&rt).1, 2);
}

#[test]
fn values_made_by_functions() {
    let mut rt = Runtime::new();
    let one = Brc::new_with(|| 3 + 4, &mut rt);
    assert_eq!(*Brc::deref(&one, &rt), 7);
    let two = Brc::from_value(8, &mut rt);
    assert_eq!(*Brc::deref(&two, &rt), 8);
}
