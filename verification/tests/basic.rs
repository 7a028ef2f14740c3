//! Basic smoke tests.
use biasedrc::{Brc, Global, Runtime, Weak};
use std::sync::atomic::{AtomicU32, Ordering};

/// Tests that allocation works, without testing clones.
#[test]
fn alloc_int() {
    let mut rt = Runtime::new();
    let res = Brc::new(52, &mut rt);
    assert_eq!(*Brc::deref(&res, &rt), 52);
    Brc::drop(res, &mut rt);
}

#[test]
fn alloc_string() {
    let mut rt = Runtime::new();
    let res = Brc::new(String::from("hello"), &mut rt);
    assert_eq!(Brc::deref(&res, &rt), "hello");
    Brc::drop(res, &mut rt);
}

#[test]
fn count_drop() {
    let count = AtomicU32::new(0);
    let mut rt = Runtime::new();
    let one = Brc::new(DropCounter(&count), &mut rt);
    let two = Brc::clone(&one, &mut rt);
    Brc::drop(one, &mut rt);
    Brc::drop(two, &mut rt);
    assert_eq!(count.load(Ordering::SeqCst), 1);
}

#[test]
fn alloc_with_clone() {
    let mut rt = Runtime::new();
    let one = Brc::new(String::from("hello"), &mut rt);
    let two = Brc::clone(&one, &mut rt);
    assert_eq!(*Brc::deref(&two, &rt), "hello");
    assert_eq!(*Brc::deref(&one, &rt), *Brc::deref(&two, &rt));
    // reverse drop
    Brc::drop(one, &mut rt);
    Brc::drop(two, &mut rt);
}

#[test]
fn alloc_from_box() {
    let mut rt = Runtime::new();
    let one: Box<String> = Box::new(String::from("hello"));
    let one: Brc<String> = Brc::from_box(one, &mut rt);
    assert_eq!(Brc::deref(&one, &rt), "hello");
}

struct DropCounter<'a>(&'a AtomicU32);

impl Drop for DropCounter<'_> {
    fn drop(&mut self) {
        let _ = self.0.fetch_update(Ordering::SeqCst, Ordering::SeqCst, |x| {
            Some(x.checked_add(1).unwrap())
        });
    }
}

#[test]
fn alloc_slice() {
    let mut rt = Runtime::new();
    let x: Brc<Vec<u32>> = Brc::clone_from_slice([1, 2, 3].as_slice(), &mut rt);
    assert_eq!(*Brc::deref(&x, &rt), [1, 2, 3]);
    Brc::drop(x, &mut rt);
}

#[test]
fn alloc_vec() {
    let mut rt = Runtime::new();
    let x: Brc<Vec<Box<u32>>> =
        Brc::from_vec(vec![Box::new(1), Box::new(2), Box::new(3)], &mut rt);
    assert_eq!(
        Brc::deref(&x, &rt).iter().map(|x| **x).collect::<Vec<_>>(),
        [1, 2, 3],
    );
    Brc::drop(x, &mut rt);
}

#[test]
fn alloc_iter() {
    let mut rt = Runtime::new();
    // this should not need buffering
    let iter = 0..=20;
    let hint = iter.size_hint();
    let x: Brc<Vec<u32>> = Brc::from_iter(iter, hint, &mut rt);
    assert_eq!(
        Brc::deref(&x, &rt).iter().copied().collect::<Vec<_>>(),
        (0..=20).collect::<Vec<u32>>()
    );
}

#[test]
fn get_mut() {
    let mut rt = Runtime::new();
    {
        let mut one = Brc::new(42, &mut rt);
        assert_eq!(*Brc::get_mut(&mut one, &mut rt).unwrap(), 42);
        Brc::drop(one, &mut rt);
    }
    {
        let one = Brc::new(42, &mut rt);
        let mut two = Brc::clone(&one, &mut rt);
        assert_eq!(Brc::get_mut(&mut two, &mut rt), None);
        Brc::drop(one, &mut rt);
        Brc::drop(two, &mut rt);
    }
    {
        let one = Brc::new(42, &mut rt);
        let other = rt.spawn_thread();
        rt.enter_thread(other);
        let mut two = Brc::clone(&one, &mut rt);
        Brc::drop(one, &mut rt);
        assert_eq!(
            Brc::get_mut(&mut two, &mut rt),
            None,
            "Calling get_mut should fail on non-biased thread"
        );
        Brc::drop(two, &mut rt);
    }
}

#[test]
fn weak_downgrade_then_upgrade() {
    let mut rt = Runtime::new();
    let strong = Brc::new(42, &mut rt);
    let weak = Brc::downgrade(&strong, &mut rt);
    let upgrade = Weak::upgrade(&weak, &mut rt).unwrap();
    assert_eq!(*Brc::deref(&strong, &rt), *Brc::deref(&upgrade, &rt));
    assert!(Brc::ptr_eq(&strong, &upgrade));
}

#[test]
fn weak_forget_then_upgrade() {
    let mut rt = Runtime::new();
    let strong = Brc::new(42, &mut rt);
    let weak = Brc::downgrade(&strong, &mut rt);
    Brc::drop(strong, &mut rt);
    assert!(Weak::upgrade(&weak, &mut rt).is_none());
}

#[test]
fn weak_dummy_upgrade() {
    let mut rt: Runtime<i32, Global> = Runtime::new();
    let weak = Weak::<i32>::new();
    assert!(weak.upgrade(&mut rt).is_none());
}

#[test]
fn weak_slices() {
    let mut rt = Runtime::new();
    let strong: Brc<Vec<i32>> = Brc::from_vec(vec![1, 2, 3], &mut rt);
    let weak = Brc::downgrade(&strong, &mut rt);
    let upgraded = Weak::upgrade(&weak, &mut rt).unwrap();
    assert_eq!(Brc::deref(&strong, &rt), Brc::deref(&upgraded, &rt));
    let mut rt = Runtime::new();
    let strong: Brc<String> = Brc::from_str("foo", &mut rt);
    let weak = Brc::downgrade(&strong, &mut rt);
    let upgraded = Weak::upgrade(&weak, &mut rt).unwrap();
    assert_eq!(Brc::deref(&strong, &rt), Brc::deref(&upgraded, &rt));
    assert_eq!(Brc::deref(&upgraded, &rt), "foo");
}
