//! Conversions to strong references.
use biasedrc::conversions::{AssertExactIter, ExactLenError};
use biasedrc::{Brc, Global, Runtime};

#[test]
fn slices_and_arrays() {
    let mut rt = Runtime::new();
    let copied = Brc::copy_from_slice(&[1, 2, 3], &mut rt);
    assert_eq!(*Brc::deref(&copied, &rt), [1, 2, 3]);
    let cloned = Brc::clone_from_slice(&[4, 5], &mut rt);
    assert_eq!(*Brc::deref(&cloned, &rt), [4, 5]);
    let moved = Brc::from_array([6, 7, 8, 9], &mut rt);
    assert_eq!(*Brc::deref(&moved, &rt), [6, 7, 8, 9]);
    let empty = Brc::from_array([0i32; 0], &mut rt);
    assert!(Brc::deref(&empty, &rt).is_empty());
}

#[test]
fn iterators_without_exact_hint_are_buffered() {
    let mut rt = Runtime::new();
    let iter = vec![1, 2, 3, 4, 5, 6].into_iter().filter(|x| x % 2 == 0);
    let hint = iter.size_hint();
    assert_eq!(hint, (0, Some(6)));
    let evens = Brc::from_iter(iter, hint, &mut rt);
    assert_eq!(*Brc::deref(&evens, &rt), [2, 4, 6]);
    let iter = vec![1, 2].into_iter();
    let all = Brc::from_iter(iter, (0, None), &mut rt);
    assert_eq!(*Brc::deref(&all, &rt), [1, 2]);
}

#[test]
fn exact_iterators_are_held_to_their_length() {
    let mut rt: Runtime<Vec<i32>, Global> = Runtime::new();
    let exact = AssertExactIter::new(vec![1, 2, 3].into_iter(), 3);
    let three = match Brc::from_iter_exact_trusted_in(exact, Global, &mut rt) {
        Ok(three) => three,
        Err(_) => unreachable!(),
    };
    assert_eq!(*Brc::deref(&three, &rt), [1, 2, 3]);
    let more = AssertExactIter::new(vec![1, 2, 3].into_iter(), 2);
    assert!(matches!(
        Brc::from_iter_exact_trusted_in(more, Global, &mut rt),
        Err(ExactLenError::More)
    ));
    let fewer = AssertExactIter::new(vec![1, 2, 3].into_iter(), 4);
    assert!(matches!(
        Brc::from_iter_exact_trusted_in(fewer, Global, &mut rt),
        Err(ExactLenError::Fewer)
    ));
    let mut iter = AssertExactIter::new(vec![1].into_iter(), 1);
    assert_eq!(iter.next(), Ok(Some(1)));
    assert_eq!(iter.next(), Ok(None));
    assert_eq!(
        ExactLenError::More.message(),
        "Iterator yielded more items than claimed length"
    );
    assert_eq!(
        ExactLenError::Fewer.message(),
        "Iterator yielded fewer items than claimed length"
    );
}

#[test]
fn strings_are_copied() {
    let mut rt = Runtime::new();
    let text = Brc::from_str("brc \u{3b1}", &mut rt);
    assert_eq!(Brc::deref(&text, &rt), "brc \u{3b1}");
}
