//! The packed words and the steps of the counters.
use biasedrc::error::{
    BiasedCountError, FastDecrementFailure, FastIncrementFailure, FatalError,
    ImpreciseRefCountError, ZeroReferenceCountError,
};
use biasedrc::header::{same_thread, HeaderDecrement, HeaderMerge, RawBrcHeader};
use biasedrc::thread_id::{ShortThreadId, ThreadIdOverflowError, UniqueThreadId};
use biasedrc::transition::{BiasedDecrement, SharedDecrement, UnlessZeroFailure};
use biasedrc::word::{BiasedWord, SharedCount, SharedWord};

fn id(id: u16) -> Option<ShortThreadId> {
    ShortThreadId::new(id)
}

fn shared(count: i64, merged: bool, queued: bool) -> SharedWord {
    SharedWord { shared_count: SharedCount::new(count), merged, queued }
}

#[test]
fn biased_word_packs_count_above_owner() {
    let word = BiasedWord { owner_id: id(0x123), biased_count: 0xabcde };
    assert_eq!(word.to_raw(), 0xabcd_e123);
    assert_eq!(BiasedWord::from_raw(0xabcd_e123), word);
    assert_eq!(BiasedWord::new_unowned().to_raw(), 0);
    assert_eq!(BiasedWord::from_raw(0), BiasedWord { owner_id: None, biased_count: 0 });
    assert_eq!(
        BiasedWord::from_raw(0xffff_ffff),
        BiasedWord { owner_id: id(0xfff), biased_count: 0xf_ffff }
    );
    assert_eq!(BiasedWord::from_raw(0x0000_5000), BiasedWord { owner_id: None, biased_count: 5 });
}

#[test]
fn shared_word_packs_flags_above_count() {
    assert_eq!(shared(1, true, false).to_raw(), 0x4000_0000_0000_0001);
    assert_eq!(shared(-1, false, true).to_raw(), 0xbfff_ffff_ffff_ffff);
    assert_eq!(shared(0, false, false).to_raw(), 0);
    assert_eq!(SharedWord::from_raw(0xbfff_ffff_ffff_ffff), shared(-1, false, true));
    assert_eq!(SharedWord::from_raw(0xffff_ffff_ffff_fffe), shared(-2, true, true));
    assert_eq!(SharedWord::from_raw(0x1fff_ffff_ffff_ffff), shared(SharedCount::MAX, false, false));
    assert_eq!(
        SharedWord::from_raw(0x2000_0000_0000_0000),
        shared(-0x2000_0000_0000_0000, false, false)
    );
}

#[test]
fn words_survive_packing() {
    for raw in [0u32, 1, 0xfff, 0x1000, 0x1001, 0xdead_beef, u32::MAX] {
        assert_eq!(BiasedWord::from_raw(raw).to_raw(), raw);
    }
    for raw in [
        0u64,
        1,
        0x3fff_ffff_ffff_ffff,
        0x4000_0000_0000_0000,
        0xdead_beef_0bad_f00d,
        u64::MAX,
    ] {
        assert_eq!(SharedWord::from_raw(raw).to_raw(), raw);
    }
}

#[test]
fn shared_count_is_checked() {
    let max = SharedCount::new(SharedCount::MAX);
    let one = SharedCount::new(1);
    assert_eq!(max.checked_add(one), None);
    assert_eq!(one.checked_add(one), Some(SharedCount::new(2)));
    assert_eq!(one.checked_sub(max), Some(SharedCount::new(1 - SharedCount::MAX)));
    let min = SharedCount::new(-0x2000_0000_0000_0000);
    assert_eq!(min.checked_sub(one), None);
    assert_eq!(SharedCount::new(-3).to_bits(), 0x3fff_ffff_ffff_fffd);
    assert_eq!(SharedCount::masked_new(0xffff_ffff_ffff_fffd).value(), -3);
}

#[test]
fn owner_counts_in_biased_word() {
    let word = BiasedWord { owner_id: id(7), biased_count: 2 };
    assert_eq!(word.incremented(id(7)), Ok(BiasedWord { owner_id: id(7), biased_count: 3 }));
    assert_eq!(word.incremented(id(8)), Err(FastIncrementFailure));
    assert_eq!(word.incremented(None), Err(FastIncrementFailure));
    let full = BiasedWord { owner_id: id(7), biased_count: 0xf_ffff };
    assert_eq!(full.incremented(id(7)), Err(FastIncrementFailure));
    assert_eq!(
        word.decremented(id(7)),
        Ok(BiasedDecrement::Store(BiasedWord { owner_id: id(7), biased_count: 1 }))
    );
    let last = BiasedWord { owner_id: id(7), biased_count: 1 };
    assert_eq!(last.decremented(id(7)), Ok(BiasedDecrement::Last));
    assert_eq!(last.decremented(id(6)), Err(FastDecrementFailure));
    assert_eq!(BiasedWord::new_unowned().decremented(None), Err(FastDecrementFailure));
}

#[test]
fn shared_word_steps() {
    assert_eq!(shared(-1, false, true).incremented(), Ok(shared(0, false, true)));
    let threshold = SharedWord::OVERFLOW_THRESHOLD;
    assert_eq!(threshold, SharedCount::MAX / 2);
    assert_eq!(
        shared(threshold, true, false).incremented(),
        Ok(shared(threshold + 1, true, false)),
    );
    assert_eq!(
        shared(threshold + 1, true, false).incremented(),
        Err(FatalError::SharedRefcntOverflow)
    );
    assert_eq!(shared(0, true, false).incremented_unless_zero(), Err(UnlessZeroFailure::Zero));
    assert_eq!(shared(0, false, false).incremented_unless_zero(), Ok(shared(1, false, false)));
    assert_eq!(
        shared(SharedCount::MAX, false, false).incremented_unless_zero(),
        Err(UnlessZeroFailure::Fatal(FatalError::SharedRefcntOverflow))
    );
    assert_eq!(shared(0, false, false).decremented(), Ok(shared(-1, false, true)));
    assert_eq!(shared(1, true, false).decremented(), Ok(shared(0, true, false)));
    assert_eq!(
        shared(-0x2000_0000_0000_0000, false, true).decremented(),
        Err(FatalError::SharedRefcntUnderflow)
    );
    assert_eq!(shared(-1, false, true).merged_with(3), Ok(shared(2, true, true)));
    assert_eq!(
        shared(SharedCount::MAX, false, false).merged_with(1),
        Err(FatalError::MergedRefcntOverflow)
    );
}

#[test]
fn only_the_first_negative_count_queues() {
    let zero = shared(0, false, false);
    let minus_one = zero.decremented().unwrap();
    let minus_two = minus_one.decremented().unwrap();
    assert_eq!(SharedWord::decrement_action(zero, minus_one), SharedDecrement::Queue);
    assert_eq!(SharedWord::decrement_action(minus_one, minus_two), SharedDecrement::Retain);
    let one = shared(1, true, true);
    assert_eq!(
        SharedWord::decrement_action(one, one.decremented().unwrap()),
        SharedDecrement::Drop
    );
}

#[test]
fn owner_gives_up_ownership_unless_queued() {
    assert_eq!(shared(2, false, false).released_by_owner(), Ok(shared(2, true, false)));
    assert_eq!(shared(0, false, false).released_by_owner(), Ok(shared(0, true, false)));
    assert_eq!(shared(-1, false, true).released_by_owner(), Err(FastDecrementFailure));
    assert_eq!(shared(1, false, true).released_by_owner(), Err(FastDecrementFailure));
}

#[test]
fn queued_header_keeps_its_last_biased_reference() {
    let mut header = RawBrcHeader::init(id(5));
    header.increment_strong(id(5));
    assert_eq!(header.decrement_strong(id(6)), HeaderDecrement::Queue(id(5).unwrap()));
    assert_eq!(header.biased_count(id(5)), Ok(2));
    assert_eq!(header.decrement_strong(id(5)), HeaderDecrement::Retain);
    assert_eq!(header.biased_count(id(5)), Ok(1));
    assert_eq!(header.shared_count(), -1);
    assert_eq!(header.merge(id(5).unwrap()), HeaderMerge::Drop);

    let mut header = RawBrcHeader::init(id(5));
    header.increment_strong(id(5));
    assert_eq!(header.decrement_strong(id(6)), HeaderDecrement::Queue(id(5).unwrap()));
    header.increment_strong(id(6));
    header.increment_strong(id(6));
    assert_eq!(header.decrement_strong(id(5)), HeaderDecrement::Retain);
    assert_eq!(header.decrement_strong(id(5)), HeaderDecrement::Retain);
    assert_eq!(header.biased_count(id(5)), Ok(1));
    assert_eq!(header.shared_count(), 0);
    assert_eq!(header.merge(id(5).unwrap()), HeaderMerge::Retain);
    assert_eq!(header.strong_count(None), Ok(1));
    assert_eq!(header.decrement_strong(id(5)), HeaderDecrement::Drop);
}

#[test]
fn fatal_errors_have_messages() {
    assert_eq!(
        FatalError::SharedRefcntUnderflow.message(),
        "biasedrc: Reference count underflow for shared counter"
    );
    assert_eq!(
        FatalError::SharedRefcntOverflow.message(),
        "biasedrc: Reference count overflow for a shared counter"
    );
    assert_eq!(
        FatalError::MergedRefcntOverflow.message(),
        "biasedrc: Merged reference counts overflow the shared counter"
    );
    assert_eq!(
        FatalError::WeakRefcntOverflow.message(),
        "biasedrc: Weak reference counts overflowed its counter"
    );
}

#[test]
fn header_of_a_registered_thread() {
    let mut header = RawBrcHeader::init(id(5));
    assert_eq!(header.into_words(), (0, 0x1005));
    assert_eq!(header.strong_count(id(5)), Ok(1));
    assert_eq!(header.strong_count(id(6)), Err(ImpreciseRefCountError { lower_bound: 0 }));
    assert!(header.is_unique(id(5)));
    assert!(!header.is_unique(id(6)));
    assert!(header.is_definitely_not_unique(None));
    assert!(!header.is_definitely_not_unique(id(5)));
    header.increment_strong(id(5));
    assert_eq!(header.biased_count(id(5)), Ok(2));
    assert_eq!(header.biased_count(None), Err(BiasedCountError::WrongThread));
    header.increment_strong(id(6));
    header.increment_strong_shared();
    assert_eq!(header.shared_count(), 2);
    assert_eq!(header.strong_count(id(5)), Ok(4));
    assert_eq!(header.strong_count(None), Err(ImpreciseRefCountError { lower_bound: 2 }));
    assert_eq!(header.decrement_strong(id(6)), HeaderDecrement::Retain);
    assert_eq!(header.decrement_strong(id(6)), HeaderDecrement::Retain);
    assert_eq!(header.decrement_strong(None), HeaderDecrement::Queue(id(5).unwrap()));
    assert_eq!(header.strong_count(id(6)), Err(ImpreciseRefCountError { lower_bound: 0 }));
    assert_eq!(header.merge(id(5).unwrap()), HeaderMerge::Retain);
    assert_eq!(header.biased_count(id(5)), Err(BiasedCountError::NotBiased));
    assert_eq!(header.strong_count(None), Ok(1));
    assert_eq!(header.decrement_strong(id(5)), HeaderDecrement::Drop);
    assert_eq!(header.increment_strong_unless_zero(id(5)), Err(ZeroReferenceCountError));
}

#[test]
fn header_of_an_unregistered_thread() {
    let header = RawBrcHeader::init(None);
    assert_eq!(header.into_words(), (0x4000_0000_0000_0001, 0));
    assert_eq!(header.strong_count(id(1)), Ok(1));
    assert_eq!(header.biased_count(id(1)), Err(BiasedCountError::NotBiased));
    assert!(!header.is_strong_uninit());
    let uninit = RawBrcHeader::new_uninit();
    assert!(uninit.is_strong_uninit());
    assert_eq!(uninit.into_words(), (0x4000_0000_0000_0000, 0));
    assert!(!RawBrcHeader::NEEDS_DROP);
}

#[test]
fn full_biased_counter_spills_over() {
    let mut header = RawBrcHeader::from_words(0, 0xffff_f005);
    header.increment_strong(id(5));
    assert_eq!(header.biased_count(id(5)), Ok(0xf_ffff));
    assert_eq!(header.shared_count(), 1);
    assert_eq!(header.strong_count(id(5)), Ok(0x10_0000));
    assert_eq!(header.attempt_biased_increment(id(5)), Err(FastIncrementFailure));
}

#[test]
fn last_biased_reference_unbiases() {
    let mut header = RawBrcHeader::init(id(9));
    header.increment_strong(id(2));
    assert_eq!(header.decrement_strong(id(9)), HeaderDecrement::Retain);
    assert_eq!(header.biased_count(id(9)), Err(BiasedCountError::NotBiased));
    assert_eq!(header.strong_count(id(2)), Ok(1));
    assert!(header.is_unique(id(2)));
}

#[test]
fn clone_then_drop_restores_both_words() {
    for this_id in [id(5), id(6), None] {
        let mut header = RawBrcHeader::from_words(0x8000_0000_0000_0003, 0x3005);
        let before = header.into_words();
        header.increment_strong(this_id);
        assert_ne!(header.into_words(), before);
        assert_eq!(header.decrement_strong(this_id), HeaderDecrement::Retain);
        assert_eq!(header.into_words(), before);
    }
}

#[test]
fn thread_identifiers() {
    assert_eq!(UniqueThreadId::from_index(0).id, 1);
    assert_eq!(ShortThreadId::try_from(UniqueThreadId { id: 0xfff }).map(|x| x.value()), Ok(0xfff));
    assert_eq!(ShortThreadId::try_from(UniqueThreadId { id: 0x1000 }), Err(ThreadIdOverflowError));
    assert_eq!(
        ShortThreadId::try_from(UniqueThreadId { id: 0x1_0001 }),
        Err(ThreadIdOverflowError),
    );
    assert_eq!(ShortThreadId::new(0), None);
    assert_eq!(id(0xfff).unwrap().index(), 0xffe);
    assert!(same_thread(id(3), id(3)) && same_thread(None, None));
    assert!(!same_thread(id(3), None) && !same_thread(id(3), id(4)));
}
