//! Layouts, pointers and the weak counter.
use biasedrc::error::{FatalError, ImpreciseRefCountError};
use biasedrc::header::RawBrcHeader;
use biasedrc::layout::{
    downgrade_step, weak_clone_step, weak_drop_step, weak_references, weak_references_beside,
    BrcHeader, Downgrade, Layout, LayoutError, LayoutInfo, WEAK_LOCKED_COUNT,
    WEAK_OVERFLOW_THRESHOLD,
};
use biasedrc::pointee::{
    DropContext, ErasedDestructorContext, SupportedMetadata, SupportedWeakPointeeInternal,
};
use biasedrc::thread_id::ShortThreadId;

fn layout(size: usize, align: usize) -> Layout {
    Layout::from_size_align(size, align).unwrap()
}

#[test]
fn layouts_agree_with_the_compiler() {
    assert_eq!(Layout::new::<u32>(), layout(4, 4));
    assert_eq!(Layout::array::<u16>(5), Ok(layout(10, 2)));
    assert_eq!(Layout::array::<u64>(usize::MAX), Err(LayoutError));
    assert_eq!(Layout::from_size_align(isize::MAX as usize, 2), Err(LayoutError));
    assert_eq!(layout(3, 1).align_to(8), Ok(layout(3, 8)));
    assert_eq!(layout(3, 4).align_to(2), Ok(layout(3, 4)));
    assert_eq!(layout(5, 1).extend(layout(4, 4)), Ok((layout(12, 4), 8)));
    for (size, align, next_size, next_align) in [(5, 1, 4, 4), (16, 8, 3, 1), (0, 1, 0, 16)] {
        let ours = layout(size, align).extend(layout(next_size, next_align)).unwrap();
        let theirs = std::alloc::Layout::from_size_align(size, align)
            .unwrap()
            .extend(std::alloc::Layout::from_size_align(next_size, next_align).unwrap())
            .unwrap();
        assert_eq!(ours.0.size, theirs.0.size());
        assert_eq!(ours.0.align, theirs.0.align());
        assert_eq!(ours.1, theirs.1);
    }
}

#[test]
fn value_stands_behind_its_header() {
    let header = layout(20, 8);
    let info = LayoutInfo::<()>::behind(header, layout(3, 1)).unwrap();
    assert_eq!(info.value_offset(), 20);
    assert_eq!(info.header_offset(), -20);
    assert_eq!(info.full_layout(), layout(23, 8));
    // a value is aligned to two bytes at least
    let info = LayoutInfo::<()>::behind(layout(21, 1), layout(3, 1)).unwrap();
    assert_eq!(info.value_offset(), 22);
    assert_eq!(info.full_layout(), layout(25, 2));
    let info = LayoutInfo::<()>::behind(header, layout(32, 32)).unwrap();
    assert_eq!((info.value_offset(), info.full_layout()), (32, layout(64, 32)));
    assert!(LayoutInfo::<()>::behind(header, layout(isize::MAX as usize - 8, 1)).is_err());
}

#[test]
fn placement_of_a_type() {
    let info = LayoutInfo::<u8>::new(Layout::new::<u64>()).unwrap();
    let header = std::mem::size_of::<BrcHeader<u8>>();
    assert_eq!(info.value_offset() as usize, header.next_multiple_of(8));
    let same = LayoutInfo::<u8>::new_or_panic(Layout::new::<u64>());
    assert_eq!(same.full_layout(), info.full_layout());
    let same = LayoutInfo::<u8>::for_value(&7u64);
    assert_eq!(same.value_offset(), info.value_offset());
    assert!(LayoutInfo::<u8>::new(layout(isize::MAX as usize - 1, 1)).is_err());
}

#[test]
fn weak_counter_steps() {
    assert_eq!(downgrade_step(1), Downgrade::Store(2));
    assert_eq!(downgrade_step(WEAK_LOCKED_COUNT), Downgrade::Locked);
    assert_eq!(downgrade_step(WEAK_OVERFLOW_THRESHOLD), Downgrade::Store(0x8000_0000));
    let fatal = FatalError::WeakRefcntOverflow;
    assert_eq!(downgrade_step(WEAK_OVERFLOW_THRESHOLD + 1), Downgrade::Fatal(fatal));
    assert_eq!(weak_clone_step(5), Ok(6));
    assert_eq!(weak_clone_step(WEAK_OVERFLOW_THRESHOLD + 1), Err(fatal));
    assert!(weak_drop_step(1) && !weak_drop_step(2));
    assert_eq!(weak_references(4), 3);
    assert_eq!(weak_references(WEAK_LOCKED_COUNT), 0);
    let imprecise = |lower_bound: u64| Err(ImpreciseRefCountError { lower_bound });
    assert_eq!(weak_references_beside(Ok(0), 4), Ok(0));
    assert_eq!(weak_references_beside(imprecise(0), 4), imprecise(0));
    assert_eq!(weak_references_beside(imprecise(2), 4), Ok(3));
    assert_eq!(weak_references_beside(Ok(1), 4), Ok(3));
}

#[test]
fn header_gives_its_allocator_back_once() {
    let mut header = BrcHeader::new(RawBrcHeader::init(ShortThreadId::new(1)), 42u8);
    assert!(header.is_unique(ShortThreadId::new(1)));
    assert!(!header.is_unique(ShortThreadId::new(2)));
    assert!(header.try_lock_weak());
    assert!(!header.try_lock_weak());
    assert_eq!(header.weak_count, WEAK_LOCKED_COUNT);
    header.unlock_weak();
    header.weak_count = 2;
    assert!(!header.is_unique(ShortThreadId::new(1)));
    let header = match header.drop_weak() {
        Ok(header) => header,
        Err(_) => unreachable!(),
    };
    assert_eq!(header.weak_count, 1);
    assert_eq!(header.drop_weak().err(), Some(42));
}

#[test]
fn metadata_is_recovered() {
    assert_eq!(7usize.to_context(), ErasedDestructorContext { address: 7 });
    assert_eq!(usize::from_context(9usize.to_context()), 9);
    assert_eq!(<() as SupportedMetadata>::from_context(().to_context()), ());
    let info = DropContext::<[u16]> { metadata: 5, value_offset: 24 }.erase();
    assert_eq!(info.value_ptr::<[u16]>(1000), (1024, 5));
    let info = DropContext::<u8> { metadata: (), value_offset: -24 }.erase();
    assert_eq!(info.value_ptr::<u8>(1000), (976, ()));
}

#[test]
fn layout_is_told_from_metadata() {
    assert_eq!(<u32 as SupportedWeakPointeeInternal>::layout_for_ptr(()), layout(4, 4));
    assert_eq!(<[u32] as SupportedWeakPointeeInternal>::layout_for_ptr(3), layout(12, 4));
    assert_eq!(<str as SupportedWeakPointeeInternal>::layout_for_ptr(3), layout(3, 1));
}
