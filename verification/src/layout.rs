//! How an object lies in memory: its header, followed by its value.
use crate::error::{FatalError, ImpreciseRefCountError};
use crate::header::RawBrcHeader;
use crate::thread_id::ShortThreadId;
use core::marker::PhantomData;
use vstd::arithmetic::power2::is_pow2;
use vstd::pervasive::unreached;
use vstd::prelude::*;

verus! {

/// The weak count while it is locked.
pub const WEAK_LOCKED_COUNT: u32 = u32::MAX;

/// A weak count above this is considered to have overflowed.
pub const WEAK_OVERFLOW_THRESHOLD: u32 = u32::MAX / 2;

/// The least multiple of `align` that is not below `n`.
pub open spec fn round_up(n: int, align: int) -> int {
    (n + align - 1) / align * align
}

pub open spec fn max(a: int, b: int) -> int {
    if a >= b {
        a
    } else {
        b
    }
}

/// Whether a block of `size` bytes, rounded up to its alignment, can be
/// addressed with signed offsets.
pub open spec fn layout_fits(size: int, align: int) -> bool {
    round_up(size, align) <= isize::MAX
}

/// Rounding up gives a multiple of the alignment, less than one alignment above.
pub proof fn lemma_round_up(n: int, align: int)
    requires
        align > 0,
    ensures
        n <= round_up(n, align) < n + align,
        round_up(n, align) % align == 0,
{
    let q = (n + align - 1) / align;
    assert((n + align - 1) == align * q + (n + align - 1) % align) by (nonlinear_arith)
        requires
            align > 0,
            q == (n + align - 1) / align,
    ;
    assert(q * align == align * q) by (nonlinear_arith);
    assert((q * align) % align == 0) by (nonlinear_arith)
        requires
            align > 0,
    ;
}

/// A smaller block needs no more room than a larger one.
proof fn lemma_round_up_monotonic(a: int, b: int, align: int)
    requires
        align > 0,
        a <= b,
    ensures
        round_up(a, align) <= round_up(b, align),
{
    assert((a + align - 1) / align <= (b + align - 1) / align) by (nonlinear_arith)
        requires
            align > 0,
            a <= b,
    ;
    let p = (a + align - 1) / align;
    let q = (b + align - 1) / align;
    assert(p * align <= q * align) by (nonlinear_arith)
        requires
            align > 0,
            p <= q,
    ;
}

/// Of two powers of two, the smaller divides the larger.
proof fn lemma_pow2_divides(a: int, b: int)
    requires
        is_pow2(a),
        is_pow2(b),
        a <= b,
    ensures
        b % a == 0,
    decreases b,
{
    reveal(is_pow2);
    if a == 1 {
    } else {
        lemma_pow2_divides(a / 2, b / 2);
        let x = a / 2;
        let y = b / 2;
        let k = y / x;
        assert(y == x * k) by (nonlinear_arith)
            requires
                x > 0,
                y % x == 0,
                k == y / x,
        ;
        assert(b == k * a + 0) by (nonlinear_arith)
            requires
                a == 2 * x,
                b == 2 * y,
                y == x * k,
        ;
        vstd::arithmetic::div_mod::lemma_fundamental_div_mod_converse(b, a, k, 0);
    }
}

/// The size of a block exceeds what an allocation can have.
#[derive(Copy, Clone, Debug, PartialEq, Eq, Structural)]
pub struct LayoutError;

/// The size and the alignment of a block of memory.
#[derive(Copy, Clone, Debug, PartialEq, Eq, Structural)]
pub struct Layout {
    pub size: usize,
    pub align: usize,
}

impl Layout {
    pub open spec fn wf(self) -> bool {
        is_pow2(self.align as int) && layout_fits(self.size as int, self.align as int)
    }

    /// The layout of a value of type `T`.
    pub open spec fn of<T>() -> Layout {
        Layout {
            size: vstd::layout::size_of::<T>() as usize,
            align: vstd::layout::align_of::<T>() as usize,
        }
    }

    /// The layout with the given size and alignment.
    pub fn from_size_align(size: usize, align: usize) -> (r: Result<Layout, LayoutError>)
        requires
            is_pow2(align as int),
        ensures
            r is Ok <==> layout_fits(size as int, align as int),
            r matches Ok(layout) ==> layout.wf() && layout == (Layout { size, align }),
    {
        proof {
            reveal(is_pow2);
            lemma_round_up(size as int, align as int);
        }
        match checked_round_up(size, align) {
            Some(rounded) => {
                if rounded <= isize::MAX as usize {
                    Ok(Layout { size, align })
                } else {
                    Err(LayoutError)
                }
            },
            None => Err(LayoutError),
        }
    }

    /// The layout of a value of type `T`.
    pub fn new<T>() -> (r: Layout)
        ensures
            r.wf(),
            r == Self::of::<T>(),
            r.size == vstd::layout::size_of::<T>(),
            r.align == vstd::layout::align_of::<T>(),
    {
        vstd::layout::layout_for_type_is_valid::<T>();
        let size = core::mem::size_of::<T>();
        let align = core::mem::align_of::<T>();
        proof {
            reveal(is_pow2);
            lemma_valid_layout_fits(size, align);
        }
        Layout { size, align }
    }

    /// The layout of `n` consecutive values of type `T`.
    pub fn array<T>(n: usize) -> (r: Result<Layout, LayoutError>)
        ensures
            r is Ok <==> layout_fits(
                vstd::layout::size_of::<T>() * n,
                vstd::layout::align_of::<T>() as int,
            ),
            r matches Ok(layout) ==> {
                &&& layout.wf()
                &&& layout.size == vstd::layout::size_of::<T>() * n
                &&& layout.align == vstd::layout::align_of::<T>()
            },
    {
        let element = Layout::new::<T>();
        proof {
            reveal(is_pow2);
            lemma_round_up(vstd::layout::size_of::<T>() * n, element.align as int);
        }
        match element.size.checked_mul(n) {
            Some(size) => Layout::from_size_align(size, element.align),
            None => Err(LayoutError),
        }
    }

    /// The layout with an alignment of at least `align`.
    pub fn align_to(self, align: usize) -> (r: Result<Layout, LayoutError>)
        requires
            is_pow2(self.align as int),
            is_pow2(align as int),
        ensures
            r is Ok <==> layout_fits(self.size as int, max(self.align as int, align as int)),
            r matches Ok(layout) ==> {
                &&& layout.wf()
                &&& layout.size == self.size
                &&& layout.align == max(self.align as int, align as int)
            },
    {
        if self.align >= align {
            Layout::from_size_align(self.size, self.align)
        } else {
            Layout::from_size_align(self.size, align)
        }
    }

    /// The layout of this block followed by `next`, and the offset of `next` in
    /// it.
    pub fn extend(self, next: Layout) -> (r: Result<(Layout, usize), LayoutError>)
        requires
            self.wf(),
            next.wf(),
        ensures
            r is Ok <==> layout_fits(
                round_up(self.size as int, next.align as int) + next.size,
                max(self.align as int, next.align as int),
            ),
            r matches Ok((layout, offset)) ==> {
                &&& layout.wf()
                &&& offset == round_up(self.size as int, next.align as int)
                &&& layout.size == offset + next.size
                &&& layout.align == max(self.align as int, next.align as int)
            },
    {
        let new_align = if self.align >= next.align {
            self.align
        } else {
            next.align
        };
        proof {
            reveal(is_pow2);
            lemma_round_up(self.size as int, self.align as int);
            lemma_round_up(self.size as int, next.align as int);
            lemma_round_up(next.size as int, next.align as int);
            lemma_round_up(
                round_up(self.size as int, next.align as int) + next.size,
                new_align as int,
            );
        }
        let offset = match checked_round_up(self.size, next.align) {
            Some(offset) => offset,
            None => return Err(LayoutError),
        };
        let new_size = match offset.checked_add(next.size) {
            Some(size) => size,
            None => return Err(LayoutError),
        };
        match Layout::from_size_align(new_size, new_align) {
            Ok(layout) => Ok((layout, offset)),
            Err(e) => Err(e),
        }
    }
}

/// The layout that the compiler gives to a type fits in the sense used here.
proof fn lemma_valid_layout_fits(size: usize, align: usize)
    requires
        vstd::layout::valid_layout(size, align),
    ensures
        layout_fits(size as int, align as int),
{
    reveal(is_pow2);
    let m = isize::MAX as int;
    let a = align as int;
    lemma_round_up_monotonic(size as int, m - m % a, a);
    assert(round_up(m - m % a, a) == m - m % a) by {
        let q = m / a;
        assert(m - m % a == q * a) by (nonlinear_arith)
            requires
                a > 0,
                q == m / a,
        ;
        assert((q * a + a - 1) / a == q) by (nonlinear_arith)
            requires
                a > 0,
        ;
    }
    assert(0 <= m % a);
}

/// Rounds up to a multiple of `align`, or gives `None` where the result does
/// not fit.
fn checked_round_up(n: usize, align: usize) -> (r: Option<usize>)
    requires
        align > 0,
    ensures
        r is Some <==> round_up(n as int, align as int) <= usize::MAX,
        r matches Some(rounded) ==> rounded == round_up(n as int, align as int),
{
    let rem = n % align;
    proof {
        lemma_round_up_remainder(n as int, align as int);
    }
    if rem == 0 {
        Some(n)
    } else {
        n.checked_add(align - rem)
    }
}

/// Rounding up adds what the remainder lacks.
proof fn lemma_round_up_remainder(n: int, align: int)
    requires
        align > 0,
        n >= 0,
    ensures
        round_up(n, align) == if n % align == 0 {
            n
        } else {
            n + align - n % align
        },
{
    let q = n / align;
    let rem = n % align;
    assert(n == align * q + rem && 0 <= rem < align) by (nonlinear_arith)
        requires
            align > 0,
            q == n / align,
            rem == n % align,
    ;
    assert(align * q == q * align) by (nonlinear_arith);
    if rem == 0 {
        vstd::arithmetic::div_mod::lemma_fundamental_div_mod_converse(
            n + align - 1,
            align,
            q,
            align - 1,
        );
    } else {
        assert((q + 1) * align == q * align + align) by (nonlinear_arith);
        assert(align * (q + 1) == (q + 1) * align) by (nonlinear_arith);
        vstd::arithmetic::div_mod::lemma_fundamental_div_mod_converse(
            n + align - 1,
            align,
            q + 1,
            rem - 1,
        );
    }
}

/// Where the value of an object lies behind its header.
///
/// The header holds an allocator of type `A`.
#[derive(Debug)]
pub struct LayoutInfo<A> {
    value_offset: isize,
    full_layout: Layout,
    alloc_marker: PhantomData<A>,
}

impl<A> LayoutInfo<A> {
    /// The minimum alignment of a value, which leaves an address that no value has.
    pub const MIN_VALUE_ALIGNMENT: usize = 2;

    /// The offset from the header to the value.
    pub closed spec fn offset(self) -> int {
        self.value_offset as int
    }

    /// The layout of the header together with the value.
    pub closed spec fn full(self) -> Layout {
        self.full_layout
    }

    /// The alignment with which a value is placed.
    pub open spec fn value_align(layout: Layout) -> int {
        max(layout.align as int, Self::MIN_VALUE_ALIGNMENT as int)
    }

    /// Whether a value of the given layout can be placed behind a header.
    pub open spec fn can_place(header: Layout, layout: Layout) -> bool {
        let align = Self::value_align(layout);
        &&& layout_fits(layout.size as int, align)
        &&& layout_fits(
            round_up(header.size as int, align) + layout.size,
            max(header.align as int, align),
        )
    }

    /// Whether this describes a value of the given layout behind a header: the
    /// value stands at the first suitably aligned offset after the header.
    pub open spec fn describes(self, header: Layout, layout: Layout) -> bool {
        let align = Self::value_align(layout);
        &&& self.offset() == round_up(header.size as int, align)
        &&& self.full().size == self.offset() + layout.size
        &&& self.full().align == max(header.align as int, align)
        &&& self.full().wf()
    }

    /// The layout of the header.
    pub open spec fn header_layout() -> Layout {
        Layout::of::<BrcHeader<A>>()
    }

    /// Places a value of the given layout behind a header of the given layout.
    pub fn behind(header: Layout, layout: Layout) -> (r: Result<Self, LayoutError>)
        requires
            header.wf(),
            layout.wf(),
        ensures
            r is Ok <==> Self::can_place(header, layout),
            r matches Ok(info) ==> info.describes(header, layout),
    {
        proof {
            reveal(is_pow2);
        }
        assert(is_pow2(Self::MIN_VALUE_ALIGNMENT as int)) by {
            assert(is_pow2(1));
        }
        let aligned = match layout.align_to(Self::MIN_VALUE_ALIGNMENT) {
            Ok(aligned) => aligned,
            Err(e) => return Err(e),
        };
        match header.extend(aligned) {
            Ok((full_layout, value_offset)) => {
                proof {
                    lemma_round_up(full_layout.size as int, full_layout.align as int);
                }
                Ok(
                    LayoutInfo {
                        value_offset: value_offset as isize,
                        full_layout,
                        alloc_marker: PhantomData,
                    },
                )
            },
            Err(e) => Err(e),
        }
    }

    /// Places a value of the given layout behind the header.
    pub fn new(layout: Layout) -> (r: Result<Self, LayoutError>)
        requires
            layout.wf(),
        ensures
            r is Ok <==> Self::can_place(Self::header_layout(), layout),
            r matches Ok(info) ==> info.describes(Self::header_layout(), layout),
    {
        Self::behind(Layout::new::<BrcHeader<A>>(), layout)
    }

    /// Places a value of the given layout, which is known to be possible.
    pub fn new_or_panic(layout: Layout) -> (r: Self)
        requires
            layout.wf(),
            Self::can_place(Self::header_layout(), layout),
        ensures
            r.describes(Self::header_layout(), layout),
    {
        match Self::new(layout) {
            Ok(info) => info,
            Err(_) => unreached(),
        }
    }

    /// The placement of `value`, which is known to be possible.
    pub fn for_value<T>(value: &T) -> (r: Self)
        requires
            Self::can_place(Self::header_layout(), Layout::of::<T>()),
        ensures
            r.describes(Self::header_layout(), Layout::of::<T>()),
    {
        let _ = value;
        Self::new_or_panic(Layout::new::<T>())
    }

    /// The offset from the header to the value.
    pub fn value_offset(&self) -> (r: isize)
        ensures
            r == self.offset(),
    {
        self.value_offset
    }

    /// The layout of the header together with the value.
    pub fn full_layout(&self) -> (r: Layout)
        ensures
            r == self.full(),
    {
        self.full_layout
    }

    /// The offset from the value to the header.
    pub fn header_offset(&self) -> (r: isize)
        requires
            self.offset() >= 0,
        ensures
            r == -self.offset(),
    {
        0 - self.value_offset
    }
}

/// A header and the value behind it do not overlap, lie within the block, and
/// are aligned wherever the block is.
pub proof fn lemma_placement<A>(info: LayoutInfo<A>, header: Layout, layout: Layout, base: int)
    requires
        header.wf(),
        layout.wf(),
        info.describes(header, layout),
        base % info.full().align as int == 0,
    ensures
        header.size <= info.offset(),
        info.offset() + layout.size == info.full().size,
        base % header.align as int == 0,
        (base + info.offset()) % layout.align as int == 0,
        (base + info.offset()) % LayoutInfo::<A>::MIN_VALUE_ALIGNMENT as int == 0,
{
    reveal(is_pow2);
    assert(is_pow2(LayoutInfo::<A>::MIN_VALUE_ALIGNMENT as int)) by {
        assert(is_pow2(1));
    }
    let align = LayoutInfo::<A>::value_align(layout);
    let full = info.full().align as int;
    lemma_round_up(header.size as int, align);
    lemma_pow2_divides(header.align as int, full);
    lemma_pow2_divides(align, full);
    lemma_pow2_divides(layout.align as int, align);
    lemma_pow2_divides(LayoutInfo::<A>::MIN_VALUE_ALIGNMENT as int, align);
    lemma_mod_through(base, full, header.align as int);
    lemma_mod_through(base, full, align);
    lemma_mod_sum(base, info.offset(), align);
    lemma_mod_through(base + info.offset(), align, layout.align as int);
    lemma_mod_through(base + info.offset(), align, LayoutInfo::<A>::MIN_VALUE_ALIGNMENT as int);
}

/// A multiple of a multiple is a multiple.
proof fn lemma_mod_through(n: int, outer: int, inner: int)
    requires
        n % outer == 0,
        outer % inner == 0,
        inner > 0,
        outer > 0,
    ensures
        n % inner == 0,
{
    let p = n / outer;
    let q = outer / inner;
    assert(n == (q * p) * inner + 0) by (nonlinear_arith)
        requires
            n % outer == 0,
            outer % inner == 0,
            inner > 0,
            outer > 0,
            p == n / outer,
            q == outer / inner,
    ;
    vstd::arithmetic::div_mod::lemma_fundamental_div_mod_converse(n, inner, q * p, 0);
}

/// The sum of two multiples is a multiple.
proof fn lemma_mod_sum(a: int, b: int, m: int)
    requires
        m > 0,
        a % m == 0,
        b % m == 0,
    ensures
        (a + b) % m == 0,
{
    vstd::arithmetic::div_mod::lemma_add_mod_noop(a, b, m);
    vstd::arithmetic::div_mod::lemma_small_mod(0, m as nat);
}

/// What a thread does to take one more weak reference from a strong one.
#[derive(Copy, Clone, Debug, PartialEq, Eq, Structural)]
pub enum Downgrade {
    /// The weak count is locked: read it again.
    Locked,
    /// The weak count has overflowed.
    Fatal(FatalError),
    /// Replace the weak count by this one.
    Store(u32),
}

/// What taking a weak reference makes of the weak count `weak_count`: it waits while
/// the count is locked, and ends the program where it has overflowed.
pub open spec fn downgraded_count(weak_count: u32) -> Downgrade {
    if weak_count == WEAK_LOCKED_COUNT {
        Downgrade::Locked
    } else if weak_count > WEAK_OVERFLOW_THRESHOLD {
        Downgrade::Fatal(FatalError::WeakRefcntOverflow)
    } else {
        Downgrade::Store((weak_count + 1) as u32)
    }
}

/// What cloning a weak reference makes of the weak count `old_count`.
pub open spec fn cloned_weak_count(old_count: u32) -> Result<u32, FatalError> {
    if old_count > WEAK_OVERFLOW_THRESHOLD {
        Err(FatalError::WeakRefcntOverflow)
    } else {
        Ok((old_count + 1) as u32)
    }
}

/// One step of taking a weak reference where the weak count was read as
/// `weak_count`.
pub fn downgrade_step(weak_count: u32) -> (r: Downgrade)
    ensures
        r == downgraded_count(weak_count),
{
    if weak_count == WEAK_LOCKED_COUNT {
        Downgrade::Locked
    } else if weak_count > WEAK_OVERFLOW_THRESHOLD {
        Downgrade::Fatal(FatalError::WeakRefcntOverflow)
    } else {
        Downgrade::Store(weak_count + 1)
    }
}

/// The weak count after one more weak reference was cloned from another.
pub fn weak_clone_step(old_count: u32) -> (r: Result<u32, FatalError>)
    ensures
        r == cloned_weak_count(old_count),
{
    if old_count > WEAK_OVERFLOW_THRESHOLD {
        Err(FatalError::WeakRefcntOverflow)
    } else {
        Ok(old_count + 1)
    }
}

/// Whether the weak reference that was counted last was just released, where
/// the weak count was `old_count` before.
pub fn weak_drop_step(old_count: u32) -> (r: bool)
    ensures
        r <==> old_count == 1,
{
    old_count == 1
}

/// The number of weak references that users hold, where the weak count was read
/// as `weak_count`. All strong references together hold one more.
pub fn weak_references(weak_count: u32) -> (r: u64)
    requires
        weak_count >= 1,
    ensures
        weak_count == WEAK_LOCKED_COUNT ==> r == 0,
        weak_count != WEAK_LOCKED_COUNT ==> r == weak_count - 1,
{
    if weak_count == WEAK_LOCKED_COUNT {
        0
    } else {
        (weak_count - 1) as u64
    }
}

/// What a weak reference learns of the number of weak references, where the counts
/// were read as `strong_count` and `weak_count`. Without a strong reference the
/// number is reported as 0, and where it is open whether there is one, so is the
/// number.
pub fn weak_references_beside(
    strong_count: Result<u64, ImpreciseRefCountError>,
    weak_count: u32,
) -> (r: Result<u64, ImpreciseRefCountError>)
    requires
        weak_count >= 1,
    ensures
        r == match strong_count {
            Ok(0) => Ok(0),
            Err(ImpreciseRefCountError { lower_bound: 0 }) => Err(
                ImpreciseRefCountError { lower_bound: 0 },
            ),
            _ => Ok((weak_count - 1) as u64),
        },
{
    match strong_count {
        Ok(0) => Ok(0),
        Err(e) if e.lower_bound == 0 => Err(e),
        _ => Ok((weak_count - 1) as u64),
    }
}

/// The reference counts of an object and the allocator that it came from.
#[derive(Debug)]
pub struct BrcHeader<A> {
    pub strong: RawBrcHeader,
    /// The weak count, or [`WEAK_LOCKED_COUNT`] while it is locked.
    pub weak_count: u32,
    pub alloc: A,
}

impl<A> BrcHeader<A> {
    /// The header of a new object: all strong references together hold one weak
    /// reference.
    pub fn new(strong: RawBrcHeader, alloc: A) -> (r: Self)
        ensures
            r.strong == strong,
            r.weak_count == 1,
            r.alloc == alloc,
    {
        BrcHeader { strong, weak_count: 1, alloc }
    }

    /// Releases one weak reference. The last one yields the allocator, by which
    /// the memory is to be freed.
    pub fn drop_weak(self) -> (r: Result<Self, A>)
        requires
            1 <= self.weak_count < WEAK_LOCKED_COUNT,
        ensures
            r is Err <==> self.weak_count == 1,
            r matches Ok(header) ==> header == (BrcHeader {
                weak_count: (self.weak_count - 1) as u32,
                ..self
            }),
            r matches Err(alloc) ==> alloc == self.alloc,
    {
        if weak_drop_step(self.weak_count) {
            Err(self.take_allocator())
        } else {
            Ok(BrcHeader { weak_count: self.weak_count - 1, ..self })
        }
    }

    /// The allocator, which leaves nothing of the header behind.
    pub fn take_allocator(self) -> (r: A)
        ensures
            r == self.alloc,
    {
        self.alloc
    }

    /// Takes the lock of the weak count, which is possible only while the strong
    /// references hold the only weak one.
    pub fn try_lock_weak(&mut self) -> (r: bool)
        ensures
            r <==> old(self).weak_count == 1,
            *final(self) == (BrcHeader {
                weak_count: if r {
                    WEAK_LOCKED_COUNT
                } else {
                    old(self).weak_count
                },
                ..*old(self)
            }),
    {
        if self.weak_count == 1 {
            self.weak_count = WEAK_LOCKED_COUNT;
            true
        } else {
            false
        }
    }

    /// Releases the lock of the weak count.
    pub fn unlock_weak(&mut self)
        requires
            old(self).weak_count == WEAK_LOCKED_COUNT,
        ensures
            *final(self) == (BrcHeader { weak_count: 1, ..*old(self) }),
    {
        self.weak_count = 1;
    }

    /// Whether the object is known to have exactly one strong reference and no
    /// weak one. The weak count is locked while the strong count is read.
    pub fn is_unique(&mut self, this_id: Option<ShortThreadId>) -> (r: bool)
        requires
            old(self).strong@.wf(),
        ensures
            *final(self) == *old(self),
            r <==> old(self).weak_count == 1 && old(self).strong@.strong_count(this_id) == Ok::<
                u64,
                ImpreciseRefCountError,
            >(1u64),
            r ==> old(self).strong@.strong() == 1,
    {
        if self.strong.is_definitely_not_unique(this_id) {
            return false;
        }
        if self.try_lock_weak() {
            let actually_unique = self.strong.is_unique(this_id);
            self.unlock_weak();
            actually_unique
        } else {
            false
        }
    }
}

/// A block can be addressed exactly where its size leaves room for the alignment below the
/// first size that is too large.
pub proof fn lemma_layout_fits(size: int, align: int)
    requires
        size >= 0,
        is_pow2(align),
        align <= isize::MAX + 1,
    ensures
        layout_fits(size, align) <==> size <= isize::MAX + 1 - align,
{
    let limit = isize::MAX + 1;
    let top = limit - align;
    lemma_limit_is_pow2();
    lemma_pow2_divides(align, limit);
    reveal(is_pow2);
    lemma_round_up(size, align);
    assert(top % align == 0) by {
        vstd::arithmetic::div_mod::lemma_sub_mod_noop(limit, align, align);
        vstd::arithmetic::div_mod::lemma_mod_self_0(align);
        vstd::arithmetic::div_mod::lemma_small_mod(0, align as nat);
    }
    let rounded = round_up(size, align);
    if rounded <= isize::MAX && rounded > top {
        lemma_multiples_apart(rounded, top, align);
    }
    if size <= top && rounded > isize::MAX {
        lemma_multiples_apart(rounded, top, align);
    }
}

/// The first size that is too large is a power of two.
proof fn lemma_limit_is_pow2()
    ensures
        is_pow2(isize::MAX + 1),
{
    vstd::arithmetic::power2::lemma2_to64();
    vstd::arithmetic::power2::lemma2_to64_rest();
    vstd::arithmetic::power2::lemma_pow2(31);
    vstd::arithmetic::power2::lemma_pow2(63);
    vstd::arithmetic::power2::is_pow2_equiv(isize::MAX + 1);
}

/// Two multiples of a number that differ are at least that number apart.
proof fn lemma_multiples_apart(a: int, b: int, m: int)
    requires
        m > 0,
        a % m == 0,
        b % m == 0,
        a > b,
    ensures
        a >= b + m,
{
    let p = a / m;
    let q = b / m;
    assert(a == m * p && b == m * q) by (nonlinear_arith)
        requires
            m > 0,
            a % m == 0,
            b % m == 0,
            p == a / m,
            q == b / m,
    ;
    assert(p >= q + 1) by (nonlinear_arith)
        requires
            m > 0,
            m * p > m * q,
    ;
    assert(m * p >= m * q + m) by (nonlinear_arith)
        requires
            m > 0,
            p >= q + 1,
    ;
}

/// The value stands at the first offset behind the header that is a multiple of its alignment,
/// and of 2. The block is aligned as the header and the value are, and a value can be placed
/// exactly where the block that ends with it can be addressed.
pub proof fn lemma_first_place<A>(header: Layout, layout: Layout, offset: int)
    requires
        header.wf(),
        layout.wf(),
        ({
            let align = if layout.align >= 2 {
                layout.align as int
            } else {
                2
            };
            header.size <= offset < header.size + align && offset % align == 0
        }),
    ensures
        ({
            let align = if layout.align >= 2 {
                layout.align as int
            } else {
                2
            };
            let block = if header.align >= align {
                header.align as int
            } else {
                align
            };
            &&& LayoutInfo::<A>::can_place(header, layout) <==> layout.size <= isize::MAX + 1
                - align && offset + layout.size <= isize::MAX + 1 - block
            &&& forall|info: LayoutInfo<A>| #[trigger]
                info.describes(header, layout) ==> {
                    &&& info.offset() == offset
                    &&& info.full().size == offset + layout.size
                    &&& info.full().align == block
                }
        }),
{
    let align = if layout.align >= 2 {
        layout.align as int
    } else {
        2
    };
    let block = if header.align >= align {
        header.align as int
    } else {
        align
    };
    lemma_limit_is_pow2();
    reveal(is_pow2);
    assert(is_pow2(1));
    assert(is_pow2(2));
    lemma_align_bounded(header);
    lemma_align_bounded(layout);
    lemma_round_up(header.size as int, align);
    if round_up(header.size as int, align) > offset {
        lemma_multiples_apart(round_up(header.size as int, align), offset, align);
    }
    if round_up(header.size as int, align) < offset {
        lemma_multiples_apart(offset, round_up(header.size as int, align), align);
    }
    lemma_layout_fits(layout.size as int, align);
    lemma_layout_fits(offset + layout.size, block);
}

/// An alignment that an address can have is below the first size that is too large, or is
/// that size.
proof fn lemma_align_bounded(layout: Layout)
    requires
        layout.wf(),
    ensures
        1 <= layout.align <= isize::MAX + 1,
{
    reveal(is_pow2);
    let limit = isize::MAX + 1;
    lemma_limit_is_pow2();
    if layout.align > limit {
        lemma_pow2_divides(limit, layout.align as int);
        lemma_multiples_apart(layout.align as int, limit, limit);
    }
}

/// A weak reference can be counted until the counter is above half its range. While it is
/// locked, no weak reference is taken from a strong one.
pub proof fn lemma_weak_count_steps(count: u32)
    ensures
        count <= 0x7fff_ffff ==> {
            &&& downgraded_count(count) == Downgrade::Store((count + 1) as u32)
            &&& cloned_weak_count(count) == Ok::<u32, FatalError>((count + 1) as u32)
        },
        count > 0x7fff_ffff ==> {
            &&& !(downgraded_count(count) is Store)
            &&& downgraded_count(count) is Locked <==> count == 0xffff_ffff
            &&& downgraded_count(count) is Fatal ==> downgraded_count(count) == Downgrade::Fatal(
                FatalError::WeakRefcntOverflow,
            )
            &&& cloned_weak_count(count) == Err::<u32, FatalError>(FatalError::WeakRefcntOverflow)
        },
{
}

/// A value lies behind the counts of its object and the allocator.
pub proof fn lemma_header_layout<A>()
    ensures
        LayoutInfo::<A>::header_layout() == Layout::of::<BrcHeader<A>>(),
        Layout::of::<BrcHeader<A>>().size == vstd::layout::size_of::<BrcHeader<A>>() as usize,
        Layout::of::<BrcHeader<A>>().align == vstd::layout::align_of::<BrcHeader<A>>() as usize,
{
}

} // verus!
