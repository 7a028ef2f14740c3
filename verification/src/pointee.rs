//! What can be pointed to, and how a pointer to it is taken apart.
//!
//! A pointer is the address of a value together with some metadata: nothing for a
//! type of known size, and the number of items for a slice. An object that waits in
//! a queue is dropped by code that does not know its type, and keeps the metadata
//! in an erased form.
use crate::layout::{layout_fits, lemma_layout_fits, lemma_round_up, Layout};
use vstd::arithmetic::power2::is_pow2;
use vstd::layout::{align_of, size_of};
use vstd::pervasive::unreached;
use vstd::prelude::*;

verus! {

/// The metadata of a pointer in a form that does not depend on its type.
#[derive(Copy, Clone, Debug, PartialEq, Eq, Structural)]
pub struct ErasedDestructorContext {
    pub address: usize,
}

/// Metadata that is at most as large as an address.
pub trait SupportedMetadata: Sized {
    /// The erased form of the metadata.
    spec fn context(self) -> ErasedDestructorContext;

    /// Erases the metadata.
    fn to_context(self) -> (r: ErasedDestructorContext)
        ensures
            r == self.context(),
    ;

    /// Recovers metadata that was erased.
    fn from_context(ctx: ErasedDestructorContext) -> (r: Self)
        requires
            exists|m: Self| m.context() == ctx,
        ensures
            r.context() == ctx,
    ;

    /// Metadata can be told apart in their erased form.
    proof fn lemma_context(a: Self, b: Self)
        ensures
            a.context() == b.context() ==> a == b,
    ;
}

impl SupportedMetadata for usize {
    open spec fn context(self) -> ErasedDestructorContext {
        ErasedDestructorContext { address: self }
    }

    fn to_context(self) -> (r: ErasedDestructorContext) {
        ErasedDestructorContext { address: self }
    }

    fn from_context(ctx: ErasedDestructorContext) -> (r: Self) {
        ctx.address
    }

    proof fn lemma_context(a: Self, b: Self) {
    }
}

impl SupportedMetadata for () {
    open spec fn context(self) -> ErasedDestructorContext {
        ErasedDestructorContext { address: 0 }
    }

    fn to_context(self) -> (r: ErasedDestructorContext) {
        ErasedDestructorContext { address: 0 }
    }

    fn from_context(ctx: ErasedDestructorContext) -> (r: Self) {
        let _ = ctx;
    }

    proof fn lemma_context(a: Self, b: Self) {
    }
}

/// What a pointer to a type is made of.
pub trait SupportedPointeeInternal {
    /// What a pointer holds beside the address.
    type Metadata: SupportedMetadata;
}

/// A type that a reference-counted object can hold.
pub trait SupportedPointee: SupportedPointeeInternal {

}

/// How the layout of a value is told from the metadata of a pointer to it, even once
/// the value is gone.
pub trait SupportedWeakPointeeInternal: SupportedPointeeInternal {
    /// Whether there can be a value with the given metadata.
    spec fn possible(metadata: Self::Metadata) -> bool;

    /// The layout of a value with the given metadata.
    spec fn layout(metadata: Self::Metadata) -> Layout;

    /// The layout of a value with the given metadata.
    fn layout_for_ptr(metadata: Self::Metadata) -> (r: Layout)
        requires
            Self::possible(metadata),
        ensures
            r == Self::layout(metadata),
            r.wf(),
    ;
}

/// A type that weak references can be made to.
pub trait SupportedWeakPointee: SupportedPointee + SupportedWeakPointeeInternal {

}

impl<T> SupportedPointeeInternal for T {
    type Metadata = ();
}

impl<T> SupportedPointee for T {

}

impl<T> SupportedWeakPointeeInternal for T {
    open spec fn possible(metadata: ()) -> bool {
        true
    }

    open spec fn layout(metadata: ()) -> Layout {
        Layout::of::<T>()
    }

    fn layout_for_ptr(metadata: ()) -> (r: Layout) {
        let _ = metadata;
        Layout::new::<T>()
    }
}

impl<T> SupportedWeakPointee for T {

}

impl<T> SupportedPointeeInternal for [T] {
    type Metadata = usize;
}

impl<T> SupportedPointee for [T] {

}

impl<T> SupportedWeakPointeeInternal for [T] {
    open spec fn possible(metadata: usize) -> bool {
        layout_fits(size_of::<T>() * metadata, align_of::<T>() as int)
    }

    open spec fn layout(metadata: usize) -> Layout {
        Layout {
            size: (size_of::<T>() * metadata) as usize,
            align: align_of::<T>() as usize,
        }
    }

    fn layout_for_ptr(metadata: usize) -> (r: Layout) {
        match Layout::array::<T>(metadata) {
            Ok(layout) => layout,
            Err(_) => unreached(),
        }
    }
}

impl<T> SupportedWeakPointee for [T] {

}

impl SupportedPointeeInternal for str {
    type Metadata = usize;
}

impl SupportedPointee for str {

}

impl SupportedWeakPointeeInternal for str {
    open spec fn possible(metadata: usize) -> bool {
        <[u8] as SupportedWeakPointeeInternal>::possible(metadata)
    }

    open spec fn layout(metadata: usize) -> Layout {
        <[u8] as SupportedWeakPointeeInternal>::layout(metadata)
    }

    fn layout_for_ptr(metadata: usize) -> (r: Layout) {
        <[u8] as SupportedWeakPointeeInternal>::layout_for_ptr(metadata)
    }
}

impl SupportedWeakPointee for str {

}

/// What it takes to drop the value of an object whose type is known.
pub struct DropContext<T: ?Sized + SupportedPointee> {
    pub metadata: T::Metadata,
    /// The offset from the header to the value.
    pub value_offset: isize,
}

impl<T: ?Sized + SupportedPointee> DropContext<T> {
    /// Forgets the type.
    pub fn erase(self) -> (r: ErasedDropInfo)
        ensures
            r.value_offset == self.value_offset,
            r.erased_ctx == self.metadata.context(),
    {
        ErasedDropInfo {
            value_offset: self.value_offset,
            erased_ctx: self.metadata.to_context(),
        }
    }
}

/// What it takes to drop the value of an object whose type is not known.
#[derive(Copy, Clone, Debug, PartialEq, Eq, Structural)]
pub struct ErasedDropInfo {
    /// The offset from the header to the value.
    pub value_offset: isize,
    pub erased_ctx: ErasedDestructorContext,
}

impl ErasedDropInfo {
    /// Whether this was made for a value of type `T` with the given metadata.
    pub open spec fn erases<T: ?Sized + SupportedPointee>(self, metadata: T::Metadata) -> bool {
        self.erased_ctx == metadata.context()
    }

    /// Recovers the pointer to the value of an object from the address of its
    /// header.
    pub fn value_ptr<T: ?Sized + SupportedPointee>(&self, header_ptr: usize) -> (r: (
        usize,
        T::Metadata,
    ))
        requires
            exists|metadata: T::Metadata| self.erases::<T>(metadata),
            0 <= header_ptr + self.value_offset <= usize::MAX,
        ensures
            r.0 == header_ptr + self.value_offset,
            self.erases::<T>(r.1),
            forall|metadata: T::Metadata| self.erases::<T>(metadata) ==> r.1 == metadata,
    {
        proof {
            let known = choose|metadata: T::Metadata| self.erases::<T>(metadata);
            assert(known.context() == self.erased_ctx);
        }
        let metadata = <T::Metadata as SupportedMetadata>::from_context(self.erased_ctx);
        proof {
            assert forall|other: T::Metadata| self.erases::<T>(other) implies metadata == other by {
                <T::Metadata as SupportedMetadata>::lemma_context(metadata, other);
            }
        }
        let address = if self.value_offset >= 0 {
            header_ptr + self.value_offset as usize
        } else {
            header_ptr - (-(self.value_offset + 1)) as usize - 1
        };
        (address, metadata)
    }
}

/// Metadata that was erased is recovered as it was.
pub proof fn lemma_metadata_recovered<M: SupportedMetadata>(metadata: M, recovered: M)
    requires
        recovered.context() == metadata.context(),
    ensures
        recovered == metadata,
{
    M::lemma_context(recovered, metadata);
}

/// A slice is as large as its items together and aligned as one of them, and there can be one
/// where a block of that size can be addressed. A value of known size has the layout of its
/// type.
pub proof fn lemma_value_layouts<T>(items: usize)
    requires
        align_of::<T>() <= isize::MAX,
    ensures
        <[T] as SupportedWeakPointeeInternal>::possible(items) <==> size_of::<T>() * items
            <= isize::MAX + 1 - align_of::<T>(),
        <[T] as SupportedWeakPointeeInternal>::possible(items) ==> {
            let layout = <[T] as SupportedWeakPointeeInternal>::layout(items);
            layout.size == size_of::<T>() * items && layout.align == align_of::<T>()
        },
        <T as SupportedWeakPointeeInternal>::possible(()),
        <T as SupportedWeakPointeeInternal>::layout(()) == Layout::of::<T>(),
{
    broadcast use {vstd::layout::align_nonzero, vstd::layout::align_properties};

    let size = size_of::<T>() * items;
    assert(size >= 0) by (nonlinear_arith)
        requires
            size == size_of::<T>() * items,
    ;
    lemma_layout_fits(size, align_of::<T>() as int);
    lemma_round_up(size, align_of::<T>() as int);
}

/// A string has the layout of its bytes.
pub proof fn lemma_string_layout(bytes: usize)
    ensures
        <str as SupportedWeakPointeeInternal>::possible(bytes) <==> bytes <= isize::MAX,
        <str as SupportedWeakPointeeInternal>::possible(bytes) ==> <
            str as SupportedWeakPointeeInternal
        >::layout(bytes) == (Layout { size: bytes, align: 1 }),
{
    broadcast use {vstd::layout::layout_of_primitives, vstd::layout::align_of_u8};

    assert(is_pow2(1));
    lemma_layout_fits(bytes as int, 1);
}

/// The number of items of a slice is erased to itself, and nothing to zero.
pub proof fn lemma_contexts(items: usize)
    ensures
        items.context().address == items,
        ().context().address == 0,
{
}

} // verus!
