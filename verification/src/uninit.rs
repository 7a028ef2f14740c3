//! Objects whose value is not there yet.
use crate::allocator::Global;
use crate::object::{Gone, Obj};
use crate::runtime::Runtime;
use crate::unique::{downgrade_for_unique_ptr, UniqueBrc};
use crate::weak::Weak;
use crate::world::{lemma_pushed_keeps, lemma_unique_dropped_keeps, World};
use core::marker::PhantomData;
use core::mem::ManuallyDrop;
use vstd::pervasive::unreached;
use vstd::prelude::*;

verus! {

/// The unique owner of an object whose value may not be there yet.
///
/// Weak references to the object can be made, but cannot be upgraded until the
/// value is there and the object is shared.
pub struct UniqueUninitBrc<T, A = Global> {
    address: usize,
    id: Ghost<nat>,
    marker: PhantomData<(T, A)>,
}

impl<T, A> UniqueUninitBrc<T, A> {
    /// The address of the object.
    pub closed spec fn address(self) -> usize {
        self.address
    }

    /// The number of the reference.
    pub closed spec fn id(self) -> nat {
        self.id@
    }

    /// Whether this is the unique owner of an object of the given world.
    pub open spec fn valid_in(self, w: World<T, A>) -> bool {
        w.holds_unique(self.address(), self.id())
    }

    /// The object that this owns.
    pub open spec fn object(self, w: World<T, A>) -> Obj<T, A> {
        w.heap.at(self.address() as int)
    }

    /// The address of the object.
    pub fn as_ptr(&self) -> (r: usize)
        ensures
            r == self.address(),
    {
        self.address
    }

    /// The address of the object.
    pub fn as_mut_ptr(&self) -> (r: usize)
        ensures
            r == self.address(),
    {
        self.address
    }

    /// The value, if it is there.
    pub fn as_uninit_ref<'a>(&self, rt: &'a Runtime<T, A>) -> (r: &'a Option<T>)
        requires
            self.valid_in(rt@),
        ensures
            *r == self.object(rt@).value,
    {
        rt.slot(self.address)
    }

    /// The place for the value, to be changed.
    pub fn as_uninit_mut<'a>(&self, rt: &'a mut Runtime<T, A>) -> (r: &'a mut Option<T>)
        requires
            old(rt).wf(),
            self.valid_in(old(rt)@),
        ensures
            *r == self.object(old(rt)@).value,
            final(rt)@ == old(rt)@.written(self.address(), *final(r)),
            final(rt).wf(),
            self.valid_in(final(rt)@),
    {
        rt.slot_mut(self.address)
    }

    /// Turns this into the owner of an object with a value.
    pub fn assume_init(self, rt: &Runtime<T, A>) -> (r: UniqueBrc<T, A>)
        requires
            self.valid_in(rt@),
            self.object(rt@).value is Some,
        ensures
            r.address() == self.address(),
            r.id() == self.id(),
            r.valid_in(rt@),
    {
        let _ = rt;
        UniqueBrc::from_parts(self.address, self.id)
    }

    /// The value, which is there.
    pub fn assume_init_ref<'a>(&self, rt: &'a Runtime<T, A>) -> (r: &'a T)
        requires
            self.valid_in(rt@),
            self.object(rt@).value is Some,
        ensures
            Some(*r) == self.object(rt@).value,
    {
        rt.value(self.address)
    }

    /// The value, which is there, to be changed.
    pub fn assume_init_mut<'a>(&mut self, rt: &'a mut Runtime<T, A>) -> (r: &'a mut T)
        requires
            old(rt).wf(),
            old(self).valid_in(old(rt)@),
            old(self).object(old(rt)@).value is Some,
        ensures
            *final(self) == *old(self),
            Some(*r) == old(self).object(old(rt)@).value,
            final(rt)@ == old(rt)@.written(old(self).address(), Some(*final(r))),
            final(rt).wf(),
            final(self).valid_in(final(rt)@),
    {
        rt.value_mut(self.address)
    }

    /// Drops the value, which is there. The memory is not freed.
    ///
    /// Hands out the value. References in it are still to be dropped.
    pub fn assume_init_drop(&mut self, rt: &mut Runtime<T, A>) -> (r: T)
        requires
            old(rt).wf(),
            old(self).valid_in(old(rt)@),
            old(self).object(old(rt)@).value is Some,
        ensures
            *final(self) == *old(self),
            Some(r) == old(self).object(old(rt)@).value,
            final(rt)@ == old(rt)@.written(old(self).address(), None),
            final(rt).wf(),
            final(self).valid_in(final(rt)@),
    {
        let slot = rt.slot_mut(self.address);
        match slot.take() {
            Some(value) => value,
            None => unreached(),
        }
    }

    /// Takes a weak reference to the object, which cannot be upgraded until the
    /// value is there and the object is shared.
    #[must_use]
    pub fn downgrade(this: &Self, rt: &mut Runtime<T, A>) -> (r: Weak<T, A>)
        requires
            old(rt).wf(),
            this.valid_in(old(rt)@),
            this.object(old(rt)@).can_downgrade(),
        ensures
            final(rt).wf(),
            final(rt)@ == old(rt)@.downgraded(this.address()),
            !r.reserved(),
            r.address() == this.address(),
            r.id() == old(rt)@.heap.next,
            r.owned_in(final(rt)@),
            !r.upgradable(final(rt)@),
            old(rt)@.keeps(final(rt)@),
    {
        downgrade_for_unique_ptr(this.address, this.id, rt)
    }

    /// Calls a function with a weak reference to the object, which is lent out and
    /// not counted.
    pub fn with_weak_ref<R, F: FnOnce(&Weak<T, A>) -> R>(&self, func: F) -> (r: R)
        requires
            forall|weak: Weak<T, A>|
                weak.address() == self.address() && weak.id() == self.id() ==> call_requires(
                    func,
                    (&weak,),
                ),
        ensures
            exists|weak: Weak<T, A>|
                weak.address() == self.address() && weak.id() == self.id() && call_ensures(
                    func,
                    (&weak,),
                    r,
                ),
    {
        let weak = Weak::from_parts(self.address, self.id);
        func(&weak)
    }

    /// Makes an object without a value, with the given allocator.
    pub fn new_in(alloc: A, rt: &mut Runtime<T, A>) -> (r: Self)
        requires
            old(rt).wf(),
            old(rt)@.heap.has_room(),
        ensures
            final(rt).wf(),
            final(rt)@ == old(rt)@.reserved(alloc),
            r.address() == old(rt)@.heap.objects.len(),
            r.id() == old(rt)@.heap.next,
            r.valid_in(final(rt)@),
            r.object(final(rt)@).value is None,
            old(rt)@.keeps(final(rt)@),
    {
        proof {
            lemma_pushed_keeps(rt@, rt@.reserved(alloc), Obj::reserved(alloc, rt@.heap.next));
        }
        let (address, id) = rt.reserve(alloc);
        UniqueUninitBrc { address, id, marker: PhantomData }
    }

    /// Puts a value in its place. A value that was there before is not dropped.
    pub fn write(self, value: T, rt: &mut Runtime<T, A>) -> (r: UniqueBrc<T, A>)
        requires
            old(rt).wf(),
            self.valid_in(old(rt)@),
        ensures
            final(rt).wf(),
            final(rt)@ == old(rt)@.written(self.address(), Some(value)),
            r.address() == self.address(),
            r.id() == self.id(),
            r.valid_in(final(rt)@),
            r.object(final(rt)@).value == Some(value),
    {
        let slot = rt.slot_mut(self.address);
        let _ = ManuallyDrop::new(slot.take());
        *slot = Some(value);
        self.assume_init(rt)
    }

    /// Frees the memory where no weak reference is left. A value that is there is
    /// not dropped, and is handed out to be forgotten or not.
    pub fn drop(self, rt: &mut Runtime<T, A>) -> (r: ManuallyDrop<Option<T>>)
        requires
            old(rt).wf(),
            self.valid_in(old(rt)@),
        ensures
            final(rt).wf(),
            r@ == self.object(old(rt)@).value,
            final(rt)@ == old(rt)@.unique_dropped(self.address()),
            old(rt)@.keeps_but(final(rt)@, self.address(), Gone::Unique),
    {
        proof {
            lemma_unique_dropped_keeps(rt@, self.address(), self.id());
        }
        ManuallyDrop::new(rt.drop_unique(self.address, self.id))
    }
}

impl<T> UniqueUninitBrc<T, Global> {
    /// Makes an object without a value.
    pub fn new(rt: &mut Runtime<T, Global>) -> (r: Self)
        requires
            old(rt).wf(),
            old(rt)@.heap.has_room(),
        ensures
            final(rt).wf(),
            final(rt)@ == old(rt)@.reserved(Global),
            r.address() == old(rt)@.heap.objects.len(),
            r.id() == old(rt)@.heap.next,
            r.valid_in(final(rt)@),
            r.object(final(rt)@).value is None,
            old(rt)@.keeps(final(rt)@),
    {
        Self::new_in(Global, rt)
    }
}

} // verus!
