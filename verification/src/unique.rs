//! References that are known to be the only strong ones.
use crate::allocator::Global;
use crate::effects::{can_have_identifier, lemma_share_effect, strong_number};
use crate::object::{Gone, Obj};
use crate::runtime::Runtime;
use crate::strong::Brc;
use crate::uninit::UniqueUninitBrc;
use crate::weak::Weak;
use crate::world::{
    lemma_cloned_keeps, lemma_shared_keeps, lemma_unique_dropped_keeps, World,
};
use core::marker::PhantomData;
use vstd::pervasive::unreached;
use vstd::prelude::*;

verus! {

/// A reference that is known to have no other strong reference beside it, so that
/// the value can be changed through it.
///
/// Weak references to the object can be made, but cannot be upgraded until the
/// object is shared.
pub struct UniqueBrc<T, A = Global> {
    address: usize,
    id: Ghost<nat>,
    marker: PhantomData<(T, A)>,
}

impl<T, A> UniqueBrc<T, A> {
    /// The address of the object.
    pub closed spec fn address(self) -> usize {
        self.address
    }

    /// The number of the reference.
    pub closed spec fn id(self) -> nat {
        self.id@
    }

    /// Whether this is the unique owner of an object of the given world, which has
    /// a value.
    pub open spec fn valid_in(self, w: World<T, A>) -> bool {
        w.holds_unique(self.address(), self.id()) && self.object(w).value is Some
    }

    /// The object that this owns.
    pub open spec fn object(self, w: World<T, A>) -> Obj<T, A> {
        w.heap.at(self.address() as int)
    }

    /// Makes an owner of the address of an object and the number that the owner
    /// has.
    pub(crate) fn from_parts(address: usize, id: Ghost<nat>) -> (r: Self)
        ensures
            r.address() == address,
            r.id() == id@,
    {
        UniqueBrc { address, id, marker: PhantomData }
    }

    /// Makes an object with the given value and allocator.
    pub fn new_in(value: T, alloc: A, rt: &mut Runtime<T, A>) -> (r: Self)
        requires
            old(rt).wf(),
            old(rt)@.heap.has_room(),
        ensures
            final(rt).wf(),
            final(rt)@ == old(rt)@.reserved(alloc).written(r.address(), Some(value)),
            r.address() == old(rt)@.heap.objects.len(),
            r.id() == old(rt)@.heap.next,
            r.valid_in(final(rt)@),
            r.object(final(rt)@).value == Some(value),
    {
        let uninit = UniqueUninitBrc::new_in(alloc, rt);
        uninit.write(value, rt)
    }

    /// Makes an object with the value that a function returns, and with the given
    /// allocator.
    pub fn new_with_in<F: FnOnce() -> T>(func: F, alloc: A, rt: &mut Runtime<T, A>) -> (r: Self)
        requires
            old(rt).wf(),
            old(rt)@.heap.has_room(),
            func.requires(()),
        ensures
            final(rt).wf(),
            r.address() == old(rt)@.heap.objects.len(),
            r.id() == old(rt)@.heap.next,
            r.valid_in(final(rt)@),
            r.object(final(rt)@).value matches Some(value) && func.ensures((), value)
                && final(rt)@ == old(rt)@.reserved(alloc).written(r.address(), Some(value)),
    {
        let uninit = UniqueUninitBrc::new_in(alloc, rt);
        uninit.write(func(), rt)
    }

    /// Begins to share the object. Weak references that were made before can be
    /// upgraded from now on.
    pub fn into_shared(this: Self, rt: &mut Runtime<T, A>) -> (r: Brc<T, A>)
        requires
            old(rt).wf(),
            this.valid_in(old(rt)@),
        ensures
            final(rt).wf(),
            final(rt)@ == old(rt)@.shared(this.address(), this.id()),
            r.address() == this.address(),
            r.id() == this.id(),
            r.valid_in(final(rt)@),
            r.object(final(rt)@).value == this.object(old(rt)@).value,
            strong_number(r.object(final(rt)@).refs) == 1,
            can_have_identifier(old(rt)@.threads) ==> {
                &&& final(rt)@.this_id() is Some
                &&& r.object(final(rt)@).counts.biased.owner_id == final(rt)@.this_id()
                &&& r.object(final(rt)@).counts.biased.biased_count == 1
                &&& r.object(final(rt)@).counts.shared.shared_count.count == 0
            },
            old(rt)@.keeps_but(final(rt)@, this.address(), Gone::Unique),
    {
        proof {
            lemma_share_effect(rt@, this.address(), this.id());
            lemma_shared_keeps(rt@, this.address(), this.id());
        }
        rt.share(this.address, this.id);
        Brc::from_parts(this.address, this.id)
    }

    /// Takes a weak reference to the object, which cannot be upgraded until the
    /// object is shared.
    #[must_use]
    pub fn downgrade(this: &Self, rt: &mut Runtime<T, A>) -> (r: Weak<T, A>)
        requires
            old(rt).wf(),
            this.valid_in(old(rt)@),
            this.object(old(rt)@).can_downgrade(),
        ensures
            final(rt).wf(),
            final(rt)@ == old(rt)@.downgraded(this.address()),
            !r.reserved(),
            r.address() == this.address(),
            r.id() == old(rt)@.heap.next,
            r.owned_in(final(rt)@),
            !r.upgradable(final(rt)@),
            old(rt)@.keeps(final(rt)@),
    {
        downgrade_for_unique_ptr(this.address, this.id, rt)
    }

    /// The value.
    pub fn deref<'a>(this: &Self, rt: &'a Runtime<T, A>) -> (r: &'a T)
        requires
            this.valid_in(rt@),
        ensures
            Some(*r) == this.object(rt@).value,
    {
        rt.value(this.address)
    }

    /// The value, to be changed.
    pub fn deref_mut<'a>(this: &mut Self, rt: &'a mut Runtime<T, A>) -> (r: &'a mut T)
        requires
            old(rt).wf(),
            old(this).valid_in(old(rt)@),
        ensures
            *final(this) == *old(this),
            Some(*r) == old(this).object(old(rt)@).value,
            final(rt)@ == old(rt)@.written(old(this).address(), Some(*final(r))),
            final(rt).wf(),
            final(this).valid_in(final(rt)@),
    {
        rt.value_mut(this.address)
    }

    /// Drops the value, and frees the memory where no weak reference is left.
    ///
    /// Hands out the value. References in it are still to be dropped.
    pub fn drop(this: Self, rt: &mut Runtime<T, A>) -> (r: T)
        requires
            old(rt).wf(),
            this.valid_in(old(rt)@),
        ensures
            final(rt).wf(),
            Some(r) == this.object(old(rt)@).value,
            final(rt)@ == old(rt)@.unique_dropped(this.address()),
            old(rt)@.keeps_but(final(rt)@, this.address(), Gone::Unique),
    {
        proof {
            lemma_unique_dropped_keeps(rt@, this.address(), this.id());
        }
        match rt.drop_unique(this.address, this.id) {
            Some(value) => value,
            None => unreached(),
        }
    }
}

/// Takes a weak reference to an object that has a unique owner.
pub(crate) fn downgrade_for_unique_ptr<T, A>(
    address: usize,
    id: Ghost<nat>,
    rt: &mut Runtime<T, A>,
) -> (r: Weak<T, A>)
    requires
        old(rt).wf(),
        old(rt)@.holds_unique(address, id@),
        old(rt)@.heap.at(address as int).can_downgrade(),
    ensures
        final(rt).wf(),
        final(rt)@ == old(rt)@.downgraded(address),
        !r.reserved(),
        r.address() == address,
        r.id() == old(rt)@.heap.next,
        r.owned_in(final(rt)@),
        !r.upgradable(final(rt)@),
        old(rt)@.keeps(final(rt)@),
{
    proof {
        lemma_cloned_keeps(rt@, address);
        rt@.lemma_address(address);
    }
    let weak = rt.clone_weak(address);
    Weak::from_parts(address, weak)
}

impl<T> UniqueBrc<T, Global> {
    /// Makes an object with the given value.
    pub fn new(value: T, rt: &mut Runtime<T, Global>) -> (r: Self)
        requires
            old(rt).wf(),
            old(rt)@.heap.has_room(),
        ensures
            final(rt).wf(),
            final(rt)@ == old(rt)@.reserved(Global).written(r.address(), Some(value)),
            r.address() == old(rt)@.heap.objects.len(),
            r.id() == old(rt)@.heap.next,
            r.valid_in(final(rt)@),
            r.object(final(rt)@).value == Some(value),
    {
        Self::new_in(value, Global, rt)
    }

    /// Makes an object with the value that a function returns.
    pub fn new_with<F: FnOnce() -> T>(func: F, rt: &mut Runtime<T, Global>) -> (r: Self)
        requires
            old(rt).wf(),
            old(rt)@.heap.has_room(),
            func.requires(()),
        ensures
            final(rt).wf(),
            r.address() == old(rt)@.heap.objects.len(),
            r.id() == old(rt)@.heap.next,
            r.valid_in(final(rt)@),
            r.object(final(rt)@).value matches Some(value) && func.ensures((), value)
                && final(rt)@ == old(rt)@.reserved(Global).written(r.address(), Some(value)),
    {
        let uninit = UniqueUninitBrc::new(rt);
        uninit.write(func(), rt)
    }
}

} // verus!
