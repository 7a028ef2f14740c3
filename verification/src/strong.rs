//! Strong references.
use crate::allocator::Global;
use crate::effects::{
    can_have_identifier, lemma_clone_effect, lemma_clone_shared_effect, lemma_collect_drops,
    lemma_collect_keeps_object, lemma_downgrade_effect, lemma_drop_effect,
    lemma_merged_number_known, lemma_new_object, lemma_new_object_biased,
    lemma_others_know_bound, lemma_owner_knows_number, strong_number, weak_number,
};
use crate::error::{BiasedCountError, ImpreciseRefCountError};
use crate::layout::weak_references;
use crate::object::{lemma_contains_len, Gone, Obj};
use crate::runtime::Runtime;
use crate::values::lemma_drop_hands_out_all;
use crate::weak::Weak;
use crate::world::{
    lemma_cloned_keeps, lemma_collected_keeps, lemma_collected_twice, lemma_dropped_keeps,
    lemma_handed_out_keeps, lemma_increment_keeps, lemma_keeps_both, lemma_pushed_keeps,
    lemma_raw_keeps, lemma_unwrapped_keeps, lemma_world_collected, World,
};
use core::marker::PhantomData;
use vstd::prelude::*;

verus! {

/// A reference-counted pointer to an object, which is biased towards one thread.
///
/// The number of strong references is not always known exactly, so that
/// [`Brc::get_mut`] and [`Brc::try_unwrap`] can fail although the reference is the
/// only one.
///
/// The allocator is kept in the header of the object, and is shared by all
/// references to it.
///
/// The value is not always dropped at once when the last reference is. It can be
/// left to the thread that the object is biased towards, until that thread
/// collects.
///
/// A value that is dropped is handed out, because the references in it have no
/// destructor of their own.
pub struct Brc<T, A = Global> {
    address: usize,
    id: Ghost<nat>,
    marker: PhantomData<(T, A)>,
}

impl<T, A> Brc<T, A> {
    /// The address of the object.
    pub closed spec fn address(self) -> usize {
        self.address
    }

    /// The number of the reference.
    pub closed spec fn id(self) -> nat {
        self.id@
    }

    /// Whether this is a strong reference to an object of the given world.
    pub open spec fn valid_in(self, w: World<T, A>) -> bool {
        w.holds_strong(self.address(), self.id())
    }

    /// The object that this refers to.
    pub open spec fn object(self, w: World<T, A>) -> Obj<T, A> {
        w.heap.at(self.address() as int)
    }

    /// Makes a reference of the address of an object and the number that the
    /// reference has.
    pub(crate) fn from_parts(address: usize, id: Ghost<nat>) -> (r: Self)
        ensures
            r.address() == address,
            r.id() == id@,
    {
        Brc { address, id, marker: PhantomData }
    }
}

impl<T> Brc<T, Global> {
    /// Collects, then makes an object with the given value. What collecting drops is
    /// left to [`Runtime::take_discarded`], as with all functions that make an object.
    pub fn new(value: T, rt: &mut Runtime<T, Global>) -> (r: Self)
        requires
            old(rt).wf(),
            old(rt)@.heap.has_room(),
        ensures
            final(rt).wf(),
            final(rt)@ == old(rt)@.collected().allocated(value, Global),
            r.address() == old(rt)@.heap.objects.len(),
            r.id() == old(rt)@.heap.next,
            r.valid_in(final(rt)@),
            r.object(final(rt)@).value == Some(value),
            old(rt)@.keeps(final(rt)@),
            strong_number(r.object(final(rt)@).refs) == 1,
            weak_number(r.object(final(rt)@).refs) == 0,
            can_have_identifier(old(rt)@.threads) ==> {
                &&& final(rt)@.this_id() is Some
                &&& r.object(final(rt)@).counts.biased.owner_id == final(rt)@.this_id()
                &&& r.object(final(rt)@).counts.biased.biased_count == 1
                &&& r.object(final(rt)@).counts.shared.shared_count.count == 0
            },
            old(rt)@.heap.discarded.is_prefix_of(final(rt)@.heap.discarded),
    {
        Brc::new_in(value, Global, rt)
    }

    /// Collects, then makes an object with the value that a function returns.
    pub fn new_with<F: FnOnce() -> T>(func: F, rt: &mut Runtime<T, Global>) -> (r: Self)
        requires
            old(rt).wf(),
            old(rt)@.heap.has_room(),
            func.requires(()),
        ensures
            final(rt).wf(),
            r.address() == old(rt)@.heap.objects.len(),
            r.id() == old(rt)@.heap.next,
            r.valid_in(final(rt)@),
            r.object(final(rt)@).value matches Some(value) && func.ensures((), value)
                && final(rt)@ == old(rt)@.collected().allocated(value, Global),
            old(rt)@.keeps(final(rt)@),
            strong_number(r.object(final(rt)@).refs) == 1,
            weak_number(r.object(final(rt)@).refs) == 0,
            can_have_identifier(old(rt)@.threads) ==> {
                &&& final(rt)@.this_id() is Some
                &&& r.object(final(rt)@).counts.biased.owner_id == final(rt)@.this_id()
                &&& r.object(final(rt)@).counts.biased.biased_count == 1
                &&& r.object(final(rt)@).counts.shared.shared_count.count == 0
            },
            old(rt)@.heap.discarded.is_prefix_of(final(rt)@.heap.discarded),
    {
        Self::alloc_with_in(func, Global, rt)
    }
}

impl<T, A> Brc<T, A> {
    /// Collects, then makes an object with the given value and allocator.
    pub fn new_in(value: T, alloc: A, rt: &mut Runtime<T, A>) -> (r: Self)
        requires
            old(rt).wf(),
            old(rt)@.heap.has_room(),
        ensures
            final(rt).wf(),
            final(rt)@ == old(rt)@.collected().allocated(value, alloc),
            r.address() == old(rt)@.heap.objects.len(),
            r.id() == old(rt)@.heap.next,
            r.valid_in(final(rt)@),
            r.object(final(rt)@).value == Some(value),
            old(rt)@.keeps(final(rt)@),
            strong_number(r.object(final(rt)@).refs) == 1,
            weak_number(r.object(final(rt)@).refs) == 0,
            can_have_identifier(old(rt)@.threads) ==> {
                &&& final(rt)@.this_id() is Some
                &&& r.object(final(rt)@).counts.biased.owner_id == final(rt)@.this_id()
                &&& r.object(final(rt)@).counts.biased.biased_count == 1
                &&& r.object(final(rt)@).counts.shared.shared_count.count == 0
            },
            old(rt)@.heap.discarded.is_prefix_of(final(rt)@.heap.discarded),
    {
        let ghost before = rt@;
        proof {
            lemma_collected_keeps(before);
            lemma_collected_twice(before);
        }
        rt.collect();
        let func = || -> (v: T)
            ensures
                v == value,
            { value };
        let r = Self::alloc_with_in(func, alloc, rt);
        r
    }

    /// Collects, then makes an object with the value that a function returns, and with
    /// the given allocator.
    pub fn new_with_in<F: FnOnce() -> T>(func: F, alloc: A, rt: &mut Runtime<T, A>) -> (r: Self)
        requires
            old(rt).wf(),
            old(rt)@.heap.has_room(),
            func.requires(()),
        ensures
            final(rt).wf(),
            r.address() == old(rt)@.heap.objects.len(),
            r.id() == old(rt)@.heap.next,
            r.valid_in(final(rt)@),
            r.object(final(rt)@).value matches Some(value) && func.ensures((), value)
                && final(rt)@ == old(rt)@.collected().allocated(value, alloc),
            old(rt)@.keeps(final(rt)@),
            strong_number(r.object(final(rt)@).refs) == 1,
            weak_number(r.object(final(rt)@).refs) == 0,
            can_have_identifier(old(rt)@.threads) ==> {
                &&& final(rt)@.this_id() is Some
                &&& r.object(final(rt)@).counts.biased.owner_id == final(rt)@.this_id()
                &&& r.object(final(rt)@).counts.biased.biased_count == 1
                &&& r.object(final(rt)@).counts.shared.shared_count.count == 0
            },
            old(rt)@.heap.discarded.is_prefix_of(final(rt)@.heap.discarded),
    {
        Self::alloc_with_in(func, alloc, rt)
    }

    /// Collects, then allocates an object and initialises its value by a function.
    fn alloc_with_in<F: FnOnce() -> T>(func: F, alloc: A, rt: &mut Runtime<T, A>) -> (r: Self)
        requires
            old(rt).wf(),
            old(rt)@.heap.has_room(),
            func.requires(()),
        ensures
            final(rt).wf(),
            r.address() == old(rt)@.heap.objects.len(),
            r.id() == old(rt)@.heap.next,
            r.valid_in(final(rt)@),
            r.object(final(rt)@).value matches Some(value) && func.ensures((), value)
                && final(rt)@ == old(rt)@.collected().allocated(value, alloc),
            old(rt)@.keeps(final(rt)@),
            strong_number(r.object(final(rt)@).refs) == 1,
            weak_number(r.object(final(rt)@).refs) == 0,
            can_have_identifier(old(rt)@.threads) ==> {
                &&& final(rt)@.this_id() is Some
                &&& r.object(final(rt)@).counts.biased.owner_id == final(rt)@.this_id()
                &&& r.object(final(rt)@).counts.biased.biased_count == 1
                &&& r.object(final(rt)@).counts.shared.shared_count.count == 0
            },
            old(rt)@.heap.discarded.is_prefix_of(final(rt)@.heap.discarded),
    {
        let ghost before = rt@;
        proof {
            lemma_collected_keeps(before);
        }
        rt.collect();
        let ghost collected = rt@;
        let value = func();
        proof {
            lemma_collect_drops(before);
            lemma_new_object(collected, value, alloc);
            if can_have_identifier(before.threads) {
                lemma_new_object_biased(before, value, alloc);
            }
            let v = collected.identified();
            lemma_pushed_keeps(
                collected,
                collected.allocated(value, alloc),
                Obj::initial(v.this_id(), value, alloc, v.heap.next),
            );
        }
        let (address, id) = rt.allocate(value, alloc);
        Self::from_parts(address, id)
    }
}

impl<T, A> Brc<T, A> {
    /// Moves the value out of the object, if this is known to be the only
    /// reference.
    ///
    /// Gives the reference back where it is not, even if it is the only one. The
    /// memory of an object whose value was moved out is not freed.
    pub fn try_unwrap(this: Self, rt: &mut Runtime<T, A>) -> (r: Result<T, Self>)
        requires
            old(rt).wf(),
            this.valid_in(old(rt)@),
        ensures
            final(rt).wf(),
            r is Ok <==> this.object(old(rt)@).known_unique(old(rt)@.this_id()),
            this.object(old(rt)@).counts.shared.merged || this.object(
                old(rt)@,
            ).counts.biased.owner_id == old(rt)@.this_id() ==> (r is Ok <==> strong_number(
                this.object(old(rt)@).refs,
            ) == 1 && weak_number(this.object(old(rt)@).refs) == 0),
            r matches Ok(value) ==> {
                &&& Some(value) == this.object(old(rt)@).value
                &&& final(rt)@ == old(rt)@.unwrapped(this.address(), this.id())
            },
            r matches Err(back) ==> back == this && final(rt)@ == old(rt)@,
            old(rt)@.keeps_but(final(rt)@, this.address(), Gone::Strong(this.id())),
    {
        proof {
            this.object(rt@).lemma_strong_reaches_value(this.id());
        }
        if Self::is_unique(&this, rt) {
            proof {
                lemma_unwrapped_keeps(rt@, this.address(), this.id());
            }
            Ok(rt.take_value(this.address, this.id))
        } else {
            Err(this)
        }
    }

    /// Moves the value out of the object, if this is known to be the only
    /// reference, and drops the reference otherwise. What this drops is left to
    /// [`Runtime::take_discarded`].
    pub fn into_inner(this: Self, rt: &mut Runtime<T, A>) -> (r: Option<T>)
        requires
            old(rt).wf(),
            this.valid_in(old(rt)@),
        ensures
            final(rt).wf(),
            r is Some <==> this.object(old(rt)@).known_unique(old(rt)@.this_id()),
            this.object(old(rt)@).counts.shared.merged || this.object(
                old(rt)@,
            ).counts.biased.owner_id == old(rt)@.this_id() ==> (r is Some <==> strong_number(
                this.object(old(rt)@).refs,
            ) == 1 && weak_number(this.object(old(rt)@).refs) == 0),
            r matches Some(value) ==> {
                &&& Some(value) == this.object(old(rt)@).value
                &&& final(rt)@ == old(rt)@.unwrapped(this.address(), this.id())
            },
            r is None ==> final(rt)@ == old(rt)@.collected().dropped(this.address(), this.id()),
            old(rt)@.heap.discarded.is_prefix_of(final(rt)@.heap.discarded),
            old(rt)@.keeps_but(final(rt)@, this.address(), Gone::Strong(this.id())),
    {
        proof {
            lemma_drop_hands_out_all(rt@, this.address(), this.id());
        }
        match Self::try_unwrap(this, rt) {
            Ok(value) => Some(value),
            Err(this) => {
                Self::release(this, rt);
                None
            },
        }
    }

    /// The allocator of the object.
    pub fn allocator<'a>(this: &Self, rt: &'a Runtime<T, A>) -> (r: &'a A)
        requires
            this.valid_in(rt@),
        ensures
            *r == this.object(rt@).alloc,
    {
        rt.alloc_of(this.address)
    }

    /// The value.
    pub fn deref<'a>(this: &Self, rt: &'a Runtime<T, A>) -> (r: &'a T)
        requires
            rt.wf(),
            this.valid_in(rt@),
        ensures
            Some(*r) == this.object(rt@).value,
    {
        proof {
            this.object(rt@).lemma_strong_reaches_value(this.id());
        }
        rt.value(this.address)
    }

    /// The number of strong references is known once the counts are merged, and to the
    /// thread that the object is biased towards.
    proof fn lemma_number_known(this: Self, w: World<T, A>)
        requires
            w.wf(),
            this.valid_in(w),
        ensures
            ({
                let object = this.object(w);
                let known = object.counts.shared.merged || object.counts.biased.owner_id
                    == w.this_id();
                &&& object.counts.strong_count(w.this_id()) is Ok <==> known
                &&& known ==> object.counts.strong_count(w.this_id()) == Ok::<
                    u64,
                    ImpreciseRefCountError,
                >(strong_number(object.refs) as u64) && strong_number(object.refs) <= u64::MAX
                &&& known ==> (object.known_unique(w.this_id()) <==> strong_number(object.refs)
                    == 1 && weak_number(object.refs) == 0)
            }),
    {
        let object = this.object(w);
        object.lemma_strong_reaches_value(this.id());
        if object.counts.shared.merged {
            lemma_merged_number_known(w, this.address(), w.this_id());
        } else if object.counts.biased.owner_id == w.this_id() {
            lemma_owner_knows_number(w, this.address(), w.this_id());
        } else {
            lemma_others_know_bound(w, this.address(), w.this_id());
        }
    }

    /// The number of strong references to the object, where the running thread can
    /// determine it. The thread that the object is biased towards always can.
    pub fn strong_count(this: &Self, rt: &Runtime<T, A>) -> (r: Result<
        u64,
        ImpreciseRefCountError,
    >)
        requires
            rt.wf(),
            this.valid_in(rt@),
        ensures
            r == this.object(rt@).counts.strong_count(rt@.this_id()),
            r is Ok <==> this.object(rt@).counts.precise_for(rt@.this_id()),
            match r {
                Ok(count) => count == this.object(rt@).refs.strong_total(),
                Err(e) => e.lower_bound <= this.object(rt@).refs.strong_total(),
            },
            r is Ok <==> this.object(rt@).counts.shared.merged || this.object(
                rt@,
            ).counts.biased.owner_id == rt@.this_id(),
            r matches Ok(count) ==> count == strong_number(this.object(rt@).refs),
    {
        proof {
            this.object(rt@).lemma_strong_reaches_value(this.id());
            Self::lemma_number_known(*this, rt@);
        }
        rt.strong_count_of(this.address)
    }

    /// The number of weak references to the object.
    pub fn weak_count(this: &Self, rt: &Runtime<T, A>) -> (r: Result<u64, ImpreciseRefCountError>)
        requires
            rt.wf(),
            this.valid_in(rt@),
        ensures
            r == Ok::<u64, ImpreciseRefCountError>(this.object(rt@).refs.weak_total() as u64),
            this.object(rt@).refs.weak_total() <= u64::MAX,
            r matches Ok(count) && count == weak_number(this.object(rt@).refs),
    {
        proof {
            this.object(rt@).lemma_strong_reaches_value(this.id());
        }
        Ok(weak_references(rt.weak_count_of(this.address)))
    }

    /// Whether this is known to be the only reference, strong or weak.
    ///
    /// May be `false` for the only reference on a thread that the object is not
    /// biased towards, but is never `true` where there is another one.
    pub fn is_unique(this: &Self, rt: &mut Runtime<T, A>) -> (r: bool)
        requires
            old(rt).wf(),
            this.valid_in(old(rt)@),
        ensures
            final(rt).wf(),
            final(rt)@ == old(rt)@,
            r == this.object(old(rt)@).known_unique(old(rt)@.this_id()),
            r ==> this.object(old(rt)@).refs.strong_total() == 1 && this.object(
                old(rt)@,
            ).refs.weak_total() == 0,
            this.object(old(rt)@).counts.precise_for(old(rt)@.this_id()) ==> (r <==> this.object(
                old(rt)@,
            ).refs.strong_total() == 1 && this.object(old(rt)@).refs.weak_total() == 0),
            this.object(old(rt)@).counts.shared.merged || this.object(
                old(rt)@,
            ).counts.biased.owner_id == old(rt)@.this_id() ==> (r <==> strong_number(
                this.object(old(rt)@).refs,
            ) == 1 && weak_number(this.object(old(rt)@).refs) == 0),
    {
        proof {
            this.object(rt@).lemma_strong_reaches_value(this.id());
            Self::lemma_number_known(*this, rt@);
        }
        rt.is_unique_at(this.address)
    }

    /// The biased count, where the running thread owns it.
    pub fn biased_count(this: &Self, rt: &Runtime<T, A>) -> (r: Result<u64, BiasedCountError>)
        requires
            rt.wf(),
            this.valid_in(rt@),
        ensures
            r == this.object(rt@).counts.biased_count(rt@.this_id()),
    {
        rt.biased_count_of(this.address)
    }

    /// The shared count.
    pub fn shared_count(this: &Self, rt: &Runtime<T, A>) -> (r: i64)
        requires
            this.valid_in(rt@),
        ensures
            r == this.object(rt@).counts.shared.shared_count.count,
    {
        rt.shared_count_of(this.address)
    }

    /// The biased count, where the running thread owns it, and the shared count.
    pub fn biased_and_shared_counts(this: &Self, rt: &Runtime<T, A>) -> (r: (
        Result<u64, BiasedCountError>,
        i64,
    ))
        requires
            rt.wf(),
            this.valid_in(rt@),
        ensures
            r.0 == this.object(rt@).counts.biased_count(rt@.this_id()),
            r.1 == this.object(rt@).counts.shared.shared_count.count,
    {
        (Self::biased_count(this, rt), Self::shared_count(this, rt))
    }

    /// The value, to be changed, where no other strong reference reaches it.
    pub fn get_mut_unchecked<'a>(this: &mut Self, rt: &'a mut Runtime<T, A>) -> (r: &'a mut T)
        requires
            old(rt).wf(),
            old(this).valid_in(old(rt)@),
            old(this).object(old(rt)@).refs.strong_total() == 1,
        ensures
            *final(this) == *old(this),
            Some(*r) == old(this).object(old(rt)@).value,
            final(rt)@ == old(rt)@.written(old(this).address(), Some(*final(r))),
            final(rt).wf(),
    {
        proof {
            this.object(rt@).lemma_strong_reaches_value(this.id());
        }
        rt.value_mut(this.address)
    }

    /// The value, to be changed, if this is known to be the only reference.
    pub fn get_mut<'a>(this: &mut Self, rt: &'a mut Runtime<T, A>) -> (r: Option<&'a mut T>)
        requires
            old(rt).wf(),
            old(this).valid_in(old(rt)@),
        ensures
            *final(this) == *old(this),
            r is Some <==> old(this).object(old(rt)@).known_unique(old(rt)@.this_id()),
            old(this).object(old(rt)@).counts.shared.merged || old(this).object(
                old(rt)@,
            ).counts.biased.owner_id == old(rt)@.this_id() ==> (r is Some <==> strong_number(
                old(this).object(old(rt)@).refs,
            ) == 1 && weak_number(old(this).object(old(rt)@).refs) == 0),
            r matches Some(value) ==> {
                &&& Some(*value) == old(this).object(old(rt)@).value
                &&& final(rt)@ == old(rt)@.written(old(this).address(), Some(*final(value)))
            },
            r is None ==> final(rt)@ == old(rt)@,
            final(rt).wf(),
    {
        if Self::is_unique(this, rt) {
            Some(Self::get_mut_unchecked(this, rt))
        } else {
            None
        }
    }

    /// The address of the object.
    pub fn as_ptr(this: &Self) -> (r: usize)
        ensures
            r == this.address(),
    {
        this.address
    }

    /// Whether both refer to the same object.
    pub fn ptr_eq(this: &Self, other: &Self) -> (r: bool)
        ensures
            r == (this.address() == other.address()),
    {
        Self::as_ptr(this) == Self::as_ptr(other)
    }

    /// Takes a weak reference to the object.
    #[must_use]
    pub fn downgrade(this: &Self, rt: &mut Runtime<T, A>) -> (r: Weak<T, A>)
        requires
            old(rt).wf(),
            this.valid_in(old(rt)@),
            this.object(old(rt)@).can_downgrade(),
        ensures
            final(rt).wf(),
            final(rt)@ == old(rt)@.downgraded(this.address()),
            weak_number(this.object(final(rt)@).refs) == weak_number(this.object(old(rt)@).refs)
                + 1,
            !r.reserved(),
            r.address() == this.address(),
            r.id() == old(rt)@.heap.next,
            r.valid_in(final(rt)@),
            old(rt)@.keeps(final(rt)@),
    {
        proof {
            this.object(rt@).lemma_strong_reaches_value(this.id());
            lemma_cloned_keeps(rt@, this.address());
            rt@.lemma_address(this.address());
            lemma_downgrade_effect(rt@, this.address());
        }
        let id = rt.downgrade_strong(this.address);
        Weak::from_parts(this.address, id)
    }

    /// Turns an address that came from [`Brc::into_raw`] back into a reference.
    pub fn from_raw(ptr: usize, rt: &mut Runtime<T, A>) -> (r: Self)
        requires
            old(rt).wf(),
            old(rt)@.raw_strong(ptr) >= 1,
        ensures
            final(rt).wf(),
            final(rt)@ == old(rt)@.strong_from_raw(ptr),
            r.address() == ptr,
            r.id() == old(rt)@.heap.next,
            r.valid_in(final(rt)@),
            old(rt)@.keeps_but(final(rt)@, ptr, Gone::RawStrong),
    {
        proof {
            lemma_raw_keeps(rt@, ptr, 0);
        }
        let id = rt.adopt_strong(ptr);
        Self::from_parts(ptr, id)
    }

    /// Turns an address that came from [`Brc::into_raw_with_allocator`] back into a
    /// reference. The allocator is dropped, as the object has its own.
    pub fn from_raw_in(ptr: usize, alloc: A, rt: &mut Runtime<T, A>) -> (r: Self)
        requires
            old(rt).wf(),
            old(rt)@.raw_strong(ptr) >= 1,
        ensures
            final(rt).wf(),
            final(rt)@ == old(rt)@.strong_from_raw(ptr),
            r.address() == ptr,
            r.id() == old(rt)@.heap.next,
            r.valid_in(final(rt)@),
            old(rt)@.keeps_but(final(rt)@, ptr, Gone::RawStrong),
    {
        let _ = alloc;
        Self::from_raw(ptr, rt)
    }

    /// Turns the reference into the address of the object, without releasing it.
    pub fn into_raw(this: Self, rt: &mut Runtime<T, A>) -> (r: usize)
        requires
            old(rt).wf(),
            this.valid_in(old(rt)@),
        ensures
            final(rt).wf(),
            final(rt)@ == old(rt)@.strong_to_raw(this.address(), this.id()),
            r == this.address(),
            old(rt)@.keeps_but(final(rt)@, this.address(), Gone::Strong(this.id())),
    {
        proof {
            lemma_raw_keeps(rt@, this.address(), this.id());
        }
        rt.leak_strong(this.address, this.id);
        this.address
    }

    /// Turns the reference into the address of the object and a copy of the
    /// allocator, without releasing it.
    pub fn into_raw_with_allocator(this: Self, rt: &mut Runtime<T, A>) -> (r: (usize, A)) where
        A: Clone,

        requires
            old(rt).wf(),
            this.valid_in(old(rt)@),
        ensures
            final(rt).wf(),
            final(rt)@ == old(rt)@.strong_to_raw(this.address(), this.id()),
            r.0 == this.address(),
            cloned(this.object(old(rt)@).alloc, r.1),
            old(rt)@.keeps_but(final(rt)@, this.address(), Gone::Strong(this.id())),
    {
        let allocator = Self::allocator(&this, rt).clone();
        (Self::into_raw(this, rt), allocator)
    }

    /// Counts one more strong reference to the object at an address.
    pub fn increment_strong_count(ptr: usize, rt: &mut Runtime<T, A>)
        requires
            old(rt).wf(),
            old(rt)@.heap.has(ptr as int),
            old(rt)@.heap.at(ptr as int).alive(),
            old(rt)@.heap.at(ptr as int).can_clone(old(rt)@.this_id()),
        ensures
            final(rt).wf(),
            final(rt)@ == old(rt)@.cloned(ptr).strong_to_raw(ptr, old(rt)@.heap.next),
            final(rt)@.raw_strong(ptr) == old(rt)@.raw_strong(ptr) + 1,
            old(rt)@.keeps(final(rt)@),
    {
        proof {
            lemma_increment_keeps(rt@, ptr);
        }
        let id = rt.clone_strong(ptr);
        rt.leak_strong(ptr, id);
    }

    /// Releases one strong reference to the object at an address, which must match
    /// one that was turned into the address or counted for it. Does not collect.
    ///
    /// Hands out the dropped values. References in them are still to be dropped.
    pub fn decrement_strong_count(ptr: usize, rt: &mut Runtime<T, A>) -> (r: Vec<T>)
        requires
            old(rt).wf(),
            old(rt)@.raw_strong(ptr) >= 1,
        ensures
            r@ == old(rt)@.strong_from_raw(ptr).dropped(ptr, old(rt)@.heap.next).heap.discarded,
            final(rt)@ == old(rt)@.strong_from_raw(ptr).dropped(
                ptr,
                old(rt)@.heap.next,
            ).handed_out(),
            old(rt)@.heap.discarded.is_prefix_of(r@),
            final(rt)@.heap.discarded.len() == 0,
            final(rt).wf(),
    {
        let this = Self::from_raw(ptr, rt);
        Self::drop_no_collect(this, rt)
    }

    /// Takes one more reference to the object without collecting.
    pub fn clone_no_collect(this: &Self, rt: &mut Runtime<T, A>) -> (r: Self)
        requires
            old(rt).wf(),
            this.valid_in(old(rt)@),
            this.object(old(rt)@).can_clone(old(rt)@.this_id()),
        ensures
            final(rt).wf(),
            final(rt)@ == old(rt)@.cloned(this.address()),
            strong_number(this.object(final(rt)@).refs) == strong_number(
                this.object(old(rt)@).refs,
            ) + 1,
            r.address() == this.address(),
            r.id() == old(rt)@.heap.next,
            r.valid_in(final(rt)@),
            old(rt)@.keeps(final(rt)@),
    {
        proof {
            this.object(rt@).lemma_strong_reaches_value(this.id());
            lemma_cloned_keeps(rt@, this.address());
            this.object(rt@).lemma_can_clone(rt@.this_id());
            lemma_clone_effect(rt@, this.address());
        }
        let id = rt.clone_strong(this.address);
        Self::from_parts(this.address, id)
    }

    /// Takes one more reference to the object, and counts it in the shared word even
    /// on the thread that the object is biased towards.
    pub fn clone_shared(this: &Self, rt: &mut Runtime<T, A>) -> (r: Self)
        requires
            old(rt).wf(),
            this.valid_in(old(rt)@),
            this.object(old(rt)@).can_clone_shared(),
        ensures
            final(rt).wf(),
            final(rt)@ == old(rt)@.cloned_shared(this.address()),
            strong_number(this.object(final(rt)@).refs) == strong_number(
                this.object(old(rt)@).refs,
            ) + 1,
            this.object(final(rt)@).counts.shared.shared_count.count == this.object(
                old(rt)@,
            ).counts.shared.shared_count.count + 1,
            r.address() == this.address(),
            r.id() == old(rt)@.heap.next,
            r.valid_in(final(rt)@),
            old(rt)@.keeps(final(rt)@),
    {
        proof {
            this.object(rt@).lemma_strong_reaches_value(this.id());
            lemma_cloned_keeps(rt@, this.address());
            lemma_clone_shared_effect(rt@, this.address());
        }
        let id = rt.clone_strong_shared(this.address);
        Self::from_parts(this.address, id)
    }

    /// Collects, then takes one more reference to the object. What collecting drops is
    /// left to [`Runtime::take_discarded`].
    pub fn clone(this: &Self, rt: &mut Runtime<T, A>) -> (r: Self)
        requires
            old(rt).wf(),
            this.valid_in(old(rt)@),
            this.object(old(rt)@.collected()).can_clone(old(rt)@.collected().this_id()),
        ensures
            final(rt).wf(),
            final(rt)@ == old(rt)@.collected().cloned(this.address()),
            strong_number(this.object(final(rt)@).refs) == strong_number(
                this.object(old(rt)@).refs,
            ) + 1,
            old(rt)@.heap.discarded.is_prefix_of(final(rt)@.heap.discarded),
            r.address() == this.address(),
            r.id() == old(rt)@.heap.next,
            r.valid_in(final(rt)@),
            old(rt)@.keeps(final(rt)@),
    {
        let ghost before = rt@;
        proof {
            lemma_collected_keeps(before);
            lemma_collect_drops(before);
            lemma_contains_len(this.object(before).refs.strong, this.id());
            lemma_collect_keeps_object(before, this.address());
            assert(before.holds_strong(this.address(), this.id()));
            assert(before.collected().holds_strong(this.address(), this.id()));
        }
        rt.collect();
        let r = Self::clone_no_collect(this, rt);
        proof {
            lemma_keeps_both(before, before.collected(), rt@, 0, Gone::Nothing);
        }
        r
    }

    /// Drops the reference without collecting.
    ///
    /// Hands out the dropped values. References in them are still to be dropped.
    pub fn drop_no_collect(this: Self, rt: &mut Runtime<T, A>) -> (r: Vec<T>)
        requires
            old(rt).wf(),
            this.valid_in(old(rt)@),
        ensures
            r@ == old(rt)@.dropped(this.address(), this.id()).heap.discarded,
            final(rt)@ == old(rt)@.dropped(this.address(), this.id()).handed_out(),
            old(rt)@.heap.discarded.is_prefix_of(r@),
            final(rt)@.heap.discarded.len() == 0,
            final(rt).wf(),
            old(rt)@.keeps_but(final(rt)@, this.address(), Gone::Strong(this.id())),
    {
        let ghost later = rt@.dropped(this.address(), this.id());
        proof {
            lemma_drop_effect(rt@, this.address(), this.id());
            lemma_dropped_keeps(rt@, this.address(), this.id());
            lemma_handed_out_keeps(rt@, later, this.address(), Gone::Strong(this.id()));
        }
        rt.drop_strong(this.address, this.id);
        rt.take_discarded()
    }

    /// Collects, then drops the reference. The value is dropped with the last one,
    /// at once or when the thread that the object is biased towards collects.
    ///
    /// Hands out the dropped values. References in them are still to be dropped.
    pub fn drop(this: Self, rt: &mut Runtime<T, A>) -> (r: Vec<T>)
        requires
            old(rt).wf(),
            this.valid_in(old(rt)@),
        ensures
            r@ == old(rt)@.collected().dropped(this.address(), this.id()).heap.discarded,
            final(rt)@ == old(rt)@.collected().dropped(this.address(), this.id()).handed_out(),
            old(rt)@.heap.discarded.is_prefix_of(r@),
            old(rt)@.collected().heap.discarded.is_prefix_of(r@),
            final(rt)@.heap.discarded.len() == 0,
            final(rt).wf(),
            old(rt)@.keeps_but(final(rt)@, this.address(), Gone::Strong(this.id())),
    {
        let ghost before = rt@;
        let ghost p = this.address();
        let ghost id = this.id();
        Self::release(this, rt);
        proof {
            lemma_drop_hands_out_all(before, p, id);
            lemma_handed_out_keeps(before, rt@, p, Gone::Strong(id));
        }
        rt.take_discarded()
    }

    /// Collects, then drops the reference, and leaves the dropped values to be handed
    /// out.
    fn release(this: Self, rt: &mut Runtime<T, A>)
        requires
            old(rt).wf(),
            this.valid_in(old(rt)@),
        ensures
            final(rt)@ == old(rt)@.collected().dropped(this.address(), this.id()),
            final(rt).wf(),
            old(rt)@.keeps_but(final(rt)@, this.address(), Gone::Strong(this.id())),
    {
        let ghost before = rt@;
        let ghost p = this.address();
        let ghost id = this.id();
        proof {
            lemma_collected_keeps(before);
            assert(before.holds_strong(p, id));
            assert(before.collected().holds_strong(p, id));
        }
        rt.collect();
        proof {
            lemma_dropped_keeps(rt@, p, id);
        }
        rt.drop_strong(this.address, this.id);
        proof {
            lemma_keeps_both(before, before.collected(), rt@, p, Gone::Strong(id));
        }
    }
}

/// A [`Brc`] whose value can neither be moved nor changed in place.
pub struct PinnedBrc<T, A = Global> {
    pointer: Brc<T, A>,
}

impl<T, A> PinnedBrc<T, A> {
    /// The reference that is pinned.
    pub closed spec fn pointer(self) -> Brc<T, A> {
        self.pointer
    }

    /// The value.
    pub fn deref<'a>(&self, rt: &'a Runtime<T, A>) -> (r: &'a T)
        requires
            rt.wf(),
            self.pointer().valid_in(rt@),
        ensures
            Some(*r) == self.pointer().object(rt@).value,
    {
        Brc::deref(&self.pointer, rt)
    }

    /// Collects, then takes one more reference to the object. What collecting drops is
    /// left to [`Runtime::take_discarded`].
    pub fn clone(&self, rt: &mut Runtime<T, A>) -> (r: Self)
        requires
            old(rt).wf(),
            self.pointer().valid_in(old(rt)@),
            self.pointer().object(old(rt)@.collected()).can_clone(old(rt)@.collected().this_id()),
        ensures
            final(rt).wf(),
            final(rt)@ == old(rt)@.collected().cloned(self.pointer().address()),
            r.pointer().address() == self.pointer().address(),
            r.pointer().id() == old(rt)@.heap.next,
            r.pointer().valid_in(final(rt)@),
            old(rt)@.keeps(final(rt)@),
    {
        PinnedBrc { pointer: Brc::clone(&self.pointer, rt) }
    }

    /// Collects, then drops the reference.
    ///
    /// Hands out the dropped values. References in them are still to be dropped.
    pub fn drop(self, rt: &mut Runtime<T, A>) -> (r: Vec<T>)
        requires
            old(rt).wf(),
            self.pointer().valid_in(old(rt)@),
        ensures
            final(rt).wf(),
            r@ == old(rt)@.collected().dropped(
                self.pointer().address(),
                self.pointer().id(),
            ).heap.discarded,
            final(rt)@ == old(rt)@.collected().dropped(
                self.pointer().address(),
                self.pointer().id(),
            ).handed_out(),
            old(rt)@.heap.discarded.is_prefix_of(r@),
            final(rt)@.heap.discarded.len() == 0,
            old(rt)@.keeps_but(
                final(rt)@,
                self.pointer().address(),
                Gone::Strong(self.pointer().id()),
            ),
    {
        Brc::drop(self.pointer, rt)
    }
}

impl<T> Brc<T, Global> {
    /// Makes an object with the given value, which is pinned.
    pub fn pin(value: T, rt: &mut Runtime<T, Global>) -> (r: PinnedBrc<T, Global>)
        requires
            old(rt).wf(),
            old(rt)@.heap.has_room(),
        ensures
            final(rt).wf(),
            final(rt)@ == old(rt)@.collected().allocated(value, Global),
            r.pointer().address() == old(rt)@.heap.objects.len(),
            r.pointer().id() == old(rt)@.heap.next,
            r.pointer().valid_in(final(rt)@),
            old(rt)@.keeps(final(rt)@),
    {
        Brc::pin_in(value, Global, rt)
    }
}

impl<T, A> Brc<T, A> {
    /// Makes an object with the given value and allocator, which is pinned.
    pub fn pin_in(data: T, alloc: A, rt: &mut Runtime<T, A>) -> (r: PinnedBrc<T, A>)
        requires
            old(rt).wf(),
            old(rt)@.heap.has_room(),
        ensures
            final(rt).wf(),
            final(rt)@ == old(rt)@.collected().allocated(data, alloc),
            r.pointer().address() == old(rt)@.heap.objects.len(),
            r.pointer().id() == old(rt)@.heap.next,
            r.pointer().valid_in(final(rt)@),
            old(rt)@.keeps(final(rt)@),
    {
        PinnedBrc { pointer: Brc::new_in(data, alloc, rt) }
    }
}

impl<T: Clone, A: Clone> Brc<T, A> {
    /// The value, to be changed. Where this is not known to be the only reference,
    /// it is replaced by a reference to an object with a copy of the value. What this
    /// drops is left to [`Runtime::take_discarded`].
    pub fn make_mut<'a>(this: &mut Self, rt: &'a mut Runtime<T, A>) -> (r: &'a mut T)
        requires
            old(rt).wf(),
            old(this).valid_in(old(rt)@),
            old(rt)@.heap.has_room(),
        ensures
            old(this).object(old(rt)@).known_unique(old(rt)@.this_id()) ==> {
                &&& *final(this) == *old(this)
                &&& Some(*r) == old(this).object(old(rt)@).value
                &&& final(rt)@ == old(rt)@.written(old(this).address(), Some(*final(r)))
            },
            !old(this).object(old(rt)@).known_unique(old(rt)@.this_id()) ==> {
                let alloc = final(rt)@.heap.at(final(this).address() as int).alloc;
                &&& cloned(old(this).object(old(rt)@).value->0, *r)
                &&& cloned(old(this).object(old(rt)@).alloc, alloc)
                &&& final(this).address() == old(rt)@.heap.objects.len()
                &&& final(this).id() == old(rt)@.heap.next
                &&& final(rt)@ == old(rt)@.collected().allocated(
                    *r,
                    alloc,
                ).collected().dropped(old(this).address(), old(this).id()).written(
                    final(this).address(),
                    Some(*final(r)),
                )
            },
            final(this).valid_in(final(rt)@),
            final(rt).wf(),
            final(this).object(final(rt)@).value == Some(*final(r)),
            strong_number(final(this).object(final(rt)@).refs) == 1,
            weak_number(final(this).object(final(rt)@).refs) == 0,
            old(this).object(old(rt)@).counts.shared.merged || old(this).object(
                old(rt)@,
            ).counts.biased.owner_id == old(rt)@.this_id() ==> (final(this).address() == old(
                this,
            ).address() <==> strong_number(old(this).object(old(rt)@).refs) == 1 && weak_number(
                old(this).object(old(rt)@).refs,
            ) == 0),
    {
        let ghost before = rt@;
        let ghost p = this.address();
        let ghost id = this.id();
        proof {
            Self::lemma_number_known(*this, before);
        }
        if Self::is_unique(this, rt) {
            Self::get_mut_unchecked(this, rt)
        } else {
            let alloc = Self::allocator(this, rt).clone();
            let value = Self::deref(this, rt).clone();
            let mut other = Self::new_in(value, alloc, rt);
            let ghost middle = rt@;
            core::mem::swap(this, &mut other);
            proof {
                assert(before.holds_strong(p, id));
                assert(middle.holds_strong(p, id));
                lemma_collect_keeps_object(middle, this.address());
                lemma_world_collected(middle);
                lemma_collected_keeps(middle);
                assert(middle.collected().holds_strong(p, id));
                lemma_drop_effect(middle.collected(), p, id);
            }
            Self::release(other, rt);
            proof {
                assert(middle.holds_strong(this.address(), this.id()));
            }
            rt.value_mut(this.address)
        }
    }
}

} // verus!
