//! Weak references.
use crate::allocator::{Allocator, Global};
use crate::effects::{
    lemma_alive_while_value, lemma_clone_effect, lemma_merged_number_known,
    lemma_others_know_bound, lemma_owner_knows_number, lemma_unshared_has_no_strong,
    strong_number, weak_number,
};
use crate::error::ImpreciseRefCountError;
use crate::layout::weak_references_beside;
use crate::object::{Gone, Obj};
use crate::runtime::Runtime;
use crate::strong::Brc;
use crate::world::{lemma_cloned_keeps, lemma_raw_keeps, lemma_weak_dropped_keeps, World};
use core::marker::PhantomData;
use vstd::pervasive::unreached;
use vstd::prelude::*;

verus! {

/// The address of a weak reference that refers to nothing.
pub const RESERVED_ADDRESS: usize = usize::MAX;

/// A weak reference to an object.
pub struct Weak<T, A = Global> {
    /// Where the object is or was, or [`RESERVED_ADDRESS`].
    address: usize,
    id: Ghost<nat>,
    marker: PhantomData<(T, A)>,
}

impl<T, A> Weak<T, A> {
    /// Whether this is the weak reference that refers to nothing.
    pub open spec fn reserved(self) -> bool {
        self.address() == RESERVED_ADDRESS
    }

    /// The address of the object.
    pub closed spec fn address(self) -> usize {
        self.address
    }

    /// The number of the reference.
    pub closed spec fn id(self) -> nat {
        self.id@
    }

    /// Whether this is a weak reference to an object of the given world, or to
    /// nothing.
    pub open spec fn owned_in(self, w: World<T, A>) -> bool {
        self.reserved() || w.holds_weak(self.address(), self.id())
    }

    /// Whether this can be used as a weak reference to an object of the given
    /// world, or to nothing. It is one, or it is lent out by the unique owner of an
    /// object, which holds a weak reference.
    pub open spec fn valid_in(self, w: World<T, A>) -> bool {
        self.owned_in(w) || w.holds_unique(self.address(), self.id())
    }

    /// The object that this refers to.
    pub open spec fn object(self, w: World<T, A>) -> Obj<T, A> {
        w.heap.at(self.address() as int)
    }

    /// Whether this refers to an object with a value that strong references can be
    /// made to.
    pub open spec fn upgradable(self, w: World<T, A>) -> bool {
        !self.reserved() && self.object(w).alive()
    }

    /// A weak reference keeps the counts of the object from being freed, and no
    /// value is moved out while there is one.
    proof fn lemma_reaches(self, w: World<T, A>)
        requires
            w.wf(),
            self.valid_in(w),
            !self.reserved(),
        ensures
            w.heap.has(self.address() as int),
            !self.object(w).refs.moved,
            self.object(w).weak_count >= 1,
    {
        if w.holds_weak(self.address(), self.id()) {
            self.object(w).lemma_weak_reaches_counts(self.id());
        }
    }

    /// The number of strong references is known once the counts are merged, and to the
    /// thread that the object is biased towards.
    proof fn lemma_number_known(self, w: World<T, A>)
        requires
            w.wf(),
            w.heap.has(self.address() as int),
        ensures
            ({
                let object = self.object(w);
                let count = object.counts.shared.shared_count.count;
                if object.counts.shared.merged || object.counts.biased.owner_id == w.this_id() {
                    &&& strong_number(object.refs) <= u64::MAX
                    &&& object.counts.strong_count(w.this_id()) == Ok::<
                        u64,
                        ImpreciseRefCountError,
                    >(strong_number(object.refs) as u64)
                } else {
                    &&& object.counts.strong_count(w.this_id()) matches Err(e)
                    &&& e.lower_bound >= 1 <==> count >= 1
                }
            }),
    {
        let p = self.address();
        let object = self.object(w);
        if object.refs.unique is Some {
            lemma_unshared_has_no_strong(w, p, w.this_id());
        } else if object.counts.shared.merged {
            lemma_merged_number_known(w, p, w.this_id());
        } else if object.counts.biased.owner_id == w.this_id() {
            lemma_owner_knows_number(w, p, w.this_id());
        } else {
            lemma_others_know_bound(w, p, w.this_id());
        }
    }

    /// Makes a reference of the address of an object and the number that the
    /// reference has.
    pub(crate) fn from_parts(address: usize, id: Ghost<nat>) -> (r: Self)
        ensures
            r.address() == address,
            r.id() == id@,
    {
        Weak { address, id, marker: PhantomData }
    }

    /// The address of the object, or `None` where this refers to nothing.
    fn real_address(&self) -> (r: Option<usize>)
        ensures
            r == if self.reserved() {
                None
            } else {
                Some(self.address())
            },
    {
        if self.address != RESERVED_ADDRESS {
            Some(self.address)
        } else {
            None
        }
    }
}

impl<T> Weak<T, Global> {
    /// A weak reference that refers to nothing and can never be upgraded.
    pub fn new() -> (r: Self)
        ensures
            r.reserved(),
    {
        Weak { address: RESERVED_ADDRESS, id: Ghost(0), marker: PhantomData }
    }
}

impl<T> Default for Weak<T, Global> {
    fn default() -> (r: Self)
        ensures
            r.reserved(),
    {
        Weak::new()
    }
}

impl<T, A> Weak<T, A> {
    /// The allocator of the object, or the default one where this refers to nothing.
    pub fn allocator<'a>(&self, rt: &'a Runtime<T, A>) -> (r: &'a A) where A: Allocator
        requires
            self.valid_in(rt@),
            self.reserved() ==> A::of_nothing() is Some,
        ensures
            self.reserved() ==> Some(*r) == A::of_nothing(),
            !self.reserved() ==> *r == self.object(rt@).alloc,
    {
        match self.real_address() {
            Some(address) => rt.alloc_of(address),
            None => match A::reserved() {
                Some(alloc) => alloc,
                None => unreached(),
            },
        }
    }

    /// The number of strong references to the object, where the running thread can
    /// determine it. It is 0 where this refers to nothing.
    pub fn strong_count(&self, rt: &Runtime<T, A>) -> (r: Result<u64, ImpreciseRefCountError>)
        requires
            rt.wf(),
            self.valid_in(rt@),
        ensures
            r == if self.reserved() {
                Ok(0)
            } else {
                self.object(rt@).counts.strong_count(rt@.this_id())
            },
            !self.reserved() ==> match r {
                Ok(count) => count == self.object(rt@).refs.strong_total(),
                Err(e) => e.lower_bound <= self.object(rt@).refs.strong_total(),
            },
            !self.reserved() ==> (r is Ok <==> self.object(rt@).counts.shared.merged
                || self.object(rt@).counts.biased.owner_id == rt@.this_id()),
            !self.reserved() && r is Ok ==> r->Ok_0 == strong_number(self.object(rt@).refs),
    {
        proof {
            if !self.reserved() {
                self.lemma_reaches(rt@);
                self.lemma_number_known(rt@);
            }
        }
        match self.real_address() {
            Some(address) => rt.strong_count_of(address),
            None => Ok(0),
        }
    }

    /// The number of weak references to the object, where it can be determined. It
    /// is 0 where there are no strong references, and where this refers to nothing.
    pub fn weak_count(&self, rt: &Runtime<T, A>) -> (r: Result<u64, ImpreciseRefCountError>)
        requires
            rt.wf(),
            self.valid_in(rt@),
        ensures
            r == if self.reserved() {
                Ok(0)
            } else {
                match self.object(rt@).counts.strong_count(rt@.this_id()) {
                    Ok(0) => Ok(0),
                    Err(ImpreciseRefCountError { lower_bound: 0 }) => Err(
                        ImpreciseRefCountError { lower_bound: 0 },
                    ),
                    _ => Ok(self.object(rt@).refs.weak_total() as u64),
                }
            },
            !self.reserved() ==> self.object(rt@).refs.weak_total() <= u64::MAX,
            !self.reserved() && (self.object(rt@).counts.shared.merged || self.object(
                rt@,
            ).counts.biased.owner_id == rt@.this_id()) ==> r == Ok::<u64, ImpreciseRefCountError>(
                if strong_number(self.object(rt@).refs) == 0 {
                    0
                } else {
                    weak_number(self.object(rt@).refs) as u64
                },
            ),
            !self.reserved() && !self.object(rt@).counts.shared.merged && self.object(
                rt@,
            ).counts.biased.owner_id != rt@.this_id() ==> r == if self.object(
                rt@,
            ).counts.shared.shared_count.count >= 1 {
                Ok(weak_number(self.object(rt@).refs) as u64)
            } else {
                Err(ImpreciseRefCountError { lower_bound: 0 })
            },
    {
        proof {
            if !self.reserved() {
                self.lemma_reaches(rt@);
                self.lemma_number_known(rt@);
            }
        }
        match self.real_address() {
            Some(address) => {
                weak_references_beside(rt.strong_count_of(address), rt.weak_count_of(address))
            },
            None => Ok(0),
        }
    }

    /// Takes a strong reference to the object, if there still is one.
    pub fn upgrade(&self, rt: &mut Runtime<T, A>) -> (r: Option<Brc<T, A>>)
        requires
            old(rt).wf(),
            self.valid_in(old(rt)@),
            self.upgradable(old(rt)@) ==> self.object(old(rt)@).counts.can_increment(
                old(rt)@.this_id(),
            ),
        ensures
            final(rt).wf(),
            r is Some <==> self.upgradable(old(rt)@),
            r is Some <==> !self.reserved() && self.object(old(rt)@).refs.unique is None
                && self.object(old(rt)@).value is Some,
            r is Some ==> strong_number(self.object(final(rt)@).refs) == strong_number(
                self.object(old(rt)@).refs,
            ) + 1,
            r is None ==> final(rt)@ == old(rt)@,
            r matches Some(strong) ==> {
                &&& final(rt)@ == old(rt)@.cloned(self.address())
                &&& strong.address() == self.address()
                &&& strong.id() == old(rt)@.heap.next
                &&& strong.valid_in(final(rt)@)
                &&& strong.object(final(rt)@).value == self.object(old(rt)@).value
            },
            old(rt)@.keeps(final(rt)@),
    {
        proof {
            if !self.reserved() {
                lemma_cloned_keeps(rt@, self.address());
                self.lemma_reaches(rt@);
                lemma_alive_while_value(rt@, self.address());
                if self.upgradable(rt@) {
                    lemma_clone_effect(rt@, self.address());
                }
            }
        }
        match self.real_address() {
            Some(address) => match rt.upgrade_weak(address) {
                Some(id) => Some(Brc::from_parts(address, id)),
                None => None,
            },
            None => None,
        }
    }

    /// Turns an address that came from [`Weak::into_raw`] back into a reference.
    pub fn from_raw(ptr: usize, rt: &mut Runtime<T, A>) -> (r: Self)
        requires
            old(rt).wf(),
            ptr == RESERVED_ADDRESS || old(rt)@.raw_weak(ptr) >= 1,
        ensures
            final(rt).wf(),
            r.address() == ptr,
            r.owned_in(final(rt)@),
            ptr == RESERVED_ADDRESS ==> final(rt)@ == old(rt)@,
            ptr != RESERVED_ADDRESS ==> {
                &&& final(rt)@ == old(rt)@.weak_from_raw(ptr)
                &&& r.id() == old(rt)@.heap.next
            },
            old(rt)@.keeps_but(final(rt)@, ptr, Gone::RawWeak),
    {
        if ptr == RESERVED_ADDRESS {
            Weak { address: RESERVED_ADDRESS, id: Ghost(0), marker: PhantomData }
        } else {
            proof {
                lemma_raw_keeps(rt@, ptr, 0);
            }
            let id = rt.adopt_weak(ptr);
            Self::from_parts(ptr, id)
        }
    }

    /// Turns the reference into an address, without releasing it.
    pub fn into_raw(self, rt: &mut Runtime<T, A>) -> (r: usize)
        requires
            old(rt).wf(),
            self.owned_in(old(rt)@),
        ensures
            final(rt).wf(),
            r == self.address(),
            self.reserved() ==> final(rt)@ == old(rt)@,
            !self.reserved() ==> final(rt)@ == old(rt)@.weak_to_raw(self.address(), self.id()),
            old(rt)@.keeps_but(final(rt)@, self.address(), Gone::Weak(self.id())),
    {
        if self.address != RESERVED_ADDRESS {
            proof {
                lemma_raw_keeps(rt@, self.address(), self.id());
            }
            rt.leak_weak(self.address, self.id);
        }
        self.address
    }

    /// The address of the object, whose value is there only while there are strong
    /// references.
    pub fn as_ptr(&self) -> (r: usize)
        ensures
            r == self.address(),
    {
        self.address
    }

    /// Whether both refer to the same object, or both to nothing.
    pub fn ptr_eq(&self, other: &Self) -> (r: bool)
        ensures
            r == (self.address() == other.address()),
    {
        self.as_ptr() == other.as_ptr()
    }

    /// Takes one more weak reference to the object.
    pub fn clone(&self, rt: &mut Runtime<T, A>) -> (r: Self)
        requires
            old(rt).wf(),
            self.valid_in(old(rt)@),
            !self.reserved() ==> self.object(old(rt)@).can_downgrade(),
        ensures
            final(rt).wf(),
            r.address() == self.address(),
            r.owned_in(final(rt)@),
            self.reserved() ==> final(rt)@ == old(rt)@,
            !self.reserved() ==> {
                &&& final(rt)@ == old(rt)@.downgraded(self.address())
                &&& r.id() == old(rt)@.heap.next
            },
            old(rt)@.keeps(final(rt)@),
    {
        match self.real_address() {
            Some(address) => {
                proof {
                    lemma_cloned_keeps(rt@, address);
                    self.lemma_reaches(rt@);
                }
                let id = rt.clone_weak(address);
                Self::from_parts(address, id)
            },
            None => Weak { address: self.address, id: Ghost(0), marker: PhantomData },
        }
    }

    /// Drops the reference, which frees the memory of the object where it was the
    /// last of all.
    pub fn drop(self, rt: &mut Runtime<T, A>)
        requires
            old(rt).wf(),
            self.owned_in(old(rt)@),
        ensures
            final(rt).wf(),
            self.reserved() ==> final(rt)@ == old(rt)@,
            !self.reserved() ==> final(rt)@ == old(rt)@.weak_dropped(self.address(), self.id()),
            old(rt)@.keeps_but(final(rt)@, self.address(), Gone::Weak(self.id())),
    {
        match self.real_address() {
            Some(address) => {
                proof {
                    lemma_weak_dropped_keeps(rt@, address, self.id());
                }
                rt.drop_weak(address, self.id);
            },
            None => {},
        }
    }
}

} // verus!
