//! Conversions to strong references, which copy or move what they are made of into
//! a new object.
use crate::allocator::Global;
use crate::runtime::Runtime;
use crate::strong::Brc;
use crate::world::{lemma_collected_keeps, lemma_collected_twice};
use vstd::pervasive::unreached;
use vstd::prelude::*;
use vstd::std_specs::iter::IteratorSpec;

verus! {

/// How an iterator broke its promise of how many items it yields.
#[derive(Copy, Clone, Debug, PartialEq, Eq, Structural)]
pub enum ExactLenError {
    /// It yielded more items.
    More,
    /// It yielded fewer items.
    Fewer,
}

impl ExactLenError {
    /// What there is to say about the error.
    pub open spec fn text(self) -> Seq<char> {
        match self {
            ExactLenError::More => "Iterator yielded more items than claimed length"@,
            ExactLenError::Fewer => "Iterator yielded fewer items than claimed length"@,
        }
    }

    /// What there is to say about the error.
    pub fn message(self) -> (r: &'static str)
        ensures
            r@ == self.text(),
    {
        match self {
            ExactLenError::More => "Iterator yielded more items than claimed length",
            ExactLenError::Fewer => "Iterator yielded fewer items than claimed length",
        }
    }
}

/// An iterator that is held to the number of items that it claimed to yield.
pub struct AssertExactIter<I> {
    inner: I,
    len: usize,
}

impl<I: Iterator> AssertExactIter<I> {
    /// The iterator.
    pub closed spec fn inner(self) -> I {
        self.inner
    }

    /// The number of items that are still to come.
    pub closed spec fn len(self) -> usize {
        self.len
    }

    /// Holds an iterator to a number of items.
    pub fn new(inner: I, len: usize) -> (r: Self)
        ensures
            r.inner() == inner,
            r.len() == len,
    {
        AssertExactIter { inner, len }
    }

    /// The next item, or `None` at the end, where that agrees with the number of
    /// items that are still to come.
    pub fn next(&mut self) -> (r: Result<Option<I::Item>, ExactLenError>)
        requires
            old(self).inner().obeys_prophetic_iter_laws(),
        ensures
            final(self).inner().obeys_prophetic_iter_laws(),
            ({
                let rest = old(self).inner().remaining();
                if rest.len() == 0 {
                    &&& final(self).len() == old(self).len()
                    &&& final(self).inner().remaining() == rest
                    &&& r == if old(self).len() == 0 {
                        Ok(None::<I::Item>)
                    } else {
                        Err(ExactLenError::Fewer)
                    }
                } else {
                    &&& final(self).inner().remaining() == rest.drop_first()
                    &&& if old(self).len() == 0 {
                        final(self).len() == 0 && r == Err::<Option<I::Item>, _>(
                            ExactLenError::More,
                        )
                    } else {
                        final(self).len() == old(self).len() - 1 && r == Ok::<_, ExactLenError>(
                            Some(rest[0]),
                        )
                    }
                }
            }),
    {
        match (self.inner.next(), self.len) {
            (None, 0) => Ok(None),
            (Some(_), 0) => Err(ExactLenError::More),
            (Some(item), _) => {
                self.len = self.len - 1;
                Ok(Some(item))
            },
            (None, _) => Err(ExactLenError::Fewer),
        }
    }
}

impl<T, A> Brc<Vec<T>, A> {
    /// Makes an object of the items of an iterator, which is held to the number of
    /// items that it claimed to yield.
    pub fn from_iter_exact_trusted_in<I: Iterator<Item = T>>(
        iter: AssertExactIter<I>,
        alloc: A,
        rt: &mut Runtime<Vec<T>, A>,
    ) -> (r: Result<Self, ExactLenError>)
        requires
            old(rt).wf(),
            old(rt)@.heap.has_room(),
            iter.inner().obeys_prophetic_iter_laws(),
        ensures
            final(rt).wf(),
            old(rt)@.keeps(final(rt)@),
            r is Ok <==> iter.inner().remaining().len() == iter.len(),
            r matches Err(e) ==> {
                &&& e == if iter.inner().remaining().len() > iter.len() {
                    ExactLenError::More
                } else {
                    ExactLenError::Fewer
                }
                &&& final(rt)@ == old(rt)@.collected()
            },
            r matches Ok(strong) ==> {
                &&& strong.address() == old(rt)@.heap.objects.len()
                &&& strong.id() == old(rt)@.heap.next
                &&& strong.valid_in(final(rt)@)
                &&& strong.object(final(rt)@).value matches Some(value) && value@
                    == iter.inner().remaining() && final(rt)@ == old(rt)@.collected().allocated(
                    value,
                    alloc,
                )
            },
    {
        let ghost before = rt@;
        let ghost all = iter.inner().remaining();
        let ghost claimed = iter.len();
        proof {
            lemma_collected_keeps(before);
            lemma_collected_twice(before);
        }
        rt.collect();
        let mut source = iter;
        let len = source.len;
        let mut items: Vec<T> = Vec::new();
        let mut index: usize = 0;
        while index < len
            invariant
                index <= len,
                len == claimed,
                before == old(rt)@,
                all == iter.inner().remaining(),
                claimed == iter.len(),
                source.inner().obeys_prophetic_iter_laws(),
                source.len() == len - index,
                items@.len() == index,
                index <= all.len(),
                items@ == all.take(index as int),
                source.inner().remaining() == all.skip(index as int),
                rt@ == before.collected(),
                rt.wf(),
                before.keeps(rt@),
            decreases len - index,
        {
            match source.next() {
                Ok(Some(item)) => {
                    items.push(item);
                    assert(items@ =~= all.take(index + 1));
                    assert(all.skip(index as int).drop_first() =~= all.skip(index + 1));
                },
                Ok(None) => unreached(),
                Err(e) => return Err(e),
            }
            index += 1;
        }
        match source.next() {
            Ok(_) => {},
            Err(e) => return Err(e),
        }
        proof {
            assert(items@ =~= all);
        }
        Ok(Brc::new_in(items, alloc, rt))
    }
}

impl<T> Brc<Vec<T>, Global> {
    /// Makes an object of copies of the items of a slice.
    pub fn clone_from_slice(slice: &[T], rt: &mut Runtime<Vec<T>, Global>) -> (r: Self) where
        T: Clone,

        requires
            old(rt).wf(),
            old(rt)@.heap.has_room(),
        ensures
            final(rt).wf(),
            r.address() == old(rt)@.heap.objects.len(),
            r.id() == old(rt)@.heap.next,
            r.valid_in(final(rt)@),
            r.object(final(rt)@).value matches Some(value) && {
                &&& value@.len() == slice@.len()
                &&& forall|i: int|
                    0 <= i < slice@.len() ==> cloned(#[trigger] slice@[i], value@[i])
                &&& final(rt)@ == old(rt)@.collected().allocated(value, Global)
            },
            old(rt)@.keeps(final(rt)@),
    {
        let mut items: Vec<T> = Vec::with_capacity(slice.len());
        let mut index: usize = 0;
        while index < slice.len()
            invariant
                index <= slice@.len(),
                items@.len() == index,
                forall|i: int| 0 <= i < index ==> cloned(#[trigger] slice@[i], items@[i]),
            decreases slice@.len() - index,
        {
            items.push(slice[index].clone());
            index += 1;
        }
        Brc::new(items, rt)
    }

    /// Makes an object of the items of a slice, which are copied as they are.
    pub fn copy_from_slice(slice: &[T], rt: &mut Runtime<Vec<T>, Global>) -> (r: Self) where
        T: Copy,

        requires
            old(rt).wf(),
            old(rt)@.heap.has_room(),
        ensures
            final(rt).wf(),
            r.address() == old(rt)@.heap.objects.len(),
            r.id() == old(rt)@.heap.next,
            r.valid_in(final(rt)@),
            r.object(final(rt)@).value matches Some(value) && value@ == slice@ && final(rt)@
                == old(rt)@.collected().allocated(value, Global),
            old(rt)@.keeps(final(rt)@),
    {
        Brc::new(vstd::slice::slice_to_vec(slice), rt)
    }

    /// Makes an object of the items of a vector, which are moved.
    pub fn from_vec(src: Vec<T>, rt: &mut Runtime<Vec<T>, Global>) -> (r: Self)
        requires
            old(rt).wf(),
            old(rt)@.heap.has_room(),
        ensures
            final(rt).wf(),
            final(rt)@ == old(rt)@.collected().allocated(src, Global),
            r.address() == old(rt)@.heap.objects.len(),
            r.id() == old(rt)@.heap.next,
            r.valid_in(final(rt)@),
            r.object(final(rt)@).value == Some(src),
            old(rt)@.keeps(final(rt)@),
    {
        Brc::new(src, rt)
    }

    /// Makes an object of the items of an array, which are moved.
    pub fn from_array<const N: usize>(src: [T; N], rt: &mut Runtime<Vec<T>, Global>) -> (r: Self)
        requires
            old(rt).wf(),
            old(rt)@.heap.has_room(),
        ensures
            final(rt).wf(),
            r.address() == old(rt)@.heap.objects.len(),
            r.id() == old(rt)@.heap.next,
            r.valid_in(final(rt)@),
            r.object(final(rt)@).value matches Some(value) && value@ == src@ && final(rt)@
                == old(rt)@.collected().allocated(value, Global),
            old(rt)@.keeps(final(rt)@),
    {
        Brc::new(array_into_vec(src), rt)
    }

    /// Makes an object of the items of an iterator whose size hint is `size_hint`.
    ///
    /// Where the hint is exact, the iterator has to yield that many items.
    pub fn from_iter<I: Iterator<Item = T>>(
        iter: I,
        size_hint: (usize, Option<usize>),
        rt: &mut Runtime<Vec<T>, Global>,
    ) -> (r: Self)
        requires
            old(rt).wf(),
            old(rt)@.heap.has_room(),
            iter.obeys_prophetic_iter_laws(),
            iter.decrease() is Some,
            size_hint.1 == Some(size_hint.0) ==> iter.remaining().len() == size_hint.0,
        ensures
            final(rt).wf(),
            r.address() == old(rt)@.heap.objects.len(),
            r.id() == old(rt)@.heap.next,
            r.valid_in(final(rt)@),
            r.object(final(rt)@).value matches Some(value) && value@ == iter.remaining()
                && final(rt)@ == old(rt)@.collected().allocated(value, Global),
            old(rt)@.keeps(final(rt)@),
    {
        let (lower, upper) = size_hint;
        if upper.is_some() && upper.unwrap() == lower {
            let exact = AssertExactIter::new(iter, lower);
            match Self::from_iter_exact_trusted_in(exact, Global, rt) {
                Ok(r) => r,
                Err(_) => unreached(),
            }
        } else {
            Self::from_vec(buffer(iter), rt)
        }
    }
}

/// Collects the items of an iterator in a vector.
fn buffer<I: Iterator>(iter: I) -> (r: Vec<I::Item>)
    requires
        iter.obeys_prophetic_iter_laws(),
        iter.decrease() is Some,
    ensures
        r@ == iter.remaining(),
{
    let ghost all = iter.remaining();
    let mut iter = iter;
    let mut items: Vec<I::Item> = Vec::new();
    loop
        invariant
            iter.obeys_prophetic_iter_laws(),
            iter.decrease() is Some,
            items@ + iter.remaining() == all,
        ensures
            iter.remaining().len() == 0,
        decreases iter.decrease()->0,
    {
        let ghost rest = iter.remaining();
        match iter.next() {
            Some(item) => {
                items.push(item);
                assert(items@ + rest.drop_first() =~= all);
            },
            None => break,
        }
    }
    assert(items@ =~= all);
    items
}

/// Calls `<Vec<T> as From<[T; N]>>::from`, which moves the items of an array into a
/// vector.
#[verifier::external_body]
fn array_into_vec<T, const N: usize>(src: [T; N]) -> (r: Vec<T>)
    ensures
        r@ == src@,
{
    Vec::from(src)
}

impl<T> Brc<T, Global> {
    /// Makes an object of a value.
    pub fn from_value(value: T, rt: &mut Runtime<T, Global>) -> (r: Self)
        requires
            old(rt).wf(),
            old(rt)@.heap.has_room(),
        ensures
            final(rt).wf(),
            final(rt)@ == old(rt)@.collected().allocated(value, Global),
            r.address() == old(rt)@.heap.objects.len(),
            r.id() == old(rt)@.heap.next,
            r.valid_in(final(rt)@),
            r.object(final(rt)@).value == Some(value),
            old(rt)@.keeps(final(rt)@),
    {
        Brc::new(value, rt)
    }

    /// Makes an object of the value in a box, which is moved.
    pub fn from_box(value: Box<T>, rt: &mut Runtime<T, Global>) -> (r: Self)
        requires
            old(rt).wf(),
            old(rt)@.heap.has_room(),
        ensures
            final(rt).wf(),
            final(rt)@ == old(rt)@.collected().allocated(*value, Global),
            r.address() == old(rt)@.heap.objects.len(),
            r.id() == old(rt)@.heap.next,
            r.valid_in(final(rt)@),
            r.object(final(rt)@).value == Some(*value),
            old(rt)@.keeps(final(rt)@),
    {
        Brc::new(*value, rt)
    }
}

impl Brc<String, Global> {
    /// Makes an object of a copy of a string.
    pub fn from_str(value: &str, rt: &mut Runtime<String, Global>) -> (r: Self)
        requires
            old(rt).wf(),
            old(rt)@.heap.has_room(),
        ensures
            final(rt).wf(),
            r.address() == old(rt)@.heap.objects.len(),
            r.id() == old(rt)@.heap.next,
            r.valid_in(final(rt)@),
            r.object(final(rt)@).value matches Some(string) && string@ == value@ && final(rt)@
                == old(rt)@.collected().allocated(string, Global),
            old(rt)@.keeps(final(rt)@),
    {
        Brc::new(value.to_owned(), rt)
    }
}

} // verus!
