//! Short lists of pool references, kept inline while they are small.

use crate::pool::{pool_index, PoolIndex};
use core::marker::PhantomData;
use smallvec::SmallVec;
use vstd::prelude::*;

verus! {

/// A list of entry numbers, held in a `smallvec::SmallVec` with room for eight of them
/// inline. Nothing of the list itself is visible to proofs: its contents are
/// [`entry_numbers`], which the methods below speak of.
#[verifier::external_body]
#[derive(Debug)]
pub struct EntryNumbers {
    inner: SmallVec<[usize; 8]>,
}

/// What the `SmallVec` inside `list` holds, in order.
pub uninterp spec fn entry_numbers(list: EntryNumbers) -> Seq<usize>;

impl EntryNumbers {
    /// Calls `SmallVec::new`, which makes an empty list.
    #[verifier::external_body]
    fn new() -> (r: Self)
        ensures
            entry_numbers(r) == Seq::<usize>::empty(),
    {
        EntryNumbers { inner: SmallVec::new() }
    }

    /// Calls `SmallVec::from_slice`, which copies the elements in order.
    #[verifier::external_body]
    fn from_slice(numbers: &Vec<usize>) -> (r: Self)
        ensures
            entry_numbers(r) == numbers@,
    {
        EntryNumbers { inner: SmallVec::from_slice(numbers) }
    }

    /// Calls `SmallVec::push`, which appends the number. When the list is full it grows
    /// to the next power of two, and panics where that many bytes cannot be allocated at
    /// all: `requires` keeps the length well below that.
    #[verifier::external_body]
    fn push(&mut self, number: usize)
        requires
            can_grow(entry_numbers(*old(self)).len()),
        ensures
            entry_numbers(*final(self)) == entry_numbers(*old(self)).push(number),
    {
        self.inner.push(number)
    }

    /// Calls `get` on the slice that `SmallVec` dereferences to, its elements in order.
    #[verifier::external_body]
    fn get(&self, i: usize) -> (r: Option<usize>)
        ensures
            r == (if i < entry_numbers(*self).len() {
                Some(entry_numbers(*self)[i as int])
            } else {
                None
            }),
    {
        self.inner.get(i).copied()
    }
}

/// One more element can be added to a list of length `len`: the list stays within a
/// fraction of the address space.
pub open spec fn can_grow(len: nat) -> bool {
    32 * (len + 1) <= usize::MAX
}

/// A list of references to pool entries that stand for `A`s.
#[derive(Debug)]
pub struct IndexVec<A> {
    numbers: EntryNumbers,
    kind: PhantomData<A>,
}

impl<A> View for IndexVec<A> {
    type V = Seq<PoolIndex<A>>;

    closed spec fn view(&self) -> Seq<PoolIndex<A>> {
        entry_numbers(self.numbers).map_values(|i: usize| pool_index::<A>(i))
    }
}

impl<A> IndexVec<A> {
    /// The empty list.
    pub fn new() -> (r: Self)
        ensures
            r@ == Seq::<PoolIndex<A>>::empty(),
    {
        let r = IndexVec { numbers: EntryNumbers::new(), kind: PhantomData };
        assert(r@ =~= Seq::<PoolIndex<A>>::empty());
        r
    }

    /// The elements of `indices`, in order.
    pub fn from_vec(indices: &Vec<PoolIndex<A>>) -> (r: Self)
        ensures
            r@ == indices@,
    {
        let mut numbers: Vec<usize> = Vec::with_capacity(indices.len());
        let mut i: usize = 0;
        while i < indices.len()
            invariant
                i <= indices@.len(),
                numbers@.len() == i,
                forall|j: int| 0 <= j < i ==> numbers@[j] == (#[trigger] indices@[j]).index,
            decreases indices@.len() - i,
        {
            numbers.push(indices[i].index);
            i = i + 1;
        }
        let r = IndexVec { numbers: EntryNumbers::from_slice(&numbers), kind: PhantomData };
        assert(r@ =~= indices@);
        r
    }

    /// Appends an element.
    pub fn push(&mut self, index: PoolIndex<A>)
        requires
            can_grow(old(self)@.len()),
        ensures
            final(self)@ == old(self)@.push(index),
    {
        self.numbers.push(index.index);
        assert(self@ =~= old(self)@.push(index));
    }

    /// Element `i`, where there is one.
    pub fn get(&self, i: usize) -> (r: Option<PoolIndex<A>>)
        ensures
            r == (if i < self@.len() {
                Some(self@[i as int])
            } else {
                None
            }),
    {
        match self.numbers.get(i) {
            Some(number) => Some(PoolIndex::new(number)),
            None => None,
        }
    }

    /// The elements, in order.
    pub fn to_vec(&self) -> (r: Vec<PoolIndex<A>>)
        ensures
            r@ == self@,
    {
        let mut r: Vec<PoolIndex<A>> = Vec::new();
        let mut i: usize = 0;
        loop
            invariant
                i <= self@.len(),
                r@ == self@.take(i as int),
            ensures
                i == self@.len(),
                r@ == self@.take(i as int),
            decreases self@.len() - i,
        {
            match self.get(i) {
                Some(index) => {
                    r.push(index);
                    assert(r@ =~= self@.take(i + 1));
                    i = r.len();
                },
                None => {
                    break;
                },
            }
        }
        assert(r@ =~= self@);
        r
    }
}

impl<A> Default for IndexVec<A> {
    /// The empty list.
    fn default() -> (r: Self)
        ensures
            r@ == Seq::<PoolIndex<A>>::empty(),
    {
        Self::new()
    }
}

} // verus!
