//! A vector of fixed capacity whose elements keep no order: removing one
//! moves the last into its place.

use vstd::prelude::*;
use vstd::std_specs::cmp::PartialEqSpec;

verus! {

#[derive(Copy, Clone)]
pub struct StaticSlotVec<T, const N: usize> {
    data: [T; N],
    n: usize,
}

impl<T: Copy, const N: usize> StaticSlotVec<T, N> {
    /// All `N` cells, used or not.
    pub closed spec fn cells(&self) -> Seq<T> {
        self.data@
    }

    /// How many cells are in use.
    pub closed spec fn count(&self) -> usize {
        self.n
    }

    /// The elements in use.
    pub open spec fn view(&self) -> Seq<T> {
        self.cells().take(self.count() + 0)
    }

    pub fn new(default_value: T) -> (r: Self)
        ensures
            r.count() == 0,
            r.cells().len() == N,
            forall|i: int| 0 <= i < N ==> r.cells()[i] == default_value,
    {
        Self { data: [default_value; N], n: 0 }
    }

    pub fn insert(&mut self, value: T)
        requires
            old(self).count() < N,
        ensures
            final(self).count() == old(self).count() + 1,
            final(self).cells() == old(self).cells().update(old(self).count() + 0, value),
    {
        self.data[self.n] = value;
        self.n += 1;
    }

    /// Removes `value`: the first cell that holds it, used or not, takes the
    /// element of the last cell in use, which falls out of use. Nothing
    /// changes if no cell holds `value`.
    pub fn remove(&mut self, value: T)
        where T: PartialEq
        requires
            T::obeys_eq_spec(),
            old(self).cells().len() == N,
            0 <= old(self).count() <= N,
            old(self).count() == 0 ==> forall|i: int|
                0 <= i < N ==> !(#[trigger] old(self).cells()[i]).eq_spec(&value),
        ensures
            (forall|i: int| 0 <= i < N ==> !(#[trigger] old(self).cells()[i]).eq_spec(&value))
                ==> *final(self) == *old(self),
            forall|i: int|
                0 <= i < N && Self::first_match(old(self).cells(), value, i) ==> {
                    &&& final(self).count() == old(self).count() - 1
                    &&& final(self).cells() == old(self).cells().update(
                        i,
                        old(self).cells()[old(self).count() - 1],
                    )
                },
    {
        let mut index: usize = 0;
        while index < N
            invariant
                0 <= index <= N,
                self.data@.len() == N,
                *self == *old(self),
                T::obeys_eq_spec(),
                self.n <= N,
                self.n == 0 ==> forall|i: int|
                    0 <= i < N ==> !(#[trigger] self.data@[i]).eq_spec(&value),
                forall|i: int| 0 <= i < index ==> !(#[trigger] self.data@[i]).eq_spec(&value),
            decreases N - index,
        {
            if self.data[index] == value {
                assert(old(self).cells()[index as int].eq_spec(&value));
                self.data[index] = self.data[self.n - 1];
                self.n -= 1;
                return ;
            }
            index += 1;
        }
    }

    /// Whether cell `i` is the first that holds `value`.
    pub open spec fn first_match(cells: Seq<T>, value: T, i: int) -> bool
        where T: PartialEq
    {
        &&& cells[i].eq_spec(&value)
        &&& forall|j: int| 0 <= j < i ==> !(#[trigger] cells[j]).eq_spec(&value)
    }

    pub fn len(&self) -> (r: usize)
        ensures
            r == self.count(),
    {
        self.n
    }

    pub fn clear(&mut self)
        ensures
            final(self).count() == 0,
            final(self).cells() == old(self).cells(),
    {
        self.n = 0;
    }
}

} // verus!
