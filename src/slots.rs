//! A vector of optional cells together with the ordered set of the
//! indices whose cell is empty.
//!
//! Deleting never shrinks the vector: the cell is emptied and its index is
//! handed back to the empty-set, from which `create` reuses the smallest
//! index first.
use std::collections::BTreeSet;
use vstd::prelude::*;

verus! {

broadcast use {vstd::std_specs::btree::group_btree_axioms, vstd::laws_cmp::group_laws_cmp};

/// Relies on `BTreeSet::pop_first`: it removes and returns the smallest
/// element of the set, or returns `None` and leaves an empty set as it is.
#[verifier::external_body]
fn pop_smallest(set: &mut BTreeSet<usize>) -> (r: Option<usize>)
    ensures
        match r {
            Some(i) => {
                &&& old(set)@.contains(i)
                &&& final(set)@ == old(set)@.remove(i)
                &&& forall|j: usize| old(set)@.contains(j) ==> i <= j
            },
            None => {
                &&& old(set)@ == Set::<usize>::empty()
                &&& final(set)@ == old(set)@
            },
        },
{
    set.pop_first()
}

/// The slot vector.
pub struct Slots<T> {
    data: Vec<Option<T>>,
    empty: BTreeSet<usize>,
}

/// The indices `0 .. n` as a set.
pub open spec fn index_range(n: int) -> Set<usize> {
    Set::new(|i: usize| i < n)
}

impl<T: Copy> Slots<T> {
    /// The cells, in slot order.
    pub closed spec fn cells(&self) -> Seq<Option<T>> {
        self.data@
    }

    /// The indices of the empty cells.
    pub closed spec fn empty_set(&self) -> Set<usize> {
        self.empty@
    }

    /// Every cell is empty exactly when its index is in the empty-set, and
    /// the empty-set holds no index outside the vector.
    pub open spec fn wf(&self) -> bool {
        &&& self.empty_set().finite()
        &&& forall|i: usize| #[trigger]
            self.empty_set().contains(i) ==> i < self.cells().len()
        &&& forall|i: usize|
            i < self.cells().len() ==> (#[trigger] self.cells()[i as int] is None
                <==> self.empty_set().contains(i))
    }

    /// A vector of `cap` empty cells, all of them in the empty-set.
    pub fn with_capacity(cap: usize) -> (r: Self)
        ensures
            r.wf(),
            r.cells() == Seq::new(cap as nat, |i: int| None::<T>),
            r.empty_set() == index_range(cap as int),
    {
        let mut r = Slots { data: Vec::new(), empty: BTreeSet::new() };
        proof {
            assert(r.empty_set() =~= index_range(0));
        }
        r.allocate(cap);
        assert(r.cells() =~= Seq::new(cap as nat, |i: int| None::<T>));
        r
    }

    /// Number of cells, empty or not.
    pub fn len(&self) -> (r: usize)
        ensures
            r == self.cells().len(),
    {
        self.data.len()
    }

    /// Number of empty cells.
    pub fn empty_len(&self) -> (r: usize)
        requires
            self.wf(),
        ensures
            r == self.empty_set().len(),
    {
        self.empty.len()
    }

    /// A copy of the empty-set.
    pub fn empty_indices(&self) -> (r: BTreeSet<usize>)
        ensures
            r@ == self.empty_set(),
    {
        self.empty.clone()
    }

    /// Grows the vector by `n` empty cells and puts their indices into the
    /// empty-set. Returns the new length.
    pub fn allocate(&mut self, n: usize) -> (r: usize)
        requires
            old(self).wf(),
            old(self).cells().len() + n <= usize::MAX,
        ensures
            final(self).wf(),
            r == old(self).cells().len() + n,
            final(self).cells() == old(self).cells() + Seq::new(n as nat, |i: int| None::<T>),
            final(self).empty_set() == old(self).empty_set().union(
                Set::new(|i: usize| old(self).cells().len() <= i < r),
            ),
    {
        let ghost start = self.data@.len();
        let mut k: usize = 0;
        while k < n
            invariant
                self.wf(),
                k <= n,
                start + n <= usize::MAX,
                self.data@.len() == start + k,
                self.data@ == old(self).data@ + Seq::new(k as nat, |i: int| None::<T>),
                self.empty@ == old(self).empty@.union(
                    Set::new(|i: usize| start <= i < start + k),
                ),
            decreases n - k,
        {
            let i = self.data.len();
            self.data.push(None);
            self.empty.insert(i);
            k = k + 1;
            proof {
                assert(self.data@ =~= old(self).data@ + Seq::new(k as nat, |j: int| None::<T>));
                assert(self.empty@ =~= old(self).empty@.union(
                    Set::new(|j: usize| start <= j < start + k),
                ));
                assert(!old(self).empty@.union(Set::new(|j: usize| start <= j < start + k - 1)).contains(i));
            }
        }
        self.data.len()
    }

    /// Stores `value` in the smallest empty cell, or in a new cell appended
    /// to the vector when none is empty. Returns the index used.
    pub fn create(&mut self, value: T) -> (r: usize)
        requires
            old(self).wf(),
            old(self).cells().len() < usize::MAX,
        ensures
            final(self).wf(),
            r < final(self).cells().len(),
            final(self).cells() == if old(self).empty_set() == Set::<usize>::empty() {
                old(self).cells().push(Some(value))
            } else {
                old(self).cells().update(r as int, Some(value))
            },
            old(self).empty_set() == Set::<usize>::empty() ==> {
                &&& r == old(self).cells().len()
                &&& final(self).empty_set() == old(self).empty_set()
            },
            old(self).empty_set() != Set::<usize>::empty() ==> {
                &&& old(self).empty_set().contains(r)
                &&& forall|j: usize| old(self).empty_set().contains(j) ==> r <= j
                &&& final(self).empty_set() == old(self).empty_set().remove(r)
            },
    {
        let popped = pop_smallest(&mut self.empty);
        let index: usize = match popped {
            Some(i) => i,
            None => {
                let n = self.allocate(1);
                let i = n - 1;
                let ghost before = self.empty@;
                self.empty.remove(&i);
                proof {
                    assert(self.empty@ =~= old(self).empty@);
                }
                i
            },
        };
        self.data.set(index, Some(value));
        proof {
            if popped is None {
                assert(self.data@ =~= old(self).data@.push(Some(value)));
            }
        }
        index
    }

    /// The content of cell `index`.
    pub fn read(&self, index: usize) -> (r: Option<T>)
        requires
            index < self.cells().len(),
        ensures
            r == self.cells()[index as int],
    {
        self.data[index]
    }

    /// Writes `value` into the occupied cell `index`.
    pub fn update(&mut self, index: usize, value: T)
        requires
            old(self).wf(),
            index < old(self).cells().len(),
            old(self).cells()[index as int] is Some,
        ensures
            final(self).wf(),
            final(self).cells() == old(self).cells().update(index as int, Some(value)),
            final(self).empty_set() == old(self).empty_set(),
    {
        self.data.set(index, Some(value));
    }

    /// Replaces the content of the occupied cell `index` by what `f` makes
    /// of it.
    pub fn modify_with<F: FnOnce(T) -> T>(&mut self, index: usize, f: F)
        requires
            old(self).wf(),
            index < old(self).cells().len(),
            old(self).cells()[index as int] is Some,
            f.requires((old(self).cells()[index as int]->Some_0,)),
        ensures
            final(self).wf(),
            final(self).empty_set() == old(self).empty_set(),
            exists|v: T|
                {
                    &&& f.ensures((old(self).cells()[index as int]->Some_0,), v)
                    &&& final(self).cells() == old(self).cells().update(index as int, Some(v))
                },
    {
        match self.data[index] {
            Some(v) => {
                let nv = f(v);
                self.data.set(index, Some(nv));
            },
            None => {},
        }
    }

    /// Writes `value` into the occupied cell `index` and returns what it
    /// held.
    pub fn swap(&mut self, index: usize, value: T) -> (r: Option<T>)
        requires
            old(self).wf(),
            index < old(self).cells().len(),
            old(self).cells()[index as int] is Some,
        ensures
            final(self).wf(),
            r == old(self).cells()[index as int],
            final(self).cells() == old(self).cells().update(index as int, Some(value)),
            final(self).empty_set() == old(self).empty_set(),
    {
        let old_value = self.data[index];
        self.data.set(index, Some(value));
        old_value
    }

    /// Empties cell `index` and returns what it held; the index goes back
    /// to the empty-set.
    pub fn take(&mut self, index: usize) -> (r: Option<T>)
        requires
            old(self).wf(),
            index < old(self).cells().len(),
        ensures
            final(self).wf(),
            r == old(self).cells()[index as int],
            final(self).cells() == old(self).cells().update(index as int, None),
            final(self).empty_set() == old(self).empty_set().insert(index),
    {
        let old_value = self.data[index];
        self.data.set(index, None);
        self.empty.insert(index);
        old_value
    }

    /// Empties cell `index`; the index goes back to the empty-set.
    pub fn delete(&mut self, index: usize)
        requires
            old(self).wf(),
            index < old(self).cells().len(),
        ensures
            final(self).wf(),
            final(self).cells() == old(self).cells().update(index as int, None),
            final(self).empty_set() == old(self).empty_set().insert(index),
    {
        self.take(index);
    }
}

} // verus!
