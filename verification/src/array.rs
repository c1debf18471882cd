//! A dynamically sized array over one owned contiguous region.
//!
//! The region always holds exactly `slots().len()` slots.  A slot holds
//! `Some(v)` once a value has been written to it and `None` while it is
//! still untouched, which models raw storage whose unwritten slots must
//! never be read.  Slots `[0, size)` hold the live elements; callers that
//! use the array as raw storage (the ring containers) keep `size` at zero
//! and do their own bookkeeping over `slots()`.

use vstd::prelude::*;

verus! {

/// Capacity that the grow/shrink policy selects around an insertion or a
/// removal: double a full region, halve one that is less than half full,
/// keep it otherwise.
pub open spec fn adjusted_capacity(size: nat, cap: nat) -> nat {
    if size >= cap {
        2 * cap
    } else if size < cap / 2 {
        cap / 2
    } else {
        cap
    }
}

/// A dynamically sized array implementation.
pub struct Array<T> {
    data: Vec<Option<T>>,
    size: usize,
}

impl<T: Copy> View for Array<T> {
    type V = Seq<T>;

    /// The live elements, in order.
    closed spec fn view(&self) -> Seq<T> {
        Seq::new(self.size as nat, |i: int| self.data@[i]->Some_0)
    }
}

impl<T: Copy> Array<T> {
    /// The raw slots of the backing region: `None` where never written.
    pub closed spec fn slots(&self) -> Seq<Option<T>> {
        self.data@
    }

    /// A well-formed array: at least one slot, and the live prefix inside
    /// the region and actually written.
    pub closed spec fn wf(&self) -> bool {
        &&& 1 <= self.data@.len()
        &&& self.size <= self.data@.len()
        &&& forall|i: int| 0 <= i < self.size ==> self.data@[i] is Some
    }

    /// Create a new dynamic Array.
    pub fn new() -> (r: Option<Array<T>>)
        ensures
            r is Some,
            r->Some_0.wf(),
            r->Some_0@ == Seq::<T>::empty(),
            r->Some_0.slots().len() == 1,
    {
        Self::with_capacity(1)
    }

    /// Create an array with custom capacity.
    pub fn with_capacity(capacity: usize) -> (r: Option<Array<T>>)
        requires
            1 <= capacity,
        ensures
            r is Some,
            r->Some_0.wf(),
            r->Some_0@ == Seq::<T>::empty(),
            r->Some_0.slots().len() == capacity,
    {
        let mut data: Vec<Option<T>> = Vec::new();
        let mut i: usize = 0;
        while i < capacity
            invariant
                i <= capacity,
                data@.len() == i,
            decreases capacity - i,
        {
            data.push(None);
            i = i + 1;
        }
        let arr = Array { data, size: 0 };
        proof {
            assert(arr@ =~= Seq::<T>::empty());
        }
        Some(arr)
    }

    /// Gets how many elements are in the array.
    pub fn length(&self) -> (r: usize)
        ensures
            r == self@.len(),
    {
        self.size
    }

    /// Gets how many elements can fit in the array.
    pub fn capacity(&self) -> (r: usize)
        ensures
            r == self.slots().len(),
    {
        self.data.len()
    }

    /// Read the raw slot `idx`: the value it holds, or `None` where the
    /// slot was never written.
    pub fn read_at(&self, idx: usize) -> (r: Option<T>)
        requires
            idx < self.slots().len(),
        ensures
            r == self.slots()[idx as int],
    {
        self.data[idx]
    }

    /// Write `val` into the raw slot `idx`.
    pub fn write_at(&mut self, idx: usize, val: T)
        requires
            idx < old(self).slots().len(),
        ensures
            final(self).slots() == old(self).slots().update(idx as int, Some(val)),
            final(self)@.len() == old(self)@.len(),
            old(self).wf() && idx < old(self)@.len() ==> final(self)@ == old(self)@.update(
                idx as int,
                val,
            ),
            old(self).wf() && idx >= old(self)@.len() ==> final(self)@ == old(self)@,
            old(self).wf() ==> final(self).wf(),
    {
        self.data[idx] = Some(val);
        proof {
            if old(self).wf() {
                assert forall|j: int|
                    0 <= j < self@.len() && j != idx implies self@[j] == old(self)@[j] by {
                    assert(self.data@[j] == old(self).data@[j]);
                }
                if idx < old(self)@.len() {
                    assert(self@[idx as int] == val);
                    assert(self@ =~= old(self)@.update(idx as int, val));
                } else {
                    assert(self@ =~= old(self)@);
                }
            }
        }
    }

    /// Resize the backing region to exactly `new_capacity` slots, keeping
    /// the contents of the overlapping prefix unchanged; slots gained by
    /// growth start out unwritten.  Any re-indexing that the new size makes
    /// necessary (such as a ring wraparound fix-up) is the caller's work.
    pub fn reallocate(&mut self, new_capacity: usize)
        requires
            1 <= new_capacity,
        ensures
            final(self).slots().len() == new_capacity,
            forall|i: int|
                0 <= i < old(self).slots().len() && i < new_capacity ==> final(self).slots()[i]
                    == old(self).slots()[i],
            forall|i: int|
                old(self).slots().len() <= i < new_capacity ==> final(self).slots()[i] is None,
            final(self)@.len() == old(self)@.len(),
            old(self).wf() && old(self)@.len() <= new_capacity ==> final(self).wf()
                && final(self)@ == old(self)@,
    {
        if new_capacity < self.data.len() {
            self.data.truncate(new_capacity);
        } else {
            let ghost prefix: Seq<Option<T>> = self.data@;
            let ghost n0: usize = self.size;
            while self.data.len() < new_capacity
                invariant
                    self.size == n0,
                    prefix.len() <= self.data@.len() <= new_capacity,
                    forall|i: int| 0 <= i < prefix.len() ==> self.data@[i] == prefix[i],
                    forall|i: int| prefix.len() <= i < self.data@.len() ==> self.data@[i] is None,
                decreases new_capacity - self.data.len(),
            {
                self.data.push(None);
            }
        }
        proof {
            if old(self).wf() && old(self)@.len() <= new_capacity {
                assert forall|i: int| 0 <= i < self.size implies self.data@[i] is Some by {
                    assert(self.data@[i] == old(self).data@[i]);
                }
                assert forall|i: int| 0 <= i < self.size implies self@[i] == old(self)@[i] by {
                    assert(self.data@[i] == old(self).data@[i]);
                }
                assert(self@ =~= old(self)@);
            }
        }
    }

    /// Gets the value at an index.
    pub fn get(&self, idx: usize) -> (r: Option<T>)
        requires
            self.wf(),
        ensures
            idx < self@.len() ==> r == Some(self@[idx as int]),
            idx >= self@.len() ==> r is None,
    {
        if idx >= self.size {
            return None;
        }
        self.read_at(idx)
    }

    /// Set value at an index, returning the former value.
    pub fn set(&mut self, idx: usize, val: T) -> (r: Option<T>)
        requires
            old(self).wf(),
        ensures
            final(self).wf(),
            final(self).slots().len() == old(self).slots().len(),
            idx < old(self)@.len() ==> r == Some(old(self)@[idx as int]) && final(self)@ == old(
                self,
            )@.update(idx as int, val),
            idx >= old(self)@.len() ==> r is None && final(self)@ == old(self)@ && final(self).slots() == old(self).slots(),
    {
        if idx >= self.size {
            return None;
        }
        let v = self.read_at(idx);
        self.write_at(idx, val);
        proof {
            assert(self@ =~= old(self)@.update(idx as int, val));
        }
        v
    }

    /// Add element at index `index` in the array, pushing all elements with
    /// index greater than `index` to the right.
    pub fn push(&mut self, index: usize, val: T)
        requires
            old(self).wf(),
            index <= old(self)@.len(),
            old(self).slots().len() <= usize::MAX / 2,
        ensures
            final(self).wf(),
            final(self)@ == old(self)@.insert(index as int, val),
            final(self).slots().len() == adjusted_capacity(
                old(self)@.len(),
                old(self).slots().len(),
            ),
    {
        self.adjust_size();
        let ghost s1: Seq<Option<T>> = self.data@;
        let ghost n: int = self.size as int;
        if index == self.size {
            self.write_at(self.size, val);
        } else {
            let mut i: usize = self.size;
            while i > index
                invariant
                    index <= i <= n,
                    self.size == n,
                    n < self.data@.len(),
                    self.data@.len() == s1.len(),
                    forall|j: int| 0 <= j < n ==> s1[j] is Some,
                    forall|j: int| 0 <= j <= i ==> self.data@[j] == s1[j],
                    forall|j: int| i < j <= n ==> self.data@[j] == s1[j - 1],
                decreases i,
            {
                i = i - 1;
                proof {
                    assert(self.data@[i as int] == s1[i as int]);
                    assert(s1[i as int] is Some);
                }
                let w = self.read_at(i).unwrap();
                self.write_at(i + 1, w);
            }
            self.write_at(index, val);
        }
        self.size = self.size + 1;
        proof {
            assert forall|j: int| 0 <= j < self.size implies self.data@[j] is Some by {
                if j < index {
                    assert(self.data@[j] == s1[j]);
                } else if j > index {
                    assert(self.data@[j] == s1[j - 1]);
                }
            }
            assert(self@ =~= old(self)@.insert(index as int, val));
        }
    }

    /// Add an element at the end of the array.
    pub fn push_back(&mut self, val: T)
        requires
            old(self).wf(),
            old(self).slots().len() <= usize::MAX / 2,
        ensures
            final(self).wf(),
            final(self)@ == old(self)@.push(val),
            final(self).slots().len() == adjusted_capacity(
                old(self)@.len(),
                old(self).slots().len(),
            ),
    {
        let n = self.size;
        self.push(n, val);
        proof {
            assert(old(self)@.insert(old(self)@.len() as int, val) =~= old(self)@.push(val));
        }
    }

    /// Add an element to the start of the array and push right all elements.
    pub fn push_front(&mut self, val: T)
        requires
            old(self).wf(),
            old(self).slots().len() <= usize::MAX / 2,
        ensures
            final(self).wf(),
            final(self)@ == old(self)@.insert(0, val),
            final(self).slots().len() == adjusted_capacity(
                old(self)@.len(),
                old(self).slots().len(),
            ),
    {
        self.push(0, val);
    }

    /// Removes element at index.
    pub fn remove(&mut self, idx: usize) -> (r: Option<T>)
        requires
            old(self).wf(),
        ensures
            final(self).wf(),
            idx < old(self)@.len() ==> r == Some(old(self)@[idx as int]) && final(self)@ == old(
                self,
            )@.remove(idx as int) && final(self).slots().len() == adjusted_capacity(
                (old(self)@.len() - 1) as nat,
                old(self).slots().len(),
            ),
            idx >= old(self)@.len() ==> r is None && final(self)@ == old(self)@ && final(self).slots() == old(self).slots(),
    {
        if idx >= self.size {
            return None;
        }
        let v = self.read_at(idx);
        let ghost s1: Seq<Option<T>> = self.data@;
        let ghost n: int = self.size as int;
        let mut i: usize = idx;
        while i < self.size - 1
            invariant
                idx <= i <= n - 1,
                self.size == n,
                1 <= n <= self.data@.len(),
                self.data@.len() == s1.len(),
                forall|j: int| 0 <= j < n ==> s1[j] is Some,
                forall|j: int| idx <= j < i ==> self.data@[j] == s1[j + 1],
                forall|j: int| 0 <= j < idx ==> self.data@[j] == s1[j],
                forall|j: int| i <= j < s1.len() ==> self.data@[j] == s1[j],
            decreases n - i,
        {
            proof {
                assert(self.data@[i as int + 1] == s1[i as int + 1]);
                assert(s1[i as int + 1] is Some);
            }
            let w = self.read_at(i + 1).unwrap();
            self.write_at(i, w);
            i = i + 1;
        }
        self.size = self.size - 1;
        proof {
            assert forall|j: int| 0 <= j < self.size implies self.data@[j] is Some by {
                if j < idx {
                    assert(self.data@[j] == s1[j]);
                } else {
                    assert(self.data@[j] == s1[j + 1]);
                }
            }
            assert(self@ =~= old(self)@.remove(idx as int));
        }
        self.adjust_size();
        v
    }

    /// Removes element at the end of array.
    pub fn pop_back(&mut self) -> (r: Option<T>)
        requires
            old(self).wf(),
        ensures
            final(self).wf(),
            old(self)@.len() > 0 ==> r == Some(old(self)@.last()) && final(self)@ == old(
                self,
            )@.drop_last() && final(self).slots().len() == adjusted_capacity(
                (old(self)@.len() - 1) as nat,
                old(self).slots().len(),
            ),
            old(self)@.len() == 0 ==> r is None && final(self)@ == old(self)@ && final(self).slots() == old(self).slots(),
    {
        if self.size == 0 {
            return None;
        }
        let n = self.size;
        let r = self.remove(n - 1);
        proof {
            assert(old(self)@.remove(old(self)@.len() - 1) =~= old(self)@.drop_last());
        }
        r
    }

    /// Removes element at the start of array.
    pub fn pop_front(&mut self) -> (r: Option<T>)
        requires
            old(self).wf(),
        ensures
            final(self).wf(),
            old(self)@.len() > 0 ==> r == Some(old(self)@.first()) && final(self)@ == old(
                self,
            )@.drop_first() && final(self).slots().len() == adjusted_capacity(
                (old(self)@.len() - 1) as nat,
                old(self).slots().len(),
            ),
            old(self)@.len() == 0 ==> r is None && final(self)@ == old(self)@ && final(self).slots() == old(self).slots(),
    {
        let r = self.remove(0);
        proof {
            if old(self)@.len() > 0 {
                assert(old(self)@.remove(0) =~= old(self)@.drop_first());
            }
        }
        r
    }

    /// Grow and shrink array if needed by operation.
    fn adjust_size(&mut self)
        requires
            old(self).wf(),
            old(self)@.len() >= old(self).slots().len() ==> old(self).slots().len() <= usize::MAX
                / 2,
        ensures
            final(self).wf(),
            final(self)@ == old(self)@,
            final(self).slots().len() == adjusted_capacity(
                old(self)@.len(),
                old(self).slots().len(),
            ),
            final(self)@.len() < final(self).slots().len(),
    {
        let new_capacity = if self.size >= self.data.len() {
            self.data.len() * 2
        } else if self.size < self.data.len() / 2 {
            self.data.len() / 2
        } else {
            self.data.len()
        };
        if new_capacity != self.data.len() {
            self.reallocate(new_capacity);
            proof {
                assert(self@ =~= old(self)@);
            }
        }
    }
}

} // verus!
