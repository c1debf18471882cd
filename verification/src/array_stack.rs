//! The stack-oriented dynamic array: a grow-only variant with a fixed
//! default starting capacity.  Unlike the raw buffer in `array`, every
//! read here is bounds-checked against the live prefix, so only written
//! slots can ever be handed out.

use vstd::prelude::*;

verus! {

/// Slot count of an array created without an explicit capacity.
pub const STARTING_CAPACITY: usize = 64;

pub struct Array<T> {
    data: Vec<Option<T>>,
    size: usize,
}

impl<T: Copy> View for Array<T> {
    type V = Seq<T>;

    /// The live elements, in order.
    closed spec fn view(&self) -> Seq<T> {
        Seq::new(self.size as nat, |i: int| self.data@[i]->Some_0)
    }
}

impl<T: Copy> Array<T> {
    /// Slot count of the backing region.
    pub closed spec fn spec_capacity(&self) -> nat {
        self.data@.len()
    }

    /// A well-formed array: at least one slot, and the live prefix inside
    /// the region and actually written.
    pub closed spec fn wf(&self) -> bool {
        &&& 1 <= self.data@.len()
        &&& self.size <= self.data@.len()
        &&& forall|i: int| 0 <= i < self.size ==> self.data@[i] is Some
    }

    pub fn with_capacity(cap: usize) -> (r: Array<T>)
        requires
            1 <= cap,
        ensures
            r.wf(),
            r@ == Seq::<T>::empty(),
            r.spec_capacity() == cap,
    {
        let mut data: Vec<Option<T>> = Vec::new();
        let mut i: usize = 0;
        while i < cap
            invariant
                i <= cap,
                data@.len() == i,
            decreases cap - i,
        {
            data.push(None);
            i = i + 1;
        }
        let arr = Array { data, size: 0 };
        proof {
            assert(arr@ =~= Seq::<T>::empty());
        }
        arr
    }

    pub fn new() -> (r: Array<T>)
        ensures
            r.wf(),
            r@ == Seq::<T>::empty(),
            r.spec_capacity() == STARTING_CAPACITY,
    {
        Self::with_capacity(STARTING_CAPACITY)
    }

    /// Gets the value at an index.
    pub fn get(&self, idx: usize) -> (r: T)
        requires
            self.wf(),
            idx < self@.len(),
        ensures
            r == self@[idx as int],
    {
        self.read_at(idx)
    }

    /// Set value at an index, returning the former value.
    pub fn set(&mut self, idx: usize, val: T) -> (r: T)
        requires
            old(self).wf(),
            idx < old(self)@.len(),
        ensures
            final(self).wf(),
            final(self).spec_capacity() == old(self).spec_capacity(),
            r == old(self)@[idx as int],
            final(self)@ == old(self)@.update(idx as int, val),
    {
        let v = self.read_at(idx);
        self.write_at(idx, val);
        proof {
            assert(self@ =~= old(self)@.update(idx as int, val));
        }
        v
    }

    /// Gets how many elements are in the array.
    pub fn length(&self) -> (r: usize)
        ensures
            r == self@.len(),
    {
        self.size
    }

    /// Gets how many elements can fit in the array before it grows.
    pub fn capacity(&self) -> (r: usize)
        ensures
            r == self.spec_capacity(),
    {
        self.data.len()
    }

    /// Add element at index `index` in the array, pushing all elements with
    /// index greater than `index` to the right.
    pub fn push(&mut self, index: usize, val: T)
        requires
            old(self).wf(),
            index <= old(self)@.len(),
            old(self).spec_capacity() <= usize::MAX / 2,
        ensures
            final(self).wf(),
            final(self)@ == old(self)@.insert(index as int, val),
            old(self)@.len() == old(self).spec_capacity() ==> final(self).spec_capacity() == 2
                * old(self).spec_capacity(),
            old(self)@.len() < old(self).spec_capacity() ==> final(self).spec_capacity() == old(
                self,
            ).spec_capacity(),
    {
        self.grow_if_needed();
        let ghost s1: Seq<Option<T>> = self.data@;
        let ghost n: int = self.size as int;
        if index == self.size {
            self.write_at(self.size, val);
        } else {
            let mut i: usize = self.size;
            while i > index
                invariant
                    index <= i <= n,
                    self.size == n,
                    n < self.data@.len(),
                    self.data@.len() == s1.len(),
                    forall|j: int| 0 <= j < n ==> s1[j] is Some,
                    forall|j: int| 0 <= j <= i ==> self.data@[j] == s1[j],
                    forall|j: int| i < j <= n ==> self.data@[j] == s1[j - 1],
                decreases i,
            {
                i = i - 1;
                proof {
                    assert(self.data@[i as int] == s1[i as int]);
                    assert(s1[i as int] is Some);
                }
                let w = self.read_at(i);
                self.write_at(i + 1, w);
            }
            self.write_at(index, val);
        }
        self.size = self.size + 1;
        proof {
            assert forall|j: int| 0 <= j < self.size implies self.data@[j] is Some by {
                if j < index {
                    assert(self.data@[j] == s1[j]);
                } else if j > index {
                    assert(self.data@[j] == s1[j - 1]);
                }
            }
            assert(self@ =~= old(self)@.insert(index as int, val));
        }
    }

    /// Add an element at the end of the array.
    pub fn push_back(&mut self, val: T)
        requires
            old(self).wf(),
            old(self).spec_capacity() <= usize::MAX / 2,
        ensures
            final(self).wf(),
            final(self)@ == old(self)@.push(val),
            old(self)@.len() == old(self).spec_capacity() ==> final(self).spec_capacity() == 2
                * old(self).spec_capacity(),
            old(self)@.len() < old(self).spec_capacity() ==> final(self).spec_capacity() == old(
                self,
            ).spec_capacity(),
    {
        let n = self.size;
        self.push(n, val);
        proof {
            assert(old(self)@.insert(old(self)@.len() as int, val) =~= old(self)@.push(val));
        }
    }

    /// Add an element to the start of the array and push right all elements.
    pub fn push_front(&mut self, val: T)
        requires
            old(self).wf(),
            old(self).spec_capacity() <= usize::MAX / 2,
        ensures
            final(self).wf(),
            final(self)@ == old(self)@.insert(0, val),
            old(self)@.len() == old(self).spec_capacity() ==> final(self).spec_capacity() == 2
                * old(self).spec_capacity(),
            old(self)@.len() < old(self).spec_capacity() ==> final(self).spec_capacity() == old(
                self,
            ).spec_capacity(),
    {
        self.push(0, val);
    }

    /// Exchange the values at two live positions.
    #[allow(dead_code)]
    fn swap(&mut self, a_idx: usize, b_idx: usize)
        requires
            old(self).wf(),
            a_idx < old(self)@.len(),
            b_idx < old(self)@.len(),
        ensures
            final(self).wf(),
            final(self).spec_capacity() == old(self).spec_capacity(),
            final(self)@ == old(self)@.update(a_idx as int, old(self)@[b_idx as int]).update(
                b_idx as int,
                old(self)@[a_idx as int],
            ),
    {
        let v_a = self.read_at(a_idx);
        let v_b = self.read_at(b_idx);
        self.write_at(a_idx, v_b);
        self.write_at(b_idx, v_a);
        proof {
            assert(self@ =~= old(self)@.update(a_idx as int, old(self)@[b_idx as int]).update(
                b_idx as int,
                old(self)@[a_idx as int],
            ));
        }
    }

    fn write_at(&mut self, idx: usize, val: T)
        requires
            idx <= old(self).size,
            idx < old(self).data@.len(),
        ensures
            final(self).data@ == old(self).data@.update(idx as int, Some(val)),
            final(self).size == old(self).size,
    {
        self.data[idx] = Some(val);
    }

    fn read_at(&self, idx: usize) -> (r: T)
        requires
            idx < self.data@.len(),
            self.data@[idx as int] is Some,
        ensures
            r == self.data@[idx as int]->Some_0,
    {
        self.data[idx].unwrap()
    }

    /// Double the backing region when the live prefix has filled it.
    fn grow_if_needed(&mut self)
        requires
            old(self).wf(),
            old(self).spec_capacity() <= usize::MAX / 2,
        ensures
            final(self).wf(),
            final(self)@ == old(self)@,
            final(self).size == old(self).size,
            final(self).size < final(self).data@.len(),
            forall|j: int| 0 <= j < old(self).size ==> final(self).data@[j] == old(self).data@[j],
            old(self)@.len() == old(self).spec_capacity() ==> final(self).spec_capacity() == 2
                * old(self).spec_capacity(),
            old(self)@.len() < old(self).spec_capacity() ==> final(self).spec_capacity() == old(
                self,
            ).spec_capacity(),
    {
        if self.size >= self.data.len() {
            let target = self.data.len() * 2;
            let ghost prefix: Seq<Option<T>> = self.data@;
            let ghost n0: usize = self.size;
            while self.data.len() < target
                invariant
                    self.size == n0,
                    prefix.len() <= self.data@.len() <= target,
                    forall|i: int| 0 <= i < prefix.len() ==> self.data@[i] == prefix[i],
                decreases target - self.data.len(),
            {
                self.data.push(None);
            }
            proof {
                assert forall|i: int| 0 <= i < self.size implies self.data@[i] is Some by {
                    assert(self.data@[i] == prefix[i]);
                }
                assert(self@ =~= old(self)@);
            }
        }
    }
}

} // verus!
