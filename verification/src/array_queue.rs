//! The Array Queue treating the backing Array as a Ring, controlling the
//! first and last element wrapping around the array end.  If there is not
//! enough capacity we resize the array.
//!
//! If `first_in` is J and `size` is K, then the elements are at
//! ARR[J], ARR[J + 1], ... , ARR[(J + K - 1) % len(ARR)].
//!
//! This is the FIFO subset: values enter at the back and leave at the
//! front, and the ring only grows, never shrinks.

use crate::array::Array;
use crate::ring::ring_index;
use vstd::prelude::*;

verus! {

broadcast use crate::ring::lemma_ring_index;

pub struct ArrayQueue<T> {
    arr: Array<T>,
    first_in: usize,
    size: usize,
}

impl<T: Copy> View for ArrayQueue<T> {
    type V = Seq<T>;

    /// The logical contents, in order: position `i` lives at physical slot
    /// `(first_in + i) % capacity` of the backing array.
    closed spec fn view(&self) -> Seq<T> {
        Seq::new(
            self.size as nat,
            |i: int|
                self.arr.slots()[ring_index(
                    self.first_in as int,
                    i,
                    self.spec_capacity() as int,
                )]->Some_0,
        )
    }
}

impl<T: Copy> ArrayQueue<T> {
    /// Slot count of the backing array.
    pub closed spec fn spec_capacity(&self) -> nat {
        self.arr.slots().len()
    }

    /// A well-formed ring: the offset inside the buffer, the contents no
    /// larger than the buffer, and every occupied physical slot written.
    pub closed spec fn wf(&self) -> bool {
        &&& 1 <= self.spec_capacity()
        &&& (self.first_in as int) < self.spec_capacity()
        &&& (self.size as int) <= self.spec_capacity()
        &&& forall|i: int|
            0 <= i < self.size ==> self.arr.slots()[ring_index(
                self.first_in as int,
                i,
                self.spec_capacity() as int,
            )] is Some
    }

    pub fn with_capacity(capacity: usize) -> (r: Option<ArrayQueue<T>>)
        requires
            1 <= capacity,
        ensures
            r is Some,
            r->Some_0.wf(),
            r->Some_0@ == Seq::<T>::empty(),
            r->Some_0.spec_capacity() == capacity,
    {
        match Array::with_capacity(capacity) {
            Some(arr) => {
                let q = ArrayQueue { arr, first_in: 0, size: 0 };
                proof {
                    assert(q@ =~= Seq::<T>::empty());
                }
                Some(q)
            },
            None => None,
        }
    }

    pub fn new() -> (r: Option<ArrayQueue<T>>)
        ensures
            r is Some,
            r->Some_0.wf(),
            r->Some_0@ == Seq::<T>::empty(),
            r->Some_0.spec_capacity() == 1,
    {
        Self::with_capacity(1)
    }

    pub fn length(&self) -> (r: usize)
        ensures
            r == self@.len(),
    {
        self.size
    }

    /// How many elements the ring can hold before it has to grow.
    pub fn capacity(&self) -> (r: usize)
        ensures
            r == self.spec_capacity(),
    {
        self.arr.capacity()
    }

    /// The value at the front of the queue, without removing it.
    pub fn peek(&self) -> (r: Option<T>)
        requires
            self.wf(),
        ensures
            self@.len() > 0 ==> r == Some(self@[0]),
            self@.len() == 0 ==> r is None,
    {
        if self.size == 0 {
            None
        } else {
            proof {
                assert(ring_index(self.first_in as int, 0, self.spec_capacity() as int)
                    == self.first_in as int);
            }
            self.arr.read_at(self.first_in)
        }
    }

    /// Remove the value at the front of the queue and hand it back.
    pub fn remove(&mut self) -> (r: Option<T>)
        requires
            old(self).wf(),
        ensures
            final(self).wf(),
            final(self).spec_capacity() == old(self).spec_capacity(),
            old(self)@.len() == 0 ==> r is None && final(self)@ == old(self)@,
            old(self)@.len() > 0 ==> r == Some(old(self)@[0]) && final(self)@ == old(
                self,
            )@.subrange(1, old(self)@.len() as int),
    {
        if self.size == 0 {
            None
        } else {
            let ghost f0: int = self.first_in as int;
            let ghost c: int = self.spec_capacity() as int;
            proof {
                assert(ring_index(f0, 0, c) == f0);
            }
            let v = self.arr.read_at(self.first_in);
            let cap = self.arr.capacity();
            let nf = (self.first_in + 1) % cap;
            self.first_in = nf;
            self.size = self.size - 1;
            proof {
                assert(nf as int == ring_index(f0, 1, c));
                assert forall|i: int|
                    0 <= i < self.size implies self.arr.slots()[ring_index(
                    self.first_in as int,
                    i,
                    c,
                )] is Some by {
                    assert(ring_index(self.first_in as int, i, c) == ring_index(f0, i + 1, c));
                }
                assert forall|i: int| 0 <= i < self.size implies self@[i] == old(self)@[i + 1] by {
                    assert(ring_index(self.first_in as int, i, c) == ring_index(f0, i + 1, c));
                }
                assert(self@ =~= old(self)@.subrange(1, old(self)@.len() as int));
            }
            v
        }
    }

    /// Add a value at the back of the queue.  A full ring first doubles the
    /// capacity of the backing array and moves every wrapped element to the
    /// physical slot that the enlarged circular mapping assigns to it.
    pub fn add(&mut self, val: T)
        requires
            old(self).wf(),
            old(self).spec_capacity() <= usize::MAX / 2,
        ensures
            final(self).wf(),
            final(self)@ == old(self)@.push(val),
            old(self)@.len() == old(self).spec_capacity() ==> final(self).spec_capacity() == 2
                * old(self).spec_capacity(),
            old(self)@.len() < old(self).spec_capacity() ==> final(self).spec_capacity() == old(
                self,
            ).spec_capacity(),
    {
        if self.size >= self.arr.capacity() {
            let old_capacity = self.arr.capacity();
            let ghost oc: int = old_capacity as int;
            let ghost f: int = self.first_in as int;
            let ghost n: int = self.size as int;
            self.arr.reallocate(2 * old_capacity);
            let ghost s1: Seq<Option<T>> = self.arr.slots();
            let ghost c2: int = 2 * oc;
            proof {
                assert forall|j: int| 0 <= j < n implies s1[ring_index(f, j, oc)] == old(
                    self,
                ).arr.slots()[ring_index(f, j, oc)] && s1[ring_index(f, j, oc)] is Some by {}
            }
            let mut i: usize = 0;
            while i < self.size
                invariant
                    0 <= i <= n,
                    self.size == n,
                    self.first_in as int == f,
                    0 <= f < oc,
                    n <= oc,
                    1 <= oc,
                    oc <= usize::MAX / 2,
                    old_capacity as int == oc,
                    self.arr.slots().len() == c2,
                    c2 == 2 * oc,
                    s1.len() == c2,
                    forall|j: int| 0 <= j < n ==> s1[ring_index(f, j, oc)] is Some,
                    forall|j: int|
                        i <= j < n ==> self.arr.slots()[ring_index(f, j, oc)] == s1[ring_index(
                            f,
                            j,
                            oc,
                        )],
                    forall|j: int|
                        0 <= j < i ==> self.arr.slots()[ring_index(f, j, c2)] == s1[ring_index(
                            f,
                            j,
                            oc,
                        )],
                decreases n - i,
            {
                let former_idx = (self.first_in + i) % old_capacity;
                let new_idx = (self.first_in + i) % self.arr.capacity();
                proof {
                    assert(former_idx as int == ring_index(f, i as int, oc));
                    assert(new_idx as int == ring_index(f, i as int, c2));
                }
                if former_idx != new_idx {
                    proof {
                        assert(self.arr.slots()[ring_index(f, i as int, oc)] == s1[ring_index(
                            f,
                            i as int,
                            oc,
                        )]);
                        assert(s1[ring_index(f, i as int, oc)] is Some);
                    }
                    let w = self.arr.read_at(former_idx).unwrap();
                    self.arr.write_at(new_idx, w);
                }
                proof {
                    assert forall|j: int|
                        i as int + 1 <= j < n implies self.arr.slots()[ring_index(f, j, oc)]
                        == s1[ring_index(f, j, oc)] by {
                        assert(ring_index(f, j, oc) < oc);
                    }
                    assert forall|j: int|
                        0 <= j < i as int + 1 implies self.arr.slots()[ring_index(f, j, c2)]
                        == s1[ring_index(f, j, oc)] by {
                        if j < i as int {
                            assert(ring_index(f, j, c2) != ring_index(f, i as int, c2));
                        } else {
                            assert(ring_index(f, i as int, oc) == if f + i < oc {
                                f + i
                            } else {
                                f + i - oc
                            });
                        }
                    }
                }
                i = i + 1;
            }
            proof {
                assert forall|j: int|
                    0 <= j < self.size implies self.arr.slots()[ring_index(
                    self.first_in as int,
                    j,
                    c2,
                )] is Some by {}
                assert forall|j: int| 0 <= j < self.size implies self@[j] == old(self)@[j] by {}
                assert(self@ =~= old(self)@);
            }
        }
        let ghost mid: ArrayQueue<T> = *self;
        let ghost f: int = self.first_in as int;
        let ghost c: int = self.spec_capacity() as int;
        let dest_idx = (self.first_in + self.size) % self.arr.capacity();
        proof {
            assert(dest_idx as int == ring_index(f, mid.size as int, c));
        }
        // Because size is below capacity here, dest_idx is within the array.
        self.arr.write_at(dest_idx, val);
        self.size = self.size + 1;
        proof {
            assert(mid@ == old(self)@);
            assert forall|i: int|
                0 <= i < self.size implies self.arr.slots()[ring_index(f, i, c)] is Some by {
                if i < mid.size {
                    assert(ring_index(f, i, c) != ring_index(f, mid.size as int, c));
                }
            }
            assert forall|i: int|
                0 <= i < self.size implies self@[i] == old(self)@.push(val)[i] by {
                if i < mid.size {
                    assert(ring_index(f, i, c) != ring_index(f, mid.size as int, c));
                    assert(self@[i] == mid@[i]);
                }
            }
            assert(self@ =~= old(self)@.push(val));
        }
    }
}

} // verus!
