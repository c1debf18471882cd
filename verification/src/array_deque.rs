//! The Array Queue treating the backing Array as a Ring, controlling the
//! first and last element wrapping around the array end.  If there is not
//! enough capacity we resize the array.
//!
//! If `first_in` is J and `size` is K, then the elements are at
//! ARR[J], ARR[J + 1], ... , ARR[(J + K - 1) % len(ARR)].
//!
//! Besides the FIFO operations, this variant supports insertion and removal
//! at an arbitrary logical index; both shift whichever of the two
//! neighbouring spans is shorter, respecting the circular index mapping.

use crate::array::Array;
use crate::ring::ring_index;
use vstd::prelude::*;

verus! {

broadcast use crate::ring::lemma_ring_index;

pub struct ArrayQueue<T> {
    arr: Array<T>,
    first_in: usize,
    size: usize,
}

impl<T: Copy> View for ArrayQueue<T> {
    type V = Seq<T>;

    /// The logical contents, in order: position `i` lives at physical slot
    /// `(first_in + i) % capacity` of the backing array.
    closed spec fn view(&self) -> Seq<T> {
        Seq::new(
            self.size as nat,
            |i: int|
                self.arr.slots()[ring_index(
                    self.first_in as int,
                    i,
                    self.spec_capacity() as int,
                )]->Some_0,
        )
    }
}

impl<T: Copy> ArrayQueue<T> {
    /// Slot count of the backing array.
    pub closed spec fn spec_capacity(&self) -> nat {
        self.arr.slots().len()
    }

    /// A well-formed ring: the offset inside the buffer, the contents no
    /// larger than the buffer, and every occupied physical slot written.
    pub closed spec fn wf(&self) -> bool {
        &&& 1 <= self.spec_capacity()
        &&& (self.first_in as int) < self.spec_capacity()
        &&& (self.size as int) <= self.spec_capacity()
        &&& forall|i: int|
            0 <= i < self.size ==> self.arr.slots()[ring_index(
                self.first_in as int,
                i,
                self.spec_capacity() as int,
            )] is Some
    }

    pub fn with_capacity(capacity: usize) -> (r: Option<ArrayQueue<T>>)
        requires
            1 <= capacity,
        ensures
            r is Some,
            r->Some_0.wf(),
            r->Some_0@ == Seq::<T>::empty(),
            r->Some_0.spec_capacity() == capacity,
    {
        match Array::with_capacity(capacity) {
            Some(arr) => {
                let q = ArrayQueue { arr, first_in: 0, size: 0 };
                proof {
                    assert(q@ =~= Seq::<T>::empty());
                }
                Some(q)
            },
            None => None,
        }
    }

    pub fn new() -> (r: Option<ArrayQueue<T>>)
        ensures
            r is Some,
            r->Some_0.wf(),
            r->Some_0@ == Seq::<T>::empty(),
            r->Some_0.spec_capacity() == 1,
    {
        Self::with_capacity(1)
    }

    pub fn length(&self) -> (r: usize)
        ensures
            r == self@.len(),
    {
        self.size
    }

    /// How many elements the ring can hold before it has to grow.
    pub fn capacity(&self) -> (r: usize)
        ensures
            r == self.spec_capacity(),
    {
        self.arr.capacity()
    }

    /// Physical slot of logical position `idx`.
    fn mod_index(&self, idx: usize) -> (r: usize)
        requires
            1 <= self.spec_capacity(),
            (self.first_in as int) < self.spec_capacity(),
            idx <= self.spec_capacity(),
        ensures
            r == ring_index(self.first_in as int, idx as int, self.spec_capacity() as int),
            r < self.spec_capacity(),
    {
        let cap = self.arr.capacity();
        if idx < cap - self.first_in {
            self.first_in + idx
        } else {
            idx - (cap - self.first_in)
        }
    }

    pub fn peek(&self, idx: usize) -> (r: Option<T>)
        requires
            self.wf(),
        ensures
            idx < self@.len() ==> r == Some(self@[idx as int]),
            idx >= self@.len() ==> r is None,
    {
        if idx >= self.size {
            None
        } else {
            let p = self.mod_index(idx);
            self.arr.read_at(p)
        }
    }

    pub fn peek_back(&self) -> (r: Option<T>)
        requires
            self.wf(),
        ensures
            self@.len() > 0 ==> r == Some(self@.last()),
            self@.len() == 0 ==> r is None,
    {
        if self.size == 0 {
            None
        } else {
            self.peek(self.size - 1)
        }
    }

    pub fn dequeue(&mut self) -> (r: Option<T>)
        requires
            old(self).wf(),
        ensures
            final(self).wf(),
            final(self).spec_capacity() == old(self).spec_capacity(),
            old(self)@.len() == 0 ==> r is None && final(self)@ == old(self)@,
            old(self)@.len() > 0 ==> r == Some(old(self)@[0]) && final(self)@ == old(
                self,
            )@.subrange(1, old(self)@.len() as int),
    {
        if self.size == 0 {
            None
        } else {
            let ghost f0: int = self.first_in as int;
            let ghost c: int = self.spec_capacity() as int;
            proof {
                assert(ring_index(f0, 0, c) == f0);
            }
            let v = self.arr.read_at(self.first_in);
            let nf = self.mod_index(1);
            self.first_in = nf;
            self.size = self.size - 1;
            proof {
                assert forall|i: int|
                    0 <= i < self.size implies self.arr.slots()[ring_index(
                    self.first_in as int,
                    i,
                    c,
                )] is Some by {
                    assert(ring_index(self.first_in as int, i, c) == ring_index(f0, i + 1, c));
                }
                assert forall|i: int| 0 <= i < self.size implies self@[i] == old(self)@[i + 1] by {
                    assert(ring_index(self.first_in as int, i, c) == ring_index(f0, i + 1, c));
                }
                assert(self@ =~= old(self)@.subrange(1, old(self)@.len() as int));
            }
            v
        }
    }

    /// Double the capacity of the backing array and move every wrapped
    /// element to the physical slot that the enlarged circular mapping
    /// assigns to it, so that the logical contents are unchanged.
    pub fn resize(&mut self)
        requires
            old(self).wf(),
            old(self).spec_capacity() <= usize::MAX / 2,
        ensures
            final(self).wf(),
            final(self)@ == old(self)@,
            final(self).spec_capacity() == 2 * old(self).spec_capacity(),
    {
        let old_capacity = self.arr.capacity();
        let ghost oc: int = old_capacity as int;
        let ghost f: int = self.first_in as int;
        let ghost n: int = self.size as int;
        self.arr.reallocate(2 * old_capacity);
        let ghost s1: Seq<Option<T>> = self.arr.slots();
        let ghost c2: int = 2 * oc;
        proof {
            assert forall|j: int| 0 <= j < n implies s1[ring_index(f, j, oc)] == old(
                self,
            ).arr.slots()[ring_index(f, j, oc)] && s1[ring_index(f, j, oc)] is Some by {}
        }
        let mut i: usize = 0;
        while i < self.size
            invariant
                0 <= i <= n,
                self.size == n,
                self.first_in as int == f,
                0 <= f < oc,
                n <= oc,
                1 <= oc,
                oc <= usize::MAX / 2,
                old_capacity as int == oc,
                self.arr.slots().len() == c2,
                c2 == 2 * oc,
                s1.len() == c2,
                forall|j: int| 0 <= j < n ==> s1[ring_index(f, j, oc)] is Some,
                forall|j: int|
                    i <= j < n ==> self.arr.slots()[ring_index(f, j, oc)] == s1[ring_index(
                        f,
                        j,
                        oc,
                    )],
                forall|j: int|
                    0 <= j < i ==> self.arr.slots()[ring_index(f, j, c2)] == s1[ring_index(
                        f,
                        j,
                        oc,
                    )],
            decreases n - i,
        {
            let former_idx = (self.first_in + i) % old_capacity;
            let new_idx = (self.first_in + i) % self.arr.capacity();
            proof {
                assert(former_idx as int == ring_index(f, i as int, oc));
                assert(new_idx as int == ring_index(f, i as int, c2));
            }
            if former_idx != new_idx {
                proof {
                    assert(self.arr.slots()[ring_index(f, i as int, oc)] == s1[ring_index(
                        f,
                        i as int,
                        oc,
                    )]);
                    assert(s1[ring_index(f, i as int, oc)] is Some);
                }
                let w = self.arr.read_at(former_idx).unwrap();
                self.arr.write_at(new_idx, w);
            }
            proof {
                assert forall|j: int|
                    i as int + 1 <= j < n implies self.arr.slots()[ring_index(f, j, oc)]
                    == s1[ring_index(f, j, oc)] by {
                    assert(ring_index(f, j, oc) < oc);
                }
                assert forall|j: int|
                    0 <= j < i as int + 1 implies self.arr.slots()[ring_index(f, j, c2)]
                    == s1[ring_index(f, j, oc)] by {
                    if j < i as int {
                        assert(ring_index(f, j, c2) != ring_index(f, i as int, c2));
                    } else {
                        assert(ring_index(f, i as int, oc) == if f + i < oc {
                            f + i
                        } else {
                            f + i - oc
                        });
                    }
                }
            }
            i = i + 1;
        }
        proof {
            assert forall|j: int|
                0 <= j < self.size implies self.arr.slots()[ring_index(
                self.first_in as int,
                j,
                c2,
            )] is Some by {}
            assert forall|j: int| 0 <= j < self.size implies self@[j] == old(self)@[j] by {}
            assert(self@ =~= old(self)@);
        }
    }

    pub fn enqueue(&mut self, val: T)
        requires
            old(self).wf(),
            old(self).spec_capacity() <= usize::MAX / 2,
        ensures
            final(self).wf(),
            final(self)@ == old(self)@.push(val),
            old(self)@.len() == old(self).spec_capacity() ==> final(self).spec_capacity() == 2
                * old(self).spec_capacity(),
            old(self)@.len() < old(self).spec_capacity() ==> final(self).spec_capacity() == old(
                self,
            ).spec_capacity(),
    {
        if self.size >= self.arr.capacity() {
            self.resize();
        }
        let ghost mid: ArrayQueue<T> = *self;
        let ghost f: int = self.first_in as int;
        let ghost c: int = self.spec_capacity() as int;
        let dest_idx = self.mod_index(self.size);
        self.arr.write_at(dest_idx, val);
        self.size = self.size + 1;
        proof {
            assert(mid@ == old(self)@);
            assert forall|i: int|
                0 <= i < self.size implies self.arr.slots()[ring_index(f, i, c)] is Some by {
                if i < mid.size {
                    assert(ring_index(f, i, c) != ring_index(f, mid.size as int, c));
                }
            }
            assert forall|i: int|
                0 <= i < self.size implies self@[i] == old(self)@.push(val)[i] by {
                if i < mid.size {
                    assert(ring_index(f, i, c) != ring_index(f, mid.size as int, c));
                    assert(self@[i] == mid@[i]);
                }
            }
            assert(self@ =~= old(self)@.push(val));
        }
    }

    /// Add at an arbitrary index of the deque, shifting whichever of the
    /// head span and the tail span is shorter.
    #[verifier::rlimit(60)]
    pub fn add(&mut self, idx: usize, val: T)
        requires
            old(self).wf(),
            idx <= old(self)@.len(),
            old(self).spec_capacity() <= usize::MAX / 2,
        ensures
            final(self).wf(),
            final(self)@ == old(self)@.insert(idx as int, val),
            old(self)@.len() == old(self).spec_capacity() ==> final(self).spec_capacity() == 2
                * old(self).spec_capacity(),
            old(self)@.len() < old(self).spec_capacity() ==> final(self).spec_capacity() == old(
                self,
            ).spec_capacity(),
    {
        if self.size >= self.arr.capacity() {
            self.resize();
        }
        let ghost mid: ArrayQueue<T> = *self;
        let ghost c: int = self.spec_capacity() as int;
        let ghost n: int = self.size as int;
        let ghost s1: Seq<Option<T>> = self.arr.slots();
        proof {
            assert(mid@ == old(self)@);
        }
        if idx > self.size / 2 {
            // Shift the tail span one slot to the right.
            let ghost f: int = self.first_in as int;
            let mut i: usize = self.size;
            while i > idx
                invariant
                    idx <= i <= n,
                    self.size == n,
                    self.first_in as int == f,
                    0 <= f < c,
                    n < c,
                    idx <= n,
                    self.arr.slots().len() == c,
                    s1.len() == c,
                    forall|j: int| 0 <= j < n ==> s1[ring_index(f, j, c)] is Some,
                    forall|j: int|
                        0 <= j <= i ==> self.arr.slots()[ring_index(f, j, c)] == s1[ring_index(
                            f,
                            j,
                            c,
                        )],
                    forall|j: int|
                        i < j <= n ==> self.arr.slots()[ring_index(f, j, c)] == s1[ring_index(
                            f,
                            j - 1,
                            c,
                        )],
                decreases i,
            {
                i = i - 1;
                proof {
                    assert(self.arr.slots()[ring_index(f, i as int, c)] == s1[ring_index(
                        f,
                        i as int,
                        c,
                    )]);
                    assert(s1[ring_index(f, i as int, c)] is Some);
                }
                let src = self.mod_index(i);
                let w = self.arr.read_at(src).unwrap();
                let dst = self.mod_index(i + 1);
                self.arr.write_at(dst, w);
                proof {
                    assert forall|j: int|
                        0 <= j <= i implies self.arr.slots()[ring_index(f, j, c)] == s1[ring_index(
                        f,
                        j,
                        c,
                    )] by {
                        assert(ring_index(f, j, c) != ring_index(f, i as int + 1, c));
                    }
                    assert forall|j: int|
                        i < j <= n implies self.arr.slots()[ring_index(f, j, c)] == s1[ring_index(
                        f,
                        j - 1,
                        c,
                    )] by {
                        if j != i as int + 1 {
                            assert(ring_index(f, j, c) != ring_index(f, i as int + 1, c));
                        }
                    }
                }
            }
            let d = self.mod_index(idx);
            self.arr.write_at(d, val);
            self.size = self.size + 1;
            proof {
                assert forall|j: int|
                    0 <= j < self.size implies self.arr.slots()[ring_index(f, j, c)] is Some by {
                    if j < idx {
                        assert(ring_index(f, j, c) != ring_index(f, idx as int, c));
                    } else if j > idx {
                        assert(ring_index(f, j, c) != ring_index(f, idx as int, c));
                    }
                }
                assert forall|j: int|
                    0 <= j < self.size implies self@[j] == old(self)@.insert(idx as int, val)[j] by {
                    if j < idx {
                        assert(ring_index(f, j, c) != ring_index(f, idx as int, c));
                        assert(self@[j] == mid@[j]);
                    } else if j > idx {
                        assert(ring_index(f, j, c) != ring_index(f, idx as int, c));
                        assert(self.arr.slots()[ring_index(f, j, c)] == s1[ring_index(f, j - 1, c)]);
                        assert(self@[j] == mid@[j - 1]);
                    }
                }
                assert(self@ =~= old(self)@.insert(idx as int, val));
            }
        } else {
            // Shift the head span one slot backward, moving the first
            // element to the slot just before the old head.
            let cap = self.arr.capacity();
            let ghost f1: int = self.first_in as int;
            self.first_in = if self.first_in == 0 {
                cap - 1
            } else {
                self.first_in - 1
            };
            let ghost f2: int = self.first_in as int;
            let mut i: usize = 0;
            while i < idx
                invariant
                    0 <= i <= idx,
                    idx <= n,
                    self.size == n,
                    self.first_in as int == f2,
                    0 <= f1 < c,
                    0 <= f2 < c,
                    f2 == if f1 == 0 { c - 1 } else { f1 - 1 },
                    n < c,
                    self.arr.slots().len() == c,
                    s1.len() == c,
                    forall|j: int| 0 <= j < n ==> s1[ring_index(f1, j, c)] is Some,
                    forall|j: int|
                        0 <= j < i ==> self.arr.slots()[ring_index(f2, j, c)] == s1[ring_index(
                            f1,
                            j,
                            c,
                        )],
                    forall|j: int|
                        i <= j < n ==> self.arr.slots()[ring_index(f1, j, c)] == s1[ring_index(
                            f1,
                            j,
                            c,
                        )],
                decreases idx - i,
            {
                proof {
                    assert(ring_index(f2, i as int + 1, c) == ring_index(f1, i as int, c));
                    assert(self.arr.slots()[ring_index(f1, i as int, c)] == s1[ring_index(
                        f1,
                        i as int,
                        c,
                    )]);
                    assert(s1[ring_index(f1, i as int, c)] is Some);
                }
                let src = self.mod_index(i + 1);
                let w = self.arr.read_at(src).unwrap();
                let dst = self.mod_index(i);
                self.arr.write_at(dst, w);
                proof {
                    assert forall|j: int|
                        0 <= j < i as int + 1 implies self.arr.slots()[ring_index(f2, j, c)]
                        == s1[ring_index(f1, j, c)] by {
                        if j < i as int {
                            assert(ring_index(f2, j, c) != ring_index(f2, i as int, c));
                        }
                    }
                    assert forall|j: int|
                        i as int + 1 <= j < n implies self.arr.slots()[ring_index(f1, j, c)]
                        == s1[ring_index(f1, j, c)] by {
                        assert(ring_index(f1, j, c) == ring_index(f2, j + 1, c));
                        assert(ring_index(f2, j + 1, c) != ring_index(f2, i as int, c));
                    }
                }
                i = i + 1;
            }
            let d = self.mod_index(idx);
            self.arr.write_at(d, val);
            self.size = self.size + 1;
            proof {
                assert forall|j: int|
                    0 <= j < self.size implies self.arr.slots()[ring_index(f2, j, c)] is Some by {
                    if j < idx {
                        assert(ring_index(f2, j, c) != ring_index(f2, idx as int, c));
                    } else if j > idx {
                        assert(ring_index(f2, j, c) == ring_index(f1, j - 1, c));
                        assert(ring_index(f2, j, c) != ring_index(f2, idx as int, c));
                    }
                }
                assert forall|j: int|
                    0 <= j < self.size implies self@[j] == old(self)@.insert(idx as int, val)[j] by {
                    if j < idx {
                        assert(ring_index(f2, j, c) != ring_index(f2, idx as int, c));
                        assert(self.arr.slots()[ring_index(f2, j, c)] == s1[ring_index(f1, j, c)]);
                        assert(mid@[j] == s1[ring_index(f1, j, c)]->Some_0);
                    } else if j > idx {
                        assert(ring_index(f2, j, c) == ring_index(f1, j - 1, c));
                        assert(ring_index(f2, j, c) != ring_index(f2, idx as int, c));
                        assert(self.arr.slots()[ring_index(f1, j - 1, c)] == s1[ring_index(
                            f1,
                            j - 1,
                            c,
                        )]);
                        assert(mid@[j - 1] == s1[ring_index(f1, j - 1, c)]->Some_0);
                    }
                }
                assert(self@ =~= old(self)@.insert(idx as int, val));
            }
        }
    }

    /// Remove at an arbitrary index of the deque, shifting whichever of the
    /// head span and the tail span is shorter.
    pub fn remove(&mut self, idx: usize) -> (r: Option<T>)
        requires
            old(self).wf(),
        ensures
            final(self).wf(),
            final(self).spec_capacity() == old(self).spec_capacity(),
            idx < old(self)@.len() ==> r == Some(old(self)@[idx as int]) && final(self)@ == old(
                self,
            )@.remove(idx as int),
            idx >= old(self)@.len() ==> r is None && final(self)@ == old(self)@,
    {
        if idx >= self.size {
            return None;
        }
        let el = self.peek(idx);
        let ghost c: int = self.spec_capacity() as int;
        let ghost n: int = self.size as int;
        let ghost s1: Seq<Option<T>> = self.arr.slots();
        if idx > self.size / 2 {
            // Shift the tail span one slot to the left to cover the gap.
            let ghost f: int = self.first_in as int;
            let mut i: usize = idx;
            while i < self.size - 1
                invariant
                    idx <= i <= n - 1,
                    self.size == n,
                    self.first_in as int == f,
                    0 <= f < c,
                    1 <= n <= c,
                    idx < n,
                    self.arr.slots().len() == c,
                    s1.len() == c,
                    forall|j: int| 0 <= j < n ==> s1[ring_index(f, j, c)] is Some,
                    forall|j: int|
                        idx <= j < i ==> self.arr.slots()[ring_index(f, j, c)] == s1[ring_index(
                            f,
                            j + 1,
                            c,
                        )],
                    forall|j: int|
                        (0 <= j < idx || i <= j < n) ==> self.arr.slots()[ring_index(f, j, c)]
                            == s1[ring_index(f, j, c)],
                decreases n - i,
            {
                proof {
                    assert(self.arr.slots()[ring_index(f, i as int + 1, c)] == s1[ring_index(
                        f,
                        i as int + 1,
                        c,
                    )]);
                    assert(s1[ring_index(f, i as int + 1, c)] is Some);
                }
                let src = self.mod_index(i + 1);
                let w = self.arr.read_at(src).unwrap();
                let dst = self.mod_index(i);
                self.arr.write_at(dst, w);
                proof {
                    assert forall|j: int|
                        idx <= j < i as int + 1 implies self.arr.slots()[ring_index(f, j, c)]
                        == s1[ring_index(f, j + 1, c)] by {
                        if j < i as int {
                            assert(ring_index(f, j, c) != ring_index(f, i as int, c));
                        }
                    }
                    assert forall|j: int|
                        (0 <= j < idx || i as int + 1 <= j < n) implies self.arr.slots()[ring_index(
                        f,
                        j,
                        c,
                    )] == s1[ring_index(f, j, c)] by {
                        assert(ring_index(f, j, c) != ring_index(f, i as int, c));
                    }
                }
                i = i + 1;
            }
            self.size = self.size - 1;
            proof {
                assert forall|j: int|
                    0 <= j < self.size implies self.arr.slots()[ring_index(f, j, c)] is Some by {}
                assert forall|j: int|
                    0 <= j < self.size implies self@[j] == old(self)@.remove(idx as int)[j] by {}
                assert(self@ =~= old(self)@.remove(idx as int));
            }
        } else {
            // Shift the head span one slot to the right and advance the
            // head offset.
            let ghost f: int = self.first_in as int;
            let mut i: usize = idx;
            while i > 0
                invariant
                    0 <= i <= idx,
                    self.size == n,
                    self.first_in as int == f,
                    0 <= f < c,
                    1 <= n <= c,
                    idx < n,
                    self.arr.slots().len() == c,
                    s1.len() == c,
                    forall|j: int| 0 <= j < n ==> s1[ring_index(f, j, c)] is Some,
                    forall|j: int|
                        i <= j < idx ==> self.arr.slots()[ring_index(f, j + 1, c)] == s1[ring_index(
                            f,
                            j,
                            c,
                        )],
                    forall|j: int|
                        0 <= j < i ==> self.arr.slots()[ring_index(f, j, c)] == s1[ring_index(
                            f,
                            j,
                            c,
                        )],
                    forall|j: int|
                        idx < j < n ==> self.arr.slots()[ring_index(f, j, c)] == s1[ring_index(
                            f,
                            j,
                            c,
                        )],
                decreases i,
            {
                i = i - 1;
                proof {
                    assert(self.arr.slots()[ring_index(f, i as int, c)] == s1[ring_index(
                        f,
                        i as int,
                        c,
                    )]);
                    assert(s1[ring_index(f, i as int, c)] is Some);
                }
                let src = self.mod_index(i);
                let w = self.arr.read_at(src).unwrap();
                let dst = self.mod_index(i + 1);
                self.arr.write_at(dst, w);
                proof {
                    assert forall|j: int|
                        i as int <= j < idx implies self.arr.slots()[ring_index(f, j + 1, c)]
                        == s1[ring_index(f, j, c)] by {
                        if j > i as int {
                            assert(ring_index(f, j + 1, c) != ring_index(f, i as int + 1, c));
                        }
                    }
                    assert forall|j: int|
                        0 <= j < i as int implies self.arr.slots()[ring_index(f, j, c)]
                        == s1[ring_index(f, j, c)] by {
                        assert(ring_index(f, j, c) != ring_index(f, i as int + 1, c));
                    }
                    assert forall|j: int|
                        idx < j < n implies self.arr.slots()[ring_index(f, j, c)] == s1[ring_index(
                        f,
                        j,
                        c,
                    )] by {
                        assert(ring_index(f, j, c) != ring_index(f, i as int + 1, c));
                    }
                }
            }
            let nf = self.mod_index(1);
            self.first_in = nf;
            self.size = self.size - 1;
            proof {
                let ghost f2: int = self.first_in as int;
                assert forall|j: int|
                    0 <= j < self.size implies self.arr.slots()[ring_index(f2, j, c)] is Some by {
                    assert(ring_index(f2, j, c) == ring_index(f, j + 1, c));
                    if j < idx {
                        assert(self.arr.slots()[ring_index(f, j + 1, c)] == s1[ring_index(
                            f,
                            j,
                            c,
                        )]);
                    } else {
                        assert(self.arr.slots()[ring_index(f, j + 1, c)] == s1[ring_index(
                            f,
                            j + 1,
                            c,
                        )]);
                    }
                }
                assert forall|j: int|
                    0 <= j < self.size implies self@[j] == old(self)@.remove(idx as int)[j] by {
                    assert(ring_index(f2, j, c) == ring_index(f, j + 1, c));
                    if j < idx {
                        assert(self.arr.slots()[ring_index(f, j + 1, c)] == s1[ring_index(
                            f,
                            j,
                            c,
                        )]);
                    }
                }
                assert(self@ =~= old(self)@.remove(idx as int));
            }
        }
        el
    }
}

/// Contents after enqueuing each value of `values` in order onto a ring
/// holding `s`: every enqueue appends one value at the back.
pub open spec fn after_enqueues<T>(s: Seq<T>, values: Seq<T>) -> Seq<T>
    decreases values.len(),
{
    if values.len() == 0 {
        s
    } else {
        after_enqueues(s.push(values[0]), values.drop_first())
    }
}

/// Contents after dequeuing `k` times from a ring holding `s`: every
/// dequeue drops the front value.
pub open spec fn after_dequeues<T>(s: Seq<T>, k: int) -> Seq<T>
    decreases k,
{
    if k <= 0 {
        s
    } else {
        after_dequeues(s, k - 1).subrange(1, after_dequeues(s, k - 1).len() as int)
    }
}

proof fn lemma_after_enqueues_appends<T>(s: Seq<T>, values: Seq<T>)
    ensures
        after_enqueues(s, values) == s + values,
    decreases values.len(),
{
    if values.len() == 0 {
        assert(s + values =~= s);
    } else {
        lemma_after_enqueues_appends(s.push(values[0]), values.drop_first());
        assert(s.push(values[0]) + values.drop_first() =~= s + values);
    }
}

proof fn lemma_after_dequeues_drops<T>(s: Seq<T>, k: int)
    requires
        0 <= k <= s.len(),
    ensures
        after_dequeues(s, k) == s.subrange(k, s.len() as int),
    decreases k,
{
    if k == 0 {
        assert(s.subrange(0, s.len() as int) =~= s);
    } else {
        lemma_after_dequeues_drops(s, k - 1);
        assert(s.subrange(k - 1, s.len() as int).subrange(1, s.len() - (k - 1)) =~= s.subrange(
            k,
            s.len() as int,
        ));
    }
}

/// FIFO order: for any sequence of enqueues followed by as many dequeues,
/// the dequeues hand the values back in exactly the order they were
/// enqueued.  After the enqueues onto an empty ring the contents are the
/// enqueued values themselves, and the front of the ring after `i`
/// dequeues, which is what the next dequeue returns, is the `i`-th
/// enqueued value.
pub proof fn lemma_fifo_order<T>(values: Seq<T>, i: int)
    requires
        0 <= i < values.len(),
    ensures
        after_enqueues(Seq::<T>::empty(), values) == values,
        after_dequeues(after_enqueues(Seq::<T>::empty(), values), i)[0] == values[i],
{
    lemma_after_enqueues_appends(Seq::<T>::empty(), values);
    assert(Seq::<T>::empty() + values =~= values);
    lemma_after_dequeues_drops(values, i);
}

/// Round trip: inserting a value at any valid position and then removing
/// at that same position restores the exact prior contents.
pub proof fn lemma_add_then_remove_round_trip<T>(s: Seq<T>, idx: int, val: T)
    requires
        0 <= idx <= s.len(),
    ensures
        s.insert(idx, val).remove(idx) == s,
{
    assert(s.insert(idx, val).remove(idx) =~= s);
}

} // verus!
