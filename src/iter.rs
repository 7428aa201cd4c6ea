use crate::SmartBuffer;
use vstd::prelude::*;

verus! {

/// Walks the elements of a buffer it owns, first to last, handing out copies.
pub struct SmartBufferIter<T, const N: usize> {
    smart_buffer: SmartBuffer<T, N>,
    total_elem: usize,
    count: usize,
}

/// Walks the elements of a borrowed buffer, first to last, handing out shared references.
pub struct SmartBufferIterRef<'a, T, const N: usize> {
    smart_buffer: &'a SmartBuffer<T, N>,
    total_elem: usize,
    count: usize,
}

/// Walks the elements of a mutably borrowed buffer, first to last, handing out one
/// mutable reference at a time. `count` is how many elements have been handed out; the
/// walk ends when it reaches the buffer's size.
pub struct SmartBufferIterRefMut<'a, T, const N: usize> {
    pub smart_buffer: &'a mut SmartBuffer<T, N>,
    pub count: usize,
}

impl<T: Copy, const N: usize> SmartBuffer<T, N> {
    /// Consumes the buffer into a walk over its `size` elements.
    pub fn into_iter(self) -> (r: SmartBufferIter<T, N>)
        requires
            self.wf(),
        ensures
            r.wf(),
            r.elements() == self@,
            r.position() == 0,
            r.elements().len() == self.spec_size(),
    {
        proof {
            self.lemma_slots_len();
        }
        let total_elem = self.size;
        SmartBufferIter { smart_buffer: self, total_elem, count: 0 }
    }

    /// A walk over the buffer's `size` elements by shared reference.
    pub fn iter(&self) -> (r: SmartBufferIterRef<'_, T, N>)
        requires
            self.wf(),
        ensures
            r.wf(),
            r.elements() == self@,
            r.position() == 0,
    {
        SmartBufferIterRef { smart_buffer: self, total_elem: self.size, count: 0 }
    }

    /// A walk over the buffer's `size` elements by mutable reference. Once the walk is
    /// over, the buffer holds what the walk left in it.
    pub fn iter_mut(&mut self) -> (r: SmartBufferIterRefMut<'_, T, N>)
        requires
            old(self).wf(),
        ensures
            *r.smart_buffer == *old(self),
            *final(r.smart_buffer) == *final(self),
            r.count == 0,
    {
        SmartBufferIterRefMut { smart_buffer: self, count: 0 }
    }
}

impl<T: Copy, const N: usize> SmartBufferIter<T, N> {
    /// The elements the walk yields, in order.
    pub closed spec fn elements(&self) -> Seq<T> {
        self.smart_buffer@
    }

    /// How many elements the walk has yielded so far.
    pub closed spec fn position(&self) -> nat {
        self.count as nat
    }

    /// The walk's invariant: it stops at the buffer's size.
    pub closed spec fn wf(&self) -> bool {
        &&& self.smart_buffer.wf()
        &&& self.total_elem == self.smart_buffer.spec_size()
        &&& self.count <= self.total_elem
    }

    /// The next element, or `None` once all `size` elements have been yielded.
    pub fn next(&mut self) -> (r: Option<T>)
        requires
            old(self).wf(),
        ensures
            final(self).wf(),
            final(self).elements() == old(self).elements(),
            final(self).position() <= final(self).elements().len(),
            old(self).position() < old(self).elements().len() ==> {
                &&& r == Some(old(self).elements()[old(self).position() as int])
                &&& final(self).position() == old(self).position() + 1
            },
            old(self).position() >= old(self).elements().len() ==> {
                &&& r is None
                &&& final(self).position() == old(self).position()
            },
    {
        proof {
            self.smart_buffer.lemma_slots_len();
        }
        if self.count < self.total_elem {
            let i = self.count;
            self.count = i + 1;
            Some(*self.smart_buffer.slot(i))
        } else {
            None
        }
    }
}

impl<'a, T: Copy, const N: usize> SmartBufferIterRef<'a, T, N> {
    /// The elements the walk yields, in order.
    pub closed spec fn elements(&self) -> Seq<T> {
        self.smart_buffer@
    }

    /// How many elements the walk has yielded so far.
    pub closed spec fn position(&self) -> nat {
        self.count as nat
    }

    /// The walk's invariant: it stops at the buffer's size.
    pub closed spec fn wf(&self) -> bool {
        &&& self.smart_buffer.wf()
        &&& self.total_elem == self.smart_buffer.spec_size()
        &&& self.count <= self.total_elem
    }

    /// A reference to the next element, or `None` once all `size` elements have been
    /// yielded.
    pub fn next(&mut self) -> (r: Option<&'a T>)
        requires
            old(self).wf(),
        ensures
            final(self).wf(),
            final(self).elements() == old(self).elements(),
            old(self).position() < old(self).elements().len() ==> {
                &&& r == Some(&old(self).elements()[old(self).position() as int])
                &&& final(self).position() == old(self).position() + 1
            },
            old(self).position() >= old(self).elements().len() ==> {
                &&& r is None
                &&& final(self).position() == old(self).position()
            },
    {
        proof {
            self.smart_buffer.lemma_slots_len();
        }
        if self.count < self.total_elem {
            let i = self.count;
            self.count = i + 1;
            let b: &'a SmartBuffer<T, N> = self.smart_buffer;
            Some(b.slot(i))
        } else {
            None
        }
    }
}

impl<'a, T: Copy, const N: usize> SmartBufferIterRefMut<'a, T, N> {
    /// A mutable reference to the next element, or `None` once `size` elements have been
    /// handed out. What is written through the reference lands in that element's slot.
    pub fn next(&mut self) -> (r: Option<&mut T>)
        requires
            old(self).smart_buffer.wf(),
        ensures
            final(self).smart_buffer.wf(),
            *final(final(self).smart_buffer) == *final(old(self).smart_buffer),
            final(self).smart_buffer.spec_size() == old(self).smart_buffer.spec_size(),
            final(self).smart_buffer.spec_capacity() == old(self).smart_buffer.spec_capacity(),
            final(self).smart_buffer.fill() == old(self).smart_buffer.fill(),
            old(self).count < old(self).smart_buffer.spec_size() ==> {
                &&& r matches Some(e)
                &&& *e == old(self).smart_buffer.slots()[old(self).count as int]
                &&& final(self).smart_buffer.slots() == old(self).smart_buffer.slots().update(
                    old(self).count as int,
                    *final(e),
                )
                &&& final(self).count == old(self).count + 1
            },
            old(self).count >= old(self).smart_buffer.spec_size() ==> {
                &&& r is None
                &&& *final(self).smart_buffer == *old(self).smart_buffer
                &&& final(self).count == old(self).count
            },
    {
        if self.count < self.smart_buffer.get_size() {
            let i = self.count;
            self.count = i + 1;
            Some(self.smart_buffer.get_mut_unchecked(i))
        } else {
            None
        }
    }
}

} // verus!
