use vstd::prelude::*;
use vstd::std_specs::cmp::PartialEqSpec;

pub mod into;
pub mod iter;
pub mod proofs;

verus! {

/// `count` copies of `value`.
pub open spec fn repeated<T>(value: T, count: nat) -> Seq<T> {
    Seq::new(count, |i: int| value)
}

/// The larger of the inline length and the requested total length.
pub open spec fn capacity_for(n: nat, len: nat) -> nat {
    if len > n {
        len
    } else {
        n
    }
}

/// `s` moved `c` places towards the front; the `c` places freed at the end hold `fill`.
pub open spec fn shifted_left<T>(s: Seq<T>, c: nat, fill: T) -> Seq<T> {
    Seq::new(s.len(), |i: int| if i + c < s.len() { s[i + c] } else { fill })
}

/// `s` moved `c` places towards the end; the `c` places freed at the front hold `fill`
/// and the last `c` elements are dropped.
pub open spec fn shifted_right<T>(s: Seq<T>, c: nat, fill: T) -> Seq<T> {
    Seq::new(s.len(), |i: int| if i < c { fill } else { s[i - c] })
}

/// `s` with the elements of `xs` written from position `at` on, as far as `s` reaches.
pub open spec fn written_from<T>(s: Seq<T>, at: int, xs: Seq<T>) -> Seq<T> {
    Seq::new(s.len(), |i: int| if at <= i < at + xs.len() { xs[i - at] } else { s[i] })
}

/// How many of `count` elements appended one by one after `size` fit in `capacity` slots.
pub open spec fn room_for(size: nat, capacity: nat, count: nat) -> nat {
    if size + count <= capacity {
        count
    } else if size <= capacity {
        (capacity - size) as nat
    } else {
        0
    }
}

/// The size after writing `count` elements one by one from position `at`: each write
/// below `capacity` at a position past the size moves the size up to that position.
pub open spec fn size_after_writes(size: nat, capacity: nat, at: nat, count: nat) -> nat {
    if count == 0 || at >= capacity {
        size
    } else {
        let last = if at + count <= capacity {
            (at + count - 1) as nat
        } else {
            (capacity - 1) as nat
        };
        if last > size {
            last
        } else {
            size
        }
    }
}

/// The number of leading elements of `s` that do not equal `fill`, by `T`'s `==`.
pub open spec fn leading_unfilled<T: PartialEq>(s: Seq<T>, fill: T) -> nat
    decreases s.len(),
{
    if s.len() == 0 {
        0
    } else if s[0].eq_spec(&fill) {
        0
    } else {
        1 + leading_unfilled(s.drop_first(), fill)
    }
}

/// A position `k` that comes before every element equal to `fill` and stands at one such
/// element, or at the end, is the number of leading elements unequal to `fill`.
pub proof fn lemma_leading_unfilled<T: PartialEq>(s: Seq<T>, fill: T, k: nat)
    requires
        k <= s.len(),
        forall|j: int| 0 <= j < k ==> !(#[trigger] s[j]).eq_spec(&fill),
        k < s.len() ==> s[k as int].eq_spec(&fill),
    ensures
        leading_unfilled(s, fill) == k,
    decreases k,
{
    if k > 0 {
        assert(!s[0].eq_spec(&fill));
        let t = s.drop_first();
        assert forall|j: int| 0 <= j < k - 1 implies !(#[trigger] t[j]).eq_spec(&fill) by {
            assert(t[j] == s[j + 1]);
        }
        lemma_leading_unfilled(t, fill, (k - 1) as nat);
    }
}

/// A fixed-capacity sequence whose first `N` slots live inline and whose
/// remaining slots live in one overflow vector made at construction.
pub struct SmartBuffer<T, const N: usize> {
    s_buf: [T; N],
    d_buf: Option<Vec<T>>,
    size: usize,
    capacity: usize,
    default: T,
}

impl<T: Copy, const N: usize> View for SmartBuffer<T, N> {
    type V = Seq<T>;

    /// The logical contents: the first `size` slots.
    closed spec fn view(&self) -> Seq<T> {
        self.slots().take(self.size as int)
    }
}

impl<T: Copy, const N: usize> SmartBuffer<T, N> {
    /// Every slot of the buffer, inline region first, then the overflow region.
    pub closed spec fn slots(&self) -> Seq<T> {
        match self.d_buf {
            Some(v) => self.s_buf@ + v@,
            None => self.s_buf@,
        }
    }

    /// The number of elements: the slots below it are the buffer's contents.
    pub closed spec fn spec_size(&self) -> nat {
        self.size as nat
    }

    /// The number of slots, fixed at construction.
    pub closed spec fn spec_capacity(&self) -> nat {
        self.capacity as nat
    }

    /// The value that fills empty slots.
    pub closed spec fn fill(&self) -> T {
        self.default
    }

    /// Whether the buffer has an overflow region.
    pub closed spec fn has_overflow(&self) -> bool {
        self.d_buf is Some
    }

    /// Number of slots in the overflow region (zero when there is none).
    pub closed spec fn overflow_len(&self) -> nat {
        match self.d_buf {
            Some(v) => v@.len(),
            None => 0,
        }
    }

    /// The buffer's invariant.
    pub closed spec fn wf(&self) -> bool {
        &&& N <= self.capacity
        &&& self.size <= self.capacity
        &&& (self.d_buf is Some <==> self.capacity > N)
        &&& self.capacity == N + self.overflow_len()
    }

    /// A well-formed buffer has one slot per unit of capacity, and its contents are its
    /// first `size` slots.
    pub proof fn lemma_slots_len(&self)
        requires
            self.wf(),
        ensures
            self.slots().len() == self.spec_capacity(),
            self@ == self.slots().take(self.spec_size() as int),
            self@.len() == self.spec_size(),
    {
    }

    /// Reads slot `i`, from the inline region below `N` and from the overflow region above.
    fn slot(&self, i: usize) -> (r: &T)
        requires
            self.wf(),
            i < self.spec_capacity(),
        ensures
            *r == self.slots()[i as int],
    {
        if i < N {
            &self.s_buf[i]
        } else {
            let v = self.d_buf.as_ref().unwrap();
            &v[i - N]
        }
    }

    /// Writes slot `i`, into the inline region below `N` and into the overflow region above.
    fn set_slot(&mut self, i: usize, value: T)
        requires
            old(self).wf(),
            i < old(self).spec_capacity(),
        ensures
            final(self).wf(),
            final(self).slots() == old(self).slots().update(i as int, value),
            final(self).spec_size() == old(self).spec_size(),
            final(self).spec_capacity() == old(self).spec_capacity(),
            final(self).fill() == old(self).fill(),
            final(self).has_overflow() == old(self).has_overflow(),
    {
        if i < N {
            self.s_buf[i] = value;
            proof {
                assert(self.slots() =~= old(self).slots().update(i as int, value));
            }
        } else {
            match &mut self.d_buf {
                Some(v) => {
                    v[i - N] = value;
                },
                None => {},
            }
            proof {
                assert(self.slots() =~= old(self).slots().update(i as int, value));
            }
        }
    }

    /// Makes the overflow region of `count` slots holding `value`, once, at construction.
    fn allocate(&mut self, count: usize, value: T)
        requires
            old(self).wf(),
            old(self).d_buf is None,
            old(self).capacity == N,
            count > 0,
            N + count <= usize::MAX,
        ensures
            final(self).wf(),
            final(self).slots() == old(self).slots() + repeated(value, count as nat),
            final(self).spec_size() == old(self).spec_size(),
            final(self).spec_capacity() == N + count,
            final(self).overflow_len() == count,
            final(self).has_overflow(),
            final(self).fill() == old(self).fill(),
    {
        let mut v: Vec<T> = Vec::new();
        let mut k: usize = 0;
        while k < count
            invariant
                k <= count,
                v@ == repeated(value, k as nat),
            decreases count - k,
        {
            v.push(value);
            k += 1;
            proof {
                assert(v@ =~= repeated(value, k as nat));
            }
        }
        self.d_buf = Some(v);
        self.capacity = N + count;
    }

    /// Makes a buffer whose every slot holds `value`, which is also its fill value, with
    /// room for `len` elements (at least `N`) and size 0.
    pub fn new(value: T, len: usize) -> (r: Self)
        ensures
            r.wf(),
            r.spec_size() == 0,
            r.spec_capacity() == capacity_for(N as nat, len as nat),
            r.slots() == repeated(value, r.spec_capacity()),
            r.fill() == value,
    {
        let s_buf: [T; N] = [value; N];
        let mut buf = SmartBuffer { s_buf, d_buf: None, size: 0, capacity: N, default: value };
        proof {
            assert(buf.slots() =~= repeated(value, N as nat));
        }
        if N < len {
            buf.allocate(len - N, value);
            proof {
                assert(buf.slots() =~= repeated(value, len as nat));
            }
        }
        buf
    }

    /// Makes a buffer whose inline region is `buf`, with room for `len` elements (at least
    /// `N`). The first element of `buf` becomes the fill value and fills the overflow region;
    /// the size is `N` when `set_size` holds and 0 otherwise.
    pub fn from_arr(buf: [T; N], len: usize, set_size: bool) -> (r: Self)
        requires
            N > 0,
        ensures
            r.wf(),
            r.spec_size() == (if set_size { N as nat } else { 0 }),
            r.spec_capacity() == capacity_for(N as nat, len as nat),
            r.slots() == buf@ + repeated(buf@[0], (r.spec_capacity() - N) as nat),
            r.fill() == buf@[0],
    {
        let def = buf[0];
        let mut b = SmartBuffer {
            s_buf: buf,
            d_buf: None,
            size: if set_size {
                N
            } else {
                0
            },
            capacity: N,
            default: def,
        };
        proof {
            assert(b.slots() =~= buf@ + repeated(def, 0));
        }
        if N < len {
            b.allocate(len - N, def);
        }
        b
    }

    /// The number of elements in the buffer.
    pub fn get_size(&self) -> (r: usize)
        ensures
            r == self.spec_size(),
    {
        self.size
    }

    /// The number of slots, inline and overflow together.
    pub fn get_capacity(&self) -> (r: usize)
        ensures
            r == self.spec_capacity(),
    {
        self.capacity
    }

    /// Sets the size to `size` when it is below the capacity; otherwise does nothing.
    /// The slots are not touched.
    pub fn set_size(&mut self, size: usize)
        requires
            old(self).wf(),
        ensures
            final(self).wf(),
            final(self).slots() == old(self).slots(),
            final(self).spec_capacity() == old(self).spec_capacity(),
            final(self).fill() == old(self).fill(),
            final(self).has_overflow() == old(self).has_overflow(),
            final(self).spec_size() == (if size < old(self).spec_capacity() {
                size as nat
            } else {
                old(self).spec_size()
            }),
    {
        if size < self.capacity {
            self.size = size;
        }
    }

    /// Appends `other` at position `size` when the buffer is not full; a full buffer is
    /// left as it is.
    pub fn push(&mut self, other: T)
        requires
            old(self).wf(),
        ensures
            final(self).wf(),
            final(self).spec_capacity() == old(self).spec_capacity(),
            final(self).fill() == old(self).fill(),
            final(self).has_overflow() == old(self).has_overflow(),
            old(self).spec_size() < old(self).spec_capacity() ==> {
                &&& final(self).slots() == old(self).slots().update(
                    old(self).spec_size() as int,
                    other,
                )
                &&& final(self).spec_size() == old(self).spec_size() + 1
            },
            old(self).spec_size() >= old(self).spec_capacity() ==> {
                &&& final(self).slots() == old(self).slots()
                &&& final(self).spec_size() == old(self).spec_size()
            },
    {
        if self.size < self.capacity {
            let at = self.size;
            self.set_slot(at, other);
            self.size = at + 1;
        }
    }

    /// Writes `other` at slot `index` when it is below the capacity, and moves the size up
    /// to `index` when `index` is past it; an index past the capacity does nothing.
    pub fn insert(&mut self, other: T, index: usize)
        requires
            old(self).wf(),
        ensures
            final(self).wf(),
            final(self).spec_capacity() == old(self).spec_capacity(),
            final(self).fill() == old(self).fill(),
            final(self).has_overflow() == old(self).has_overflow(),
            index < old(self).spec_capacity() ==> {
                &&& final(self).slots() == old(self).slots().update(index as int, other)
                &&& final(self).spec_size() == (if index > old(self).spec_size() {
                    index as nat
                } else {
                    old(self).spec_size()
                })
            },
            index >= old(self).spec_capacity() ==> {
                &&& final(self).slots() == old(self).slots()
                &&& final(self).spec_size() == old(self).spec_size()
            },
    {
        if index < self.capacity {
            self.set_slot(index, other);
            if index > self.size {
                self.size = index;
            }
        }
    }

    /// The element at slot `index`, or `None` when `index` is not below the capacity.
    pub fn get(&self, index: usize) -> (r: Option<&T>)
        requires
            self.wf(),
        ensures
            index < self.spec_capacity() ==> r == Some(&self.slots()[index as int]),
            index >= self.spec_capacity() ==> r is None,
    {
        if index < self.capacity {
            Some(self.slot(index))
        } else {
            None
        }
    }

    /// The element at slot `index`, which must be below the capacity.
    pub fn get_unchecked(&self, index: usize) -> (r: &T)
        requires
            self.wf(),
            index < self.spec_capacity(),
        ensures
            *r == self.slots()[index as int],
    {
        self.slot(index)
    }

    /// A mutable reference to slot `index`, which must be below the capacity; what is
    /// written through it lands in that slot.
    pub fn get_mut_unchecked(&mut self, index: usize) -> (r: &mut T)
        requires
            old(self).wf(),
            index < old(self).spec_capacity(),
        ensures
            *r == old(self).slots()[index as int],
            final(self).wf(),
            final(self).slots() == old(self).slots().update(index as int, *final(r)),
            final(self).spec_size() == old(self).spec_size(),
            final(self).spec_capacity() == old(self).spec_capacity(),
            final(self).fill() == old(self).fill(),
            final(self).has_overflow() == old(self).has_overflow(),
    {
        if index < N {
            &mut self.s_buf[index]
        } else {
            let v = self.d_buf.as_mut().unwrap();
            &mut v[index - N]
        }
    }
    /// Moves every slot `count` places towards the front across the whole storage, inline
    /// and overflow together; the last `count` slots get the fill value.
    pub fn shl(&mut self, count: usize)
        requires
            old(self).wf(),
            count <= N,
        ensures
            final(self).wf(),
            final(self).slots() == shifted_left(old(self).slots(), count as nat, old(self).fill()),
            final(self).spec_size() == old(self).spec_size(),
            final(self).spec_capacity() == old(self).spec_capacity(),
            final(self).fill() == old(self).fill(),
            final(self).has_overflow() == old(self).has_overflow(),
    {
        let cap = self.capacity;
        let fill = self.default;
        let ghost before = self.slots();
        let ghost target = shifted_left(before, count as nat, fill);
        let mut i: usize = 0;
        while i < cap
            invariant
                self.wf(),
                cap == self.spec_capacity(),
                count <= N <= cap,
                i <= cap,
                fill == self.fill(),
                before == old(self).slots(),
                target == shifted_left(before, count as nat, fill),
                fill == old(self).fill(),
                self.spec_size() == old(self).spec_size(),
                self.spec_capacity() == old(self).spec_capacity(),
                self.has_overflow() == old(self).has_overflow(),
                self.slots().len() == cap,
                before.len() == cap,
                forall|j: int| 0 <= j < i ==> self.slots()[j] == target[j],
                forall|j: int| i <= j < cap ==> self.slots()[j] == before[j],
            decreases cap - i,
        {
            let v = if i < cap - count {
                *self.slot(i + count)
            } else {
                fill
            };
            self.set_slot(i, v);
            i += 1;
        }
        proof {
            assert(self.slots() =~= target);
        }
    }

    /// Moves every slot `count` places towards the end across the whole storage, inline
    /// and overflow together; the first `count` slots get the fill value and the last
    /// `count` elements are dropped.
    pub fn shr(&mut self, count: usize)
        requires
            old(self).wf(),
            count <= N,
        ensures
            final(self).wf(),
            final(self).slots() == shifted_right(old(self).slots(), count as nat, old(self).fill()),
            final(self).spec_size() == old(self).spec_size(),
            final(self).spec_capacity() == old(self).spec_capacity(),
            final(self).fill() == old(self).fill(),
            final(self).has_overflow() == old(self).has_overflow(),
    {
        let cap = self.capacity;
        let fill = self.default;
        let ghost before = self.slots();
        let ghost target = shifted_right(before, count as nat, fill);
        let mut i: usize = cap;
        while i > 0
            invariant
                self.wf(),
                cap == self.spec_capacity(),
                count <= N <= cap,
                i <= cap,
                fill == self.fill(),
                before == old(self).slots(),
                target == shifted_right(before, count as nat, fill),
                fill == old(self).fill(),
                self.spec_size() == old(self).spec_size(),
                self.spec_capacity() == old(self).spec_capacity(),
                self.has_overflow() == old(self).has_overflow(),
                self.slots().len() == cap,
                before.len() == cap,
                forall|j: int| i <= j < cap ==> self.slots()[j] == target[j],
                forall|j: int| 0 <= j < i ==> self.slots()[j] == before[j],
            decreases i,
        {
            let at = i - 1;
            let v = if at >= count {
                *self.slot(at - count)
            } else {
                fill
            };
            self.set_slot(at, v);
            i = at;
        }
        proof {
            assert(self.slots() =~= target);
        }
    }

    /// Writes the fill value into every slot; the size stays as it is.
    pub fn clear(&mut self)
        requires
            old(self).wf(),
        ensures
            final(self).wf(),
            final(self).slots() == repeated(old(self).fill(), old(self).spec_capacity()),
            final(self).spec_size() == old(self).spec_size(),
            final(self).spec_capacity() == old(self).spec_capacity(),
            final(self).fill() == old(self).fill(),
            final(self).has_overflow() == old(self).has_overflow(),
    {
        let cap = self.capacity;
        let fill = self.default;
        let mut i: usize = 0;
        while i < cap
            invariant
                self.wf(),
                cap == self.spec_capacity(),
                i <= cap,
                fill == self.fill(),
                fill == old(self).fill(),
                self.spec_size() == old(self).spec_size(),
                self.spec_capacity() == old(self).spec_capacity(),
                self.has_overflow() == old(self).has_overflow(),
                self.slots().len() == cap,
                forall|j: int| 0 <= j < i ==> self.slots()[j] == fill,
            decreases cap - i,
        {
            self.set_slot(i, fill);
            i += 1;
        }
        proof {
            assert(self.slots() =~= repeated(fill, cap as nat));
        }
    }

    /// Appends the elements of `slice` in order, as `push` does, until the buffer is full;
    /// the rest are dropped.
    pub fn insert_slice(&mut self, slice: &[T])
        requires
            old(self).wf(),
        ensures
            final(self).wf(),
            final(self).slots() == written_from(
                old(self).slots(),
                old(self).spec_size() as int,
                slice@.take(
                    room_for(old(self).spec_size(), old(self).spec_capacity(), slice@.len()) as int,
                ),
            ),
            final(self).spec_size() == old(self).spec_size() + room_for(
                old(self).spec_size(),
                old(self).spec_capacity(),
                slice@.len(),
            ),
            final(self).spec_capacity() == old(self).spec_capacity(),
            final(self).fill() == old(self).fill(),
            final(self).has_overflow() == old(self).has_overflow(),
    {
        let ghost before = self.slots();
        let ghost size0 = self.spec_size();
        let ghost cap = self.spec_capacity();
        let mut j: usize = 0;
        while j < slice.len()
            invariant
                self.wf(),
                j <= slice@.len(),
                before == old(self).slots(),
                size0 == old(self).spec_size(),
                cap == old(self).spec_capacity(),
                size0 <= cap,
                before.len() == cap,
                self.slots() == written_from(
                    before,
                    size0 as int,
                    slice@.take(room_for(size0, cap, j as nat) as int),
                ),
                self.spec_size() == size0 + room_for(size0, cap, j as nat),
                self.spec_capacity() == cap,
                self.fill() == old(self).fill(),
                self.has_overflow() == old(self).has_overflow(),
            decreases slice@.len() - j,
        {
            proof {
                self.lemma_slots_len();
            }
            self.push(slice[j]);
            j += 1;
            proof {
                assert(self.slots() =~= written_from(
                    before,
                    size0 as int,
                    slice@.take(room_for(size0, cap, j as nat) as int),
                ));
            }
        }
    }

    /// Appends the elements of `arr` in order, as `push` does, until the buffer is full;
    /// the rest are dropped.
    pub fn insert_arr<const M: usize>(&mut self, arr: &[T; M])
        requires
            old(self).wf(),
        ensures
            final(self).wf(),
            final(self).slots() == written_from(
                old(self).slots(),
                old(self).spec_size() as int,
                arr@.take(room_for(old(self).spec_size(), old(self).spec_capacity(), M as nat) as int),
            ),
            final(self).spec_size() == old(self).spec_size() + room_for(
                old(self).spec_size(),
                old(self).spec_capacity(),
                M as nat,
            ),
            final(self).spec_capacity() == old(self).spec_capacity(),
            final(self).fill() == old(self).fill(),
            final(self).has_overflow() == old(self).has_overflow(),
    {
        self.insert_slice(arr.as_slice());
    }

    /// Writes the elements of `slice` into the slots from `index` on, as `insert` does one
    /// by one; elements that would land at or past the capacity are dropped.
    pub fn insert_slice_at(&mut self, slice: &[T], index: usize)
        requires
            old(self).wf(),
        ensures
            final(self).wf(),
            final(self).slots() == written_from(old(self).slots(), index as int, slice@),
            final(self).spec_size() == size_after_writes(
                old(self).spec_size(),
                old(self).spec_capacity(),
                index as nat,
                slice@.len(),
            ),
            final(self).spec_capacity() == old(self).spec_capacity(),
            final(self).fill() == old(self).fill(),
            final(self).has_overflow() == old(self).has_overflow(),
    {
        let ghost before = self.slots();
        let ghost size0 = self.spec_size();
        let cap = self.capacity;
        let mut j: usize = 0;
        while j < slice.len()
            invariant
                self.wf(),
                j <= slice@.len(),
                before == old(self).slots(),
                size0 == old(self).spec_size(),
                cap == old(self).spec_capacity(),
                size0 <= cap,
                before.len() == cap,
                self.slots() == written_from(before, index as int, slice@.take(j as int)),
                self.spec_size() == size_after_writes(size0, cap as nat, index as nat, j as nat),
                self.spec_capacity() == cap,
                self.fill() == old(self).fill(),
                self.has_overflow() == old(self).has_overflow(),
            decreases slice@.len() - j,
        {
            proof {
                self.lemma_slots_len();
            }
            if index < cap && j < cap - index {
                self.insert(slice[j], index + j);
            }
            j += 1;
            proof {
                assert(self.slots() =~= written_from(before, index as int, slice@.take(j as int)));
            }
        }
        proof {
            assert(slice@.take(j as int) =~= slice@);
        }
    }

    /// Replaces each of the first `size` elements `x` by `f(x)`; the other slots stay.
    pub fn map<F>(&mut self, f: F)
        where
            F: Fn(T) -> T,
        requires
            old(self).wf(),
            forall|i: int| 0 <= i < old(self).spec_size() ==> f.requires((old(self).slots()[i],)),
        ensures
            final(self).wf(),
            final(self).slots().len() == old(self).slots().len(),
            forall|i: int|
                0 <= i < old(self).spec_size() ==> f.ensures(
                    (old(self).slots()[i],),
                    #[trigger] final(self).slots()[i],
                ),
            forall|i: int|
                old(self).spec_size() <= i < old(self).spec_capacity() ==> final(self).slots()[i]
                    == old(self).slots()[i],
            final(self).spec_size() == old(self).spec_size(),
            final(self).spec_capacity() == old(self).spec_capacity(),
            final(self).fill() == old(self).fill(),
            final(self).has_overflow() == old(self).has_overflow(),
    {
        let ghost before = self.slots();
        let n = self.size;
        let mut i: usize = 0;
        while i < n
            invariant
                self.wf(),
                i <= n,
                n == old(self).spec_size(),
                before == old(self).slots(),
                n <= self.spec_capacity(),
                self.slots().len() == before.len(),
                before.len() == old(self).spec_capacity(),
                forall|k: int| 0 <= k < n ==> f.requires((before[k],)),
                forall|k: int| 0 <= k < i ==> f.ensures((before[k],), #[trigger] self.slots()[k]),
                forall|k: int| i <= k < before.len() ==> self.slots()[k] == before[k],
                self.spec_size() == old(self).spec_size(),
                self.spec_capacity() == old(self).spec_capacity(),
                self.fill() == old(self).fill(),
                self.has_overflow() == old(self).has_overflow(),
            decreases n - i,
        {
            proof {
                self.lemma_slots_len();
            }
            let x = *self.slot(i);
            proof {
                assert(x == before[i as int]);
            }
            let y = f(x);
            self.set_slot(i, y);
            i += 1;
        }
    }
}

impl<T: Copy + PartialEq, const N: usize> SmartBuffer<T, N> {
    /// Counts the elements, from the first, up to the first one equal to the fill value
    /// (or all of them), and sets the size to that count plus one when it does not exceed
    /// the capacity; otherwise the size stays as it is.
    pub fn calc_size(&mut self)
        requires
            old(self).wf(),
        ensures
            final(self).wf(),
            final(self).slots() == old(self).slots(),
            final(self).spec_capacity() == old(self).spec_capacity(),
            final(self).fill() == old(self).fill(),
            final(self).has_overflow() == old(self).has_overflow(),
            T::obeys_eq_spec() ==> final(self).spec_size() == (if leading_unfilled(
                old(self)@,
                old(self).fill(),
            ) < old(self).spec_capacity() {
                leading_unfilled(old(self)@, old(self).fill()) + 1
            } else {
                old(self).spec_size()
            }),
    {
        let fill = self.default;
        let n = self.size;
        let ghost s = self@;
        proof {
            self.lemma_slots_len();
        }
        let mut k: usize = 0;
        while k < n
            invariant
                self.wf(),
                k <= n,
                n == self.spec_size(),
                fill == self.fill(),
                s == self@,
                s.len() == n,
                T::obeys_eq_spec() ==> forall|j: int| 0 <= j < k ==> !(#[trigger] s[j]).eq_spec(&fill),
            ensures
                k <= n,
                T::obeys_eq_spec() ==> forall|j: int| 0 <= j < k ==> !(#[trigger] s[j]).eq_spec(&fill),
                T::obeys_eq_spec() ==> (k < n ==> s[k as int].eq_spec(&fill)),
            decreases n - k,
        {
            if *self.slot(k) == fill {
                break;
            }
            k += 1;
        }
        proof {
            if T::obeys_eq_spec() {
                lemma_leading_unfilled(s, fill, k as nat);
            }
        }
        if k < self.capacity {
            self.size = k + 1;
        }
    }
}

impl<T: Copy, const N: usize> Clone for SmartBuffer<T, N> {
    /// A buffer with the same slots, size, capacity and fill value, and an overflow region
    /// of its own.
    fn clone(&self) -> (r: Self)
        ensures
            r.wf() == self.wf(),
            r.slots() == self.slots(),
            r.spec_size() == self.spec_size(),
            r.spec_capacity() == self.spec_capacity(),
            r.fill() == self.fill(),
            r.has_overflow() == self.has_overflow(),
            r.overflow_len() == self.overflow_len(),
            r@ == self@,
    {
        let d_buf = match &self.d_buf {
            Some(v) => {
                let mut w: Vec<T> = Vec::new();
                let mut i: usize = 0;
                while i < v.len()
                    invariant
                        i <= v@.len(),
                        w@ == v@.take(i as int),
                    decreases v@.len() - i,
                {
                    w.push(v[i]);
                    i += 1;
                    proof {
                        assert(w@ =~= v@.take(i as int));
                    }
                }
                proof {
                    assert(w@ =~= v@);
                }
                Some(w)
            },
            None => None,
        };
        SmartBuffer {
            s_buf: self.s_buf,
            d_buf,
            size: self.size,
            capacity: self.capacity,
            default: self.default,
        }
    }
}

/// A marker value with no contents.
#[non_exhaustive]
pub struct Token;

impl Token {
    pub fn new() -> (r: Self) {
        Token
    }
}

} // verus!
