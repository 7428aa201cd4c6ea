use crate::{capacity_for, leading_unfilled, repeated, room_for, written_from, SmartBuffer};
use vstd::prelude::*;
use vstd::std_specs::cmp::PartialEqSpec;

verus! {

/// The capacity is the inline length plus the overflow length, and the overflow region
/// exists exactly when the capacity exceeds the inline length.
pub proof fn lemma_capacity_split<T: Copy, const N: usize>(b: SmartBuffer<T, N>)
    requires
        b.wf(),
    ensures
        b.spec_capacity() == N + b.overflow_len(),
        b.has_overflow() <==> b.spec_capacity() > N,
        b.slots().len() == b.spec_capacity(),
{
    b.lemma_slots_len();
}

/// A value written at any slot below the capacity, inline or overflow, by `insert` is what
/// `get` then reads at that slot.
pub proof fn lemma_read_after_insert<T: Copy, const N: usize>(
    before: SmartBuffer<T, N>,
    after: SmartBuffer<T, N>,
    value: T,
    index: usize,
)
    requires
        before.wf(),
        index < before.spec_capacity(),
        after.slots() == before.slots().update(index as int, value),
    ensures
        after.slots()[index as int] == value,
{
    before.lemma_slots_len();
}

/// A value appended by `push` to a buffer that is not full is what `get` then reads at the
/// old size, and it is the last element of the new contents.
pub proof fn lemma_read_after_push<T: Copy, const N: usize>(
    before: SmartBuffer<T, N>,
    after: SmartBuffer<T, N>,
    value: T,
)
    requires
        before.wf(),
        after.wf(),
        before.spec_size() < before.spec_capacity(),
        after.slots() == before.slots().update(before.spec_size() as int, value),
        after.spec_size() == before.spec_size() + 1,
    ensures
        after.slots()[before.spec_size() as int] == value,
        after@ == before@.push(value),
{
    before.lemma_slots_len();
    after.lemma_slots_len();
    assert(after@ =~= before@.push(value));
}

/// After `clear`, `calc_size` sets the size to 1: the first slot holds the fill value, so
/// no element precedes it. This needs the fill value to equal itself under `==` and a
/// capacity of at least 1 (a size of 1 must fit the capacity to be set).
pub proof fn lemma_clear_then_calc_size<T: Copy + PartialEq, const N: usize>(
    before: SmartBuffer<T, N>,
    cleared: SmartBuffer<T, N>,
)
    requires
        before.wf(),
        cleared.wf(),
        cleared.slots() == repeated(before.fill(), before.spec_capacity()),
        cleared.spec_size() == before.spec_size(),
        cleared.spec_capacity() == before.spec_capacity(),
        cleared.fill() == before.fill(),
        before.fill().eq_spec(&before.fill()),
        before.spec_capacity() >= 1,
    ensures
        leading_unfilled(cleared@, cleared.fill()) == 0,
        (if leading_unfilled(cleared@, cleared.fill()) < cleared.spec_capacity() {
            leading_unfilled(cleared@, cleared.fill()) + 1
        } else {
            cleared.spec_size()
        }) == 1,
{
    cleared.lemma_slots_len();
    if cleared@.len() > 0 {
        assert(cleared@[0] == cleared.fill());
    }
}

/// Rebuilding a buffer from its elements gives them back: a buffer made from an array of
/// the first `N` elements with its size set to `N`, into which the remaining elements are
/// appended as `insert_slice` does, holds the same elements, provided its capacity holds
/// them all.
pub proof fn lemma_round_trip<T: Copy, const N: usize>(
    source: SmartBuffer<T, N>,
    prefix: [T; N],
    len: nat,
)
    requires
        source.wf(),
        N > 0,
        N <= source@.len(),
        prefix@ == source@.take(N as int),
        source@.len() <= capacity_for(N as nat, len),
    ensures
        ({
            let cap = capacity_for(N as nat, len);
            let start = prefix@ + repeated(prefix@[0], (cap - N) as nat);
            let rest = source@.skip(N as int);
            let k = room_for(N as nat, cap, rest.len());
            &&& k == rest.len()
            &&& written_from(start, N as int, rest.take(k as int)).take(N + k) == source@
        }),
{
    source.lemma_slots_len();
    let cap = capacity_for(N as nat, len);
    let start = prefix@ + repeated(prefix@[0], (cap - N) as nat);
    let rest = source@.skip(N as int);
    let k = room_for(N as nat, cap, rest.len());
    assert(k == rest.len());
    assert(written_from(start, N as int, rest.take(k as int)).take(N + k) =~= source@);
}

} // verus!
