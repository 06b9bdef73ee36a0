//! Properties of the arena that relate several calls.
use vstd::prelude::*;
use crate::arena::{Arena, Index, count_live};

verus! {

/// Two allocations in a row hand out two different handles, and after the
/// second each handle still reads the value stored with it.
pub proof fn lemma_successive_allocations_distinct<T>(
    a0: Arena<T>,
    a1: Arena<T>,
    a2: Arena<T>,
    v1: T,
    v2: T,
    h1: Index,
    h2: Index,
)
    requires
        a0.wf(),
        count_live(a0.chunks()) + 1 < usize::MAX,
        Arena::after_allocate(a0, a1, v1, h1),
        Arena::after_allocate(a1, a2, v2, h2),
    ensures
        h1 != h2,
        a2.value_at(h1) == Some(v1),
        a2.value_at(h2) == Some(v2),
{
    Arena::lemma_allocate(a0, a1, v1, h1);
    Arena::lemma_allocate(a1, a2, v2, h2);
}

/// An allocation never hands out a handle in use, and leaves the value under
/// every handle in use where it was.
pub proof fn lemma_value_survives_allocate<T>(pre: Arena<T>, post: Arena<T>, v: T, h: Index, g: Index)
    requires
        pre.wf(),
        count_live(pre.chunks()) < usize::MAX,
        Arena::after_allocate(pre, post, v, h),
        pre.occupied(g),
    ensures
        g != h,
        post.occupied(g),
        post.value_at(g) == pre.value_at(g),
{
    Arena::lemma_allocate(pre, post, v, h);
}

/// Freeing one handle leaves the value under every other handle where it was.
pub proof fn lemma_value_survives_free<T>(pre: Arena<T>, post: Arena<T>, h: Index, g: Index)
    requires
        pre.wf(),
        pre.occupied(h),
        Arena::after_free(pre, post, h),
        g != h,
    ensures
        post.in_bounds(g) == pre.in_bounds(g),
        post.value_at(g) == pre.value_at(g),
{
    Arena::lemma_free(pre, post, h);
}

/// Filling a fresh arena with one value more than a chunk holds leaves
/// exactly two chunks: a full one and one holding a single value.
pub proof fn lemma_growth<T>(states: Seq<Arena<T>>, values: Seq<T>, handles: Seq<Index>)
    requires
        states.len() == states[0].chunk_size() + 2,
        values.len() == states.len() - 1,
        handles.len() == states.len() - 1,
        states[0].wf(),
        states[0].chunks() == seq![Seq::<Option<T>>::empty()],
        states[0].free_list() == Seq::<Index>::empty(),
        forall|k: int| 0 <= k < states.len() - 1
            ==> Arena::after_allocate(#[trigger] states[k], states[k + 1], values[k], handles[k]),
    ensures
        states.last().chunks().len() == 2,
        states.last().chunks()[0].len() == states[0].chunk_size(),
        states.last().chunks()[1].len() == 1,
{
    let cs = states[0].chunk_size() as int;
    lemma_growth_within_first_chunk(states, values, handles, cs);
    let pre = states[cs];
    assert(Arena::after_allocate(pre, states[cs + 1], values[cs], handles[cs]));
}

/// While the first chunk has room, the `k`-th allocation into a fresh arena
/// lands in it: after `k` of them there is one chunk of `k` slots.
proof fn lemma_growth_within_first_chunk<T>(states: Seq<Arena<T>>, values: Seq<T>, handles: Seq<Index>, k: int)
    requires
        0 <= k <= states[0].chunk_size(),
        k < states.len(),
        values.len() == states.len() - 1,
        handles.len() == states.len() - 1,
        states[0].wf(),
        states[0].chunks() == seq![Seq::<Option<T>>::empty()],
        states[0].free_list() == Seq::<Index>::empty(),
        forall|i: int| 0 <= i < states.len() - 1
            ==> Arena::after_allocate(#[trigger] states[i], states[i + 1], values[i], handles[i]),
    ensures
        states[k].chunks().len() == 1,
        states[k].chunks()[0].len() == k,
        states[k].free_list() == Seq::<Index>::empty(),
        states[k].chunk_size() == states[0].chunk_size(),
    decreases k,
{
    if k > 0 {
        lemma_growth_within_first_chunk(states, values, handles, k - 1);
        assert(Arena::after_allocate(states[k - 1], states[k], values[k - 1], handles[k - 1]));
        lemma_allocate_into_only_chunk(states[k - 1], states[k], values[k - 1], handles[k - 1]);
    }
}

/// With no free slot, one chunk, and room left in it, an allocation appends
/// to that chunk.
proof fn lemma_allocate_into_only_chunk<T>(pre: Arena<T>, post: Arena<T>, v: T, h: Index)
    requires
        pre.chunks().len() == 1,
        pre.chunks()[0].len() < pre.chunk_size() <= usize::MAX,
        pre.free_list() == Seq::<Index>::empty(),
        Arena::after_allocate(pre, post, v, h),
    ensures
        post.chunks().len() == 1,
        post.chunks()[0].len() == pre.chunks()[0].len() + 1,
        post.free_list() == Seq::<Index>::empty(),
        post.chunk_size() == pre.chunk_size(),
{
}

/// Freed slots are reused most recently freed first: free `x`, then `y`,
/// and the next two allocations return `y`, then `x`.
pub proof fn lemma_lifo_reuse<T>(
    a0: Arena<T>,
    a1: Arena<T>,
    a2: Arena<T>,
    a3: Arena<T>,
    a4: Arena<T>,
    x: Index,
    y: Index,
    v1: T,
    v2: T,
    h1: Index,
    h2: Index,
)
    requires
        Arena::after_free(a0, a1, x),
        Arena::after_free(a1, a2, y),
        Arena::after_allocate(a2, a3, v1, h1),
        Arena::after_allocate(a3, a4, v2, h2),
    ensures
        h1 == y,
        h2 == x,
{
    assert(a3.free_list() =~= a0.free_list().push(x));
}

/// A handle that carries another arena's identity, or a position outside
/// this arena's storage, is never valid here: `check_index` answers false,
/// `free` answers `InvalidHandle` and changes nothing, and `get` cannot be
/// called with it.
pub proof fn lemma_foreign_handle_rejected<T>(a: Arena<T>, h: Index)
    requires
        h.arena_id != a.spec_id() || h.age >= a.chunks().len()
            || h.index >= a.chunks()[h.age as int].len(),
    ensures
        !a.in_bounds(h),
        !a.occupied(h),
        !a.vacated(h),
{
}

/// After a successful free of `h` its slot is empty but still in bounds, so
/// freeing `h` a second time answers `DoubleFree` and changes nothing.
pub proof fn lemma_double_free_detected<T>(a0: Arena<T>, a1: Arena<T>, h: Index)
    requires
        a0.wf(),
        a0.occupied(h),
        Arena::after_free(a0, a1, h),
    ensures
        a1.wf(),
        a1.vacated(h),
{
    Arena::lemma_free(a0, a1, h);
}

/// A stored value reads back under its handle; once freed, the handle reads
/// as empty; the next allocation reuses the handle and it reads the new value.
pub proof fn lemma_round_trip<T>(
    a0: Arena<T>,
    a1: Arena<T>,
    a2: Arena<T>,
    a3: Arena<T>,
    v: T,
    w: T,
    h: Index,
    h2: Index,
)
    requires
        a0.wf(),
        count_live(a0.chunks()) < usize::MAX,
        Arena::after_allocate(a0, a1, v, h),
        Arena::after_free(a1, a2, h),
        Arena::after_allocate(a2, a3, w, h2),
    ensures
        a1.in_bounds(h),
        a1.value_at(h) == Some(v),
        a2.in_bounds(h),
        a2.value_at(h) is None,
        h2 == h,
        a3.value_at(h) == Some(w),
{
    Arena::lemma_allocate(a0, a1, v, h);
    Arena::lemma_free(a1, a2, h);
    Arena::lemma_allocate(a2, a3, w, h2);
}

} // verus!
