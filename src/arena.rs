use vstd::prelude::*;
use crate::identity::fresh_arena_id;

verus! {

/// A handle to one slot of one arena: the arena's identity, the chunk that
/// holds the slot, and the slot's position in that chunk.
#[derive(Copy, Clone, Debug, PartialEq, Eq, Structural)]
pub struct Index {
    /// The identity of the arena that made the handle.
    pub arena_id: usize,
    /// The chunk that holds the slot, counting chunks in the order they were added.
    pub age: usize,
    /// The slot's position within its chunk.
    pub index: usize,
}

impl Index {
    /// The handle of slot `index` of chunk `age` of the arena `arena_id`.
    pub fn new(arena_id: usize, age: usize, index: usize) -> (r: Self)
        ensures
            r.arena_id == arena_id,
            r.age == age,
            r.index == index,
    {
        Index { arena_id, age, index }
    }
}

/// Why an arena refused a handle.
#[derive(Copy, Clone, Debug, PartialEq, Eq, Structural)]
pub enum ArenaError {
    /// The handle names another arena, or a position this arena never handed out.
    InvalidHandle,
    /// The handle names a slot that is already empty.
    DoubleFree,
}

/// The chunks of `chunks` with value `v` put at position (`age`, `index`):
/// into an existing slot, one past the end of a chunk, or as the first slot
/// of a new chunk appended after the last one.
pub open spec fn with_slot<T>(chunks: Seq<Seq<Option<T>>>, age: int, index: int, v: Option<T>) -> Seq<Seq<Option<T>>> {
    if age == chunks.len() {
        chunks.push(seq![v])
    } else if index == chunks[age].len() {
        chunks.update(age, chunks[age].push(v))
    } else {
        chunks.update(age, chunks[age].update(index, v))
    }
}

/// The number of slots of `s` that hold a value.
pub open spec fn count_some<T>(s: Seq<Option<T>>) -> nat
    decreases s.len(),
{
    if s.len() == 0 {
        0
    } else {
        count_some(s.drop_last()) + if s.last() is Some { 1nat } else { 0nat }
    }
}

/// The number of slots of all of `chunks` that hold a value.
pub open spec fn count_live<T>(chunks: Seq<Seq<Option<T>>>) -> nat
    decreases chunks.len(),
{
    if chunks.len() == 0 {
        0
    } else {
        count_live(chunks.drop_last()) + count_some(chunks.last())
    }
}

/// Appending a slot adds one to the count where the slot holds a value.
proof fn lemma_count_some_push<T>(s: Seq<Option<T>>, v: Option<T>)
    ensures
        count_some(s.push(v)) == count_some(s) + if v is Some { 1nat } else { 0nat },
{
    assert(s.push(v).drop_last() =~= s);
}

/// Rewriting a slot changes the count by what the new content adds less what
/// the old content held.
proof fn lemma_count_some_update<T>(s: Seq<Option<T>>, i: int, v: Option<T>)
    requires
        0 <= i < s.len(),
    ensures
        count_some(s.update(i, v)) + (if s[i] is Some { 1nat } else { 0nat })
            == count_some(s) + (if v is Some { 1nat } else { 0nat }),
    decreases s.len(),
{
    let t = s.update(i, v);
    if i == s.len() - 1 {
        assert(t.drop_last() =~= s.drop_last());
    } else {
        assert(t.drop_last() =~= s.drop_last().update(i, v));
        lemma_count_some_update(s.drop_last(), i, v);
    }
}

/// Appending a chunk adds its count.
proof fn lemma_count_live_push<T>(c: Seq<Seq<Option<T>>>, s: Seq<Option<T>>)
    ensures
        count_live(c.push(s)) == count_live(c) + count_some(s),
{
    assert(c.push(s).drop_last() =~= c);
}

/// Replacing a chunk changes the count by the new chunk's count less the old one's.
proof fn lemma_count_live_update<T>(c: Seq<Seq<Option<T>>>, i: int, s: Seq<Option<T>>)
    requires
        0 <= i < c.len(),
    ensures
        count_live(c.update(i, s)) + count_some(c[i]) == count_live(c) + count_some(s),
    decreases c.len(),
{
    let d = c.update(i, s);
    if i == c.len() - 1 {
        assert(d.drop_last() =~= c.drop_last());
    } else {
        assert(d.drop_last() =~= c.drop_last().update(i, s));
        lemma_count_live_update(c.drop_last(), i, s);
    }
}

/// Where every slot holds a value, the count is the number of slots.
proof fn lemma_count_some_full<T>(s: Seq<Option<T>>)
    requires
        forall|i: int| 0 <= i < s.len() ==> #[trigger] s[i] is Some,
    ensures
        count_some(s) == s.len(),
    decreases s.len(),
{
    if s.len() > 0 {
        lemma_count_some_full(s.drop_last());
    }
}

/// Where every slot holds a value and no chunk is empty, there are at least
/// as many values as chunks.
proof fn lemma_count_live_full<T>(c: Seq<Seq<Option<T>>>)
    requires
        forall|i: int, j: int| 0 <= i < c.len() && 0 <= j < c[i].len() ==> #[trigger] c[i][j] is Some,
        forall|i: int| 0 <= i < c.len() ==> #[trigger] c[i].len() >= 1,
    ensures
        count_live(c) >= c.len(),
    decreases c.len(),
{
    if c.len() > 0 {
        let l = c.len() - 1;
        assert(c[l].len() >= 1);
        assert forall|j: int| 0 <= j < c[l].len() implies #[trigger] c[l][j] is Some by {
            assert(c[l][j] is Some);
        }
        lemma_count_some_full(c[l]);
        lemma_count_live_full(c.drop_last());
    }
}

/// Putting `v` at (`age`, `index`) changes the count of values by what `v`
/// adds less what the slot held.
proof fn lemma_count_with_slot<T>(c: Seq<Seq<Option<T>>>, age: int, index: int, v: Option<T>)
    requires
        0 <= age <= c.len(),
        age < c.len() ==> 0 <= index <= c[age].len(),
        age == c.len() ==> index == 0,
    ensures
        count_live(with_slot(c, age, index, v))
            + (if age < c.len() && index < c[age].len() && c[age][index] is Some { 1nat } else { 0nat })
            == count_live(c) + (if v is Some { 1nat } else { 0nat }),
{
    if age == c.len() {
        lemma_count_live_push(c, seq![v]);
        lemma_count_some_push(Seq::<Option<T>>::empty(), v);
        assert(Seq::<Option<T>>::empty().push(v) =~= seq![v]);
    } else if index == c[age].len() {
        lemma_count_some_push(c[age], v);
        lemma_count_live_update(c, age, c[age].push(v));
    } else {
        lemma_count_some_update(c[age], index, v);
        lemma_count_live_update(c, age, c[age].update(index, v));
    }
}

/// Storage for values of type `T` in fixed-capacity chunks. A value stays in
/// the slot it was put in until it is freed; freed slots are reused, the most
/// recently freed first.
pub struct Arena<T> {
    id: usize,
    chunk_size: usize,
    heap: Vec<Vec<Option<T>>>,
    freed: Vec<Index>,
    live: usize,
}

impl<T> Arena<T> {
    /// The identity written into every handle this arena hands out.
    pub closed spec fn spec_id(&self) -> usize {
        self.id
    }

    /// The number of slots in every chunk.
    pub closed spec fn chunk_size(&self) -> nat {
        self.chunk_size as nat
    }

    /// The slots of every chunk, in the order the chunks were added.
    pub closed spec fn chunks(&self) -> Seq<Seq<Option<T>>> {
        self.heap@.map_values(|c: Vec<Option<T>>| c@)
    }

    /// The handles of the freed slots, the most recently freed last.
    pub closed spec fn free_list(&self) -> Seq<Index> {
        self.freed@
    }

    /// The number of values held, as the arena keeps count of it.
    pub closed spec fn recorded_len(&self) -> nat {
        self.live as nat
    }

    /// `h` was made by this arena and names a slot that exists.
    pub open spec fn in_bounds(&self, h: Index) -> bool {
        &&& h.arena_id == self.spec_id()
        &&& h.age < self.chunks().len()
        &&& h.index < self.chunks()[h.age as int].len()
    }

    /// What slot `h` holds, or `None` where `h` names no slot of this arena.
    pub open spec fn value_at(&self, h: Index) -> Option<T> {
        if self.in_bounds(h) {
            self.chunks()[h.age as int][h.index as int]
        } else {
            None
        }
    }

    /// `h` names a slot of this arena that holds a value.
    pub open spec fn occupied(&self, h: Index) -> bool {
        self.in_bounds(h) && self.value_at(h) is Some
    }

    /// `h` names a slot of this arena that is empty.
    pub open spec fn vacated(&self, h: Index) -> bool {
        self.in_bounds(h) && self.value_at(h) is None
    }

    /// Where the next value goes when no slot is free: the end of the last
    /// chunk, or the start of a new chunk when the last one is full.
    pub open spec fn fresh_handle(&self) -> Index {
        let last = self.chunks().len() - 1;
        if self.chunks()[last].len() == self.chunk_size() {
            Index { arena_id: self.spec_id(), age: self.chunks().len() as usize, index: 0 }
        } else {
            Index { arena_id: self.spec_id(), age: last as usize, index: self.chunks()[last].len() as usize }
        }
    }

    /// The handle the next `allocate` returns: the most recently freed one, if any.
    pub open spec fn next_handle(&self) -> Index {
        if self.free_list().len() > 0 {
            self.free_list().last()
        } else {
            self.fresh_handle()
        }
    }

    /// The arena's invariant: every chunk but the last is full and none is
    /// over capacity; the free list holds each empty slot exactly once.
    pub open spec fn wf(&self) -> bool {
        &&& 1 <= self.chunk_size() <= usize::MAX
        &&& 1 <= self.chunks().len() <= usize::MAX
        &&& forall|i: int| 0 <= i < self.chunks().len() - 1 ==> #[trigger] self.chunks()[i].len() == self.chunk_size()
        &&& self.chunks().last().len() <= self.chunk_size()
        &&& forall|i: int| 0 <= i < self.free_list().len() ==> self.vacated(#[trigger] self.free_list()[i])
        &&& forall|i: int, j: int| 0 <= i < j < self.free_list().len() ==> #[trigger] self.free_list()[i] != #[trigger] self.free_list()[j]
        &&& forall|h: Index| #[trigger] self.vacated(h) ==> self.free_list().contains(h)
        &&& self.recorded_len() == count_live(self.chunks())
    }

    /// An empty arena whose chunks hold `chunk_size` slots each and whose
    /// handles carry the identity `id`.
    pub fn with_id(chunk_size: usize, id: usize) -> (a: Self)
        requires
            chunk_size >= 1,
        ensures
            a.wf(),
            a.spec_id() == id,
            a.chunk_size() == chunk_size,
            a.chunks() == seq![Seq::<Option<T>>::empty()],
            a.free_list() == Seq::<Index>::empty(),
            count_live(a.chunks()) == 0,
    {
        let mut heap: Vec<Vec<Option<T>>> = Vec::new();
        heap.push(Vec::new());
        let a = Arena { id, chunk_size, heap, freed: Vec::new(), live: 0 };
        assert(a.chunks() =~= seq![Seq::<Option<T>>::empty()]);
        assert(count_live(a.chunks()) == 0) by {
            lemma_count_live_push(Seq::<Seq<Option<T>>>::empty(), Seq::<Option<T>>::empty());
            assert(Seq::<Seq<Option<T>>>::empty().push(Seq::<Option<T>>::empty()) =~= a.chunks());
        }
        a
    }

    /// An empty arena whose chunks hold `chunk_size` slots each, under a
    /// fresh identity (see `fresh_arena_id`).
    pub fn new(chunk_size: usize) -> (a: Self)
        requires
            chunk_size >= 1,
        ensures
            a.wf(),
            a.chunk_size() == chunk_size,
            a.chunks() == seq![Seq::<Option<T>>::empty()],
            a.free_list() == Seq::<Index>::empty(),
            count_live(a.chunks()) == 0,
    {
        Self::with_id(chunk_size, fresh_arena_id())
    }

    /// The identity written into every handle this arena hands out.
    pub fn id(&self) -> (r: usize)
        ensures
            r == self.spec_id(),
    {
        self.id
    }

    /// Whether `index` was made by this arena and names a slot that exists.
    pub fn check_index(&self, index: Index) -> (r: bool)
        ensures
            r == self.in_bounds(index),
    {
        index.arena_id == self.id && index.age < self.heap.len() && index.index < self.heap[index.age].len()
    }

    /// `post` is `pre` after an `allocate` of `v` that returned `h`: `h` is
    /// the most recently freed handle, taken off the free list, or else the
    /// next fresh slot; `v` is in that slot and nothing else changed.
    pub open spec fn after_allocate(pre: Self, post: Self, v: T, h: Index) -> bool {
        &&& post.spec_id() == pre.spec_id()
        &&& post.chunk_size() == pre.chunk_size()
        &&& h == pre.next_handle()
        &&& post.chunks() == with_slot(pre.chunks(), h.age as int, h.index as int, Some(v))
        &&& post.free_list() == if pre.free_list().len() > 0 {
            pre.free_list().drop_last()
        } else {
            pre.free_list()
        }
        &&& post.recorded_len() == pre.recorded_len() + 1
    }

    /// `post` is `pre` after a successful `free` of `h`: the slot is empty and
    /// `h` is the last handle on the free list; nothing else changed.
    pub open spec fn after_free(pre: Self, post: Self, h: Index) -> bool {
        &&& post.spec_id() == pre.spec_id()
        &&& post.chunk_size() == pre.chunk_size()
        &&& post.chunks() == with_slot(pre.chunks(), h.age as int, h.index as int, None)
        &&& post.free_list() == pre.free_list().push(h)
        &&& post.recorded_len() + 1 == pre.recorded_len()
    }

    /// The handle that the next allocation returns is not in use, and the
    /// allocation keeps the invariant, puts `v` in its slot, and leaves every
    /// other slot as it was.
    pub proof fn lemma_allocate(pre: Self, post: Self, v: T, h: Index)
        requires
            pre.wf(),
            Self::after_allocate(pre, post, v, h),
            count_live(pre.chunks()) < usize::MAX,
        ensures
            post.wf(),
            !pre.occupied(h),
            post.in_bounds(h),
            post.value_at(h) == Some(v),
            forall|g: Index| g != h ==> #[trigger] post.value_at(g) == pre.value_at(g),
            forall|g: Index| g != h ==> #[trigger] post.in_bounds(g) == pre.in_bounds(g),
            count_live(post.chunks()) == count_live(pre.chunks()) + 1,
    {
        lemma_count_with_slot(pre.chunks(), h.age as int, h.index as int, Some(v));
        let last = pre.chunks().len() - 1;
        if pre.free_list().len() > 0 {
            assert(pre.vacated(pre.free_list()[pre.free_list().len() - 1]));
            assert(post.chunks() =~= pre.chunks().update(h.age as int, pre.chunks()[h.age as int].update(h.index as int, Some(v))));
            assert forall|g: Index| #[trigger] post.vacated(g) implies post.free_list().contains(g) by {
                assert(pre.vacated(g));
                let k = choose|k: int| 0 <= k < pre.free_list().len() && pre.free_list()[k] == g;
                assert(k != pre.free_list().len() - 1);
                assert(post.free_list()[k] == g);
            }
            assert forall|i: int| 0 <= i < post.free_list().len() implies post.vacated(#[trigger] post.free_list()[i]) by {
                assert(pre.vacated(pre.free_list()[i]));
                assert(pre.free_list()[i] != pre.free_list()[pre.free_list().len() - 1]);
            }
        } else if pre.chunks()[last].len() == pre.chunk_size() {
            assert forall|i: int, j: int| 0 <= i < pre.chunks().len() && 0 <= j < pre.chunks()[i].len()
                implies #[trigger] pre.chunks()[i][j] is Some by {
                let g = Index { arena_id: pre.spec_id(), age: i as usize, index: j as usize };
                if pre.chunks()[i][j] is None {
                    assert(pre.vacated(g));
                }
            }
            assert forall|i: int| 0 <= i < pre.chunks().len() implies #[trigger] pre.chunks()[i].len() >= 1 by {
                if i < last {
                    assert(pre.chunks()[i].len() == pre.chunk_size());
                }
            }
            lemma_count_live_full(pre.chunks());
            assert(post.chunks() =~= pre.chunks().push(seq![Some(v)]));
            assert forall|g: Index| #[trigger] post.vacated(g) implies post.free_list().contains(g) by {
                assert(pre.vacated(g));
            }
        } else {
            assert(post.chunks() =~= pre.chunks().update(last, pre.chunks()[last].push(Some(v))));
            assert forall|g: Index| #[trigger] post.vacated(g) implies post.free_list().contains(g) by {
                assert(pre.vacated(g));
            }
        }
    }

    /// Freeing an occupied slot keeps the invariant, empties that slot, and
    /// leaves every other slot as it was.
    pub proof fn lemma_free(pre: Self, post: Self, h: Index)
        requires
            pre.wf(),
            pre.occupied(h),
            Self::after_free(pre, post, h),
        ensures
            post.wf(),
            post.vacated(h),
            forall|g: Index| g != h ==> #[trigger] post.value_at(g) == pre.value_at(g),
            forall|g: Index| #[trigger] post.in_bounds(g) == pre.in_bounds(g),
            count_live(post.chunks()) + 1 == count_live(pre.chunks()),
    {
        lemma_count_with_slot(pre.chunks(), h.age as int, h.index as int, None);
        assert(post.chunks() =~= pre.chunks().update(h.age as int, pre.chunks()[h.age as int].update(h.index as int, None)));
        assert(!pre.free_list().contains(h));
        assert forall|g: Index| #[trigger] post.vacated(g) implies post.free_list().contains(g) by {
            if g != h {
                assert(pre.vacated(g));
                let k = choose|k: int| 0 <= k < pre.free_list().len() && pre.free_list()[k] == g;
                assert(post.free_list()[k] == g);
            } else {
                assert(post.free_list()[post.free_list().len() - 1] == g);
            }
        }
        assert forall|i: int| 0 <= i < post.free_list().len() implies post.vacated(#[trigger] post.free_list()[i]) by {
            if i < pre.free_list().len() {
                assert(pre.vacated(pre.free_list()[i]));
            }
        }
    }

    /// Stores `obj` and returns its handle: the most recently freed slot if
    /// there is one, else the next slot of the last chunk, after appending a
    /// new chunk when the last one is full. No other slot changes. The number
    /// of values held must stay within `usize`.
    pub fn allocate(&mut self, obj: T) -> (h: Index)
        requires
            old(self).wf(),
            count_live(old(self).chunks()) < usize::MAX,
        ensures
            final(self).wf(),
            Self::after_allocate(*old(self), *final(self), obj, h),
            !old(self).occupied(h),
            final(self).value_at(h) == Some(obj),
            forall|other: Index| other != h ==> #[trigger] final(self).value_at(other) == old(self).value_at(other),
            count_live(final(self).chunks()) == count_live(old(self).chunks()) + 1,
    {
        self.live = self.live + 1;
        let h = match self.freed.pop() {
            Some(h) => {
                proof {
                    let pre = old(self);
                    assert(pre.vacated(pre.free_list()[pre.free_list().len() - 1]));
                }
                self.heap[h.age][h.index] = Some(obj);
                proof {
                    let pre = old(self);
                    assert(self.chunks() =~= pre.chunks().update(h.age as int, pre.chunks()[h.age as int].update(h.index as int, Some(obj))));
                }
                h
            }
            None => {
                let last = self.heap.len() - 1;
                if self.heap[last].len() == self.chunk_size {
                    let mut chunk: Vec<Option<T>> = Vec::with_capacity(self.chunk_size);
                    chunk.push(Some(obj));
                    self.heap.push(chunk);
                    proof {
                        assert(self.chunks() =~= old(self).chunks().push(seq![Some(obj)]));
                    }
                    Index::new(self.id, last + 1, 0)
                } else {
                    let slot = self.heap[last].len();
                    self.heap[last].push(Some(obj));
                    proof {
                        let pre = old(self);
                        assert(self.chunks() =~= pre.chunks().update(last as int, pre.chunks()[last as int].push(Some(obj))));
                    }
                    Index::new(self.id, last, slot)
                }
            }
        };
        proof {
            Self::lemma_allocate(*old(self), *self, obj, h);
        }
        h
    }

    /// Empties the slot that `index` names and puts `index` on the free list,
    /// so that the next `allocate` reuses it. A handle of another arena or
    /// out of bounds is refused as invalid, a handle of an empty slot as a
    /// double free; a refused call changes nothing.
    pub fn free(&mut self, index: Index) -> (r: Result<(), ArenaError>)
        requires
            old(self).wf(),
        ensures
            final(self).wf(),
            !old(self).in_bounds(index) ==> r == Err::<(), ArenaError>(ArenaError::InvalidHandle),
            old(self).vacated(index) ==> r == Err::<(), ArenaError>(ArenaError::DoubleFree),
            old(self).occupied(index) ==> r == Ok::<(), ArenaError>(()),
            r is Err ==> *final(self) == *old(self),
            r is Ok ==> Self::after_free(*old(self), *final(self), index),
            final(self).value_at(index) is None,
            forall|other: Index| other != index ==> #[trigger] final(self).value_at(other) == old(self).value_at(other),
    {
        if !self.check_index(index) {
            return Err(ArenaError::InvalidHandle);
        }
        if self.heap[index.age][index.index].is_none() {
            return Err(ArenaError::DoubleFree);
        }
        proof {
            lemma_count_with_slot(self.chunks(), index.age as int, index.index as int, None);
        }
        self.heap[index.age][index.index] = None;
        self.freed.push(index);
        self.live = self.live - 1;
        proof {
            let pre = old(self);
            assert(self.chunks() =~= pre.chunks().update(index.age as int, pre.chunks()[index.age as int].update(index.index as int, None)));
            Self::lemma_free(*old(self), *self, index);
        }
        Ok(())
    }

    /// The value in the slot that `index` names, or `None` where that slot is
    /// empty. The handle must have been made by this arena and be in bounds.
    pub fn get(&self, index: Index) -> (r: Option<&T>)
        requires
            self.in_bounds(index),
        ensures
            match r {
                Some(v) => self.value_at(index) == Some(*v),
                None => self.value_at(index) is None,
            },
    {
        self.heap[index.age][index.index].as_ref()
    }

    /// Mutable access to the value in the slot that `index` names, or `None`
    /// where that slot is empty. Whatever is written through the reference
    /// lands in that slot and nowhere else.
    pub fn get_mut(&mut self, index: Index) -> (r: Option<&mut T>)
        requires
            old(self).wf(),
            old(self).in_bounds(index),
        ensures
            final(self).wf(),
            final(self).spec_id() == old(self).spec_id(),
            final(self).chunk_size() == old(self).chunk_size(),
            final(self).free_list() == old(self).free_list(),
            count_live(final(self).chunks()) == count_live(old(self).chunks()),
            match r {
                Some(v) => {
                    &&& old(self).value_at(index) == Some(*v)
                    &&& final(self).chunks() =~= old(self).chunks().update(index.age as int, old(self).chunks()[index.age as int].update(index.index as int, Some(*final(v))))
                },
                None => {
                    &&& old(self).value_at(index) is None
                    &&& final(self).chunks() =~~= old(self).chunks()
                },
            },
    {
        proof {
            Self::lemma_refill_keeps_wf(*old(self), *final(self), index);
        }
        self.slot_mut(index).as_mut()
    }

    /// Writing a value into an occupied slot, or leaving the chunks as they
    /// are, keeps the invariant.
    proof fn lemma_refill_keeps_wf(pre: Self, post: Self, h: Index)
        ensures
            ({
                &&& pre.wf()
                &&& post.spec_id() == pre.spec_id()
                &&& post.chunk_size() == pre.chunk_size()
                &&& post.free_list() == pre.free_list()
                &&& post.recorded_len() == pre.recorded_len()
                &&& post.chunks() == pre.chunks() || {
                    &&& pre.occupied(h)
                    &&& post.chunks()[h.age as int][h.index as int] is Some
                    &&& post.chunks() == pre.chunks().update(h.age as int,
                        pre.chunks()[h.age as int].update(h.index as int, post.chunks()[h.age as int][h.index as int]))
                }
            }) ==> post.wf() && count_live(post.chunks()) == count_live(pre.chunks()),
    {
        if pre.wf() && post.spec_id() == pre.spec_id() && post.chunk_size() == pre.chunk_size()
            && post.free_list() == pre.free_list() && post.recorded_len() == pre.recorded_len() && (post.chunks() == pre.chunks() || pre.occupied(h)
            && post.chunks()[h.age as int][h.index as int] is Some
            && post.chunks() == pre.chunks().update(h.age as int,
                pre.chunks()[h.age as int].update(h.index as int, post.chunks()[h.age as int][h.index as int]))) {
            assert forall|g: Index| #[trigger] post.vacated(g) implies post.free_list().contains(g) by {
                assert(pre.vacated(g));
            }
            assert forall|i: int| 0 <= i < post.free_list().len() implies post.vacated(#[trigger] post.free_list()[i]) by {
                assert(pre.vacated(pre.free_list()[i]));
            }
            if post.chunks() != pre.chunks() {
                lemma_count_with_slot(pre.chunks(), h.age as int, h.index as int, post.chunks()[h.age as int][h.index as int]);
            }
        }
    }

    /// The slot that `index` names, to be written by the caller.
    fn slot_mut(&mut self, index: Index) -> (r: &mut Option<T>)
        requires
            old(self).in_bounds(index),
        ensures
            *r == old(self).heap@[index.age as int]@[index.index as int],
            final(self).id == old(self).id,
            final(self).chunk_size == old(self).chunk_size,
            final(self).freed == old(self).freed,
            final(self).live == old(self).live,
            final(self).chunks() =~= old(self).chunks().update(index.age as int, old(self).chunks()[index.age as int].update(index.index as int, *final(r))),
            *final(r) == *r ==> final(self).chunks() =~~= old(self).chunks(),
    {
        &mut self.heap[index.age][index.index]
    }

    /// The number of values the arena holds.
    pub fn len(&self) -> (r: usize)
        requires
            self.wf(),
        ensures
            r == count_live(self.chunks()),
    {
        self.live
    }

    /// The number of chunks.
    pub fn chunk_count(&self) -> (r: usize)
        ensures
            r == self.chunks().len(),
    {
        self.heap.len()
    }

    /// The number of slots handed out so far in chunk `age`.
    pub fn chunk_len(&self, age: usize) -> (r: usize)
        requires
            age < self.chunks().len(),
        ensures
            r == self.chunks()[age as int].len(),
    {
        self.heap[age].len()
    }

    /// The position of the last chunk, the one that fresh slots come from.
    pub fn current_age(&self) -> (r: usize)
        requires
            self.wf(),
        ensures
            r == self.chunks().len() - 1,
    {
        self.heap.len() - 1
    }

    /// The slot of the last chunk that the next fresh value takes; equal to
    /// the chunk size when that chunk is full.
    pub fn next_index(&self) -> (r: usize)
        requires
            self.wf(),
        ensures
            r == self.chunks().last().len(),
    {
        self.heap[self.heap.len() - 1].len()
    }

    /// The number of handles on the free list.
    pub fn free_count(&self) -> (r: usize)
        ensures
            r == self.free_list().len(),
    {
        self.freed.len()
    }

    /// The `i`-th handle on the free list, counting from the one freed first.
    pub fn freed_handle(&self, i: usize) -> (r: Index)
        requires
            i < self.free_list().len(),
        ensures
            r == self.free_list()[i as int],
    {
        self.freed[i]
    }

    /// Whether `index` names a slot of this arena that holds a value.
    pub fn is_live(&self, index: Index) -> (r: bool)
        ensures
            r == self.occupied(index),
    {
        self.check_index(index) && self.heap[index.age][index.index].is_some()
    }

    /// Whether `index` names a slot of this arena that is empty.
    pub fn is_freed(&self, index: Index) -> (r: bool)
        ensures
            r == self.vacated(index),
    {
        self.check_index(index) && self.heap[index.age][index.index].is_none()
    }
}

} // verus!
