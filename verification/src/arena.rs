//! Generational arena: allocates recyclable slot handles and detects stale ones.

use vstd::prelude::*;

verus! {

/// A handle to an arena slot. Two handles are equal only if both the index
/// and the generation match; a handle is live only while its generation
/// matches the slot's current generation.
#[derive(Clone, Copy, Debug, PartialEq, Eq, Structural)]
pub struct GenerationalIndex {
    pub idx: usize,
    pub gen: u64,
}

/// One arena slot: whether it currently backs a live handle, and the
/// generation of the most recent handle issued for it.
#[derive(Clone, Copy, Debug, PartialEq, Eq, Structural)]
pub struct AllocatorEntry {
    pub is_live: bool,
    pub gen: u64,
}

/// The arena. Freed indices are recycled through `free`; each reuse of a
/// slot strictly increases its generation, so stale handles are detectable.
pub struct GenerationalIndexAllocator {
    entries: Vec<AllocatorEntry>,
    free: Vec<usize>,
}

impl GenerationalIndexAllocator {
    /// The slots, as a mathematical sequence.
    pub closed spec fn slots(&self) -> Seq<AllocatorEntry> {
        self.entries@
    }

    /// The free list, as a mathematical sequence of slot indices.
    pub closed spec fn free_list(&self) -> Seq<usize> {
        self.free@
    }

    /// A handle is live when its index is in range, the slot is marked live,
    /// and the slot's generation equals the handle's.
    pub open spec fn spec_is_live(&self, h: GenerationalIndex) -> bool {
        &&& h.idx < self.slots().len()
        &&& self.slots()[h.idx as int].is_live
        &&& self.slots()[h.idx as int].gen == h.gen
    }

    /// Structural invariant: the free list holds exactly the dead slot
    /// indices, each once.
    pub open spec fn wf(&self) -> bool {
        &&& forall|k: int|
            0 <= k < self.free_list().len() ==> #[trigger] self.free_list()[k] < self.slots().len()
                && !self.slots()[self.free_list()[k] as int].is_live
        &&& forall|k1: int, k2: int|
            0 <= k1 < k2 < self.free_list().len() ==> #[trigger] self.free_list()[k1]
                != #[trigger] self.free_list()[k2]
        &&& forall|i: usize|
            i < self.slots().len() && !(#[trigger] self.slots()[i as int]).is_live
                ==> self.free_list().contains(i)
    }

    /// `allocate` increments the recycled slot's generation; this requires
    /// that the generation has room to grow.
    pub open spec fn can_allocate(&self) -> bool {
        self.free_list().len() > 0 ==> self.slots()[self.free_list().last() as int].gen
            < u64::MAX
    }

    pub fn new() -> (r: Self)
        ensures
            r.wf(),
            r.slots().len() == 0,
            r.free_list().len() == 0,
    {
        Self { entries: Vec::new(), free: Vec::new() }
    }

    /// Allocates a handle that is live as of return. A recycled slot keeps
    /// its index and gets a strictly greater generation; a fresh slot is
    /// appended with generation 0. No previously live handle is disturbed.
    pub fn allocate(&mut self) -> (r: GenerationalIndex)
        requires
            old(self).wf(),
            old(self).can_allocate(),
        ensures
            final(self).wf(),
            final(self).spec_is_live(r),
            !old(self).spec_is_live(r),
            forall|h: GenerationalIndex|
                h.idx != r.idx ==> (final(self).spec_is_live(h) <==> old(self).spec_is_live(h)),
            if old(self).free_list().len() > 0 {
                &&& r.idx == old(self).free_list().last()
                &&& r.gen == old(self).slots()[r.idx as int].gen + 1
                &&& final(self).slots() == old(self).slots().update(
                    r.idx as int,
                    AllocatorEntry { is_live: true, gen: r.gen },
                )
                &&& final(self).free_list() == old(self).free_list().drop_last()
            } else {
                &&& r.idx == old(self).slots().len()
                &&& r.gen == 0
                &&& final(self).slots() == old(self).slots().push(
                    AllocatorEntry { is_live: true, gen: 0 },
                )
                &&& final(self).free_list() == old(self).free_list()
            },
    {
        if let Some(e_idx) = self.free.pop() {
            // Recycle an index from the free list.
            let new_gen = self.entries[e_idx].gen + 1;
            self.entries[e_idx] = AllocatorEntry { is_live: true, gen: new_gen };
            let gen_idx = GenerationalIndex { idx: e_idx, gen: new_gen };
            proof {
                let oldf = old(self).free_list();
                assert forall|k: int|
                    0 <= k < self.free_list().len() implies #[trigger] self.free_list()[k]
                    < self.slots().len() && !self.slots()[self.free_list()[k] as int].is_live by {
                    assert(self.free_list()[k] == oldf[k]);
                    assert(oldf[k] != oldf[oldf.len() - 1]);
                }
                assert forall|i: usize|
                    i < self.slots().len() && !(#[trigger] self.slots()[i as int]).is_live implies self.free_list().contains(
                    i,
                ) by {
                    assert(i != e_idx);
                    assert(old(self).free_list().contains(i));
                    let k = choose|k: int| 0 <= k < oldf.len() && oldf[k] == i;
                    assert(oldf.last() == e_idx);
                    assert(k < oldf.len() - 1);
                    assert(self.free_list()[k] == i);
                }
            }
            gen_idx
        } else {
            // No free slot: append a new one.
            let gen_idx = GenerationalIndex { idx: self.entries.len(), gen: 0 };
            self.entries.push(AllocatorEntry { is_live: true, gen: 0 });
            proof {
                assert forall|i: usize|
                    i < self.slots().len() && !(#[trigger] self.slots()[i as int]).is_live implies self.free_list().contains(
                    i,
                ) by {
                    assert(old(self).slots()[i as int] == self.slots()[i as int]);
                }
            }
            gen_idx
        }
    }

    /// Frees the slot iff the handle is currently live; a stale or doubled
    /// deallocation reports `false` and changes nothing.
    pub fn deallocate(&mut self, gen_idx: &GenerationalIndex) -> (r: bool)
        requires
            old(self).wf(),
        ensures
            final(self).wf(),
            r == old(self).spec_is_live(*gen_idx),
            !final(self).spec_is_live(*gen_idx),
            forall|h: GenerationalIndex|
                h.idx != gen_idx.idx ==> (final(self).spec_is_live(h) <==> old(self).spec_is_live(h)),
            r ==> final(self).slots() == old(self).slots().update(
                gen_idx.idx as int,
                AllocatorEntry { is_live: false, gen: gen_idx.gen },
            ) && final(self).free_list() == old(self).free_list().push(gen_idx.idx),
            !r ==> final(self).slots() == old(self).slots() && final(self).free_list() == old(
                self,
            ).free_list(),
    {
        if self.is_live(gen_idx) {
            let g = self.entries[gen_idx.idx].gen;
            self.entries[gen_idx.idx] = AllocatorEntry { is_live: false, gen: g };
            self.free.push(gen_idx.idx);
            proof {
                let oldf = old(self).free_list();
                assert forall|k1: int, k2: int|
                    0 <= k1 < k2 < self.free_list().len() implies #[trigger] self.free_list()[k1]
                    != #[trigger] self.free_list()[k2] by {
                    if k2 == self.free_list().len() - 1 {
                        // the pushed index was live before, so it was not in the free list
                        assert(oldf[k1] != gen_idx.idx);
                    }
                }
                assert forall|i: usize|
                    i < self.slots().len() && !(#[trigger] self.slots()[i as int]).is_live implies self.free_list().contains(
                    i,
                ) by {
                    if i == gen_idx.idx {
                        assert(self.free_list().last() == gen_idx.idx);
                    } else {
                        assert(oldf.contains(i));
                        let k = choose|k: int| 0 <= k < oldf.len() && oldf[k] == i;
                        assert(self.free_list()[k] == i);
                    }
                }
            }
            true
        } else {
            false
        }
    }

    /// True iff the slot at the handle's index is live with the handle's
    /// generation.
    pub fn is_live(&self, gen_idx: &GenerationalIndex) -> (r: bool)
        ensures
            r == self.spec_is_live(*gen_idx),
    {
        if gen_idx.idx >= self.entries.len() {
            return false;
        }
        let entry = &self.entries[gen_idx.idx];
        entry.is_live && entry.gen == gen_idx.gen
    }

    /// All currently live handles, in slot-index order.
    pub fn entries(&self) -> (r: Vec<GenerationalIndex>)
        ensures
            forall|k: int| 0 <= k < r@.len() ==> self.spec_is_live(#[trigger] r@[k]),
            forall|h: GenerationalIndex| self.spec_is_live(h) ==> r@.contains(h),
            forall|k1: int, k2: int| 0 <= k1 < k2 < r@.len() ==> r@[k1].idx < r@[k2].idx,
    {
        let mut result: Vec<GenerationalIndex> = Vec::new();
        let n = self.entries.len();
        for i in 0..n
            invariant
                n == self.slots().len(),
                forall|k: int| 0 <= k < result@.len() ==> self.spec_is_live(#[trigger] result@[k]),
                forall|k: int| 0 <= k < result@.len() ==> (#[trigger] result@[k]).idx < i,
                forall|h: GenerationalIndex|
                    h.idx < i && self.spec_is_live(h) ==> result@.contains(h),
                forall|k1: int, k2: int|
                    0 <= k1 < k2 < result@.len() ==> result@[k1].idx < result@[k2].idx,
        {
            let e = &self.entries[i];
            if e.is_live {
                let h = GenerationalIndex { idx: i, gen: e.gen };
                let ghost before = result@;
                result.push(h);
                proof {
                    assert forall|g: GenerationalIndex|
                        g.idx < i + 1 && self.spec_is_live(g) implies result@.contains(g) by {
                        if g.idx == i {
                            assert(result@.last() == g);
                        } else {
                            assert(before.contains(g));
                            let k = choose|k: int| 0 <= k < before.len() && before[k] == g;
                            assert(result@[k] == g);
                        }
                    }
                }
            }
        }
        result
    }
}

/// One occupied store slot: a payload tagged with the generation of the
/// handle that wrote it.
pub struct GenerationalArrayEntry<T> {
    pub val: T,
    pub generation: u64,
}

/// A handle-indexed store. Each slot remembers the generation of the handle
/// that wrote it, so reads and writes through stale handles are rejected.
pub struct GenerationalIndexArray<T> {
    data: Vec<Option<GenerationalArrayEntry<T>>>,
}

impl<T> GenerationalIndexArray<T> {
    /// The slots, as a mathematical sequence: `None` for empty slots,
    /// otherwise the payload and the generation it was written under.
    pub closed spec fn slots(&self) -> Seq<Option<GenerationalArrayEntry<T>>> {
        self.data@
    }

    /// A handle finds an entry iff its index is occupied and the occupant
    /// was written under the handle's generation.
    pub open spec fn spec_has(&self, h: GenerationalIndex) -> bool {
        &&& h.idx < self.slots().len()
        &&& self.slots()[h.idx as int] is Some
        &&& self.slots()[h.idx as int]->Some_0.generation == h.gen
    }

    /// The payload a handle finds (meaningful when `spec_has` holds).
    pub open spec fn spec_get(&self, h: GenerationalIndex) -> T
        recommends
            self.spec_has(h),
    {
        self.slots()[h.idx as int]->Some_0.val
    }

    /// A write is allowed unless the occupant of the slot carries a strictly
    /// newer generation than the handle; overwriting newer state through an
    /// old handle is an internal-consistency bug and is ruled out here.
    pub open spec fn can_set(&self, h: GenerationalIndex) -> bool {
        h.idx < self.slots().len() && self.slots()[h.idx as int] is Some
            ==> self.slots()[h.idx as int]->Some_0.generation <= h.gen
    }

    pub fn new() -> (r: Self)
        ensures
            r.slots().len() == 0,
    {
        Self { data: Vec::new() }
    }

    /// Writes `val` at the handle's index, tagged with the handle's
    /// generation, growing the backing storage with empty slots if needed.
    pub fn set(&mut self, gen_idx: &GenerationalIndex, val: T) -> (r: bool)
        requires
            old(self).can_set(*gen_idx),
            gen_idx.idx < usize::MAX,
        ensures
            r == true,
            final(self).slots().len() == if gen_idx.idx < old(self).slots().len() {
                old(self).slots().len() as int
            } else {
                gen_idx.idx + 1
            },
            final(self).spec_has(*gen_idx),
            final(self).spec_get(*gen_idx) == val,
            forall|j: int|
                0 <= j < final(self).slots().len() && j != gen_idx.idx
                    ==> final(self).slots()[j] == if j < old(self).slots().len() {
                    old(self).slots()[j]
                } else {
                    None::<GenerationalArrayEntry<T>>
                },
    {
        // Grow the backing storage so the index is in range.
        while self.data.len() <= gen_idx.idx
            invariant
                gen_idx.idx < usize::MAX,
                old(self).can_set(*gen_idx),
                forall|j: int|
                    0 <= j < self.slots().len() ==> self.slots()[j] == if j < old(
                        self,
                    ).slots().len() {
                        old(self).slots()[j]
                    } else {
                        None::<GenerationalArrayEntry<T>>
                    },
                self.slots().len() >= old(self).slots().len(),
                old(self).slots().len() > gen_idx.idx ==> self.slots().len() == old(
                    self,
                ).slots().len(),
                old(self).slots().len() <= gen_idx.idx ==> self.slots().len() <= gen_idx.idx
                    + 1,
            decreases gen_idx.idx + 1 - self.data.len(),
        {
            self.data.push(None);
        }

        self.data[gen_idx.idx] = Some(
            GenerationalArrayEntry { val, generation: gen_idx.gen },
        );
        true
    }

    /// Clears the slot and reports `true` unless a strictly newer occupant
    /// is present, which is left untouched (`false`). An index that is out
    /// of range reports `false`.
    pub fn remove(&mut self, gen_idx: &GenerationalIndex) -> (r: bool)
        ensures
            r == (gen_idx.idx < old(self).slots().len() && (old(self).slots()[gen_idx.idx as int]
                is Some ==> old(self).slots()[gen_idx.idx as int]->Some_0.generation
                <= gen_idx.gen)),
            r ==> final(self).slots() == old(self).slots().update(
                gen_idx.idx as int,
                None::<GenerationalArrayEntry<T>>,
            ),
            !r ==> final(self).slots() == old(self).slots(),
            !final(self).spec_has(*gen_idx),
    {
        if gen_idx.idx >= self.data.len() {
            return false;
        }

        match &self.data[gen_idx.idx] {
            Some(e) => {
                if e.generation > gen_idx.gen {
                    return false;
                }
            },
            None => {},
        }

        self.data[gen_idx.idx] = None;
        true
    }

    /// A shared view of the payload, or `None` for an out-of-range index,
    /// an empty slot, or a generation mismatch.
    pub fn borrow(&self, gen_idx: &GenerationalIndex) -> (r: Option<&T>)
        ensures
            r is Some <==> self.spec_has(*gen_idx),
            r is Some ==> *r->Some_0 == self.spec_get(*gen_idx),
    {
        if !self.check_idx(gen_idx) {
            return None;
        }

        match &self.data[gen_idx.idx] {
            Some(e) => Some(&e.val),
            None => None,
        }
    }

    /// An exclusive view of the payload, under the same rule as `borrow`.
    /// Writing through the view updates the stored payload; the slot's
    /// recorded generation is unchanged.
    pub fn borrow_mut(&mut self, gen_idx: &GenerationalIndex) -> (r: Option<&mut T>)
        ensures
            r is Some <==> old(self).spec_has(*gen_idx),
            r is None ==> final(self).slots() == old(self).slots(),
            r is Some ==> *r->Some_0 == old(self).spec_get(*gen_idx)
                && final(self).slots() == old(self).slots().update(
                gen_idx.idx as int,
                Some(
                    GenerationalArrayEntry {
                        val: *final(r->Some_0),
                        generation: gen_idx.gen,
                    },
                ),
            ),
    {
        if !self.check_idx(gen_idx) {
            return None;
        }

        match &mut self.data[gen_idx.idx] {
            Some(e) => Some(&mut e.val),
            None => None,
        }
    }

    /// True iff the handle finds an entry (same generation rule as `borrow`).
    pub fn has_entry(&self, gen_idx: &GenerationalIndex) -> (r: bool)
        ensures
            r == self.spec_has(*gen_idx),
    {
        self.check_idx(gen_idx) && self.data[gen_idx.idx].is_some()
    }

    /// True iff the index is in range and, when the slot is occupied, the
    /// occupant's generation matches the handle's.
    pub fn check_idx(&self, gen_idx: &GenerationalIndex) -> (r: bool)
        ensures
            r == (gen_idx.idx < self.slots().len() && (self.slots()[gen_idx.idx as int] is Some
                ==> self.slots()[gen_idx.idx as int]->Some_0.generation == gen_idx.gen)),
    {
        if gen_idx.idx >= self.data.len() {
            return false;
        }
        if let Some(e) = &self.data[gen_idx.idx] {
            if e.generation != gen_idx.gen {
                return false;
            }
        }
        true
    }
}

/// Law: a freed slot is handed out again with a strictly increased
/// generation. `s0` is an arena in which `h` is live; deallocating `h`
/// leaves the state described by `s1` (the `ensures` of `deallocate`), and
/// an `allocate` from `s1` that recycles the top of the free list returns a
/// handle `r` as described by its `ensures`. Then `r` reuses `h.idx` and its
/// generation is exactly one greater than the deallocated handle's.
pub proof fn lemma_reallocation_increases_generation(
    s0: GenerationalIndexAllocator,
    s1: GenerationalIndexAllocator,
    h: GenerationalIndex,
    r: GenerationalIndex,
)
    requires
        s0.wf(),
        s0.spec_is_live(h),
        s1.slots() == s0.slots().update(
            h.idx as int,
            AllocatorEntry { is_live: false, gen: h.gen },
        ),
        s1.free_list() == s0.free_list().push(h.idx),
        r.idx == s1.free_list().last(),
        r.gen == s1.slots()[r.idx as int].gen + 1,
    ensures
        r.idx == h.idx,
        r.gen == h.gen + 1,
{
}

/// Law: two handles that share an index but carry different generations can
/// never both find an entry in a store, so an operation through the stale
/// handle cannot observe the live handle's payload (and by the `ensures` of
/// `remove` and `borrow_mut`, cannot change it either).
pub proof fn lemma_stale_handle_isolated<T>(
    s: &GenerationalIndexArray<T>,
    h1: GenerationalIndex,
    h2: GenerationalIndex,
)
    requires
        h1.idx == h2.idx,
        h1.gen != h2.gen,
    ensures
        !(s.spec_has(h1) && s.spec_has(h2)),
{
}

} // verus!
