//! Entity runtime: a per-entity capability map, a behavior-unit trait, and
//! the runtime that ticks behavior units over filtered live entities.

use vstd::prelude::*;

use crate::arena::{GenerationalIndex, GenerationalIndexAllocator, GenerationalIndexArray};
use crate::ident::CompId;

verus! {

pub type Entity = GenerationalIndex;

pub type EntityMap<C> = GenerationalIndexArray<ComponentMap<C>>;

/// Maps from component kind IDs to the corresponding component for a single
/// entity: at most one payload per kind; absence is an ordinary, queryable
/// state.
pub struct ComponentMap<C> {
    data: Vec<Option<C>>,
}

impl<C> ComponentMap<C> {
    /// The payload slots, indexed by kind id.
    pub closed spec fn slots(&self) -> Seq<Option<C>> {
        self.data@
    }

    /// Whether a payload of this kind is present.
    pub open spec fn spec_has(&self, kind: CompId) -> bool {
        kind < self.slots().len() && self.slots()[kind as int] is Some
    }

    /// The payload of this kind (meaningful when `spec_has` holds).
    pub open spec fn spec_get(&self, kind: CompId) -> C
        recommends
            self.spec_has(kind),
    {
        self.slots()[kind as int]->Some_0
    }

    pub fn new() -> (r: Self)
        ensures
            r.slots().len() == 0,
            forall|k: CompId| !r.spec_has(k),
    {
        Self { data: Vec::new() }
    }

    /// Inserts or replaces the payload of this kind; no other kind changes.
    pub fn set(&mut self, kind: CompId, comp: C)
        ensures
            final(self).spec_has(kind),
            final(self).spec_get(kind) == comp,
            forall|k: CompId|
                k != kind ==> (final(self).spec_has(k) <==> old(self).spec_has(k)),
            forall|k: CompId|
                k != kind && old(self).spec_has(k) ==> final(self).spec_get(k) == old(self).spec_get(k),
    {
        let idx = kind as usize;
        while self.data.len() <= idx
            invariant
                idx < 256,
                forall|j: int|
                    0 <= j < self.slots().len() ==> self.slots()[j] == if j < old(self).slots().len() {
                        old(self).slots()[j]
                    } else {
                        None::<C>
                    },
                self.slots().len() >= old(self).slots().len(),
            decreases idx + 1 - self.data.len(),
        {
            self.data.push(None);
        }
        self.data[idx] = Some(comp);
    }

    /// The payload of this kind, which must be present; copied out.
    pub fn get(&self, kind: CompId) -> (r: C) where C: Copy
        requires
            self.spec_has(kind),
        ensures
            r == self.spec_get(kind),
    {
        *self.borrow(kind)
    }

    /// A shared view of the payload of this kind, which must be present
    /// (callers confirm presence with `has` first).
    pub fn borrow(&self, kind: CompId) -> (r: &C)
        requires
            self.spec_has(kind),
        ensures
            *r == self.spec_get(kind),
    {
        match &self.data[kind as usize] {
            Some(c) => c,
            None => unreached(),
        }
    }

    /// An exclusive view of the payload of this kind, which must be present.
    /// Writing through the view replaces the stored payload.
    pub fn borrow_mut(&mut self, kind: CompId) -> (r: &mut C)
        requires
            old(self).spec_has(kind),
        ensures
            *r == old(self).spec_get(kind),
            final(self).slots() == old(self).slots().update(kind as int, Some(*final(r))),
    {
        match &mut self.data[kind as usize] {
            Some(c) => c,
            None => unreached(),
        }
    }

    /// Drops the payload of this kind, if any; no other kind changes.
    pub fn remove(&mut self, kind: CompId)
        ensures
            !final(self).spec_has(kind),
            forall|k: CompId|
                k != kind ==> (final(self).spec_has(k) <==> old(self).spec_has(k)),
            forall|k: CompId|
                k != kind && old(self).spec_has(k) ==> final(self).spec_get(k) == old(self).spec_get(k),
    {
        if (kind as usize) < self.data.len() {
            self.data[kind as usize] = None;
        }
    }

    /// Whether a payload of this kind is present.
    pub fn has(&self, kind: CompId) -> (r: bool)
        ensures
            r == self.spec_has(kind),
    {
        self.has_type_id(kind)
    }

    /// Whether a payload of this kind is present, by explicit kind id.
    pub fn has_type_id(&self, kind: CompId) -> (r: bool)
        ensures
            r == self.spec_has(kind),
    {
        (kind as usize) < self.data.len() && self.data[kind as usize].is_some()
    }

    /// Whether every kind in `kinds` is present.
    pub fn has_all(&self, kinds: &Vec<CompId>) -> (r: bool)
        ensures
            r == forall|j: int| 0 <= j < kinds@.len() ==> self.spec_has(#[trigger] kinds@[j]),
    {
        let n = kinds.len();
        for j in 0..n
            invariant
                n == kinds@.len(),
                forall|k: int| 0 <= k < j ==> self.spec_has(#[trigger] kinds@[k]),
        {
            if !self.has_type_id(kinds[j]) {
                return false;
            }
        }
        true
    }
}

/// A behavior unit: an attribute-constraint set and an action run once per
/// tick over the live entities satisfying the constraints. Implemented by
/// the library's users; `run` may change the entity map freely.
pub trait System {
    /// The shared per-tick context handed to `run`.
    type Config;

    /// The component payload type of the entity maps this unit works on.
    type Comp;

    /// The component kinds an entity must carry for this unit to see it.
    fn comp_constraints(&self) -> Vec<CompId>;

    /// The unit's action for one tick, over the filtered entity list.
    fn run(
        &self,
        tick_config: &Self::Config,
        entity_map: &mut EntityMap<Self::Comp>,
        entities: &Vec<Entity>,
    );
}

/// The entity runtime: owns the arena, the handle-indexed store of component
/// maps, and the behavior units, which run in registration order each tick.
pub struct Ecs<S: System> {
    pub entity_map: EntityMap<S::Comp>,
    // The order of the systems defines the order in which they run each tick.
    pub systems: Vec<S>,
    pub entity_allocator: GenerationalIndexAllocator,
}

impl<S: System> Ecs<S> {
    /// The arena, as a mathematical value.
    pub open spec fn allocator(&self) -> GenerationalIndexAllocator {
        self.entity_allocator
    }

    /// The behavior units, in registration order.
    pub open spec fn spec_systems(&self) -> Seq<S> {
        self.systems@
    }

    /// Consistency between the arena and the store of component maps: every
    /// live handle finds its component map, and no stored map carries a
    /// generation newer than its slot's.
    pub open spec fn wf(&self) -> bool {
        &&& self.allocator().wf()
        &&& forall|h: Entity|
            self.allocator().spec_is_live(h) ==> #[trigger] self.entity_map.spec_has(h)
        &&& forall|i: int|
            0 <= i < self.entity_map.slots().len() && #[trigger] self.entity_map.slots()[i]
                is Some ==> i < self.allocator().slots().len()
                && self.entity_map.slots()[i]->Some_0.generation <= self.allocator().slots()[i].gen
    }

    /// `create_entity` allocates a handle and indexes the store with it;
    /// this requires room in the arena's generation and index space.
    pub open spec fn can_create(&self) -> bool {
        self.allocator().can_allocate() && self.allocator().slots().len() < usize::MAX
    }

    pub fn new() -> (r: Self)
        ensures
            r.wf(),
            r.spec_systems().len() == 0,
            r.allocator().slots().len() == 0,
            r.entity_map.slots().len() == 0,
    {
        Self {
            entity_map: GenerationalIndexArray::new(),
            systems: Vec::new(),
            entity_allocator: GenerationalIndexAllocator::new(),
        }
    }

    /// Registers a behavior unit after all currently registered ones.
    pub fn add_system(&mut self, system: S)
        ensures
            final(self).spec_systems() == old(self).spec_systems().push(system),
            final(self).entity_map == old(self).entity_map,
            final(self).allocator() == old(self).allocator(),
    {
        self.systems.push(system);
    }

    /// Allocates a live handle and an empty component map for it, atomically
    /// from the caller's point of view. Live entities and their maps are
    /// untouched.
    pub fn create_entity(&mut self) -> (r: Entity)
        requires
            old(self).wf(),
            old(self).can_create(),
        ensures
            final(self).wf(),
            final(self).allocator().spec_is_live(r),
            !old(self).allocator().spec_is_live(r),
            final(self).entity_map.spec_has(r),
            final(self).entity_map.spec_get(r).slots().len() == 0,
            forall|h: Entity|
                h.idx != r.idx ==> (final(self).allocator().spec_is_live(h) <==> old(self).allocator().spec_is_live(h)),
            forall|h: Entity|
                h.idx != r.idx && old(self).entity_map.spec_has(h) ==> final(self).entity_map.spec_has(h) && final(self).entity_map.spec_get(h) == old(self).entity_map.spec_get(h),
            final(self).spec_systems() == old(self).spec_systems(),
    {
        let result = self.entity_allocator.allocate();
        proof {
            // The freshly issued generation is newer than whatever the store
            // holds at this index, so the write below is permitted.
            if result.idx < self.entity_map.slots().len() && self.entity_map.slots()[result.idx as int] is Some {
                assert(self.entity_map.slots()[result.idx as int]->Some_0.generation <= old(
                    self,
                ).allocator().slots()[result.idx as int].gen);
            }
        }
        // Initialize the entity's component map.
        self.entity_map.set(&result, ComponentMap::new());
        proof {
            assert forall|h: Entity|
                self.allocator().spec_is_live(h) implies #[trigger] self.entity_map.spec_has(
                h,
            ) by {
                if h.idx != result.idx {
                    assert(old(self).entity_map.spec_has(h));
                }
            }
        }
        result
    }

    /// Whether removing `entity`'s component map and deallocating its handle
    /// must report the same outcome. The two can only disagree after the
    /// store was edited past the runtime (a map dropped for a live entity,
    /// or one planted for a dead handle); such a disagreement is an
    /// unrecoverable internal-consistency breach, so it is ruled out here.
    pub open spec fn destroy_agreed(&self, entity: Entity) -> bool {
        self.allocator().spec_is_live(entity) <==> (entity.idx < self.entity_map.slots().len()
            && (self.entity_map.slots()[entity.idx as int] is Some
            ==> self.entity_map.slots()[entity.idx as int]->Some_0.generation <= entity.gen))
    }

    /// Removes the component map and deallocates the handle; both report the
    /// same outcome: `true` iff the entity was live. Afterwards the handle is
    /// dead and finds no map.
    pub fn destroy_entity(&mut self, entity: Entity) -> (r: bool)
        requires
            old(self).wf(),
            old(self).destroy_agreed(entity),
        ensures
            final(self).wf(),
            r == old(self).allocator().spec_is_live(entity),
            !final(self).allocator().spec_is_live(entity),
            !final(self).entity_map.spec_has(entity),
            forall|h: Entity|
                h.idx != entity.idx ==> (final(self).allocator().spec_is_live(h) <==> old(self).allocator().spec_is_live(h)),
            forall|h: Entity|
                h.idx != entity.idx && old(self).entity_map.spec_has(h) ==> final(self).entity_map.spec_has(h) && final(self).entity_map.spec_get(h) == old(self).entity_map.spec_get(h),
            final(self).spec_systems() == old(self).spec_systems(),
    {
        let map_rm_success = self.entity_map.remove(&entity);
        let alloc_rm_success = self.entity_allocator.deallocate(&entity);
        // The runtime's consistency guarantees the two agree; a disagreement
        // would mean the two structures diverged.
        proof {
            assert(map_rm_success == alloc_rm_success);
            assert forall|h: Entity|
                self.allocator().spec_is_live(h) implies #[trigger] self.entity_map.spec_has(
                h,
            ) by {
                if alloc_rm_success {
                    // the freed slot is dead, so nothing is live at its index
                    assert(!self.allocator().slots()[entity.idx as int].is_live);
                    assert(h.idx != entity.idx);
                }
                assert(old(self).allocator().spec_is_live(h));
                assert(old(self).entity_map.spec_has(h));
            }
        }
        map_rm_success
    }

    /// The live entities, in index order, whose component map holds every
    /// kind in `constraints`.
    pub fn live_entities_with(&self, constraints: &Vec<CompId>) -> (r: Vec<Entity>)
        ensures
            forall|k: int|
                0 <= k < r@.len() ==> self.allocator().spec_is_live(#[trigger] r@[k])
                    && self.entity_map.spec_has(r@[k]) && forall|j: int|
                    0 <= j < constraints@.len() ==> self.entity_map.spec_get(r@[k]).spec_has(
                        #[trigger] constraints@[j],
                    ),
            forall|h: Entity|
                self.allocator().spec_is_live(h) && self.entity_map.spec_has(h) && (forall|j: int|
                    0 <= j < constraints@.len() ==> self.entity_map.spec_get(h).spec_has(
                        #[trigger] constraints@[j],
                    )) ==> r@.contains(h),
            forall|k1: int, k2: int| 0 <= k1 < k2 < r@.len() ==> r@[k1].idx < r@[k2].idx,
    {
        let live = self.entity_allocator.entries();
        let mut result: Vec<Entity> = Vec::new();
        let n = live.len();
        let mut i: usize = 0;
        while i < n
            invariant
                i <= n,
                n == live@.len(),
                forall|k: int| 0 <= k < live@.len() ==> self.allocator().spec_is_live(#[trigger] live@[k]),
                forall|h: Entity| self.allocator().spec_is_live(h) ==> live@.contains(h),
                forall|k1: int, k2: int| 0 <= k1 < k2 < live@.len() ==> live@[k1].idx < live@[k2].idx,
                forall|k: int|
                    0 <= k < result@.len() ==> self.allocator().spec_is_live(#[trigger] result@[k])
                        && self.entity_map.spec_has(result@[k]) && forall|j: int|
                        0 <= j < constraints@.len() ==> self.entity_map.spec_get(
                            result@[k],
                        ).spec_has(#[trigger] constraints@[j]),
                forall|k: int|
                    0 <= k < result@.len() ==> exists|m: int|
                        0 <= m < i && live@[m] == #[trigger] result@[k],
                forall|m: int|
                    0 <= m < i && self.entity_map.spec_has(#[trigger] live@[m]) && (forall|j: int|
                        0 <= j < constraints@.len() ==> self.entity_map.spec_get(
                            live@[m],
                        ).spec_has(#[trigger] constraints@[j])) ==> result@.contains(live@[m]),
                forall|k1: int, k2: int|
                    0 <= k1 < k2 < result@.len() ==> result@[k1].idx < result@[k2].idx,
            decreases n - i,
        {
            let e = live[i];
            let qualifies = match self.entity_map.borrow(&e) {
                Some(comp_map) => comp_map.has_all(constraints),
                None => false,
            };
            if qualifies {
                let ghost before = result@;
                result.push(e);
                proof {
                    assert forall|k1: int, k2: int|
                        0 <= k1 < k2 < result@.len() implies result@[k1].idx < result@[k2].idx by {
                        if k2 == result@.len() - 1 {
                            let m = choose|m: int| 0 <= m < i && live@[m] == before[k1];
                            assert(live@[m].idx < live@[i as int].idx);
                        }
                    }
                    assert forall|m: int|
                        0 <= m < i + 1 && self.entity_map.spec_has(#[trigger] live@[m]) && (
                        forall|j: int|
                            0 <= j < constraints@.len() ==> self.entity_map.spec_get(
                                live@[m],
                            ).spec_has(#[trigger] constraints@[j])) implies result@.contains(
                        live@[m],
                    ) by {
                        if m == i {
                            assert(result@.last() == live@[m]);
                        } else {
                            assert(before.contains(live@[m]));
                            let k = choose|k: int| 0 <= k < before.len() && before[k] == live@[m];
                            assert(result@[k] == live@[m]);
                        }
                    }
                    assert forall|k: int|
                        0 <= k < result@.len() implies exists|m: int|
                            0 <= m < i + 1 && live@[m] == #[trigger] result@[k] by {
                        if k == result@.len() - 1 {
                            assert(live@[i as int] == result@[k]);
                        } else {
                            let m = choose|m: int| 0 <= m < i && live@[m] == result@[k];
                            assert(0 <= m < i + 1 && live@[m] == result@[k]);
                        }
                    }
                }
            }
            i = i + 1;
        }
        proof {
            assert forall|h: Entity|
                self.allocator().spec_is_live(h) && self.entity_map.spec_has(h) && (forall|j: int|
                    0 <= j < constraints@.len() ==> self.entity_map.spec_get(h).spec_has(
                        #[trigger] constraints@[j],
                    )) implies result@.contains(h) by {
                assert(live@.contains(h));
                let m = choose|m: int| 0 <= m < live@.len() && live@[m] == h;
                assert(result@.contains(live@[m]));
            }
        }
        result
    }

    /// Runs every behavior unit, in registration order, over the live
    /// entities that carry all of the unit's required kinds; the filter is
    /// re-evaluated fresh for each unit. Units may change the component maps
    /// at will, but the arena and the unit list are untouched.
    pub fn tick(&mut self, tick_config: &S::Config)
        ensures
            final(self).allocator() == old(self).allocator(),
            final(self).spec_systems() == old(self).spec_systems(),
    {
        let n = self.systems.len();
        for i in 0..n
            invariant
                n == self.spec_systems().len(),
                self.allocator() == old(self).allocator(),
                self.spec_systems() == old(self).spec_systems(),
        {
            // Find which components this unit filters on.
            let comp_constraints = self.systems[i].comp_constraints();
            let filtered_entities = self.live_entities_with(&comp_constraints);
            self.systems[i].run(tick_config, &mut self.entity_map, &filtered_entities);
        }
    }

    /// All currently live entities, in index order.
    pub fn entities(&self) -> (r: Vec<Entity>)
        ensures
            forall|k: int| 0 <= k < r@.len() ==> self.allocator().spec_is_live(#[trigger] r@[k]),
            forall|h: Entity| self.allocator().spec_is_live(h) ==> r@.contains(h),
            forall|k1: int, k2: int| 0 <= k1 < k2 < r@.len() ==> r@[k1].idx < r@[k2].idx,
    {
        self.entity_allocator.entries()
    }
}

/// Law: a destroyed entity is gone from then on: it is absent from the live
/// enumeration and from every behavior unit's filtered set, whatever kinds
/// the unit requires — even none. Here `e` is the runtime state after
/// `destroy_entity(h)` returned (so `h` is dead, by its `ensures`);
/// membership of either result sequence implies liveness, by the `ensures`
/// of `entities` and `live_entities_with`.
pub proof fn lemma_destroyed_entity_absent<S: System>(
    e: &Ecs<S>,
    h: Entity,
    enumerated: Seq<Entity>,
    filtered: Seq<Entity>,
)
    requires
        !e.allocator().spec_is_live(h),
        forall|k: int|
            0 <= k < enumerated.len() ==> e.allocator().spec_is_live(#[trigger] enumerated[k]),
        forall|k: int|
            0 <= k < filtered.len() ==> e.allocator().spec_is_live(#[trigger] filtered[k]),
    ensures
        !enumerated.contains(h),
        !filtered.contains(h),
{
}

} // verus!
