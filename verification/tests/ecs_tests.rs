use ecs_wire::arena::{GenerationalIndex, GenerationalIndexAllocator, GenerationalIndexArray};
use ecs_wire::ecs::{Ecs, Entity, EntityMap, System};
use ecs_wire::ident::CompId;

#[derive(Clone, Debug, PartialEq)]
enum TestComp {
    Nothing,
    IntWrapper(i32),
    Position(i32, i32),
    Velocity(i32, i32),
}

const NOTHING: CompId = 0;
const INT_WRAPPER: CompId = 1;
const POSITION: CompId = 2;
const VELOCITY: CompId = 3;

struct UpdatePositionSystem {}

impl System for UpdatePositionSystem {
    type Config = ();
    type Comp = TestComp;

    fn comp_constraints(&self) -> Vec<CompId> {
        vec![POSITION, VELOCITY]
    }

    fn run(&self, _config: &(), entity_map: &mut EntityMap<TestComp>, entities: &Vec<Entity>) {
        for entity in entities {
            let cm = entity_map.borrow_mut(entity).unwrap();
            let (px, py) = match cm.borrow(POSITION) {
                TestComp::Position(x, y) => (*x, *y),
                _ => unreachable!(),
            };
            let (vx, vy) = match cm.borrow(VELOCITY) {
                TestComp::Velocity(x, y) => (*x, *y),
                _ => unreachable!(),
            };
            cm.set(POSITION, TestComp::Position(px + vx, py + vy));
        }
    }
}

#[test]
fn entities_not_equal() {
    let mut ecs: Ecs<UpdatePositionSystem> = Ecs::new();
    let entity_one = ecs.create_entity();
    let entity_two = ecs.create_entity();
    assert_ne!(entity_one, entity_two);
}

#[test]
fn attach_component() {
    let mut ecs: Ecs<UpdatePositionSystem> = Ecs::new();
    let entity_one = ecs.create_entity();
    let entity_one_cm = ecs.entity_map.borrow_mut(&entity_one).unwrap();
    entity_one_cm.set(NOTHING, TestComp::Nothing);
    assert!(entity_one_cm.has(NOTHING));
}

#[test]
fn overwrite_component() {
    let mut ecs: Ecs<UpdatePositionSystem> = Ecs::new();
    let entity_one = ecs.create_entity();
    let entity_one_cm = ecs.entity_map.borrow_mut(&entity_one).unwrap();
    entity_one_cm.set(INT_WRAPPER, TestComp::IntWrapper(0));
    entity_one_cm.set(INT_WRAPPER, TestComp::IntWrapper(1));
    let got = match entity_one_cm.borrow(INT_WRAPPER) {
        TestComp::IntWrapper(v) => *v,
        _ => unreachable!(),
    };
    assert_eq!(got, 1)
}

#[test]
fn pos_system_updates() {
    let mut ecs: Ecs<UpdatePositionSystem> = Ecs::new();
    ecs.add_system(UpdatePositionSystem {});
    let entity_one = ecs.create_entity();
    {
        let entity_one_cm = ecs.entity_map.borrow_mut(&entity_one).unwrap();
        entity_one_cm.set(POSITION, TestComp::Position(1, 2));
        entity_one_cm.set(VELOCITY, TestComp::Velocity(3, 4));
    }
    ecs.tick(&());
    let entity_one_cm = ecs.entity_map.borrow(&entity_one).unwrap();
    assert_eq!(*entity_one_cm.borrow(POSITION), TestComp::Position(4, 6))
}

#[test]
fn allocate_reuses_freed_index_with_higher_generation() {
    let mut allocator = GenerationalIndexAllocator::new();
    let h0 = allocator.allocate();
    let h1 = allocator.allocate();
    let h2 = allocator.allocate();
    assert_eq!((h0.idx, h0.gen), (0, 0));
    assert_eq!((h1.idx, h1.gen), (1, 0));
    assert_eq!((h2.idx, h2.gen), (2, 0));
    assert!(allocator.is_live(&h1));

    assert!(allocator.deallocate(&h1));
    assert!(!allocator.is_live(&h1));

    let reused = allocator.allocate();
    assert_eq!(reused.idx, 1);
    assert_eq!(reused.gen, h1.gen + 1);
    assert!(allocator.is_live(&reused));
    assert!(!allocator.is_live(&h1));
}

#[test]
fn deallocate_stale_handle_reports_false() {
    let mut allocator = GenerationalIndexAllocator::new();
    let h = allocator.allocate();
    assert!(allocator.deallocate(&h));
    assert!(!allocator.deallocate(&h));
    let reused = allocator.allocate();
    assert_eq!(reused.idx, h.idx);
    assert!(!allocator.deallocate(&h));
    assert!(allocator.is_live(&reused));
}

#[test]
fn live_entries_in_index_order() {
    let mut allocator = GenerationalIndexAllocator::new();
    let h0 = allocator.allocate();
    let h1 = allocator.allocate();
    let h2 = allocator.allocate();
    allocator.deallocate(&h1);
    let live = allocator.entries();
    assert_eq!(live, vec![h0, h2]);
}

#[test]
fn store_ignores_stale_generation() {
    let mut allocator = GenerationalIndexAllocator::new();
    let mut store: GenerationalIndexArray<i32> = GenerationalIndexArray::new();
    let h_old = allocator.allocate();
    allocator.deallocate(&h_old);
    let h_new = allocator.allocate();
    assert_eq!(h_old.idx, h_new.idx);

    assert!(store.set(&h_new, 7));
    // the stale handle sees nothing and removes nothing
    assert!(store.borrow(&h_old).is_none());
    assert!(!store.has_entry(&h_old));
    assert!(!store.remove(&h_old));
    assert_eq!(store.borrow(&h_new), Some(&7));
}

#[test]
fn store_borrow_mut_updates_payload() {
    let mut store: GenerationalIndexArray<i32> = GenerationalIndexArray::new();
    let h = GenerationalIndex { idx: 3, gen: 5 };
    assert!(store.set(&h, 1));
    *store.borrow_mut(&h).unwrap() = 2;
    assert_eq!(store.borrow(&h), Some(&2));
    assert!(store.remove(&h));
    assert!(!store.has_entry(&h));
}

#[test]
fn component_map_set_has_borrow_remove() {
    let mut ecs: Ecs<UpdatePositionSystem> = Ecs::new();
    let e = ecs.create_entity();
    let cm = ecs.entity_map.borrow_mut(&e).unwrap();
    assert!(!cm.has(POSITION));
    cm.set(POSITION, TestComp::Position(8, 9));
    assert!(cm.has(POSITION));
    assert!(cm.has_type_id(POSITION));
    assert_eq!(*cm.borrow(POSITION), TestComp::Position(8, 9));
    cm.remove(POSITION);
    assert!(!cm.has(POSITION));
}

#[test]
fn destroyed_entity_vanishes_everywhere() {
    let mut ecs: Ecs<UpdatePositionSystem> = Ecs::new();
    let keep = ecs.create_entity();
    let doomed = ecs.create_entity();
    assert!(ecs.destroy_entity(doomed));

    let live = ecs.entities();
    assert!(live.contains(&keep));
    assert!(!live.contains(&doomed));

    // absent even from a filter with no required attributes at all
    let unfiltered = ecs.live_entities_with(&vec![]);
    assert!(unfiltered.contains(&keep));
    assert!(!unfiltered.contains(&doomed));
}

#[test]
fn tick_filters_on_required_kinds() {
    let mut ecs: Ecs<UpdatePositionSystem> = Ecs::new();
    ecs.add_system(UpdatePositionSystem {});
    let moving = ecs.create_entity();
    let still = ecs.create_entity();
    {
        let cm = ecs.entity_map.borrow_mut(&moving).unwrap();
        cm.set(POSITION, TestComp::Position(0, 0));
        cm.set(VELOCITY, TestComp::Velocity(1, 1));
    }
    {
        let cm = ecs.entity_map.borrow_mut(&still).unwrap();
        cm.set(POSITION, TestComp::Position(10, 10));
    }
    ecs.tick(&());
    ecs.tick(&());
    let moving_cm = ecs.entity_map.borrow(&moving).unwrap();
    assert_eq!(*moving_cm.borrow(POSITION), TestComp::Position(2, 2));
    let still_cm = ecs.entity_map.borrow(&still).unwrap();
    assert_eq!(*still_cm.borrow(POSITION), TestComp::Position(10, 10));
}

#[test]
fn component_map_get_copies_payload() {
    let mut map: ecs_wire::ecs::ComponentMap<u64> = ecs_wire::ecs::ComponentMap::new();
    map.set(4, 99);
    assert_eq!(map.get(4), 99);
}
