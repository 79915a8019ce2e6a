use engine::components::{Player, Position, Size, Sprite, Velocity};
use engine::storage::{Entity, Storage};
use engine::world::World;

#[test]
fn add_then_get_returns_value() {
    let mut w = World::new();
    let e = w.create_entity();
    w.add_component(e, Position { x: 3, y: -4 });
    assert_eq!(w.get_component::<Position>(e), Some(&Position { x: 3, y: -4 }));
    assert_eq!(w.get_component::<Velocity>(e), None);
}

#[test]
fn add_leaves_other_types_alone() {
    let mut w = World::new();
    let e = w.create_entity();
    w.add_component(e, Velocity { x: 1, y: 2 });
    w.add_component(e, Position { x: 7, y: 8 });
    assert_eq!(w.get_component::<Velocity>(e), Some(&Velocity { x: 1, y: 2 }));
    assert_eq!(w.get_component::<Size>(e), None);
}

#[test]
fn fresh_world_has_nothing() {
    let mut w = World::new();
    let e = w.create_entity();
    assert!(w.get_component::<Position>(e).is_none());
    assert!(w.get_component::<Velocity>(e).is_none());
    assert!(w.get_component::<Size>(e).is_none());
    assert!(w.get_component::<Player>(e).is_none());
    assert!(w.get_component::<Sprite>(e).is_none());
    assert_eq!(w.get_storage::<Velocity>().len(), 0);
}

#[test]
fn absent_for_entity_that_never_received_type() {
    let mut w = World::new();
    let a = w.create_entity();
    let b = w.create_entity();
    w.add_component(a, Size { width: 2, height: 3 });
    assert_eq!(w.get_component::<Size>(b), None);
    assert_eq!(w.get_component::<Size>(a), Some(&Size { width: 2, height: 3 }));
}

#[test]
fn overwrite_keeps_one_entry() {
    let mut w = World::new();
    let e = w.create_entity();
    w.add_component(e, Velocity { x: 1, y: 1 });
    w.add_component(e, Velocity { x: -2, y: 5 });
    assert_eq!(w.get_component::<Velocity>(e), Some(&Velocity { x: -2, y: 5 }));
    assert_eq!(w.get_storage::<Velocity>().len(), 1);
    assert_eq!(w.get_storage::<Velocity>().entries(), &[(e, Velocity { x: -2, y: 5 })]);
}

#[test]
fn created_entities_are_distinct_and_ordered() {
    let mut w = World::new();
    let mut ids: Vec<Entity> = Vec::new();
    for _ in 0..10 {
        ids.push(w.create_entity());
    }
    for i in 0..ids.len() {
        for j in (i + 1)..ids.len() {
            assert_ne!(ids[i], ids[j]);
            assert!(ids[i].id < ids[j].id);
        }
    }
    assert_eq!(ids[0], Entity { id: 0 });
    assert_eq!(ids[9], Entity { id: 9 });
}

#[test]
fn storage_iteration_yields_each_pair_once() {
    let mut w = World::new();
    let a = w.create_entity();
    let b = w.create_entity();
    let c = w.create_entity();
    w.add_component(a, Velocity { x: 1, y: 0 });
    w.add_component(b, Velocity { x: 0, y: 1 });
    w.add_component(c, Velocity { x: -1, y: -1 });
    let mut seen: Vec<(Entity, Velocity)> = w
        .get_storage::<Velocity>()
        .entries()
        .iter()
        .copied()
        .collect();
    seen.sort_by_key(|(e, _)| e.id);
    assert_eq!(
        seen,
        vec![
            (a, Velocity { x: 1, y: 0 }),
            (b, Velocity { x: 0, y: 1 }),
            (c, Velocity { x: -1, y: -1 }),
        ]
    );
}

#[test]
fn storage_insert_and_get() {
    let mut s: Storage<u32> = Storage::new();
    let e = Entity { id: 42 };
    assert_eq!(s.get(e), None);
    s.insert(e, 5);
    s.insert(Entity { id: 7 }, 6);
    s.insert(e, 9);
    assert_eq!(s.get(e), Some(&9));
    assert_eq!(s.get(Entity { id: 7 }), Some(&6));
    assert_eq!(s.len(), 2);
}

#[test]
fn get_component_mut_changes_in_place() {
    let mut w = World::new();
    let a = w.create_entity();
    let b = w.create_entity();
    w.add_component(a, Position { x: 1, y: 1 });
    w.add_component(a, Velocity { x: 9, y: 9 });
    if let Some(p) = w.get_component_mut::<Position>(a) {
        p.x = 40;
    }
    assert_eq!(w.get_component::<Position>(a), Some(&Position { x: 40, y: 1 }));
    assert_eq!(w.get_component::<Velocity>(a), Some(&Velocity { x: 9, y: 9 }));
    assert!(w.get_component_mut::<Position>(b).is_none());
    assert!(w.get_component_mut::<Sprite>(a).is_none());
}

#[test]
fn storage_get_mut_absent_and_present() {
    let mut s: Storage<u32> = Storage::new();
    let e = Entity { id: 3 };
    assert!(s.get_mut(e).is_none());
    s.insert(e, 1);
    *s.get_mut(e).unwrap() += 10;
    assert_eq!(s.get(e), Some(&11));
    assert_eq!(s.len(), 1);
}
