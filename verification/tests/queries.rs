use ecs_core::entity::EntityId;
use ecs_core::query::QueriedEntities;
use ecs_core::world::World;

const TAG_A: u64 = 10;
const TAG_B: u64 = 11;
const TAG_X: u64 = 20;
const TAG_Y: u64 = 21;

#[derive(Debug, Clone, Copy, PartialEq, Eq)]
enum Marker {
    A,
    B,
}

fn id_set(q: &QueriedEntities) -> Vec<u64> {
    let mut ids: Vec<u64> = q.entities().iter().map(|e| e.id()).collect();
    ids.sort();
    ids
}

#[test]
fn query_with_without() {
    let mut world: World<Marker, ()> = World::new();

    let alice = world.create_entity();
    let bob = world.create_entity();
    let casie = world.create_entity();
    let daniel = world.create_entity();

    world.insert(TAG_A, &alice, Marker::A);
    world.insert(TAG_A, &bob, Marker::A);
    world.insert(TAG_A, &casie, Marker::A);

    world.insert(TAG_B, &alice, Marker::B);
    world.insert(TAG_B, &bob, Marker::B);
    world.insert(TAG_B, &daniel, Marker::B);

    let list_a = world.component_list_ref(TAG_A).unwrap();
    let list_b = world.component_list_ref(TAG_B).unwrap();

    for entity in list_b.with(list_a.query()).entities() {
        assert!(
            alice == *entity || bob == *entity,
            "incorrectly queried \"with\"!"
        );
    }

    for entity in list_a.with(list_b.query()).entities() {
        assert!(
            alice == *entity || bob == *entity,
            "incorrectly queried \"with\"!"
        );
    }

    for entity in list_b.without(list_a.query()).entities() {
        assert!(casie == *entity, "incorrectly queried \"without\"!");
    }

    for entity in list_a.without(list_b.query()).entities() {
        assert!(daniel == *entity, "incorrectly queried \"without\"!");
    }
}

#[test]
fn query_composition_exact_sets() {
    let mut world: World<Marker, ()> = World::new();

    let a = world.create_entity();
    let b = world.create_entity();
    let c = world.create_entity();

    world.insert(TAG_X, &a, Marker::A);
    world.insert(TAG_X, &b, Marker::A);
    world.insert(TAG_X, &c, Marker::A);

    world.insert(TAG_Y, &a, Marker::B);
    world.insert(TAG_Y, &b, Marker::B);

    let list_x = world.component_list_ref(TAG_X).unwrap();
    let list_y = world.component_list_ref(TAG_Y).unwrap();

    let x_with_y = list_y.with(list_x.query());
    assert_eq!(id_set(&x_with_y), vec![a.id(), b.id()]);

    let y_without_x = list_x.without(list_y.query());
    assert_eq!(x_with_y.len(), 2);
    assert!(y_without_x.is_empty());
    assert_eq!(id_set(&y_without_x), Vec::<u64>::new());

    let x_without_y = list_y.without(list_x.query());
    assert_eq!(id_set(&x_without_y), vec![c.id()]);
}

#[test]
fn query_boolean_variants() {
    let mut world: World<Marker, ()> = World::new();

    let a = world.create_entity();
    let b = world.create_entity();
    let c = world.create_entity();

    world.insert(TAG_X, &a, Marker::A);
    world.insert(TAG_X, &b, Marker::A);
    world.insert(TAG_Y, &b, Marker::B);
    world.insert(TAG_Y, &c, Marker::B);

    let list_x = world.component_list_ref(TAG_X).unwrap();
    let list_y = world.component_list_ref(TAG_Y).unwrap();

    let or = list_y.or(list_x.query());
    assert_eq!(id_set(&or), vec![a.id(), b.id(), c.id()]);

    let xor = list_y.xor(list_x.query());
    assert_eq!(id_set(&xor), vec![a.id(), c.id()]);

    let nand = list_y.nand(list_x.query());
    assert_eq!(id_set(&nand), vec![a.id(), c.id()]);

    let nor = list_y.nor(list_x.query());
    assert!(nor.is_empty());

    let xnor = list_y.xnor(list_x.query());
    assert_eq!(id_set(&xnor), vec![b.id()]);
}

#[test]
fn queries_are_plain_values() {
    let mut world: World<Marker, ()> = World::new();
    let a = world.create_entity();
    let b = world.create_entity();
    world.insert(TAG_X, &a, Marker::A);
    world.insert(TAG_X, &b, Marker::A);

    let q = world.component_list_ref(TAG_X).unwrap().query();
    let q2 = q.clone();
    assert_eq!(id_set(&q), id_set(&q2));
    assert_eq!(q.len(), 2);
    assert!(q.contains(&a));
    assert!(q.contains(&b));
    assert!(!q.contains(&EntityId::new(999)));

    let mut seen: Vec<u64> = Vec::new();
    for i in 0..q.len() {
        seen.push(q.get(i).id());
    }
    seen.sort();
    assert_eq!(seen, vec![a.id(), b.id()]);

    let empty = QueriedEntities::new();
    assert!(empty.is_empty());
    assert_eq!(empty.len(), 0);
}

#[test]
fn unregistered_tag_has_no_list_to_query() {
    let world: World<Marker, ()> = World::new();
    assert!(world.component_list_ref(TAG_X).is_none());
    assert!(!world.is_registered(TAG_X));
}

#[test]
fn query_snapshot_is_not_live() {
    let mut world: World<Marker, ()> = World::new();
    let a = world.create_entity();
    world.insert(TAG_X, &a, Marker::A);

    let q = world.component_list_ref(TAG_X).unwrap().query();
    let b = world.create_entity();
    world.insert(TAG_X, &b, Marker::A);

    assert!(q.contains(&a));
    assert!(!q.contains(&b));
}
