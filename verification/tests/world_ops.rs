use ecs_core::entity::EntityId;
use ecs_core::world::World;
use ecs_core::world::WorldError;

const TAG_A: u64 = 0;
const TAG_B: u64 = 1;

#[derive(Debug, Clone, Copy, PartialEq, Eq)]
enum Comp {
    A(u32),
    B(i32),
}

#[test]
fn insert_remove_set_get() {
    let mut world: World<Comp, ()> = World::new();

    let alice = world.create_entity();
    let bob = world.create_entity();

    world.insert(TAG_A, &alice, Comp::A(1));
    world.insert(TAG_A, &bob, Comp::A(2));

    world.insert(TAG_B, &alice, Comp::B(2));
    world.insert(TAG_B, &bob, Comp::B(1));

    {
        let list = world.component_list_ref(TAG_A).unwrap();

        if let (Some(Comp::A(alice_val)), Some(Comp::A(bob_val))) = (list.get(&alice), list.get(
            &bob,
        )) {
            assert_eq!(
                (*alice_val, *bob_val),
                (1, 2),
                "testing correct component get from world, alice: {} bob: {}",
                *alice_val,
                *bob_val
            );
        }
    }

    {
        let list = world.component_list_mut(TAG_B).unwrap();

        let (alice_ref, bob_ref) = list.get_many_mut(&alice, &bob).unwrap();
        if let (Comp::B(alice_val), Comp::B(bob_val)) = (alice_ref, bob_ref) {
            *alice_val += *bob_val;
            *bob_val += *alice_val;
            assert_eq!(
                (*alice_val, *bob_val),
                (3, 4),
                "testing correct component get from world, alice: {} bob: {}",
                *alice_val,
                *bob_val
            );
        } else {
            panic!("wrong component variant stored under the B tag");
        }
    }

    assert_eq!(world.remove(TAG_B, &alice), Some(Comp::B(3)));
    assert_eq!(world.remove(TAG_B, &bob), Some(Comp::B(4)));

    assert_eq!(world.remove(TAG_A, &alice), Some(Comp::A(1)));
    assert_eq!(world.remove(TAG_A, &bob), Some(Comp::A(2)));
}

#[test]
fn entity_ids_pairwise_distinct() {
    let mut world: World<Comp, ()> = World::new();
    let mut seen: Vec<EntityId> = Vec::new();
    let mut i: usize = 0;
    while i < 32 {
        let e = world.create_entity();
        for other in &seen {
            assert_ne!(*other, e);
            assert_ne!(other.id(), e.id());
        }
        seen.push(e);
        i += 1;
    }
}

#[test]
fn upsert_returns_previous_value() {
    let mut world: World<Comp, ()> = World::new();
    let e = world.create_entity();

    assert_eq!(world.insert(TAG_A, &e, Comp::A(10)), None);
    assert_eq!(world.insert(TAG_A, &e, Comp::A(20)), Some(Comp::A(10)));

    let list = world.component_list_ref(TAG_A).unwrap();
    assert_eq!(list.get(&e), Some(&Comp::A(20)));
}

#[test]
fn insert_remove_round_trip() {
    let mut world: World<Comp, ()> = World::new();
    let e = world.create_entity();

    world.insert(TAG_A, &e, Comp::A(7));
    assert_eq!(world.remove(TAG_A, &e), Some(Comp::A(7)));
    assert_eq!(world.remove(TAG_A, &e), None);
    assert!(!world.contains(TAG_A, &e));
}

#[test]
fn register_type_twice_is_an_error() {
    let mut world: World<Comp, ()> = World::new();
    assert!(!world.is_registered(TAG_A));
    assert_eq!(world.register_type(TAG_A), Ok(()));
    assert!(world.is_registered(TAG_A));
    assert_eq!(world.register_type(TAG_A), Err(WorldError::TypeAlreadyRegistered));
}

#[test]
fn remove_on_unregistered_tag_is_absence() {
    let mut world: World<Comp, ()> = World::new();
    let e = world.create_entity();
    assert_eq!(world.remove(TAG_A, &e), None);
    assert!(!world.contains(TAG_A, &e));
}

#[test]
fn insert_many_upserts_in_order() {
    let mut world: World<Comp, ()> = World::new();
    let a = world.create_entity();
    let b = world.create_entity();

    world.insert_many(
        TAG_A,
        vec![(a, Comp::A(1)), (b, Comp::A(2)), (a, Comp::A(3))],
    );

    let list = world.component_list_ref(TAG_A).unwrap();
    assert_eq!(list.get(&a), Some(&Comp::A(3)));
    assert_eq!(list.get(&b), Some(&Comp::A(2)));

    let mut world2: World<Comp, ()> = World::new();
    world2.insert_many(TAG_B, Vec::new());
    assert!(world2.is_registered(TAG_B));
}

#[test]
fn delete_entity_clears_every_store() {
    let mut world: World<Comp, ()> = World::new();
    let a = world.create_entity();
    let b = world.create_entity();
    world.insert(TAG_A, &a, Comp::A(1));
    world.insert(TAG_B, &a, Comp::B(2));
    world.insert(TAG_A, &b, Comp::A(3));

    world.delete_entity(&a);

    assert!(!world.contains(TAG_A, &a));
    assert!(!world.contains(TAG_B, &a));
    assert_eq!(world.contains(TAG_A, &b), true);
}

#[test]
fn get_many_mut_rejects_aliases_and_absences() {
    let mut world: World<Comp, ()> = World::new();
    let a = world.create_entity();
    let b = world.create_entity();
    let c = world.create_entity();
    world.insert(TAG_A, &a, Comp::A(5));
    world.insert(TAG_A, &b, Comp::A(6));

    let list = world.component_list_mut(TAG_A).unwrap();
    assert!(list.get_many_mut(&a, &a).is_none());
    assert!(list.get_many_mut(&a, &c).is_none());

    let (pa, pb) = list.get_many_mut(&a, &b).unwrap();
    *pa = Comp::A(50);
    *pb = Comp::A(60);

    assert_eq!(list.get(&a), Some(&Comp::A(50)));
    assert_eq!(list.get(&b), Some(&Comp::A(60)));
}

#[test]
fn two_stores_writable_at_once() {
    let mut world: World<Comp, ()> = World::new();
    let e = world.create_entity();
    world.insert(TAG_A, &e, Comp::A(1));
    world.insert(TAG_B, &e, Comp::B(2));

    assert!(world.component_lists_mut(TAG_A, TAG_A).is_none());
    assert!(world.component_lists_mut(TAG_A, 99).is_none());

    let (list_a, list_b) = world.component_lists_mut(TAG_A, TAG_B).unwrap();
    if let (Some(Comp::A(a)), Some(Comp::B(b))) = (list_a.get_mut(&e), list_b.get_mut(&e)) {
        *a += 10;
        *b += 20;
    }

    let list_a = world.component_list_ref(TAG_A).unwrap();
    let list_b = world.component_list_ref(TAG_B).unwrap();
    assert_eq!(list_a.get(&e), Some(&Comp::A(11)));
    assert_eq!(list_b.get(&e), Some(&Comp::B(22)));
}

#[test]
fn clear_empties_one_store() {
    let mut world: World<Comp, ()> = World::new();
    let a = world.create_entity();
    world.insert(TAG_A, &a, Comp::A(1));
    world.insert(TAG_B, &a, Comp::B(2));

    let list = world.component_list_mut(TAG_A).unwrap();
    list.clear();
    assert_eq!(list.len(), 0);
    assert!(!world.contains(TAG_A, &a));
    assert!(world.contains(TAG_B, &a));
}

#[test]
fn entity_and_resource_ids_from_raw() {
    let e = EntityId::from(9);
    assert_eq!(e.id(), 9);
    assert_eq!(e, EntityId::new(9));
    let r = ecs_core::world::ResourceId::from(3);
    assert_eq!(r, ecs_core::world::ResourceId::from(3));
}
