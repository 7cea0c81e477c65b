use std::time::Instant;

use ecs_core::locked::LockedWorld;
use ecs_core::world::World;
use ecs_core::world::WorldError;

const TAG_COUNTER: u64 = 0;
const TAG_TIMER: u64 = 1;

struct Timer {
    last_instant: Instant,
    interval_ms: u64,
}

enum Res {
    Count(u32),
    Clock(Timer),
}

#[test]
fn query_resource() {
    let mut world: World<(), Res> = World::new();
    world
        .create_resource(
            TAG_TIMER,
            Res::Clock(Timer { last_instant: Instant::now(), interval_ms: 100 }),
        )
        .unwrap();

    let mut n: u32 = 0;

    loop {
        if n > 3 {
            break;
        }
        if let Some(Res::Clock(timer)) = world.resource_mut(TAG_TIMER) {
            if timer.last_instant.elapsed().as_millis() > timer.interval_ms as u128 {
                timer.last_instant = Instant::now();
                n += 1;
            }
        } else {
            panic!("timer resource missing");
        }
    }
}

#[test]
fn duplicate_resource_is_an_error() {
    let mut world: World<(), Res> = World::new();
    let first = world.create_resource(TAG_COUNTER, Res::Count(0));
    assert_eq!(first, Ok(ecs_core::world::ResourceId::from(0)));
    let second = world.create_resource(TAG_COUNTER, Res::Count(1));
    assert_eq!(second, Err(WorldError::DuplicateResource));
    let third = world.create_resource(TAG_TIMER + 1, Res::Count(7));
    assert_eq!(third, Ok(ecs_core::world::ResourceId::from(1)));

    match world.resource_ref(TAG_COUNTER) {
        Some(Res::Count(v)) => assert_eq!(*v, 0),
        _ => panic!("counter resource missing"),
    }
    assert!(world.resource_ref(TAG_TIMER).is_none());
}

#[test]
fn resource_mut_persists() {
    let mut world: World<(), Res> = World::new();
    world.create_resource(TAG_COUNTER, Res::Count(0)).unwrap();

    for _ in 0..5 {
        if let Some(Res::Count(v)) = world.resource_mut(TAG_COUNTER) {
            *v += 2;
        }
    }
    match world.resource_ref(TAG_COUNTER) {
        Some(Res::Count(v)) => assert_eq!(*v, 10),
        _ => panic!("counter resource missing"),
    }
}

#[test]
fn locked_world_shared_and_exclusive() {
    let locked: LockedWorld<u32, ()> = LockedWorld::new();

    let mut writer = locked.lock_exclusive();
    let e = {
        let world = writer.world_mut();
        let e = world.create_entity();
        world.insert(0, &e, 42);
        e
    };
    writer.release();

    let reader_one = locked.lock_shared();
    let reader_two = locked.lock_shared();
    assert_eq!(reader_one.world().component_list_ref(0).unwrap().get(&e), Some(&42));
    assert_eq!(reader_two.world().component_list_ref(0).unwrap().get(&e), Some(&42));
    reader_one.release();
    reader_two.release();
}

#[test]
fn locked_world_upgrade() {
    let locked: LockedWorld<u32, ()> = LockedWorld::new();

    let mut writer = locked.lock_exclusive();
    let e = {
        let world = writer.world_mut();
        let e = world.create_entity();
        world.insert(0, &e, 1);
        e
    };
    writer.release();

    let upgradable = locked.lock_upgradable();
    let seen = *upgradable.world().component_list_ref(0).unwrap().get(&e).unwrap();
    let mut writer = upgradable.upgrade();
    writer.world_mut().insert(0, &e, seen + 1);
    writer.release();

    let reader = locked.lock_shared();
    assert_eq!(reader.world().component_list_ref(0).unwrap().get(&e), Some(&2));
    reader.release();

    let upgradable = locked.lock_upgradable();
    upgradable.release();
}
