use ecs_core::entity::EntityId;
use ecs_core::world::World;

const TAG_HEALTH: u64 = 0;
const TAG_FACTION: u64 = 1;

#[derive(Debug, Clone, Copy, PartialEq, Eq)]
enum Faction {
    Ally,
    Enemy,
}

#[derive(Debug, Clone, Copy, PartialEq, Eq)]
enum Comp {
    Health(u32),
    Faction(Faction),
}

fn health_of(world: &World<Comp, ()>, e: &EntityId) -> Option<u32> {
    match world.component_list_ref(TAG_HEALTH)?.get(e) {
        Some(Comp::Health(h)) => Some(*h),
        _ => None,
    }
}

/// One pass: every faction holder strikes every holder of a different
/// faction for one point, from a snapshot taken at the start; afterwards
/// every entity whose health reached zero is deleted.
fn attack_pass(world: &mut World<Comp, ()>) {
    {
        let (factions, healths) = world.component_lists_mut(TAG_FACTION, TAG_HEALTH).unwrap();
        let holders = factions.query();
        for i in 0..holders.len() {
            for j in 0..holders.len() {
                if i == j {
                    continue;
                }
                let attacker = holders.get(i);
                let defender = holders.get(j);
                let fa = factions.get(&attacker);
                let fd = factions.get(&defender);
                if let (Some(Comp::Faction(fa)), Some(Comp::Faction(fd))) = (fa, fd) {
                    if fa != fd {
                        if let Some(Comp::Health(h)) = healths.get_mut(&defender) {
                            *h = h.saturating_sub(1);
                        }
                    }
                }
            }
        }
    }
    let mut dead: Vec<EntityId> = Vec::new();
    {
        let healths = world.component_list_ref(TAG_HEALTH).unwrap();
        let wounded = healths.query();
        for i in 0..wounded.len() {
            let e = wounded.get(i);
            if let Some(Comp::Health(0)) = healths.get(&e) {
                dead.push(e);
            }
        }
    }
    for e in &dead {
        world.delete_entity(e);
    }
}

#[test]
fn attack_scenario() {
    let mut world: World<Comp, ()> = World::new();

    let a = world.create_entity();
    world.insert(TAG_HEALTH, &a, Comp::Health(3));
    world.insert(TAG_FACTION, &a, Comp::Faction(Faction::Ally));

    let b = world.create_entity();
    world.insert(TAG_HEALTH, &b, Comp::Health(2));
    world.insert(TAG_FACTION, &b, Comp::Faction(Faction::Enemy));

    attack_pass(&mut world);
    assert_eq!(health_of(&world, &a), Some(2));
    assert_eq!(health_of(&world, &b), Some(1));

    attack_pass(&mut world);
    attack_pass(&mut world);

    assert!(!world.contains(TAG_HEALTH, &b));
    assert!(!world.contains(TAG_FACTION, &b));
    assert_eq!(health_of(&world, &b), None);
    assert_eq!(health_of(&world, &a), Some(1));
}

#[test]
fn deletion_snapshot_isolation() {
    let mut world: World<Comp, ()> = World::new();
    let a = world.create_entity();
    let b = world.create_entity();
    world.insert(TAG_HEALTH, &a, Comp::Health(1));
    world.insert(TAG_HEALTH, &b, Comp::Health(2));

    let before = world.component_list_ref(TAG_HEALTH).unwrap().query();
    world.delete_entity(&a);

    assert!(before.contains(&a));
    assert!(before.contains(&b));

    let list = world.component_list_ref(TAG_HEALTH).unwrap();
    assert_eq!(list.get(&a), None);
    assert_eq!(list.get(&b), Some(&Comp::Health(2)));
}
