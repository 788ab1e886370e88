use roguelike_engine::combat::{
    delete_the_dead, health_after, melee_damage, total, DamageSystem, MeleeSystem,
};
use roguelike_engine::components::{
    BlocksTile, CombatStats, Entity, Name, Player, Position, SufferDamage,
    WantsToMelee,
};
use roguelike_engine::gamelog::LogEntry;
use roguelike_engine::indexing::MapIndexingSystem;
use roguelike_engine::map::TileMap;
use roguelike_engine::state::RunState;
use roguelike_engine::tiles::TileType;
use roguelike_engine::world::World;

fn room(width: i32, height: i32) -> TileMap {
    let mut map = TileMap::new(1, width, height, "Test");
    for y in 1..height - 1 {
        for x in 1..width - 1 {
            let idx = map.xy_idx(x, y);
            map.tiles[idx] = TileType::Floor;
        }
    }
    map.populate_blocked();
    map
}

fn fighter(world: &mut World, name: &str, x: i32, y: i32, hp: i32, defense: i32, power: i32) -> Entity {
    let e = world.create_entity();
    let rec = &mut world.entities[e.id];
    rec.position = Some(Position { x, y });
    rec.name = Some(Name { name: name.to_string() });
    rec.blocks_tile = Some(BlocksTile {});
    rec.combat_stats = Some(CombatStats { max_hp: 30, hp, defense, power });
    e
}

fn name_of(entry: &Option<Name>) -> Option<&str> {
    entry.as_ref().map(|n| n.name.as_str())
}

fn pending(world: &World, e: Entity) -> Option<Vec<i32>> {
    world.entities[e.id].suffer_damage.as_ref().map(|d| d.amount.clone())
}

fn hp(world: &World, e: Entity) -> i32 {
    world.entities[e.id].combat_stats.unwrap().hp
}

#[test]
fn damage_formula() {
    assert_eq!(melee_damage(10, 4), 6);
    assert_eq!(melee_damage(3, 5), 0);
    assert_eq!(melee_damage(5, 5), 0);
    assert_eq!(melee_damage(0, -7), 7);
    assert_eq!(melee_damage(i32::MAX, -1), i32::MAX);
    assert_eq!(melee_damage(i32::MAX, i32::MIN), i32::MAX);
    assert_eq!(melee_damage(i32::MIN, i32::MAX), 0);
    assert_eq!(melee_damage(i32::MAX, 1), i32::MAX - 1);
}

#[test]
fn sum_of_amounts_and_health_after() {
    assert_eq!(total(&vec![]), 0);
    assert_eq!(total(&vec![6, 2, 1]), 9);
    assert_eq!(total(&vec![i32::MAX, i32::MAX, i32::MAX]), 3 * (i32::MAX as i128));
    assert_eq!(total(&vec![-4, 1]), -3);
    assert_eq!(health_after(6, 6), 0);
    assert_eq!(health_after(20, 9), 11);
    assert_eq!(health_after(5, -3), 8);
    assert_eq!(health_after(i32::MIN, 1), i32::MIN);
    assert_eq!(health_after(i32::MAX, -1), i32::MAX);
    assert_eq!(health_after(0, 3 * (i32::MAX as i128)), i32::MIN);
}

#[test]
fn attack_that_kills() {
    // power 10 against defense 4 deals 6; the defender at 6 health drops to 0
    let mut world = World::new(room(8, 8));
    let player = fighter(&mut world, "Hero", 2, 2, 30, 2, 10);
    world.entities[player.id].player = Some(Player {});
    world.player = player;
    let orc = fighter(&mut world, "Orc", 3, 2, 6, 4, 3);
    world.entities[player.id].wants_to_melee = Some(WantsToMelee { target: orc });

    MeleeSystem {}.run(&mut world);
    assert_eq!(pending(&world, orc), Some(vec![6]));
    assert_eq!(pending(&world, player), None);
    assert!(world.entities[player.id].wants_to_melee.is_none());
    assert_eq!(world.log.len(), 1);
    match &world.log[0] {
        LogEntry::Hits { attacker, target, amount } => {
            assert_eq!(name_of(attacker), Some("Hero"));
            assert_eq!(name_of(target), Some("Orc"));
            assert_eq!(*amount, 6);
        }
        other => panic!("unexpected entry {:?}", other),
    }

    DamageSystem {}.run(&mut world);
    assert_eq!(hp(&world, orc), 0);
    assert_eq!(hp(&world, player), 30);
    assert_eq!(pending(&world, orc), None);

    delete_the_dead(&mut world);
    assert!(!world.is_alive(orc));
    assert!(world.entities[orc.id].combat_stats.is_none());
    assert!(world.entities[orc.id].position.is_none());
    assert!(world.is_alive(player));
    assert_eq!(hp(&world, player), 30);
    assert_eq!(world.run_state, RunState::PreRun);
    assert_eq!(world.log.len(), 2);
    match &world.log[1] {
        LogEntry::Dies { victim } => assert_eq!(name_of(victim), Some("Orc")),
        other => panic!("unexpected entry {:?}", other),
    }
}

#[test]
fn attack_that_fails_to_hurt() {
    // power 3 against defense 5 deals nothing
    let mut world = World::new(room(8, 8));
    let goblin = fighter(&mut world, "Goblin", 2, 2, 8, 1, 3);
    let knight = fighter(&mut world, "Knight", 3, 2, 12, 5, 4);
    world.entities[goblin.id].wants_to_melee = Some(WantsToMelee { target: knight });

    MeleeSystem {}.run(&mut world);
    assert_eq!(pending(&world, knight), None);
    assert!(world.entities[goblin.id].wants_to_melee.is_none());
    assert_eq!(world.log.len(), 1);
    match &world.log[0] {
        LogEntry::UnableToHurt { attacker, target } => {
            assert_eq!(name_of(attacker), Some("Goblin"));
            assert_eq!(name_of(target), Some("Knight"));
        }
        other => panic!("unexpected entry {:?}", other),
    }
    DamageSystem {}.run(&mut world);
    assert_eq!(hp(&world, knight), 12);
    delete_the_dead(&mut world);
    assert!(world.is_alive(knight));
    assert!(world.is_alive(goblin));
}

#[test]
fn corpses_do_not_swing_and_are_not_hit() {
    let mut world = World::new(room(8, 8));
    let dead = fighter(&mut world, "Dead", 2, 2, 0, 0, 9);
    let alive = fighter(&mut world, "Alive", 3, 2, 10, 0, 9);
    let nameless = world.create_entity();
    world.entities[nameless.id].combat_stats = Some(CombatStats { max_hp: 5, hp: 5, defense: 0, power: 9 });
    world.entities[dead.id].wants_to_melee = Some(WantsToMelee { target: alive });
    world.entities[alive.id].wants_to_melee = Some(WantsToMelee { target: dead });
    world.entities[nameless.id].wants_to_melee = Some(WantsToMelee { target: alive });

    MeleeSystem {}.run(&mut world);
    assert_eq!(pending(&world, alive), None);
    assert_eq!(pending(&world, dead), None);
    assert!(world.log.is_empty());
    assert!(world.entities.iter().all(|r| r.wants_to_melee.is_none()));
}

#[test]
fn attack_on_what_is_gone_is_no_attack() {
    let mut world = World::new(room(8, 8));
    let a = fighter(&mut world, "A", 2, 2, 10, 0, 5);
    let b = fighter(&mut world, "B", 3, 2, 10, 0, 5);
    world.delete_entity(b);
    world.entities[a.id].wants_to_melee = Some(WantsToMelee { target: b });
    MeleeSystem {}.run(&mut world);
    assert!(world.log.is_empty());
    assert!(world.entities[b.id].suffer_damage.is_none());
    world.entities[a.id].wants_to_melee = Some(WantsToMelee { target: Entity { id: 99 } });
    MeleeSystem {}.run(&mut world);
    assert!(world.log.is_empty());
    assert!(world.entities[a.id].wants_to_melee.is_none());
}

#[test]
fn simultaneous_hits_are_appended_and_applied_once() {
    let mut world = World::new(room(8, 8));
    let a = fighter(&mut world, "A", 2, 2, 10, 0, 4);
    let b = fighter(&mut world, "B", 3, 2, 10, 0, 7);
    let victim = fighter(&mut world, "Victim", 2, 3, 20, 1, 1);
    world.entities[victim.id].suffer_damage = Some(SufferDamage { amount: vec![2] });
    world.entities[a.id].wants_to_melee = Some(WantsToMelee { target: victim });
    world.entities[b.id].wants_to_melee = Some(WantsToMelee { target: victim });

    MeleeSystem {}.run(&mut world);
    assert_eq!(pending(&world, victim), Some(vec![2, 3, 6]));
    let before = hp(&world, victim);
    DamageSystem {}.run(&mut world);
    assert_eq!(before - hp(&world, victim), 11);
    assert_eq!(hp(&world, victim), 9);
    assert!(world.entities.iter().all(|r| r.suffer_damage.is_none()));
    // a second run finds nothing left to apply
    DamageSystem {}.run(&mut world);
    assert_eq!(hp(&world, victim), 9);
}

#[test]
fn pending_damage_on_what_has_no_stats_is_dropped() {
    let mut world = World::new(room(8, 8));
    let rock = world.create_entity();
    world.entities[rock.id].suffer_damage = Some(SufferDamage { amount: vec![5] });
    DamageSystem {}.run(&mut world);
    assert!(world.entities[rock.id].suffer_damage.is_none());
    assert!(world.entities[rock.id].combat_stats.is_none());
    assert!(world.is_alive(rock));
}

#[test]
fn new_damage_starts_or_extends_the_list() {
    let mut world = World::new(room(8, 8));
    let a = fighter(&mut world, "A", 2, 2, 10, 0, 4);
    SufferDamage::new_damage(&mut world, a, 3);
    assert_eq!(pending(&world, a), Some(vec![3]));
    SufferDamage::new_damage(&mut world, a, 0);
    SufferDamage::new_damage(&mut world, a, -2);
    assert_eq!(pending(&world, a), Some(vec![3, 0, -2]));
    world.delete_entity(a);
    SufferDamage::new_damage(&mut world, a, 3);
    assert!(world.entities[a.id].suffer_damage.is_none());
    SufferDamage::new_damage(&mut world, Entity { id: 77 }, 3);
    assert_eq!(world.entities.len(), 1);
}

#[test]
fn a_dead_player_ends_the_game_and_stays() {
    let mut world = World::new(room(8, 8));
    let player = fighter(&mut world, "Hero", 2, 2, 0, 0, 4);
    world.entities[player.id].player = Some(Player {});
    world.player = player;
    let rat = fighter(&mut world, "Rat", 3, 3, -4, 0, 1);
    let ghost = fighter(&mut world, "Ghost", 4, 4, 5, 0, 1);
    world.entities[rat.id].name = None;
    world.run_state = RunState::Ticking;
    delete_the_dead(&mut world);
    assert!(world.is_alive(player));
    assert_eq!(hp(&world, player), 0);
    assert!(!world.is_alive(rat));
    assert!(world.is_alive(ghost));
    assert_eq!(world.run_state, RunState::GameOver);
    assert!(world.log.is_empty());
}

#[test]
fn the_sweep_takes_those_below_one_health_only() {
    let mut world = World::new(room(8, 8));
    let one = fighter(&mut world, "One", 2, 2, 1, 0, 1);
    let zero = fighter(&mut world, "Zero", 3, 2, 0, 0, 1);
    let item = world.create_entity();
    world.run_state = RunState::AwaitingInput;
    delete_the_dead(&mut world);
    assert!(world.is_alive(one));
    assert!(!world.is_alive(zero));
    assert!(world.is_alive(item));
    assert_eq!(world.run_state, RunState::AwaitingInput);
    assert_eq!(world.entities.len(), 3);
}

#[test]
fn delete_all_commits_noted_deletions() {
    let mut world = World::new(room(8, 8));
    let a = world.create_entity();
    let b = world.create_entity();
    let c = world.create_entity();
    world.delete_all(&vec![c, a, c, Entity { id: 50 }]);
    assert!(!world.is_alive(a));
    assert!(world.is_alive(b));
    assert!(!world.is_alive(c));
    assert_eq!(world.entities.len(), 3);
    let d = world.create_entity();
    assert_eq!(d.id, 3);
}

#[test]
fn blocked_means_wall_or_blocker_after_indexing() {
    let mut world = World::new(room(6, 6));
    let orc = fighter(&mut world, "Orc", 2, 2, 5, 0, 1);
    let potion = world.create_entity();
    world.entities[potion.id].position = Some(Position { x: 3, y: 3 });
    let second = fighter(&mut world, "Second", 2, 2, 5, 0, 1);
    let wall = world.map.xy_idx(4, 4);
    world.map.tiles[wall] = TileType::Wall;
    // stale state of the previous tick
    let stale = world.map.xy_idx(1, 1);
    world.map.blocked[stale] = true;
    world.map.tile_content[stale].push(Entity { id: 40 });

    MapIndexingSystem {}.run(&mut world);
    for y in 0..6 {
        for x in 0..6 {
            let idx = world.map.xy_idx(x, y);
            let terrain = x == 0 || y == 0 || x == 5 || y == 5 || (x == 4 && y == 4);
            let blocker = x == 2 && y == 2;
            assert_eq!(world.map.blocked[idx], terrain || blocker, "tile {} {}", x, y);
        }
    }
    let crowded = world.map.xy_idx(2, 2);
    let lonely = world.map.xy_idx(3, 3);
    assert_eq!(world.map.tile_content[crowded], vec![orc, second]);
    assert_eq!(world.map.tile_content[lonely], vec![potion]);
    assert!(world.map.tile_content[stale].is_empty());
    let listed: usize = world.map.tile_content.iter().map(|c| c.len()).sum();
    assert_eq!(listed, 3);

    // once the blocker moves, the next indexing follows
    world.entities[orc.id].position = Some(Position { x: 1, y: 1 });
    world.entities[second.id].position = None;
    MapIndexingSystem {}.run(&mut world);
    assert!(!world.map.blocked[crowded]);
    assert!(world.map.blocked[stale]);
    assert_eq!(world.map.tile_content[stale], vec![orc]);
}
