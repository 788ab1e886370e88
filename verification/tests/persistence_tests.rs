use roguelike_engine::components::{
    AreaOfEffect, CombatStats, Entity, InBackpack, Item, Name, Player, Position, SufferDamage,
    Viewshed, WantsToApproach, WantsToCastSpell, WantsToDropItem, WantsToFlee, WantsToMelee,
    WantsToPickupItem, WantsToShoot, WantsToUseItem,
};
use roguelike_engine::gamelog::LogEntry;
use roguelike_engine::geometry::Coord;
use roguelike_engine::indexing::MapIndexingSystem;
use roguelike_engine::map::TileMap;
use roguelike_engine::persistence::{
    check_saved, copy_entry, copy_vec, delete, load_game, save_game, LoadError,
};
use roguelike_engine::state::RunState;
use roguelike_engine::tiles::TileType;
use roguelike_engine::world::World;

fn room(depth: i32, width: i32, height: i32) -> TileMap {
    let mut map = TileMap::new(depth, width, height, "Test");
    for y in 1..height - 1 {
        for x in 1..width - 1 {
            let idx = map.xy_idx(x, y);
            map.tiles[idx] = TileType::Floor;
        }
    }
    map.populate_blocked();
    map
}

fn sample() -> World {
    let mut world = World::new(room(2, 9, 8));
    let gone = world.create_entity();
    let player = world.create_entity();
    {
        let rec = &mut world.entities[player.id];
        rec.position = Some(Position { x: 3, y: 4 });
        rec.player = Some(Player {});
        rec.name = Some(Name { name: "Hero".to_string() });
        rec.viewshed = Some(Viewshed { visible_tiles: vec![Coord { x: 3, y: 4 }, Coord { x: 4, y: 4 }], range: 8, dirty: false });
        rec.combat_stats = Some(CombatStats { max_hp: 30, hp: 21, defense: 2, power: 5 });
        rec.suffer_damage = Some(SufferDamage { amount: vec![2, 1] });
    }
    let orc = world.create_entity();
    {
        let rec = &mut world.entities[orc.id];
        rec.position = Some(Position { x: 6, y: 2 });
        rec.name = Some(Name { name: "Orc".to_string() });
        rec.combat_stats = Some(CombatStats { max_hp: 16, hp: 7, defense: 1, power: 4 });
    }
    let potion = world.create_entity();
    {
        let rec = &mut world.entities[potion.id];
        rec.item = Some(Item {});
        rec.name = Some(Name { name: "Potion".to_string() });
        rec.in_backpack = Some(InBackpack { owner: player });
    }
    world.delete_entity(gone);
    world.player = player;
    world.player_pos = Coord { x: 3, y: 4 };
    world.run_state = RunState::AwaitingInput;
    world.map.revealed_tiles[12] = true;
    world.map.revealed_tiles[13] = true;
    world.map.visible_tiles[13] = true;
    world.log.push(LogEntry::Welcome);
    world.log.push(LogEntry::Hits { attacker: Some(Name { name: "Orc".to_string() }), target: None, amount: 3 });
    world.store_map();
    MapIndexingSystem {}.run(&mut world);
    // what lasts for one tick only
    world.entities[player.id].wants_to_melee = Some(WantsToMelee { target: orc });
    world.entities[player.id].wants_to_pickup = Some(WantsToPickupItem { collected_by: player, item: potion });
    world.entities[player.id].wants_to_use = Some(WantsToUseItem { item: potion, target: None });
    world.entities[player.id].wants_to_drop = Some(WantsToDropItem { item: potion });
    world.entities[orc.id].wants_to_approach = Some(WantsToApproach { idx: 5 });
    world.entities[orc.id].wants_to_flee = Some(WantsToFlee { indices: vec![4] });
    world.entities[orc.id].wants_to_cast_spell = Some(WantsToCastSpell { spell: potion, target: None });
    world.entities[orc.id].wants_to_shoot = Some(WantsToShoot { target: player });
    world
}

#[test]
fn saving_and_loading_brings_the_game_back() {
    let mut world = sample();
    // the kept copy of the level carries the occupant lists too
    world.store_map();
    assert!(world.map.tile_content.iter().any(|t| !t.is_empty()));
    assert!(world.dungeon[0].tile_content.iter().any(|t| !t.is_empty()));
    let saved = save_game(&world);
    assert_eq!(format!("{:?}", saved.entities), format!("{:?}", world.entities));
    // the levels are saved without their occupant lists, and otherwise as they are
    let mut level = world.map.duplicate();
    level.clear_content_index();
    assert_eq!(format!("{:?}", saved.helper.map), format!("{:?}", level));
    assert_eq!(saved.helper.map.tile_content.len(), world.map.tile_content.len());
    assert!(saved.helper.map.tile_content.iter().all(|t| t.is_empty()));
    assert_eq!(saved.dm_helper.map.len(), world.dungeon.len());
    for (kept, was) in saved.dm_helper.map.iter().zip(world.dungeon.iter()) {
        let mut bare = was.duplicate();
        bare.clear_content_index();
        assert_eq!(format!("{:?}", kept), format!("{:?}", bare));
        assert!(kept.tile_content.iter().all(|t| t.is_empty()));
    }
    assert_eq!(format!("{:?}", saved.dm_helper.log), format!("{:?}", world.log));
    assert_eq!(check_saved(&saved), None);

    let mut other = World::new(room(9, 4, 4));
    let stray = other.create_entity();
    other.entities[stray.id].position = Some(Position { x: 1, y: 1 });
    other.run_state = RunState::LoadGame;
    assert_eq!(load_game(&mut other, saved), Ok(()));

    assert_eq!(other.entities.len(), world.entities.len());
    for (back, was) in other.entities.iter().zip(world.entities.iter()) {
        assert_eq!(back.alive, was.alive);
        assert_eq!(back.position, was.position);
        assert_eq!(back.combat_stats, was.combat_stats);
        assert_eq!(back.in_backpack, was.in_backpack);
        assert_eq!(format!("{:?}", back.name), format!("{:?}", was.name));
        assert_eq!(format!("{:?}", back.viewshed), format!("{:?}", was.viewshed));
        assert_eq!(format!("{:?}", back.suffer_damage), format!("{:?}", was.suffer_damage));
        assert_eq!(back.player, was.player);
        assert_eq!(back.item, was.item);
        // no wish is pending
        assert!(back.wants_to_melee.is_none());
        assert!(back.wants_to_pickup.is_none());
        assert!(back.wants_to_use.is_none());
        assert!(back.wants_to_drop.is_none());
        assert!(back.wants_to_approach.is_none());
        assert!(back.wants_to_flee.is_none());
        assert!(back.wants_to_cast_spell.is_none());
        assert!(back.wants_to_shoot.is_none());
    }
    assert_eq!(other.map.tiles, world.map.tiles);
    assert_eq!(other.map.width, 9);
    assert_eq!(other.map.height, 8);
    assert_eq!(other.map.depth, 2);
    assert_eq!(other.map.name, world.map.name);
    assert_eq!(other.map.revealed_tiles, world.map.revealed_tiles);
    assert_eq!(other.map.visible_tiles, world.map.visible_tiles);
    assert_eq!(other.map.blocked, world.map.blocked);
    // the occupant index is empty until the next indexing
    assert_eq!(other.map.tile_content.len(), 72);
    assert!(other.map.tile_content.iter().all(|c| c.is_empty()));
    // the kept levels come back without their occupant lists
    assert_eq!(other.dungeon.len(), world.dungeon.len());
    for (back, was) in other.dungeon.iter().zip(world.dungeon.iter()) {
        let mut bare = was.duplicate();
        bare.clear_content_index();
        assert_eq!(format!("{:?}", back), format!("{:?}", bare));
    }
    assert_eq!(format!("{:?}", other.log), format!("{:?}", world.log));
    assert_eq!(other.player, Entity { id: 1 });
    assert_eq!(other.player_pos, Coord { x: 3, y: 4 });
    assert_eq!(other.run_state, RunState::LoadGame);
    MapIndexingSystem {}.run(&mut other);
    assert_eq!(other.map.tile_content, world.map.tile_content);
}

#[test]
fn a_saved_game_with_a_malformed_map_is_refused() {
    let mut world = sample();
    let before = format!("{:?}", world);
    let mut saved = save_game(&world);
    saved.helper.map.tiles.pop();
    assert_eq!(check_saved(&saved), Some(LoadError::MalformedMap));
    assert_eq!(load_game(&mut world, saved), Err(LoadError::MalformedMap));
    assert_eq!(format!("{:?}", world), before);
    let mut saved = save_game(&world);
    saved.helper.map.width = 0;
    saved.dm_helper.map[0].height = -1;
    saved.entities[1].position = Some(Position { x: 90, y: 90 });
    assert_eq!(load_game(&mut world, saved), Err(LoadError::MalformedMap));
    assert_eq!(format!("{:?}", world), before);
}

#[test]
fn a_saved_game_with_a_malformed_level_is_refused() {
    let mut world = sample();
    let before = format!("{:?}", world);
    let mut saved = save_game(&world);
    saved.dm_helper.map.push(room(5, 4, 4));
    saved.dm_helper.map[1].blocked.push(true);
    saved.entities[1].position = Some(Position { x: 90, y: 90 });
    assert_eq!(check_saved(&saved), Some(LoadError::MalformedLevel));
    assert_eq!(load_game(&mut world, saved), Err(LoadError::MalformedLevel));
    assert_eq!(format!("{:?}", world), before);
}

#[test]
fn a_saved_game_with_a_malformed_record_is_refused() {
    let mut world = sample();
    let before = format!("{:?}", world);
    let mut saved = save_game(&world);
    saved.entities[2].position = Some(Position { x: 9, y: 2 });
    assert_eq!(load_game(&mut world, saved), Err(LoadError::MalformedEntity));
    let mut saved = save_game(&world);
    saved.entities[2].position = Some(Position { x: 2, y: -1 });
    assert_eq!(load_game(&mut world, saved), Err(LoadError::MalformedEntity));
    let mut saved = save_game(&world);
    saved.entities[1].viewshed.as_mut().unwrap().range = 23171;
    assert_eq!(load_game(&mut world, saved), Err(LoadError::MalformedEntity));
    let mut saved = save_game(&world);
    saved.entities[3].area_of_effect = Some(AreaOfEffect { radius: -23171 });
    assert_eq!(load_game(&mut world, saved), Err(LoadError::MalformedEntity));
    let mut saved = save_game(&world);
    saved.entities[0].name = Some(Name { name: "Ghost".to_string() });
    assert_eq!(load_game(&mut world, saved), Err(LoadError::MalformedEntity));
    assert_eq!(format!("{:?}", world), before);
    let mut saved = save_game(&world);
    saved.entities[1].viewshed.as_mut().unwrap().range = 23170;
    saved.entities[3].area_of_effect = Some(AreaOfEffect { radius: -23170 });
    saved.entities[2].position = Some(Position { x: 8, y: 7 });
    assert_eq!(load_game(&mut world, saved), Ok(()));
}

#[test]
fn without_a_saved_player_the_handle_stays() {
    let mut world = sample();
    let mut saved = save_game(&world);
    saved.entities[1].player = None;
    world.player_pos = Coord { x: 8, y: 7 };
    assert_eq!(load_game(&mut world, saved), Ok(()));
    assert_eq!(world.player, Entity { id: 1 });
    assert_eq!(world.player_pos, Coord { x: 8, y: 7 });
    let mut saved = save_game(&world);
    saved.helper.map = room(2, 4, 4);
    for rec in saved.entities.iter_mut() {
        rec.position = None;
    }
    assert_eq!(load_game(&mut world, saved), Ok(()));
    assert_eq!(world.player_pos, Coord { x: 0, y: 0 });
    // the last player with a position is the player
    let mut saved = save_game(&world);
    saved.entities[2].player = Some(Player {});
    saved.entities[2].position = Some(Position { x: 2, y: 1 });
    saved.entities[3].player = Some(Player {});
    assert_eq!(load_game(&mut world, saved), Ok(()));
    assert_eq!(world.player, Entity { id: 2 });
    assert_eq!(world.player_pos, Coord { x: 2, y: 1 });
}

#[test]
fn deleting_everything_leaves_free_slots() {
    let mut world = sample();
    delete(&mut world);
    assert_eq!(world.entities.len(), 4);
    assert!(world.entities.iter().all(|r| r.is_free_slot()));
    assert_eq!(world.map.depth, 2);
    assert_eq!(world.log.len(), 2);
    let next = world.create_entity();
    assert_eq!(next.id, 4);
    assert!(!world.entities[next.id].is_free_slot());
}

#[test]
fn copies_are_equal_to_what_they_copy() {
    assert_eq!(copy_vec(&vec![3, 1, 2]), vec![3, 1, 2]);
    assert!(copy_vec::<usize>(&Vec::new()).is_empty());
    let entry = LogEntry::Inflicts {
        item: Some(Name { name: "Fireball".to_string() }),
        target: None,
        amount: 20,
    };
    assert_eq!(format!("{:?}", copy_entry(&entry)), format!("{:?}", entry));
    let world = sample();
    for rec in world.entities.iter() {
        assert_eq!(format!("{:?}", rec.duplicate()), format!("{:?}", rec));
    }
    let mut rec = world.entities[2].duplicate();
    rec.settle();
    assert!(rec.wants_to_approach.is_none() && rec.wants_to_flee.is_none());
    assert_eq!(rec.combat_stats, world.entities[2].combat_stats);
}

#[test]
fn the_marks_that_block_the_view_are_saved_with_the_level() {
    let mut world = sample();
    world.map.view_blocked.insert(12);
    world.map.view_blocked.insert(30);
    world.store_map();
    let saved = save_game(&world);
    assert_eq!(saved.helper.map.view_blocked, world.map.view_blocked);
    assert_eq!(saved.dm_helper.map[0].view_blocked, world.map.view_blocked);
    assert_eq!(check_saved(&saved), None);

    let mut other = World::new(room(9, 4, 4));
    other.run_state = RunState::LoadGame;
    assert_eq!(load_game(&mut other, saved), Ok(()));
    assert_eq!(other.map.view_blocked.len(), 2);
    assert!(other.map.view_blocked.contains(&12));
    assert!(other.map.view_blocked.contains(&30));
    assert!(other.map.opaque_at(12));
    assert!(other.map.opaque_at(30));
    assert_eq!(other.dungeon[0].view_blocked, world.map.view_blocked);
}
