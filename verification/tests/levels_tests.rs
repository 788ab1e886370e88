use roguelike_engine::components::{
    BlocksTile, CombatStats, Entity, InBackpack, Item, Monster, Name, OtherLevelPosition, Player,
    Position, Viewshed,
};
use roguelike_engine::gamelog::LogEntry;
use roguelike_engine::geometry::Coord;
use roguelike_engine::levels::{
    entities_to_remove_on_level_change, freeze_level_entities, goto_level, goto_next_level,
    needs_new_level, thaw_level_entities, NewLevel,
};
use roguelike_engine::map::TileMap;
use roguelike_engine::tiles::TileType;
use roguelike_engine::world::World;

fn room(depth: i32, width: i32, height: i32) -> TileMap {
    let mut map = TileMap::new(depth, width, height, "Test");
    for y in 1..height - 1 {
        for x in 1..width - 1 {
            let idx = map.xy_idx(x, y);
            map.tiles[idx] = TileType::Floor;
        }
    }
    map.populate_blocked();
    map
}

fn level(width: i32, height: i32, up: (i32, i32), down: (i32, i32)) -> NewLevel {
    let mut map = room(0, width, height);
    let u = map.xy_idx(up.0, up.1);
    map.tiles[u] = TileType::UpStairs;
    let d = map.xy_idx(down.0, down.1);
    map.tiles[d] = TileType::DownStairs;
    NewLevel { map, start: Position { x: up.0, y: up.1 } }
}

fn hero(world: &mut World, x: i32, y: i32) -> Entity {
    let e = world.create_entity();
    let rec = &mut world.entities[e.id];
    rec.position = Some(Position { x, y });
    rec.player = Some(Player {});
    rec.name = Some(Name { name: "Hero".to_string() });
    rec.viewshed = Some(Viewshed { visible_tiles: Vec::new(), range: 8, dirty: false });
    rec.combat_stats = Some(CombatStats { max_hp: 30, hp: 9, defense: 2, power: 5 });
    world.player = e;
    world.player_pos = Coord { x, y };
    e
}

fn monster(world: &mut World, name: &str, x: i32, y: i32, hp: i32) -> Entity {
    let e = world.create_entity();
    let rec = &mut world.entities[e.id];
    rec.position = Some(Position { x, y });
    rec.monster = Some(Monster {});
    rec.blocks_tile = Some(BlocksTile {});
    rec.name = Some(Name { name: name.to_string() });
    rec.combat_stats = Some(CombatStats { max_hp: 16, hp, defense: 1, power: 4 });
    e
}

fn carried(world: &mut World, name: &str, owner: Entity) -> Entity {
    let e = world.create_entity();
    let rec = &mut world.entities[e.id];
    rec.item = Some(Item {});
    rec.name = Some(Name { name: name.to_string() });
    rec.in_backpack = Some(InBackpack { owner });
    e
}

#[test]
fn freezing_and_thawing_bring_everyone_back() {
    let mut world = World::new(room(4, 10, 10));
    let player = hero(&mut world, 2, 2);
    let orc = monster(&mut world, "Orc", 5, 5, 11);
    let potion = carried(&mut world, "Potion", player);
    let elsewhere = monster(&mut world, "Sleeper", 1, 1, 3);
    world.entities[elsewhere.id].position = None;
    world.entities[elsewhere.id].other_level_position =
        Some(OtherLevelPosition { x: 3, y: 3, depth: 7 });
    freeze_level_entities(&mut world);
    assert_eq!(world.entities[player.id].position, Some(Position { x: 2, y: 2 }));
    assert!(world.entities[player.id].other_level_position.is_none());
    assert!(world.entities[orc.id].position.is_none());
    assert_eq!(
        world.entities[orc.id].other_level_position,
        Some(OtherLevelPosition { x: 5, y: 5, depth: 4 })
    );
    assert!(world.entities[potion.id].other_level_position.is_none());
    assert_eq!(
        world.entities[elsewhere.id].other_level_position,
        Some(OtherLevelPosition { x: 3, y: 3, depth: 7 })
    );
    thaw_level_entities(&mut world);
    assert_eq!(world.entities[orc.id].position, Some(Position { x: 5, y: 5 }));
    assert!(world.entities[orc.id].other_level_position.is_none());
    assert!(world.entities[elsewhere.id].position.is_none());
    assert_eq!(world.entities[orc.id].combat_stats.unwrap().hp, 11);
    // a remembered place that is not on the level keeps the entity frozen
    world.entities[elsewhere.id].other_level_position =
        Some(OtherLevelPosition { x: 30, y: 3, depth: 4 });
    thaw_level_entities(&mut world);
    assert!(world.entities[elsewhere.id].position.is_none());
}

#[test]
fn down_twice_and_up_once_finds_the_level_as_it_was_left() {
    let mut world = World::new(level(12, 10, (2, 2), (9, 7)).map);
    world.map.depth = 1;
    let player = hero(&mut world, 3, 3);
    let potion = carried(&mut world, "Potion", player);
    let rat = monster(&mut world, "Rat", 6, 6, 4);

    assert!(needs_new_level(&world, 1));
    assert!(!goto_level(&mut world, 1, None));
    assert_eq!(world.map.depth, 1);
    assert_eq!(world.entities[rat.id].position, Some(Position { x: 6, y: 6 }));

    // down to the second level
    assert!(goto_level(&mut world, 1, Some(level(14, 11, (3, 4), (10, 8)))));
    assert_eq!(world.map.depth, 2);
    assert_eq!(world.map.width, 14);
    assert_eq!(world.entities[player.id].position, Some(Position { x: 3, y: 4 }));
    assert!(world.entities[player.id].viewshed.as_ref().unwrap().dirty);
    assert!(world.entities[rat.id].position.is_none());
    let orc = monster(&mut world, "Orc", 7, 5, 13);
    let bat = monster(&mut world, "Bat", 8, 2, 2);
    world.entities[orc.id].combat_stats = Some(CombatStats { max_hp: 16, hp: 5, defense: 1, power: 4 });
    world.map.revealed_tiles[40] = true;
    let orc_before = format!("{:?}", world.entities[orc.id]);
    let bat_before = format!("{:?}", world.entities[bat.id]);

    // down to the third level
    assert!(needs_new_level(&world, 1));
    assert!(goto_level(&mut world, 1, Some(level(9, 9, (1, 1), (7, 7)))));
    assert_eq!(world.map.depth, 3);
    assert!(world.entities[orc.id].position.is_none());
    assert_eq!(
        world.entities[orc.id].other_level_position,
        Some(OtherLevelPosition { x: 7, y: 5, depth: 2 })
    );
    let troll = monster(&mut world, "Troll", 4, 4, 20);

    // up again: the second level and everyone on it is back, unchanged
    assert!(!needs_new_level(&world, -1));
    assert!(goto_level(&mut world, -1, None));
    assert_eq!(world.map.depth, 2);
    assert_eq!(world.map.width, 14);
    assert!(world.map.revealed_tiles[40]);
    assert_eq!(format!("{:?}", world.entities[orc.id]), orc_before);
    assert_eq!(format!("{:?}", world.entities[bat.id]), bat_before);
    assert!(world.is_alive(orc));
    assert!(world.is_alive(bat));
    assert_eq!(orc.id, 3);
    assert_eq!(world.entities[orc.id].position, Some(Position { x: 7, y: 5 }));
    assert_eq!(world.entities[orc.id].combat_stats.unwrap().hp, 5);
    // the player arrives on the stairs down, with what they carry
    assert_eq!(world.entities[player.id].position, Some(Position { x: 10, y: 8 }));
    assert_eq!(world.player_pos, Coord { x: 10, y: 8 });
    assert_eq!(world.entities[potion.id].in_backpack, Some(InBackpack { owner: player }));
    // who stayed on the other levels stays frozen there
    assert!(world.entities[rat.id].position.is_none());
    assert_eq!(
        world.entities[rat.id].other_level_position,
        Some(OtherLevelPosition { x: 6, y: 6, depth: 1 })
    );
    assert!(world.entities[troll.id].position.is_none());
    assert_eq!(world.dungeon.len(), 3);
    assert_eq!(world.entities.len(), 6);
    assert!(matches!(world.log.last(), Some(LogEntry::ChangesLevel)));
}

#[test]
fn a_fresh_level_is_ignored_where_one_is_kept() {
    let mut world = World::new(level(12, 10, (2, 2), (9, 7)).map);
    world.map.depth = 1;
    let player = hero(&mut world, 3, 3);
    assert!(goto_level(&mut world, 1, Some(level(14, 11, (3, 4), (10, 8)))));
    assert!(goto_level(&mut world, -1, Some(level(5, 5, (1, 1), (3, 3)))));
    assert_eq!(world.map.width, 12);
    assert_eq!(world.map.depth, 1);
    assert_eq!(world.entities[player.id].position, Some(Position { x: 9, y: 7 }));
    // going nowhere keeps the level and puts the player on the stairs up
    assert!(goto_level(&mut world, 0, None));
    assert_eq!(world.map.depth, 1);
    assert_eq!(world.entities[player.id].position, Some(Position { x: 2, y: 2 }));
}

#[test]
fn depths_beyond_the_limits_are_refused() {
    let mut world = World::new(room(i32::MAX, 8, 8));
    let player = hero(&mut world, 3, 3);
    assert!(!needs_new_level(&world, 1));
    assert!(!goto_level(&mut world, 1, Some(level(9, 9, (1, 1), (7, 7)))));
    assert_eq!(world.map.depth, i32::MAX);
    assert_eq!(world.entities[player.id].position, Some(Position { x: 3, y: 3 }));
    assert!(world.dungeon.is_empty());
    assert!(world.log.is_empty());
    world.map.depth = i32::MIN;
    assert!(!goto_level(&mut world, -1, Some(level(9, 9, (1, 1), (7, 7)))));
}

#[test]
fn a_kept_level_without_stairs_keeps_the_players_place() {
    let mut world = World::new(room(1, 12, 10));
    let player = hero(&mut world, 8, 8);
    let mut small = room(0, 6, 6);
    small.name = "Cellar".to_string();
    assert!(goto_level(&mut world, 1, Some(NewLevel { map: small, start: Position { x: 2, y: 2 } })));
    assert_eq!(world.map.name, "Cellar");
    world.entities[player.id].position = Some(Position { x: 4, y: 1 });
    world.player_pos = Coord { x: 4, y: 1 };
    assert!(goto_level(&mut world, -1, None));
    assert_eq!(world.entities[player.id].position, Some(Position { x: 4, y: 1 }));
    // back in the cellar from a place that it does not have
    world.entities[player.id].position = Some(Position { x: 10, y: 8 });
    world.player_pos = Coord { x: 10, y: 8 };
    assert!(goto_level(&mut world, 1, None));
    assert_eq!(world.entities[player.id].position, Some(Position { x: 0, y: 0 }));
    assert_eq!(world.player_pos, Coord { x: 0, y: 0 });
}

#[test]
fn the_simple_descent_deletes_what_is_left_behind() {
    let mut world = World::new(room(1, 10, 10));
    let player = hero(&mut world, 2, 2);
    let potion = carried(&mut world, "Potion", player);
    let orc = monster(&mut world, "Orc", 5, 5, 11);
    let loot = carried(&mut world, "Loot", orc);
    let floor_item = world.create_entity();
    world.entities[floor_item.id].position = Some(Position { x: 4, y: 4 });
    let gone = world.create_entity();
    world.delete_entity(gone);
    assert_eq!(entities_to_remove_on_level_change(&world), vec![orc, loot, floor_item]);

    goto_next_level(&mut world, NewLevel { map: room(0, 7, 7), start: Position { x: 3, y: 3 } });
    assert!(world.is_alive(player));
    assert!(world.is_alive(potion));
    assert!(!world.is_alive(orc));
    assert!(!world.is_alive(loot));
    assert!(!world.is_alive(floor_item));
    assert_eq!(world.map.depth, 2);
    assert_eq!(world.map.width, 7);
    assert_eq!(world.entities[player.id].position, Some(Position { x: 3, y: 3 }));
    assert_eq!(world.player_pos, Coord { x: 3, y: 3 });
    assert!(world.entities[player.id].viewshed.as_ref().unwrap().dirty);
    // health rises to half of the maximum
    assert_eq!(world.entities[player.id].combat_stats.unwrap().hp, 15);
    assert_eq!(world.log.len(), 1);
    assert!(matches!(world.log[0], LogEntry::Descends));
    goto_next_level(&mut world, NewLevel { map: room(0, 7, 7), start: Position { x: 2, y: 2 } });
    assert_eq!(world.map.depth, 3);
    world.entities[player.id].combat_stats = Some(CombatStats { max_hp: 30, hp: 22, defense: 2, power: 5 });
    goto_next_level(&mut world, NewLevel { map: room(0, 7, 7), start: Position { x: 2, y: 2 } });
    assert_eq!(world.entities[player.id].combat_stats.unwrap().hp, 22);
    world.entities[player.id].combat_stats = Some(CombatStats { max_hp: -7, hp: -9, defense: 2, power: 5 });
    goto_next_level(&mut world, NewLevel { map: room(0, 7, 7), start: Position { x: 2, y: 2 } });
    assert_eq!(world.entities[player.id].combat_stats.unwrap().hp, -3);
    world.map.depth = i32::MAX;
    goto_next_level(&mut world, NewLevel { map: room(0, 7, 7), start: Position { x: 2, y: 2 } });
    assert_eq!(world.map.depth, i32::MAX);
}

#[test]
fn levels_are_kept_by_depth() {
    let mut world = World::new(room(3, 6, 6));
    assert_eq!(world.find_level(3), None);
    world.store_map();
    assert_eq!(world.find_level(3), Some(0));
    world.map.revealed_tiles[7] = true;
    world.store_map();
    assert_eq!(world.dungeon.len(), 1);
    assert!(world.dungeon[0].revealed_tiles[7]);
    world.map.depth = 5;
    world.store_map();
    assert_eq!(world.dungeon.len(), 2);
    assert_eq!(world.find_level(5), Some(1));
    assert_eq!(world.find_level(4), None);
}

#[test]
fn away_on_and_back_finds_everyone_where_they_stood() {
    let mut world = World::new(level(12, 10, (2, 2), (9, 7)).map);
    world.map.depth = 1;
    let player = hero(&mut world, 3, 3);
    let rat = monster(&mut world, "Rat", 6, 6, 4);
    let cat = monster(&mut world, "Cat", 2, 7, 3);
    world.map.revealed_tiles[17] = true;
    let rat_before = format!("{:?}", world.entities[rat.id]);
    let cat_before = format!("{:?}", world.entities[cat.id]);
    let level_before = format!("{:?}", world.map);

    assert!(goto_level(&mut world, 1, Some(level(14, 11, (3, 4), (10, 8)))));
    let orc = monster(&mut world, "Orc", 7, 5, 13);
    assert!(goto_level(&mut world, 3, Some(level(9, 9, (1, 1), (7, 7)))));
    assert_eq!(world.map.depth, 5);
    assert!(world.entities[rat.id].position.is_none());
    assert!(world.entities[orc.id].position.is_none());
    // a move that is refused changes nothing for those who wait
    assert!(!goto_level(&mut world, 1, None));
    assert!(goto_level(&mut world, -4, None));

    assert_eq!(world.map.depth, 1);
    assert_eq!(format!("{:?}", world.map), level_before);
    assert_eq!(format!("{:?}", world.entities[rat.id]), rat_before);
    assert_eq!(format!("{:?}", world.entities[cat.id]), cat_before);
    assert_eq!(rat.id, 1);
    assert_eq!(cat.id, 2);
    // who belongs to another level still waits there
    assert!(world.entities[orc.id].position.is_none());
    assert_eq!(
        world.entities[orc.id].other_level_position,
        Some(OtherLevelPosition { x: 7, y: 5, depth: 2 })
    );
    // the player comes from below and arrives on the stairs down
    assert_eq!(world.entities[player.id].position, Some(Position { x: 9, y: 7 }));
    assert_eq!(world.dungeon.len(), 3);
}
