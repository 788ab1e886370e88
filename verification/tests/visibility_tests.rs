use roguelike_engine::components::{
    BlocksVisibility, Entity, Hidden, Name, Player, Position, Viewshed,
};
use roguelike_engine::gamelog::LogEntry;
use roguelike_engine::geometry::Coord;
use roguelike_engine::indexing::MapIndexingSystem;
use roguelike_engine::map::TileMap;
use roguelike_engine::tiles::TileType;
use roguelike_engine::visibility::{notice, VisibilitySystem};
use roguelike_engine::world::World;

fn room(width: i32, height: i32) -> TileMap {
    let mut map = TileMap::new(1, width, height, "Test");
    for y in 1..height - 1 {
        for x in 1..width - 1 {
            let idx = map.xy_idx(x, y);
            map.tiles[idx] = TileType::Floor;
        }
    }
    map.populate_blocked();
    map
}

fn viewer(world: &mut World, x: i32, y: i32, range: i32) -> Entity {
    let e = world.create_entity();
    world.entities[e.id].position = Some(Position { x, y });
    world.entities[e.id].viewshed = Some(Viewshed { visible_tiles: Vec::new(), range, dirty: true });
    e
}

fn sorted(tiles: &Vec<Coord>) -> Vec<(i32, i32)> {
    let mut v: Vec<(i32, i32)> = tiles.iter().map(|p| (p.y, p.x)).collect();
    v.sort();
    v
}

fn seen(world: &World, e: Entity) -> Vec<(i32, i32)> {
    sorted(&world.entities[e.id].viewshed.as_ref().unwrap().visible_tiles)
}

#[test]
fn field_of_view_in_an_open_room_is_the_interior() {
    let map = room(11, 11);
    let tiles = map.field_of_view(5, 5, 8);
    let mut expected = Vec::new();
    for y in 1..10 {
        for x in 1..10 {
            expected.push((y, x));
        }
    }
    assert_eq!(sorted(&tiles), expected);
}

#[test]
fn field_of_view_never_touches_the_outer_ring() {
    let map = room(20, 12);
    for (x, y, range) in [(1, 1, 30), (18, 10, 30), (10, 6, 3), (0, 0, 5), (19, 11, 9)] {
        let tiles = map.field_of_view(x, y, range);
        for p in tiles.iter() {
            assert!(p.x >= 1 && p.x <= 18, "x of {:?}", p);
            assert!(p.y >= 1 && p.y <= 10, "y of {:?}", p);
        }
        let mut unique = sorted(&tiles);
        unique.dedup();
        assert_eq!(unique.len(), tiles.len());
    }
}

#[test]
fn field_of_view_is_limited_by_the_range() {
    let map = room(21, 21);
    let tiles = map.field_of_view(10, 10, 3);
    assert!(tiles.contains(&Coord { x: 10, y: 10 }));
    assert!(tiles.contains(&Coord { x: 12, y: 10 }));
    assert!(tiles.contains(&Coord { x: 10, y: 8 }));
    for p in tiles.iter() {
        let d2 = (p.x - 10) * (p.x - 10) + (p.y - 10) * (p.y - 10);
        assert!(d2 <= 16, "{:?} is too far", p);
    }
    assert!(!tiles.contains(&Coord { x: 15, y: 10 }));
    assert!(map.field_of_view(10, 10, 0).is_empty());
    assert!(map.field_of_view(10, 10, -4).is_empty());
}

#[test]
fn walls_stop_sight() {
    let mut map = room(11, 11);
    let pillar = map.xy_idx(6, 5);
    map.tiles[pillar] = TileType::Wall;
    let tiles = map.field_of_view(5, 5, 8);
    assert!(tiles.contains(&Coord { x: 6, y: 5 }));
    assert!(!tiles.contains(&Coord { x: 7, y: 5 }));
    assert!(!tiles.contains(&Coord { x: 8, y: 5 }));
    assert!(!tiles.contains(&Coord { x: 9, y: 5 }));
    assert!(tiles.contains(&Coord { x: 4, y: 5 }));
    assert!(tiles.contains(&Coord { x: 1, y: 5 }));
}

#[test]
fn what_blocks_the_view_stops_sight_like_a_wall() {
    let mut world = World::new(room(11, 11));
    let looker = viewer(&mut world, 5, 5, 8);
    let door = world.create_entity();
    world.entities[door.id].position = Some(Position { x: 6, y: 5 });
    world.entities[door.id].blocks_visibility = Some(BlocksVisibility {});
    // a flag left over from an earlier tick
    let stale = world.map.xy_idx(3, 3);
    world.map.view_blocked.insert(stale);
    let mut rng = rltk::RandomNumberGenerator::seeded(7);
    VisibilitySystem {}.run(&mut world, &mut rng);
    let door_tile = world.map.xy_idx(6, 5);
    assert_eq!(world.map.view_blocked.len(), 1);
    assert!(world.map.view_blocked.contains(&door_tile));
    for idx in 0..121 {
        assert_eq!(world.map.opaque_at(idx) && world.map.tiles[idx] != TileType::Wall, idx == door_tile);
    }
    let tiles = seen(&world, looker);
    assert!(tiles.contains(&(5, 6)));
    assert!(!tiles.contains(&(5, 7)));
    assert!(!tiles.contains(&(5, 9)));
    assert!(tiles.contains(&(3, 3)));
    assert!(tiles.contains(&(2, 2)));
    // only the player's sight marks the map
    assert!(world.map.visible_tiles.iter().all(|v| !*v));
    assert!(world.map.revealed_tiles.iter().all(|v| !*v));
}

#[test]
fn the_player_reveals_what_they_see() {
    let mut world = World::new(room(9, 7));
    let player = viewer(&mut world, 4, 3, 8);
    world.entities[player.id].player = Some(Player {});
    let old = world.map.xy_idx(0, 0);
    world.map.revealed_tiles[old] = true;
    world.map.visible_tiles[old] = true;
    let mut rng = rltk::RandomNumberGenerator::seeded(1);
    VisibilitySystem {}.run(&mut world, &mut rng);
    assert!(!world.entities[player.id].viewshed.as_ref().unwrap().dirty);
    for y in 0..7 {
        for x in 0..9 {
            let idx = world.map.xy_idx(x, y);
            let interior = x >= 1 && x <= 7 && y >= 1 && y <= 5;
            assert_eq!(world.map.visible_tiles[idx], interior, "visible {} {}", x, y);
            assert_eq!(world.map.revealed_tiles[idx], interior || idx == old, "revealed {} {}", x, y);
        }
    }
    assert_eq!(seen(&world, player).len(), 35);
}

#[test]
fn looking_twice_shows_the_same() {
    let mut world = World::new(room(15, 9));
    let pillar = world.map.xy_idx(7, 4);
    world.map.tiles[pillar] = TileType::Wall;
    let player = viewer(&mut world, 3, 4, 6);
    world.entities[player.id].player = Some(Player {});
    let monster = viewer(&mut world, 11, 5, 4);
    let mut rng = rltk::RandomNumberGenerator::seeded(3);
    VisibilitySystem {}.run(&mut world, &mut rng);
    let first_player = world.entities[player.id].viewshed.as_ref().unwrap().visible_tiles.clone();
    let first_monster = world.entities[monster.id].viewshed.as_ref().unwrap().visible_tiles.clone();
    let first_visible = world.map.visible_tiles.clone();
    let first_revealed = world.map.revealed_tiles.clone();
    assert!(!first_player.is_empty());
    assert!(!first_monster.is_empty());

    // a second run finds every viewshed up to date and leaves it alone
    VisibilitySystem {}.run(&mut world, &mut rng);
    assert_eq!(world.entities[player.id].viewshed.as_ref().unwrap().visible_tiles, first_player);
    assert_eq!(world.entities[monster.id].viewshed.as_ref().unwrap().visible_tiles, first_monster);
    assert_eq!(world.map.visible_tiles, first_visible);
    assert_eq!(world.map.revealed_tiles, first_revealed);

    // looking anew from the same place sees the same set of tiles
    world.entities[player.id].viewshed.as_mut().unwrap().dirty = true;
    world.entities[monster.id].viewshed.as_mut().unwrap().dirty = true;
    VisibilitySystem {}.run(&mut world, &mut rng);
    assert_eq!(seen(&world, player), sorted(&first_player));
    assert_eq!(seen(&world, monster), sorted(&first_monster));
    assert_eq!(world.map.visible_tiles, first_visible);
    assert_eq!(world.map.revealed_tiles, first_revealed);
}

#[test]
fn who_has_no_position_or_an_up_to_date_viewshed_is_left_alone() {
    let mut world = World::new(room(9, 9));
    let blind = world.create_entity();
    world.entities[blind.id].viewshed = Some(Viewshed { visible_tiles: vec![Coord { x: 2, y: 2 }], range: 5, dirty: true });
    let settled = viewer(&mut world, 4, 4, 5);
    world.entities[settled.id].viewshed = Some(Viewshed { visible_tiles: vec![Coord { x: 3, y: 3 }], range: 5, dirty: false });
    let mut rng = rltk::RandomNumberGenerator::seeded(3);
    VisibilitySystem {}.run(&mut world, &mut rng);
    let v = world.entities[blind.id].viewshed.as_ref().unwrap();
    assert!(v.dirty);
    assert_eq!(v.visible_tiles, vec![Coord { x: 2, y: 2 }]);
    let v = world.entities[settled.id].viewshed.as_ref().unwrap();
    assert!(!v.dirty);
    assert_eq!(v.visible_tiles, vec![Coord { x: 3, y: 3 }]);
}

#[test]
fn a_roll_of_one_notices_what_is_hidden() {
    let mut world = World::new(room(9, 9));
    let trap = world.create_entity();
    world.entities[trap.id].hidden = Some(Hidden {});
    world.entities[trap.id].name = Some(Name { name: "Bear Trap".to_string() });
    for roll in [2, 24, 0, -1, 13] {
        notice(&mut world, trap, roll);
        assert!(world.entities[trap.id].hidden.is_some());
        assert!(world.log.is_empty());
    }
    notice(&mut world, trap, 1);
    assert!(world.entities[trap.id].hidden.is_none());
    assert_eq!(world.log.len(), 1);
    match &world.log[0] {
        LogEntry::Spots { what } => assert_eq!(what.as_ref().unwrap().name, "Bear Trap"),
        other => panic!("unexpected entry {:?}", other),
    }
    // nothing more to notice
    notice(&mut world, trap, 1);
    assert_eq!(world.log.len(), 1);
    let nameless = world.create_entity();
    world.entities[nameless.id].hidden = Some(Hidden {});
    notice(&mut world, nameless, 1);
    assert!(world.entities[nameless.id].hidden.is_none());
    assert_eq!(world.log.len(), 1);
    notice(&mut world, Entity { id: 99 }, 1);
    assert_eq!(world.log.len(), 1);
}

#[test]
fn hidden_things_in_the_players_view_are_noticed_sooner_or_later() {
    let mut world = World::new(room(9, 9));
    let player = viewer(&mut world, 4, 4, 8);
    world.entities[player.id].player = Some(Player {});
    let near = world.create_entity();
    world.entities[near.id].position = Some(Position { x: 5, y: 4 });
    world.entities[near.id].hidden = Some(Hidden {});
    world.entities[near.id].name = Some(Name { name: "Pit".to_string() });
    // behind a wall, out of view
    let wall = world.map.xy_idx(4, 2);
    world.map.tiles[wall] = TileType::Wall;
    let far = world.create_entity();
    world.entities[far.id].position = Some(Position { x: 4, y: 1 });
    world.entities[far.id].hidden = Some(Hidden {});
    MapIndexingSystem {}.run(&mut world);
    let mut rng = rltk::RandomNumberGenerator::seeded(11);
    let mut looks = 0;
    while world.entities[near.id].hidden.is_some() {
        assert!(looks < 2000);
        assert!(world.log.is_empty());
        world.entities[player.id].viewshed.as_mut().unwrap().dirty = true;
        VisibilitySystem {}.run(&mut world, &mut rng);
        looks += 1;
    }
    assert!(looks > 1);
    assert_eq!(world.log.len(), 1);
    assert!(matches!(&world.log[0], LogEntry::Spots { what: Some(n) } if n.name == "Pit"));
    for _ in 0..200 {
        world.entities[player.id].viewshed.as_mut().unwrap().dirty = true;
        VisibilitySystem {}.run(&mut world, &mut rng);
    }
    assert!(world.entities[far.id].hidden.is_some());
    assert_eq!(world.log.len(), 1);
}
