use roguelike_engine::components::Entity;
use roguelike_engine::geometry::{covers, covers_rounded_down, Coord};
use roguelike_engine::map::{TileMap, MAX_MAP_SIDE};
use roguelike_engine::tiles::{diagonal_cost, tile_cost, tile_opaque, tile_walkable, TileType};

fn room(width: i32, height: i32) -> TileMap {
    let mut map = TileMap::new(1, width, height, "Test");
    for y in 1..height - 1 {
        for x in 1..width - 1 {
            let idx = map.xy_idx(x, y);
            map.tiles[idx] = TileType::Floor;
        }
    }
    map.populate_blocked();
    map
}

#[test]
fn new_map_is_solid_wall() {
    let map = TileMap::new(3, 10, 6, "New Map");
    assert_eq!(map.tiles.len(), 60);
    assert!(map.tiles.iter().all(|t| *t == TileType::Wall));
    assert!(map.revealed_tiles.iter().all(|r| !*r));
    assert!(map.visible_tiles.iter().all(|r| !*r));
    // solid wall is blocked from the start
    assert_eq!(map.blocked.len(), 60);
    assert!(map.blocked.iter().all(|r| *r));
    assert!(!map.is_exit_valid(4, 3));
    assert!(map.view_blocked.is_empty());
    assert_eq!(map.tile_content.len(), 60);
    assert!(map.tile_content.iter().all(|c| c.is_empty()));
    assert_eq!(map.depth, 3);
    assert_eq!(map.name, "New Map");
    assert!(map.is_wf());
}

#[test]
fn map_of_one_tile_and_of_the_longest_side() {
    let tiny = TileMap::new(1, 1, 1, "tiny");
    assert_eq!(tiny.tiles.len(), 1);
    assert!(tiny.is_wf());
    let long = TileMap::new(1, MAX_MAP_SIDE, 1, "long");
    assert_eq!(long.tiles.len(), 32767);
    assert_eq!(long.xy_idx(32766, 0), 32766);
}

#[test]
fn tile_index_is_row_major() {
    let map = TileMap::new(1, 80, 50, "m");
    assert_eq!(map.xy_idx(0, 0), 0);
    assert_eq!(map.xy_idx(1, 0), 1);
    assert_eq!(map.xy_idx(0, 1), 80);
    assert_eq!(map.xy_idx(79, 49), 3999);
    assert_eq!(map.xy_idx(5, 7), 565);
}

#[test]
fn tile_index_and_coordinate_are_inverse() {
    let map = TileMap::new(1, 7, 5, "m");
    let mut seen = vec![false; 35];
    for y in 0..5 {
        for x in 0..7 {
            let idx = map.xy_idx(x, y);
            assert!(!seen[idx]);
            seen[idx] = true;
            assert_eq!(map.idx_xy(idx), Coord { x, y });
        }
    }
    assert!(seen.iter().all(|s| *s));
}

#[test]
fn dimensions_are_width_and_height() {
    let map = TileMap::new(1, 64, 48, "m");
    assert_eq!(map.sides(), Coord { x: 64, y: 48 });
    let tall = TileMap::new(1, 3, 9, "m");
    assert_eq!(tall.sides(), Coord { x: 3, y: 9 });
}

#[test]
fn opacity_as_the_sight_lines_ask_for_it() {
    let mut map = room(7, 5);
    let floor = map.xy_idx(2, 2);
    let door = map.xy_idx(3, 2);
    map.view_blocked.insert(door);
    assert!(!map.opaque_at(floor));
    assert!(map.opaque_at(door));
    assert!(map.opaque_at(map.xy_idx(6, 2)));
    assert!(map.opaque_at(0));
    // a mark beyond the last tile marks no tile
    map.view_blocked.insert(35);
    assert!(!map.opaque_at(8));
    assert!(!map.opaque_at(floor));

    // the sight lines stop at the door, and see the sides of the map as they are
    let seen = map.field_of_view(2, 2, 6);
    assert!(seen.contains(&Coord { x: 2, y: 2 }));
    assert!(seen.contains(&Coord { x: 3, y: 2 }));
    assert!(!seen.contains(&Coord { x: 4, y: 2 }));
    assert!(!seen.contains(&Coord { x: 5, y: 2 }));
    assert!(seen.iter().all(|p| 1 <= p.x && p.x <= 5 && 1 <= p.y && p.y <= 3));
    map.view_blocked.remove(&door);
    assert!(!map.opaque_at(door));
    let seen = map.field_of_view(2, 2, 6);
    assert!(seen.contains(&Coord { x: 4, y: 2 }));
    assert!(seen.contains(&Coord { x: 5, y: 2 }));
    assert!(seen.contains(&Coord { x: 5, y: 3 }));
    assert!(seen.iter().all(|p| 1 <= p.x && p.x <= 5 && 1 <= p.y && p.y <= 3));
}

#[test]
fn in_bounds_and_interior() {
    let map = TileMap::new(1, 10, 8, "m");
    assert!(map.in_bounds(0, 0));
    assert!(map.in_bounds(9, 7));
    assert!(!map.in_bounds(10, 7));
    assert!(!map.in_bounds(9, 8));
    assert!(!map.in_bounds(-1, 0));
    assert!(!map.is_interior(0, 3));
    assert!(!map.is_interior(9, 3));
    assert!(!map.is_interior(3, 0));
    assert!(!map.is_interior(3, 7));
    assert!(map.is_interior(1, 1));
    assert!(map.is_interior(8, 6));
}

#[test]
fn terrain_classification() {
    assert!(!tile_walkable(TileType::Wall));
    assert!(tile_walkable(TileType::Floor));
    assert!(tile_walkable(TileType::DownStairs));
    assert!(tile_walkable(TileType::UpStairs));
    assert!(tile_opaque(TileType::Wall));
    assert!(!tile_opaque(TileType::Floor));
    assert!(!tile_opaque(TileType::DownStairs));
    assert!(!tile_opaque(TileType::UpStairs));
    assert_eq!(tile_cost(TileType::Floor), 100);
    assert_eq!(diagonal_cost(TileType::Floor), 150);
    assert_eq!(tile_cost(TileType::UpStairs), 100);
    assert_eq!(diagonal_cost(TileType::DownStairs), 150);
}

#[test]
fn populate_blocked_follows_terrain() {
    let mut map = room(5, 5);
    let wall = map.xy_idx(2, 2);
    map.tiles[wall] = TileType::Wall;
    for b in map.blocked.iter_mut() {
        *b = true;
    }
    map.populate_blocked();
    for y in 0..5 {
        for x in 0..5 {
            let idx = map.xy_idx(x, y);
            let expected = x == 0 || y == 0 || x == 4 || y == 4 || (x == 2 && y == 2);
            assert_eq!(map.blocked[idx], expected, "tile {} {}", x, y);
        }
    }
}

#[test]
fn populate_blocked_multi_dilates_by_the_footprint() {
    let mut map = room(7, 7);
    let pillar = map.xy_idx(4, 3);
    map.tiles[pillar] = TileType::Wall;
    map.populate_blocked_multi(2, 2);
    for y in 0..7 {
        for x in 0..7 {
            let idx = map.xy_idx(x, y);
            let border = x == 0 || y == 0 || x == 6 || y == 6;
            let own_wall = x == 4 && y == 3;
            // a 2 by 2 creature reaches one tile in every direction
            let reaches_edge = x <= 1 || x >= 5 || y <= 1 || y >= 5;
            let reaches_pillar = x >= 3 && x <= 5 && y >= 2 && y <= 4;
            let expected = border || own_wall || reaches_edge || reaches_pillar;
            assert_eq!(map.blocked[idx], expected, "tile {} {}", x, y);
        }
    }
}

#[test]
fn populate_blocked_multi_with_a_single_tile_footprint_is_the_terrain() {
    let mut a = room(6, 6);
    let mut b = room(6, 6);
    a.populate_blocked();
    b.populate_blocked_multi(1, 1);
    assert_eq!(a.blocked, b.blocked);
    let mut c = room(6, 6);
    c.populate_blocked_multi(0, 5);
    assert_eq!(a.blocked, c.blocked);
    let mut d = room(6, 6);
    d.populate_blocked_multi(-3, -3);
    assert_eq!(a.blocked, d.blocked);
}

#[test]
fn footprint_larger_than_the_map_blocks_the_interior() {
    let mut map = room(6, 6);
    map.populate_blocked_multi(i32::MAX, i32::MAX);
    assert!(map.blocked.iter().all(|b| *b));
}

#[test]
fn footprint_fits_reads_terrain() {
    let mut map = room(6, 6);
    assert!(!map.footprint_fits(1, 1, 2, 2));
    assert!(map.footprint_fits(2, 2, 2, 2));
    assert!(map.footprint_fits(3, 3, 2, 2));
    assert!(!map.footprint_fits(2, 2, 3, 3));
    assert!(!map.footprint_fits(4, 2, 2, 1));
    assert!(map.footprint_fits(3, 1, 2, 1));
    assert!(!map.footprint_fits(2, 4, 1, 2));
    assert!(map.footprint_fits(1, 3, 1, 2));
    assert!(map.footprint_fits(4, 4, 1, 1));
    assert!(map.footprint_fits(4, 4, 0, 9));
    assert!(map.footprint_fits(4, 4, 9, -1));
    assert!(!map.footprint_fits(2, 2, i32::MAX, 1));
    assert!(!map.footprint_fits(2, 2, 1, i32::MAX));
    // a wall on any side of the tile is in the way of a 2 by 2 creature
    for (wx, wy) in [(2, 3), (4, 3), (3, 2), (3, 4), (2, 2), (4, 4), (2, 4), (4, 2)] {
        let idx = map.xy_idx(wx, wy);
        map.tiles[idx] = TileType::Wall;
        assert!(!map.footprint_fits(3, 3, 2, 2), "wall at {} {}", wx, wy);
        assert!(map.footprint_fits(3, 3, 1, 1));
        map.tiles[idx] = TileType::Floor;
    }
    assert!(map.footprint_fits(3, 3, 2, 2));
}

#[test]
fn clear_content_index_empties_every_tile() {
    let mut map = room(4, 4);
    map.tile_content[5].push(Entity { id: 3 });
    map.tile_content[6].push(Entity { id: 4 });
    map.tile_content[6].push(Entity { id: 5 });
    map.clear_content_index();
    assert_eq!(map.tile_content.len(), 16);
    assert!(map.tile_content.iter().all(|c| c.is_empty()));
}

#[test]
fn opacity_of_walls_doors_and_the_first_tile() {
    let mut map = room(5, 5);
    let floor = map.xy_idx(2, 2);
    assert!(!map.opaque_at(floor));
    map.view_blocked.insert(floor);
    assert!(map.opaque_at(floor));
    let wall = map.xy_idx(4, 2);
    assert!(map.opaque_at(wall));
    assert!(map.opaque_at(0));
    map.tiles[0] = TileType::Floor;
    assert!(!map.opaque_at(0));
    map.view_blocked.insert(0);
    assert!(map.opaque_at(0));
    assert!(map.opaque_at(24));
    map.tiles[24] = TileType::DownStairs;
    assert!(!map.opaque_at(24));
}

#[test]
fn exits_from_the_middle_of_an_open_room() {
    let mut map = room(5, 5);
    map.populate_blocked();
    let idx = map.xy_idx(2, 2);
    let exits = map.get_available_exits(idx);
    assert_eq!(
        exits,
        vec![
            (map.xy_idx(1, 2), 100),
            (map.xy_idx(3, 2), 100),
            (map.xy_idx(2, 1), 100),
            (map.xy_idx(2, 3), 100),
            (map.xy_idx(1, 1), 150),
            (map.xy_idx(3, 1), 150),
            (map.xy_idx(1, 3), 150),
            (map.xy_idx(3, 3), 150),
        ]
    );
}

#[test]
fn exits_leave_out_blocked_tiles_and_the_outer_ring() {
    let mut map = room(5, 5);
    map.populate_blocked();
    let east = map.xy_idx(3, 2);
    map.blocked[east] = true;
    // from (3, 3): east and south are the outer ring, north is blocked
    let idx = map.xy_idx(3, 3);
    let exits = map.get_available_exits(idx);
    assert_eq!(
        exits,
        vec![(map.xy_idx(2, 3), 100), (map.xy_idx(2, 2), 150)]
    );
    // the outer ring is never an exit, even where it is not blocked
    let ring = map.xy_idx(4, 3);
    map.blocked[ring] = false;
    map.tiles[ring] = TileType::Floor;
    assert_eq!(map.get_available_exits(idx), exits);
    assert!(!map.is_exit_valid(4, 3));
    assert!(!map.is_exit_valid(0, 3));
    assert!(!map.is_exit_valid(3, 0));
    assert!(!map.is_exit_valid(3, 4));
    assert!(!map.is_exit_valid(-1, 7));
    assert!(!map.is_exit_valid(3, 2));
    assert!(map.is_exit_valid(2, 2));
}

#[test]
fn exits_from_a_corner_tile_of_the_map() {
    let mut map = room(4, 4);
    map.populate_blocked();
    assert_eq!(map.get_available_exits(0), vec![(map.xy_idx(1, 1), 150)]);
    let tiny = TileMap::new(1, 2, 2, "t");
    assert_eq!(tiny.get_available_exits(3), vec![]);
}

#[test]
fn distance_squared_is_exact() {
    let a = Coord { x: 1, y: 2 };
    let b = Coord { x: 4, y: 6 };
    assert_eq!(a.distance_squared(&b), 25);
    assert_eq!(b.distance_squared(&a), 25);
    assert_eq!(a.distance_squared(&a), 0);
    let far = Coord { x: i32::MIN, y: i32::MIN };
    let away = Coord { x: i32::MAX, y: i32::MAX };
    assert_eq!(far.distance_squared(&away), 2 * 4294967295i128 * 4294967295i128);
    let map = TileMap::new(1, 10, 10, "m");
    assert_eq!(map.distance_squared(map.xy_idx(1, 2), map.xy_idx(4, 6)), 25);
}

#[test]
fn melee_reach_is_the_eight_neighbours() {
    let here = Coord { x: 5, y: 5 };
    for dy in -2..=2 {
        for dx in -2..=2 {
            let there = Coord { x: 5 + dx, y: 5 + dy };
            let expected = dx >= -1 && dx <= 1 && dy >= -1 && dy <= 1;
            assert_eq!(here.within_melee_reach(&there), expected, "{} {}", dx, dy);
        }
    }
}

#[test]
fn reach_in_whole_tiles() {
    assert!(covers(5, 25));
    assert!(!covers(5, 26));
    assert!(covers(0, 0));
    assert!(!covers(0, 1));
    assert!(!covers(-1, 0));
    assert!(covers(i32::MAX, 4611686014132420609));
    assert!(covers_rounded_down(5, 35));
    assert!(!covers_rounded_down(5, 36));
    assert!(covers_rounded_down(0, 0));
    assert!(!covers_rounded_down(0, 1));
    assert!(!covers_rounded_down(-1, 0));
}

#[test]
fn step_between_tiles() {
    let mut map = room(5, 5);
    map.populate_blocked();
    let from = map.xy_idx(2, 2);
    assert!(map.is_step_open(from, map.xy_idx(3, 3)));
    assert!(map.is_step_open(from, map.xy_idx(1, 2)));
    assert!(!map.is_step_open(from, from));
    assert!(!map.is_step_open(from, map.xy_idx(4, 2)));
    assert!(!map.is_step_open(map.xy_idx(1, 1), map.xy_idx(3, 1)));
    assert!(!map.is_step_open(from, 25));
    assert!(!map.is_step_open(from, usize::MAX));
    let blocked = map.xy_idx(2, 1);
    map.blocked[blocked] = true;
    assert!(!map.is_step_open(from, blocked));
}

#[test]
fn duplicate_is_an_equal_level() {
    let mut map = room(5, 4);
    map.revealed_tiles[7] = true;
    map.visible_tiles[8] = true;
    map.view_blocked.insert(6);
    map.view_blocked.insert(13);
    map.tile_content[6].push(Entity { id: 9 });
    map.populate_blocked();
    let copy = map.duplicate();
    assert_eq!(copy.tiles, map.tiles);
    assert_eq!(copy.width, 5);
    assert_eq!(copy.height, 4);
    assert_eq!(copy.revealed_tiles, map.revealed_tiles);
    assert_eq!(copy.visible_tiles, map.visible_tiles);
    assert_eq!(copy.blocked, map.blocked);
    assert_eq!(copy.view_blocked, map.view_blocked);
    assert_eq!(copy.tile_content, map.tile_content);
    assert_eq!(copy.depth, map.depth);
    assert_eq!(copy.name, map.name);
}

#[test]
fn last_tile_of_a_terrain() {
    let mut map = room(5, 5);
    assert_eq!(map.last_tile_of(TileType::DownStairs), None);
    let a = map.xy_idx(1, 1);
    let b = map.xy_idx(3, 2);
    map.tiles[a] = TileType::DownStairs;
    map.tiles[b] = TileType::DownStairs;
    assert_eq!(map.last_tile_of(TileType::DownStairs), Some(b));
    assert_eq!(map.last_tile_of(TileType::Wall), Some(24));
}

#[test]
fn malformed_levels_are_told_apart() {
    let mut map = room(4, 4);
    assert!(map.is_wf());
    map.blocked.pop();
    assert!(!map.is_wf());
    let mut wide = room(4, 4);
    wide.width = 5;
    assert!(!wide.is_wf());
    let mut flat = room(4, 4);
    flat.height = 0;
    assert!(!flat.is_wf());
    let mut big = room(4, 4);
    big.width = MAX_MAP_SIDE + 1;
    assert!(!big.is_wf());
}
