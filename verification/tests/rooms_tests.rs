use roguelike_engine::components::Color;
use roguelike_engine::config;
use roguelike_engine::map::TileMap;
use roguelike_engine::rect::Rect;
use roguelike_engine::rooms::{settings_are_fit, span, spawn, spawn_points};
use roguelike_engine::world::World;

const BLACK: Color = Color { r: 0, g: 0, b: 0 };

fn item(name: &str, range: Option<i32>, radius: Option<i32>) -> config::Item {
    config::Item {
        name: name.to_string(),
        chr: '!',
        fg_color: BLACK,
        bg_color: BLACK,
        power: 5,
        range,
        radius,
        duration: None,
    }
}

fn items() -> config::Items {
    config::Items {
        health_potion: item("Health Potion", None, None),
        fireball_scroll: item("Fireball Scroll", Some(6), Some(3)),
        magic_missile_scroll: item("Magic Missile Scroll", Some(5), None),
        confusion_scroll: item("Confusion Scroll", Some(6), None),
    }
}

fn monsters() -> config::Monsters {
    let stats = config::Stats { max_hp: 16, starting_hp: 16, defense: 1, power: 4 };
    config::Monsters {
        orc: config::Monster { name: "Orc".to_string(), chr: 'o', stats },
        goblin: config::Monster { name: "Goblin".to_string(), chr: 'g', stats },
        fg_color: BLACK,
        bg_color: BLACK,
        view_range: config::ViewRange { tile_count: 8 },
    }
}

fn rooms(max_monsters: i32, max_items: i32) -> config::Rooms {
    config::Rooms { max_count: 10, min_size: 3, max_size: 8, max_monsters, max_items }
}

#[test]
fn spans() {
    assert_eq!(span(2, 8), Some(6));
    assert_eq!(span(8, 2), Some(6));
    assert_eq!(span(3, 3), None);
    assert_eq!(span(i32::MIN, i32::MAX), None);
    assert_eq!(span(0, i32::MAX), None);
    assert_eq!(span(1, i32::MAX), Some(i32::MAX - 1));
    assert_eq!(span(-5, -4), Some(1));
}

#[test]
fn places_are_distinct_and_inside_the_room() {
    let room = Rect::new(4, 5, 6, 3);
    let mut rng = rltk::RandomNumberGenerator::seeded(17);
    for count in [0, 1, 5, 18] {
        let points = spawn_points(&mut rng, &room, count, 40);
        assert_eq!(points.len(), count as usize);
        let mut unique = points.clone();
        unique.sort();
        unique.dedup();
        assert_eq!(unique.len(), points.len());
        for p in points {
            let (x, y) = ((p % 40) as i32, (p / 40) as i32);
            assert!(x >= 5 && x <= 10, "x {}", x);
            assert!(y >= 6 && y <= 8, "y {}", y);
        }
    }
}

#[test]
fn a_full_room_gets_what_fits() {
    let room = Rect::new(4, 5, 2, 2);
    let mut rng = rltk::RandomNumberGenerator::seeded(3);
    let points = spawn_points(&mut rng, &room, 50, 40);
    let mut sorted = points.clone();
    sorted.sort();
    assert_eq!(sorted, vec![6 * 40 + 5, 6 * 40 + 6, 7 * 40 + 5, 7 * 40 + 6]);
    assert!(spawn_points(&mut rng, &room, -3, 40).is_empty());
    assert!(spawn_points(&mut rng, &Rect { x1: 4, x2: 4, y1: 1, y2: 9 }, 5, 40).is_empty());
    assert!(spawn_points(&mut rng, &Rect { x1: -9, x2: -4, y1: 1, y2: 9 }, 5, 40).is_empty());
}

#[test]
fn a_room_is_filled_with_monsters_and_items() {
    let mut rng = rltk::RandomNumberGenerator::seeded(23);
    let mut most = 0;
    let mut kinds = std::collections::BTreeSet::new();
    for _ in 0..60 {
        let mut world = World::new(TileMap::new(1, 40, 30, "Test"));
        let first = world.create_entity();
        spawn(&mut world, &mut rng, &Rect::new(4, 5, 8, 6), &rooms(4, 2), &monsters(), &items());
        assert!(world.is_alive(first));
        assert!(world.entities[first.id].name.is_none());
        let made = world.entities.len() - 1;
        assert!(made <= 3 + 3);
        most = most.max(made);
        let mut taken_by_monsters = Vec::new();
        let mut taken_by_items = Vec::new();
        let mut monsters_made = 0;
        for rec in world.entities.iter().skip(1) {
            assert!(rec.alive);
            let at = rec.position.unwrap();
            assert!(at.x >= 5 && at.x <= 12 && at.y >= 6 && at.y <= 11);
            let name = rec.name.as_ref().unwrap().name.clone();
            if rec.monster.is_some() {
                monsters_made += 1;
                assert!(name == "Orc" || name == "Goblin");
                assert!(rec.blocks_tile.is_some() && rec.combat_stats.is_some());
                assert!(!taken_by_monsters.contains(&at));
                taken_by_monsters.push(at);
            } else {
                assert!(rec.item.is_some() && rec.consumable.is_some());
                assert!(!taken_by_items.contains(&at));
                taken_by_items.push(at);
            }
            kinds.insert(name);
        }
        assert!(monsters_made <= 3);
        assert!(made - monsters_made <= 3);
        assert!(world.is_wf());
    }
    assert!(most >= 3);
    assert!(kinds.len() >= 4);
}

#[test]
fn a_room_off_the_map_stays_empty() {
    let mut rng = rltk::RandomNumberGenerator::seeded(23);
    let mut world = World::new(TileMap::new(1, 10, 10, "Test"));
    for _ in 0..20 {
        spawn(&mut world, &mut rng, &Rect::new(2, 40, 5, 5), &rooms(4, 4), &monsters(), &items());
        spawn(&mut world, &mut rng, &Rect::new(2, 2, 0, 5), &rooms(0, 0), &monsters(), &items());
    }
    assert!(world.entities.is_empty());
}

#[test]
fn settings_are_fit_for_the_dice_or_refused() {
    let rooms = rooms(4, 2);
    let orcs = monsters();
    let things = items();
    assert!(things.is_complete());
    assert!(orcs.view_range.is_in_limits());
    assert!(settings_are_fit(&rooms, &orcs, &things));

    let mut crowded = rooms;
    crowded.max_monsters = i32::MAX - 2;
    assert!(!settings_are_fit(&crowded, &orcs, &things));
    crowded.max_monsters = i32::MAX - 3;
    assert!(settings_are_fit(&crowded, &orcs, &things));
    let mut negative = rooms;
    negative.max_items = -1;
    assert!(!settings_are_fit(&negative, &orcs, &things));

    let mut far = monsters();
    far.view_range.tile_count = 23171;
    assert!(!far.view_range.is_in_limits());
    assert!(!settings_are_fit(&rooms, &far, &things));
    far.view_range.tile_count = -23170;
    assert!(settings_are_fit(&rooms, &far, &things));

    let mut blunt = items();
    blunt.fireball_scroll.radius = None;
    assert!(!blunt.is_complete());
    assert!(!settings_are_fit(&rooms, &orcs, &blunt));
    let mut short = items();
    short.confusion_scroll.range = None;
    assert!(!short.is_complete());
    let mut wide = items();
    wide.fireball_scroll.radius = Some(23171);
    assert!(!wide.is_complete());
}
