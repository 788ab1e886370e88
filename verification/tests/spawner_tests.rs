use roguelike_engine::components::{
    AreaOfEffect, BlocksTile, Color, CombatStats, Confusion, Consumable, Entity, InflictsDamage,
    Item, Monster, Player, Position, ProvidesHealing, Ranged,
};
use roguelike_engine::config;
use roguelike_engine::geometry::Coord;
use roguelike_engine::map::TileMap;
use roguelike_engine::character;
use roguelike_engine::items::{
    spawn_health_potion, spawn_ranged, spawn_ranged_aoe, spawn_ranged_confusion,
};
use roguelike_engine::items;
use roguelike_engine::monster;
use roguelike_engine::spawner::{ITEM_RENDER_ORDER, MONSTER_RENDER_ORDER, PLAYER_RENDER_ORDER};
use roguelike_engine::world::World;

const WHITE: Color = Color { r: 255, g: 255, b: 255 };
const BLACK: Color = Color { r: 0, g: 0, b: 0 };

fn item(name: &str, chr: char, power: i32, range: Option<i32>, radius: Option<i32>) -> config::Item {
    config::Item {
        name: name.to_string(),
        chr,
        fg_color: WHITE,
        bg_color: BLACK,
        power,
        range,
        radius,
        duration: None,
    }
}

fn items() -> config::Items {
    config::Items {
        health_potion: item("Health Potion", '!', 8, None, None),
        fireball_scroll: item("Fireball Scroll", ')', 20, Some(6), Some(3)),
        magic_missile_scroll: item("Magic Missile Scroll", ')', 7, Some(5), None),
        confusion_scroll: item("Confusion Scroll", ')', 4, Some(6), None),
    }
}

fn monsters() -> config::Monsters {
    config::Monsters {
        orc: config::Monster {
            name: "Orc".to_string(),
            chr: 'o',
            stats: config::Stats { max_hp: 16, starting_hp: 16, defense: 1, power: 4 },
        },
        goblin: config::Monster {
            name: "Goblin".to_string(),
            chr: 'g',
            stats: config::Stats { max_hp: 10, starting_hp: 9, defense: 0, power: 3 },
        },
        fg_color: Color { r: 255, g: 0, b: 0 },
        bg_color: BLACK,
        view_range: config::ViewRange { tile_count: 8 },
    }
}

fn world() -> World {
    World::new(TileMap::new(1, 10, 10, "Test"))
}

#[test]
fn a_health_potion() {
    let mut w = world();
    let e = spawn_health_potion(&mut w, Position { x: 2, y: 3 }, &items().health_potion);
    assert_eq!(e, Entity { id: 0 });
    let rec = &w.entities[0];
    assert!(rec.alive);
    assert_eq!(rec.position, Some(Position { x: 2, y: 3 }));
    assert_eq!(rec.name.as_ref().unwrap().name, "Health Potion");
    assert_eq!(rec.item, Some(Item {}));
    assert_eq!(rec.consumable, Some(Consumable {}));
    assert_eq!(rec.provides_healing, Some(ProvidesHealing { heal_amount: 8 }));
    assert!(rec.ranged.is_none() && rec.inflicts_damage.is_none() && rec.confusion.is_none());
    let r = rec.renderable.unwrap();
    assert_eq!((r.glyph, r.fg, r.bg, r.render_order), ('!', WHITE, BLACK, 2));
}

#[test]
fn the_three_scrolls() {
    let mut w = world();
    let cfg = items();
    let missile = spawn_ranged(&mut w, Position { x: 1, y: 1 }, &cfg.magic_missile_scroll);
    let fireball = spawn_ranged_aoe(&mut w, Position { x: 2, y: 1 }, &cfg.fireball_scroll);
    let confusion = spawn_ranged_confusion(&mut w, Position { x: 3, y: 1 }, &cfg.confusion_scroll);
    assert_eq!((missile.id, fireball.id, confusion.id), (0, 1, 2));
    let rec = &w.entities[missile.id];
    assert_eq!(rec.ranged, Some(Ranged { range: 5 }));
    assert_eq!(rec.inflicts_damage, Some(InflictsDamage { damage: 7 }));
    assert!(rec.area_of_effect.is_none() && rec.confusion.is_none());
    assert_eq!(rec.consumable, Some(Consumable {}));
    let rec = &w.entities[fireball.id];
    assert_eq!(rec.ranged, Some(Ranged { range: 6 }));
    assert_eq!(rec.inflicts_damage, Some(InflictsDamage { damage: 20 }));
    assert_eq!(rec.area_of_effect, Some(AreaOfEffect { radius: 3 }));
    assert_eq!(rec.name.as_ref().unwrap().name, "Fireball Scroll");
    let rec = &w.entities[confusion.id];
    assert_eq!(rec.ranged, Some(Ranged { range: 6 }));
    assert_eq!(rec.confusion, Some(Confusion { turns: 4 }));
    assert!(rec.inflicts_damage.is_none());
    assert_eq!(rec.position, Some(Position { x: 3, y: 1 }));
}

#[test]
fn the_item_die() {
    let cfg = items();
    let names = [
        (1, "Magic Missile Scroll"),
        (2, "Fireball Scroll"),
        (3, "Confusion Scroll"),
        (4, "Health Potion"),
        (5, "Health Potion"),
        (0, "Health Potion"),
        (-3, "Health Potion"),
        (77, "Health Potion"),
    ];
    for (roll, name) in names {
        let mut w = world();
        let e = items::for_roll(&mut w, roll, Position { x: 4, y: 4 }, &cfg);
        assert_eq!(w.entities[e.id].name.as_ref().unwrap().name, name);
    }
}

#[test]
fn random_items_are_one_of_the_four() {
    let cfg = items();
    let mut rng = rltk::RandomNumberGenerator::seeded(42);
    let mut w = world();
    let mut seen = std::collections::BTreeSet::new();
    for i in 0..200 {
        let e = items::random(&mut w, &mut rng, Position { x: 4, y: 4 }, &cfg);
        assert_eq!(e.id, i);
        let rec = &w.entities[e.id];
        assert_eq!(rec.position, Some(Position { x: 4, y: 4 }));
        assert_eq!(rec.item, Some(Item {}));
        seen.insert(rec.name.as_ref().unwrap().name.clone());
    }
    let all: Vec<&str> = seen.iter().map(|s| s.as_str()).collect();
    assert_eq!(
        all,
        vec!["Confusion Scroll", "Fireball Scroll", "Health Potion", "Magic Missile Scroll"]
    );
}

#[test]
fn monsters_of_both_kinds() {
    let cfg = monsters();
    let mut w = world();
    let orc = monster::spawn(&mut w, Position { x: 5, y: 5 }, &cfg, &cfg.orc);
    let rec = &w.entities[orc.id];
    assert_eq!(rec.monster, Some(Monster {}));
    assert_eq!(rec.blocks_tile, Some(BlocksTile {}));
    assert_eq!(rec.name.as_ref().unwrap().name, "Orc");
    assert_eq!(rec.combat_stats, Some(CombatStats { max_hp: 16, hp: 16, defense: 1, power: 4 }));
    let v = rec.viewshed.as_ref().unwrap();
    assert!(v.dirty && v.range == 8 && v.visible_tiles.is_empty());
    let r = rec.renderable.unwrap();
    assert_eq!((r.glyph, r.render_order), ('o', 1));
    assert!(rec.player.is_none());
    let a = monster::for_roll(&mut w, 1, Position { x: 1, y: 1 }, &cfg);
    let b = monster::for_roll(&mut w, 2, Position { x: 1, y: 1 }, &cfg);
    let c = monster::for_roll(&mut w, 0, Position { x: 1, y: 1 }, &cfg);
    assert_eq!(w.entities[a.id].name.as_ref().unwrap().name, "Orc");
    assert_eq!(w.entities[b.id].name.as_ref().unwrap().name, "Goblin");
    assert_eq!(w.entities[c.id].name.as_ref().unwrap().name, "Goblin");
    assert_eq!(w.entities[b.id].combat_stats, Some(CombatStats { max_hp: 10, hp: 9, defense: 0, power: 3 }));
    let mut rng = rltk::RandomNumberGenerator::seeded(9);
    let mut orcs = 0;
    let mut goblins = 0;
    for _ in 0..100 {
        let e = monster::random(&mut w, &mut rng, Position { x: 2, y: 2 }, &cfg);
        match w.entities[e.id].name.as_ref().unwrap().name.as_str() {
            "Orc" => orcs += 1,
            "Goblin" => goblins += 1,
            other => panic!("unexpected monster {}", other),
        }
    }
    assert!(orcs > 0 && goblins > 0);
    assert_eq!(orcs + goblins, 100);
}

#[test]
fn the_order_of_drawing() {
    assert_eq!((PLAYER_RENDER_ORDER, MONSTER_RENDER_ORDER, ITEM_RENDER_ORDER), (0, 1, 2));
}

#[test]
fn the_player() {
    let cfg = config::Player {
        name: "Hero".to_string(),
        chr: '@',
        fg_color: Color { r: 255, g: 255, b: 0 },
        bg_color: BLACK,
        view_range: config::ViewRange { tile_count: 7 },
        stats: config::Stats { max_hp: 30, starting_hp: 28, defense: 2, power: 5 },
    };
    let mut w = world();
    let first = w.create_entity();
    let e = character::spawn(&mut w, Position { x: 6, y: 7 }, &cfg);
    assert_eq!(e.id, 1);
    assert_eq!(w.player, first);
    let rec = &w.entities[e.id];
    assert_eq!(rec.player, Some(Player {}));
    assert_eq!(rec.position, Some(Position { x: 6, y: 7 }));
    assert_eq!(rec.combat_stats, Some(CombatStats { max_hp: 30, hp: 28, defense: 2, power: 5 }));
    assert_eq!(rec.viewshed.as_ref().unwrap().range, 7);
    assert!(rec.blocks_tile.is_none() && rec.monster.is_none());
    let character = character::new(&mut w, Position { x: 2, y: 3 }, &cfg);
    assert_eq!(character.entity, Entity { id: 2 });
    assert_eq!(character.location, Coord { x: 2, y: 3 });
    assert_eq!(w.player, character.entity);
    assert_eq!(w.player_pos, Coord { x: 2, y: 3 });
}
