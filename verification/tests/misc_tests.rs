use roguelike_engine::components::{
    copy_name, AreaOfEffect, Color, Entity, EntityData, EntityMoved, EntryTrigger, HungerClock,
    HungerState, InBackpack, Name, Position,
};
use roguelike_engine::config::{MapArea, TextArea};
use roguelike_engine::gamelog::LogEntry;
use roguelike_engine::gui::{backpack_of, named_entities_at, Gui, GUI};
use roguelike_engine::hunger::well_fed;
use roguelike_engine::indexing::MapIndexingSystem;
use roguelike_engine::map::TileMap;
use roguelike_engine::menu::{
    item_menu_key, main_menu_key, ItemMenuKey, ItemMenuResult, MainMenuResult, MenuKey, Selection,
};
use roguelike_engine::rect::{add_spawn_point, contains_index, item_count, monster_count, Rect};
use roguelike_engine::state::RunState;
use roguelike_engine::tiles::TileType;
use roguelike_engine::triggers::{Firing, TriggerSystem};
use roguelike_engine::world::World;

fn room(width: i32, height: i32) -> TileMap {
    let mut map = TileMap::new(1, width, height, "Test");
    for y in 1..height - 1 {
        for x in 1..width - 1 {
            let idx = map.xy_idx(x, y);
            map.tiles[idx] = TileType::Floor;
        }
    }
    map.populate_blocked();
    map
}

#[test]
fn a_new_world_is_empty() {
    let mut world = World::new(room(5, 5));
    assert!(world.entities.is_empty());
    assert!(world.log.is_empty());
    assert!(world.dungeon.is_empty());
    assert!(world.reactions.is_empty());
    assert_eq!(world.run_state, RunState::PreRun);
    assert_eq!(world.player, Entity { id: 0 });
    assert!(!world.is_alive(Entity { id: 0 }));
    let a = world.create_entity();
    let b = world.create_entity();
    assert_eq!((a.id, b.id), (0, 1));
    assert!(world.is_alive(a));
    world.entities[a.id].name = Some(Name { name: "A".to_string() });
    world.delete_entity(a);
    assert!(!world.is_alive(a));
    assert!(world.entities[a.id].is_free_slot());
    assert!(world.is_alive(b));
    world.delete_entity(a);
    world.delete_entity(Entity { id: 10 });
    assert_eq!(world.entities.len(), 2);
    world.push_log(LogEntry::Descends);
    assert_eq!(world.log.len(), 1);
    let bare = EntityData::bare(true);
    assert!(bare.alive && !bare.is_free_slot());
    assert!(EntityData::bare(false).is_free_slot());
    assert!(copy_name(&None).is_none());
    assert_eq!(copy_name(&Some(Name { name: "N".to_string() })).unwrap().name, "N");
}

#[test]
fn the_main_menu_highlight_moves_and_wraps() {
    let order = [
        Selection::ContinuePlaying,
        Selection::NewGame,
        Selection::SaveGame,
        Selection::LoadGame,
        Selection::Credits,
        Selection::Quit,
    ];
    for i in 0..6 {
        assert_eq!(order[i].down(true), order[(i + 1) % 6]);
        assert_eq!(order[i].up(true), order[(i + 5) % 6]);
    }
    // without a saved game the load entry is passed over
    assert_eq!(Selection::SaveGame.down(false), Selection::Quit);
    assert_eq!(Selection::Credits.up(false), Selection::NewGame);
    assert_eq!(Selection::Quit.up(false), Selection::Credits);
    assert_eq!(Selection::NewGame.down(false), Selection::SaveGame);
    for s in order {
        assert_ne!(s.up(false), Selection::LoadGame);
        assert_ne!(s.down(false), Selection::LoadGame);
    }
}

#[test]
fn the_main_menu_answers_keys() {
    let s = Selection::SaveGame;
    assert_eq!(main_menu_key(s, None, true), MainMenuResult::NoSelection { selected: s });
    assert_eq!(
        main_menu_key(s, Some(MenuKey::Escape), true),
        MainMenuResult::NoSelection { selected: Selection::ContinuePlaying }
    );
    assert_eq!(
        main_menu_key(s, Some(MenuKey::Up), true),
        MainMenuResult::NoSelection { selected: Selection::NewGame }
    );
    assert_eq!(
        main_menu_key(s, Some(MenuKey::Down), true),
        MainMenuResult::NoSelection { selected: Selection::LoadGame }
    );
    assert_eq!(
        main_menu_key(s, Some(MenuKey::Down), false),
        MainMenuResult::NoSelection { selected: Selection::Quit }
    );
    assert_eq!(main_menu_key(s, Some(MenuKey::Return), true), MainMenuResult::Selected { selected: s });
    assert_eq!(main_menu_key(s, Some(MenuKey::Other), true), MainMenuResult::NoSelection { selected: s });
}

#[test]
fn item_menus_pick_by_letter() {
    let items = vec![Entity { id: 4 }, Entity { id: 9 }, Entity { id: 2 }];
    assert_eq!(item_menu_key(&items, None), (ItemMenuResult::NoResponse, None));
    assert_eq!(item_menu_key(&items, Some(ItemMenuKey::Escape)), (ItemMenuResult::Cancel, None));
    assert_eq!(
        item_menu_key(&items, Some(ItemMenuKey::Letter { option: 0 })),
        (ItemMenuResult::Selected, Some(Entity { id: 4 }))
    );
    assert_eq!(
        item_menu_key(&items, Some(ItemMenuKey::Letter { option: 2 })),
        (ItemMenuResult::Selected, Some(Entity { id: 2 }))
    );
    for option in [3, -1, 26, i32::MAX, i32::MIN] {
        assert_eq!(
            item_menu_key(&items, Some(ItemMenuKey::Letter { option })),
            (ItemMenuResult::NoResponse, None)
        );
    }
    assert_eq!(
        item_menu_key(&vec![], Some(ItemMenuKey::Letter { option: 0 })),
        (ItemMenuResult::NoResponse, None)
    );
}

#[test]
fn the_backpack_lists_named_items_of_the_owner() {
    let mut world = World::new(room(6, 6));
    let player = world.create_entity();
    let thief = world.create_entity();
    let mut make = |owner: Option<Entity>, name: Option<&str>| {
        let e = world.create_entity();
        world.entities[e.id].in_backpack = owner.map(|owner| InBackpack { owner });
        world.entities[e.id].name = name.map(|n| Name { name: n.to_string() });
        e
    };
    let potion = make(Some(player), Some("Potion"));
    let _stolen = make(Some(thief), Some("Coin"));
    let _nameless = make(Some(player), None);
    let _on_floor = make(None, Some("Rock"));
    let scroll = make(Some(player), Some("Scroll"));
    assert_eq!(backpack_of(&world, player), vec![potion, scroll]);
    assert_eq!(backpack_of(&world, Entity { id: 40 }), vec![]);
}

#[test]
fn tooltips_list_who_is_named_and_stands_there() {
    let mut world = World::new(room(6, 6));
    let a = world.create_entity();
    world.entities[a.id].position = Some(Position { x: 2, y: 3 });
    world.entities[a.id].name = Some(Name { name: "A".to_string() });
    let b = world.create_entity();
    world.entities[b.id].position = Some(Position { x: 2, y: 3 });
    let c = world.create_entity();
    world.entities[c.id].position = Some(Position { x: 3, y: 2 });
    world.entities[c.id].name = Some(Name { name: "C".to_string() });
    let d = world.create_entity();
    world.entities[d.id].position = Some(Position { x: 2, y: 3 });
    world.entities[d.id].name = Some(Name { name: "D".to_string() });
    assert_eq!(named_entities_at(&world, 2, 3), vec![a, d]);
    assert_eq!(named_entities_at(&world, 3, 2), vec![c]);
    assert_eq!(named_entities_at(&world, 9, 9), vec![]);
}

#[test]
fn the_screen_layout() {
    let cfg = Gui {
        bg_color: Color { r: 0, g: 0, b: 0 },
        fg_color: Color { r: 1, g: 2, b: 3 },
        cursor_color: Color { r: 255, g: 0, b: 255 },
        fullscreen: false,
        map_area: MapArea { width: 80, height: 43 },
        text_area: TextArea { height: 7 },
    };
    let gui = roguelike_engine::gui::new(&cfg);
    assert_eq!(
        gui,
        GUI {
            map_area: MapArea { width: 80, height: 43 },
            text_area: TextArea { height: 7 },
            width: 80,
            height: 50,
            fg_color: Color { r: 1, g: 2, b: 3 },
            bg_color: Color { r: 0, g: 0, b: 0 },
            cursor_color: Color { r: 255, g: 0, b: 255 },
        }
    );
}

#[test]
fn a_meal_keeps_hunger_away() {
    let mut world = World::new(room(6, 6));
    let eater = world.create_entity();
    world.entities[eater.id].hunger_clock = Some(HungerClock { state: HungerState::Starving, duration: 3 });
    let statue = world.create_entity();
    well_fed(&mut world, eater);
    well_fed(&mut world, statue);
    well_fed(&mut world, Entity { id: 9 });
    assert_eq!(
        world.entities[eater.id].hunger_clock,
        Some(HungerClock { state: HungerState::WellFed, duration: 20 })
    );
    assert!(world.entities[statue.id].hunger_clock.is_none());
}

#[test]
fn rectangles() {
    let r = Rect::new(2, 3, 6, 4);
    assert_eq!(r, Rect { x1: 2, x2: 8, y1: 3, y2: 7 });
    assert_eq!(r.center(), (5, 5));
    assert_eq!(Rect::new(-7, -3, 2, 2).center(), (-6, -2));
    assert_eq!(Rect { x1: i32::MAX, x2: i32::MAX, y1: i32::MIN, y2: i32::MIN }.center(), (i32::MAX, i32::MIN));
    assert!(r.intersect(&Rect::new(8, 7, 2, 2)));
    assert!(r.intersect(&Rect::new(0, 0, 2, 3)));
    assert!(!r.intersect(&Rect::new(9, 3, 2, 2)));
    assert!(!r.intersect(&Rect::new(2, 8, 2, 2)));
    assert!(r.intersect(&r));
}

#[test]
fn spawn_places() {
    let r = Rect::new(2, 3, 6, 4);
    assert_eq!(r.spawn_index(1, 1, 80), Some(4 * 80 + 3));
    assert_eq!(r.spawn_index(6, 4, 80), Some(7 * 80 + 8));
    assert_eq!(r.spawn_index(-2, -3, 80), Some(0));
    assert_eq!(r.spawn_index(-3, 0, 80), None);
    assert_eq!(r.spawn_index(0, -4, 80), None);
    assert_eq!(r.spawn_index(78, 0, 80), None);
    assert_eq!(r.spawn_index(0, 0, 0), None);
    assert_eq!(r.spawn_index(0, 0, -5), None);
    let mut points = vec![];
    assert!(add_spawn_point(&mut points, 7));
    assert!(add_spawn_point(&mut points, 3));
    assert!(!add_spawn_point(&mut points, 7));
    assert_eq!(points, vec![7, 3]);
    assert!(contains_index(&points, 3));
    assert!(!contains_index(&points, 4));
    assert_eq!(monster_count(1), -2);
    assert_eq!(monster_count(6), 3);
    assert_eq!(item_count(1), 0);
    assert_eq!(item_count(4), 3);
}

#[test]
fn moving_onto_a_trigger_sets_it_off() {
    let mut world = World::new(room(8, 8));
    let walker = world.create_entity();
    world.entities[walker.id].position = Some(Position { x: 3, y: 3 });
    world.entities[walker.id].entity_moved = Some(EntityMoved {});
    world.entities[walker.id].entry_trigger = Some(EntryTrigger {});
    let trap = world.create_entity();
    world.entities[trap.id].position = Some(Position { x: 3, y: 3 });
    world.entities[trap.id].entry_trigger = Some(EntryTrigger {});
    world.entities[trap.id].name = Some(Name { name: "Bear Trap".to_string() });
    let rug = world.create_entity();
    world.entities[rug.id].position = Some(Position { x: 3, y: 3 });
    let mine = world.create_entity();
    world.entities[mine.id].position = Some(Position { x: 3, y: 3 });
    world.entities[mine.id].entry_trigger = Some(EntryTrigger {});
    world.entities[mine.id].area_of_effect = Some(AreaOfEffect { radius: 2 });
    let idle = world.create_entity();
    world.entities[idle.id].position = Some(Position { x: 5, y: 5 });
    let far_trap = world.create_entity();
    world.entities[far_trap.id].position = Some(Position { x: 5, y: 5 });
    world.entities[far_trap.id].entry_trigger = Some(EntryTrigger {});
    MapIndexingSystem {}.run(&mut world);
    let fired = TriggerSystem {}.run(&mut world);
    assert_eq!(
        fired,
        vec![
            Firing { creator: walker, trigger: trap, tile_idx: 27, radius: None },
            Firing { creator: walker, trigger: mine, tile_idx: 27, radius: Some(2) },
        ]
    );
    assert_eq!(world.log.len(), 1);
    assert!(matches!(&world.log[0], LogEntry::Triggers { what: Some(n) } if n.name == "Bear Trap"));
    assert!(world.entities.iter().all(|r| r.entity_moved.is_none()));
    assert!(TriggerSystem {}.run(&mut world).is_empty());
    assert_eq!(world.log.len(), 1);
}

#[test]
fn a_world_is_well_formed_until_someone_breaks_it() {
    let mut world = World::new(room(6, 6));
    assert!(world.is_wf());
    let e = world.create_entity();
    world.entities[e.id].position = Some(Position { x: 5, y: 5 });
    assert!(world.is_wf());
    world.entities[e.id].position = Some(Position { x: 6, y: 5 });
    assert!(!world.is_wf());
    world.entities[e.id].position = None;
    world.entities[e.id].area_of_effect = Some(AreaOfEffect { radius: 23170 });
    assert!(world.is_wf());
    world.entities[e.id].area_of_effect = Some(AreaOfEffect { radius: 23171 });
    assert!(!world.is_wf());
    world.entities[e.id].area_of_effect = None;
    world.entities[e.id].alive = false;
    assert!(world.is_wf());
    world.entities[e.id].name = Some(Name { name: "Ghost".to_string() });
    assert!(!world.is_wf());
    world.entities[e.id].name = None;
    world.player_pos = roguelike_engine::geometry::Coord { x: 0, y: 6 };
    assert!(!world.is_wf());
    world.player_pos = roguelike_engine::geometry::Coord { x: 0, y: 5 };
    world.dungeon.push(room(3, 3));
    assert!(world.is_wf());
    world.dungeon[0].tiles.pop();
    assert!(!world.is_wf());
    world.dungeon.clear();
    world.map.blocked.push(false);
    assert!(!world.is_wf());
}
