use roguelike_engine::ai::{contains_point, MonsterAI, MonsterAction};
use roguelike_engine::components::{
    BlocksTile, Chasing, CombatStats, Entity, Equipped, Faction, Monster, MyTurn, Name, Player,
    Position, SpecialAbilities, SpecialAbility, Viewshed, WantsToApproach, WantsToCastSpell,
    WantsToMelee, WantsToShoot, Weapon,
};
use roguelike_engine::geometry::Coord;
use roguelike_engine::indexing::MapIndexingSystem;
use roguelike_engine::map::TileMap;
use roguelike_engine::pathing::{
    finish_approaches, path_requests, take_path_step, NavigationPath, PathRequest,
};
use roguelike_engine::state::RunState;
use roguelike_engine::tiles::TileType;
use roguelike_engine::visible_ai::{
    faction_reaction, first_foe, first_success, in_bracket, threats, CastOption, Sighting,
    VisibleAI,
};
use roguelike_engine::world::{FactionReaction, Reaction, World};

fn room(width: i32, height: i32) -> TileMap {
    let mut map = TileMap::new(1, width, height, "Test");
    for y in 1..height - 1 {
        for x in 1..width - 1 {
            let idx = map.xy_idx(x, y);
            map.tiles[idx] = TileType::Floor;
        }
    }
    map.populate_blocked();
    map
}

fn hero(world: &mut World, x: i32, y: i32) -> Entity {
    let e = world.create_entity();
    let rec = &mut world.entities[e.id];
    rec.position = Some(Position { x, y });
    rec.player = Some(Player {});
    rec.name = Some(Name { name: "Hero".to_string() });
    rec.combat_stats = Some(CombatStats { max_hp: 30, hp: 30, defense: 2, power: 5 });
    rec.faction = Some(Faction { id: 0 });
    world.player = e;
    world.player_pos = Coord { x, y };
    e
}

fn monster(world: &mut World, x: i32, y: i32, sees: Vec<Coord>) -> Entity {
    let e = world.create_entity();
    let rec = &mut world.entities[e.id];
    rec.position = Some(Position { x, y });
    rec.monster = Some(Monster {});
    rec.blocks_tile = Some(BlocksTile {});
    rec.name = Some(Name { name: "Orc".to_string() });
    rec.combat_stats = Some(CombatStats { max_hp: 16, hp: 16, defense: 1, power: 4 });
    rec.viewshed = Some(Viewshed { visible_tiles: sees, range: 8, dirty: false });
    e
}

fn path(steps: Vec<usize>) -> NavigationPath {
    NavigationPath { success: true, steps }
}

#[test]
fn a_monster_next_to_the_player_attacks() {
    let mut world = World::new(room(10, 10));
    let player = hero(&mut world, 4, 4);
    let orc = monster(&mut world, 5, 5, vec![Coord { x: 4, y: 4 }]);
    world.run_state = RunState::Ticking;
    let action = MonsterAI {}.begin_turn(&mut world, orc);
    assert_eq!(action, MonsterAction::Attack);
    assert_eq!(world.entities[orc.id].wants_to_melee, Some(WantsToMelee { target: player }));
    assert_eq!(world.entities[orc.id].position, Some(Position { x: 5, y: 5 }));
}

#[test]
fn a_monster_that_sees_the_player_asks_for_a_path() {
    let mut world = World::new(room(10, 10));
    let _player = hero(&mut world, 2, 2);
    let orc = monster(&mut world, 6, 5, vec![Coord { x: 3, y: 3 }, Coord { x: 2, y: 2 }]);
    world.run_state = RunState::Ticking;
    let action = MonsterAI {}.begin_turn(&mut world, orc);
    assert_eq!(action, MonsterAction::Chase { from: 56, to: 22 });
    assert!(world.entities[orc.id].wants_to_melee.is_none());
}

#[test]
fn a_monster_that_does_not_see_the_player_idles() {
    let mut world = World::new(room(10, 10));
    let _player = hero(&mut world, 2, 2);
    let orc = monster(&mut world, 6, 5, vec![Coord { x: 3, y: 3 }]);
    world.run_state = RunState::Ticking;
    assert_eq!(MonsterAI {}.begin_turn(&mut world, orc), MonsterAction::Idle);
    // two tiles away is out of reach
    let near = monster(&mut world, 4, 2, vec![]);
    assert_eq!(MonsterAI {}.begin_turn(&mut world, near), MonsterAction::Idle);
    assert!(world.entities[near.id].wants_to_melee.is_none());
}

#[test]
fn monsters_act_while_the_simulation_ticks_only() {
    let mut world = World::new(room(10, 10));
    let player = hero(&mut world, 4, 4);
    let orc = monster(&mut world, 5, 5, vec![Coord { x: 4, y: 4 }]);
    let item = world.create_entity();
    world.run_state = RunState::AwaitingInput;
    assert_eq!(MonsterAI {}.begin_turn(&mut world, orc), MonsterAction::Idle);
    assert!(world.entities[orc.id].wants_to_melee.is_none());
    assert!(MonsterAI {}.actors(&world).is_empty());
    world.run_state = RunState::Ticking;
    assert_eq!(MonsterAI {}.actors(&world), vec![orc]);
    assert_eq!(MonsterAI {}.begin_turn(&mut world, player), MonsterAction::Idle);
    assert_eq!(MonsterAI {}.begin_turn(&mut world, item), MonsterAction::Idle);
    assert_eq!(MonsterAI {}.begin_turn(&mut world, Entity { id: 99 }), MonsterAction::Idle);
}

#[test]
fn a_step_along_the_path_moves_the_block() {
    let mut world = World::new(room(10, 10));
    let _player = hero(&mut world, 2, 2);
    let orc = monster(&mut world, 6, 5, vec![]);
    MapIndexingSystem {}.run(&mut world);
    let from = world.map.xy_idx(6, 5);
    let to = world.map.xy_idx(5, 4);
    assert!(world.map.blocked[from]);
    let moved = MonsterAI {}.end_turn(&mut world, orc, &path(vec![from, to, 33, 22]));
    assert!(moved);
    assert_eq!(world.entities[orc.id].position, Some(Position { x: 5, y: 4 }));
    assert!(!world.map.blocked[from]);
    assert!(world.map.blocked[to]);
    assert!(world.entities[orc.id].viewshed.as_ref().unwrap().dirty);
    assert!(world.entities[orc.id].entity_moved.is_some());
}

#[test]
fn a_step_is_never_taken_onto_a_blocked_tile() {
    let mut world = World::new(room(10, 10));
    let _player = hero(&mut world, 2, 2);
    let orc = monster(&mut world, 6, 5, vec![]);
    let other = monster(&mut world, 5, 5, vec![]);
    MapIndexingSystem {}.run(&mut world);
    let from = world.map.xy_idx(6, 5);
    let before = world.map.blocked.clone();
    let candidates: Vec<usize> = (0..110).collect();
    for to in candidates {
        let mut trial = World::new(world.map.duplicate());
        let _p = hero(&mut trial, 2, 2);
        let o = monster(&mut trial, 6, 5, vec![]);
        let _other = monster(&mut trial, 5, 5, vec![]);
        let moved = take_path_step(&mut trial, o, &path(vec![from, to]));
        let there = trial.entities[o.id].position.unwrap();
        if moved {
            assert!(to < 100);
            assert!(!before[to], "stepped onto blocked tile {}", to);
            assert_eq!(trial.map.xy_idx(there.x, there.y), to);
            assert!((there.x - 6).abs() <= 1 && (there.y - 5).abs() <= 1);
            assert!(there.x >= 1 && there.x <= 8 && there.y >= 1 && there.y <= 8);
        } else {
            assert_eq!(there, Position { x: 6, y: 5 });
            assert_eq!(trial.map.blocked, before);
        }
    }
    // the tile of the other monster is refused, an open neighbour is taken
    let taken = world.map.xy_idx(5, 5);
    let open = world.map.xy_idx(7, 5);
    assert!(!take_path_step(&mut world, orc, &path(vec![from, taken])));
    assert_eq!(world.entities[other.id].position, Some(Position { x: 5, y: 5 }));
    assert!(take_path_step(&mut world, orc, &path(vec![from, open])));
}

#[test]
fn a_path_that_failed_or_is_too_short_moves_no_one() {
    let mut world = World::new(room(10, 10));
    let orc = monster(&mut world, 6, 5, vec![]);
    MapIndexingSystem {}.run(&mut world);
    let from = world.map.xy_idx(6, 5);
    let to = world.map.xy_idx(5, 5);
    assert!(!take_path_step(&mut world, orc, &NavigationPath { success: false, steps: vec![from, to] }));
    assert!(!take_path_step(&mut world, orc, &path(vec![from])));
    assert!(!take_path_step(&mut world, orc, &path(vec![])));
    assert!(!take_path_step(&mut world, Entity { id: 50 }, &path(vec![from, to])));
    let ghost = world.create_entity();
    assert!(!take_path_step(&mut world, ghost, &path(vec![from, to])));
    assert_eq!(world.entities[orc.id].position, Some(Position { x: 6, y: 5 }));
    assert!(!world.entities[orc.id].viewshed.as_ref().unwrap().dirty);
    assert!(world.map.blocked[from]);
    assert!(!world.map.blocked[to]);
}

#[test]
fn finding_a_point() {
    let points = vec![Coord { x: 1, y: 2 }, Coord { x: 3, y: 4 }];
    assert!(contains_point(&points, Coord { x: 3, y: 4 }));
    assert!(!contains_point(&points, Coord { x: 4, y: 3 }));
    assert!(!contains_point(&vec![], Coord { x: 0, y: 0 }));
}

#[test]
fn the_faction_table_decides_reactions() {
    let table = vec![
        FactionReaction { mine: 1, theirs: 0, reaction: Reaction::Attack },
        FactionReaction { mine: 2, theirs: 0, reaction: Reaction::Flee },
        FactionReaction { mine: 1, theirs: 0, reaction: Reaction::Flee },
    ];
    assert_eq!(faction_reaction(&table, 1, 0), Reaction::Attack);
    assert_eq!(faction_reaction(&table, 2, 0), Reaction::Flee);
    assert_eq!(faction_reaction(&table, 0, 1), Reaction::Ignore);
    assert_eq!(faction_reaction(&vec![], 1, 0), Reaction::Ignore);
}

fn hostile_world() -> (World, Entity, Entity) {
    let mut world = World::new(room(20, 20));
    let player = hero(&mut world, 10, 10);
    let orc = monster(&mut world, 14, 10, vec![Coord { x: 14, y: 10 }, Coord { x: 10, y: 10 }, Coord { x: 11, y: 10 }]);
    world.entities[orc.id].faction = Some(Faction { id: 1 });
    world.entities[orc.id].my_turn = Some(MyTurn {});
    world.reactions.push(FactionReaction { mine: 1, theirs: 0, reaction: Reaction::Attack });
    world.reactions.push(FactionReaction { mine: 3, theirs: 0, reaction: Reaction::Flee });
    world.reactions.push(FactionReaction { mine: 3, theirs: 1, reaction: Reaction::Flee });
    MapIndexingSystem {}.run(&mut world);
    (world, player, orc)
}

#[test]
fn a_creature_approaches_whom_it_attacks() {
    let (mut world, player, orc) = hostile_world();
    VisibleAI {}.act(&mut world, orc, &vec![]);
    let rec = &world.entities[orc.id];
    assert_eq!(rec.wants_to_approach, Some(WantsToApproach { idx: 210 }));
    assert_eq!(rec.chasing, Some(Chasing { target: player }));
    assert!(rec.wants_to_melee.is_none());
    assert!(rec.wants_to_cast_spell.is_none());
    assert!(rec.wants_to_shoot.is_none());
    assert!(rec.wants_to_flee.is_none());
    assert_eq!(
        path_requests(&world),
        vec![PathRequest { entity: orc, from: 214, to: 210 }]
    );
    finish_approaches(&mut world);
    assert!(world.entities[orc.id].wants_to_approach.is_none());
    assert!(world.entities[orc.id].my_turn.is_none());
    assert!(path_requests(&world).is_empty());
}

#[test]
fn a_creature_in_reach_wants_melee() {
    let (mut world, player, orc) = hostile_world();
    world.entities[orc.id].position = Some(Position { x: 11, y: 11 });
    world.entities[orc.id].special_abilities = Some(SpecialAbilities {
        abilities: vec![SpecialAbility { spell: Entity { id: 9 }, chance: 100, range: 6, min_range: 0 }],
    });
    MapIndexingSystem {}.run(&mut world);
    VisibleAI {}.act(&mut world, orc, &vec![1]);
    let rec = &world.entities[orc.id];
    assert_eq!(rec.wants_to_melee, Some(WantsToMelee { target: player }));
    assert!(rec.wants_to_cast_spell.is_none());
    assert!(rec.wants_to_approach.is_none());
}

#[test]
fn a_spell_is_cast_when_its_roll_succeeds() {
    let (mut world, _player, orc) = hostile_world();
    let spell = Entity { id: 9 };
    world.entities[orc.id].special_abilities = Some(SpecialAbilities {
        abilities: vec![
            SpecialAbility { spell: Entity { id: 8 }, chance: 50, range: 3, min_range: 0 },
            SpecialAbility { spell, chance: 25, range: 6, min_range: 2 },
        ],
    });
    // the only spell that reaches is the second; a roll above its chance fails
    VisibleAI {}.act(&mut world, orc, &vec![26]);
    assert!(world.entities[orc.id].wants_to_cast_spell.is_none());
    assert_eq!(world.entities[orc.id].wants_to_approach, Some(WantsToApproach { idx: 210 }));
    world.entities[orc.id].wants_to_approach = None;
    world.entities[orc.id].chasing = None;
    VisibleAI {}.act(&mut world, orc, &vec![25]);
    assert_eq!(
        world.entities[orc.id].wants_to_cast_spell,
        Some(WantsToCastSpell { spell, target: Some(Coord { x: 10, y: 10 }) })
    );
    assert!(world.entities[orc.id].wants_to_approach.is_none());
    // without a roll no spell is cast
    world.entities[orc.id].wants_to_cast_spell = None;
    VisibleAI {}.act(&mut world, orc, &vec![]);
    assert!(world.entities[orc.id].wants_to_cast_spell.is_none());
}

#[test]
fn a_shot_is_taken_when_a_weapon_reaches() {
    let (mut world, player, orc) = hostile_world();
    let short = world.create_entity();
    world.entities[short.id].weapon = Some(Weapon { range: Some(3) });
    world.entities[short.id].equipped = Some(Equipped { owner: orc });
    VisibleAI {}.act(&mut world, orc, &vec![]);
    assert!(world.entities[orc.id].wants_to_shoot.is_none());
    assert!(world.entities[orc.id].wants_to_approach.is_some());
    world.entities[orc.id].wants_to_approach = None;
    world.entities[orc.id].chasing = None;
    let bow = world.create_entity();
    world.entities[bow.id].weapon = Some(Weapon { range: Some(4) });
    world.entities[bow.id].equipped = Some(Equipped { owner: orc });
    let sword = world.create_entity();
    world.entities[sword.id].weapon = Some(Weapon { range: None });
    world.entities[sword.id].equipped = Some(Equipped { owner: orc });
    let foreign = world.create_entity();
    world.entities[foreign.id].weapon = Some(Weapon { range: Some(9) });
    world.entities[foreign.id].equipped = Some(Equipped { owner: player });
    VisibleAI {}.act(&mut world, orc, &vec![]);
    assert_eq!(world.entities[orc.id].wants_to_shoot, Some(WantsToShoot { target: player }));
    assert!(world.entities[orc.id].wants_to_approach.is_none());
}

#[test]
fn a_creature_flees_from_whom_it_fears() {
    let (mut world, _player, orc) = hostile_world();
    let deer = monster(
        &mut world,
        12,
        12,
        vec![Coord { x: 14, y: 10 }, Coord { x: 12, y: 12 }, Coord { x: 10, y: 10 }, Coord { x: 40, y: 40 }],
    );
    world.entities[deer.id].faction = Some(Faction { id: 3 });
    world.entities[deer.id].my_turn = Some(MyTurn {});
    MapIndexingSystem {}.run(&mut world);
    VisibleAI {}.act(&mut world, deer, &vec![]);
    let rec = &world.entities[deer.id];
    assert_eq!(rec.wants_to_flee.as_ref().unwrap().indices, vec![214, 210]);
    assert!(rec.wants_to_approach.is_none());
    assert!(rec.wants_to_melee.is_none());
    let _ = orc;
}

#[test]
fn who_has_no_turn_decides_nothing() {
    let (mut world, player, orc) = hostile_world();
    world.entities[orc.id].my_turn = None;
    VisibleAI {}.act(&mut world, orc, &vec![1]);
    assert!(world.entities[orc.id].wants_to_approach.is_none());
    world.entities[player.id].my_turn = Some(MyTurn {});
    world.entities[player.id].viewshed = Some(Viewshed { visible_tiles: vec![Coord { x: 14, y: 10 }], range: 8, dirty: false });
    world.reactions.push(FactionReaction { mine: 0, theirs: 1, reaction: Reaction::Attack });
    VisibleAI {}.act(&mut world, player, &vec![1]);
    assert!(world.entities[player.id].wants_to_approach.is_none());
    VisibleAI {}.act(&mut world, Entity { id: 500 }, &vec![1]);
}

#[test]
fn running_the_system_rolls_for_the_spells() {
    let (mut world, _player, orc) = hostile_world();
    let sure = Entity { id: 9 };
    world.entities[orc.id].special_abilities = Some(SpecialAbilities {
        abilities: vec![
            SpecialAbility { spell: Entity { id: 8 }, chance: 0, range: 6, min_range: 0 },
            SpecialAbility { spell: sure, chance: 100, range: 6, min_range: 0 },
        ],
    });
    let mut rng = rltk::RandomNumberGenerator::seeded(5);
    VisibleAI {}.run(&mut world, &mut rng);
    assert_eq!(
        world.entities[orc.id].wants_to_cast_spell,
        Some(WantsToCastSpell { spell: sure, target: Some(Coord { x: 10, y: 10 }) })
    );
}

#[test]
fn brackets_and_first_matches() {
    let a = SpecialAbility { spell: Entity { id: 1 }, chance: 10, range: 6, min_range: 2 };
    assert!(in_bracket(&a, 36));
    assert!(!in_bracket(&a, 37));
    assert!(in_bracket(&a, 4));
    assert!(!in_bracket(&a, 3));
    let b = SpecialAbility { spell: Entity { id: 1 }, chance: 10, range: 6, min_range: -5 };
    assert!(in_bracket(&b, 0));
    let options = vec![
        CastOption { spell: Entity { id: 1 }, target: Coord { x: 1, y: 1 }, chance: 10 },
        CastOption { spell: Entity { id: 2 }, target: Coord { x: 1, y: 1 }, chance: 60 },
    ];
    assert_eq!(first_success(&options, &vec![11, 60]), Some(1));
    assert_eq!(first_success(&options, &vec![10, 1]), Some(0));
    assert_eq!(first_success(&options, &vec![11, 61]), None);
    assert_eq!(first_success(&options, &vec![11]), None);
    assert_eq!(first_success(&options, &vec![]), None);
    assert_eq!(first_success(&vec![], &vec![1]), None);
    let s = vec![
        Sighting { idx: 5, reaction: Reaction::Ignore, other: Entity { id: 1 } },
        Sighting { idx: 6, reaction: Reaction::Flee, other: Entity { id: 2 } },
        Sighting { idx: 7, reaction: Reaction::Attack, other: Entity { id: 3 } },
        Sighting { idx: 8, reaction: Reaction::Attack, other: Entity { id: 4 } },
        Sighting { idx: 9, reaction: Reaction::Flee, other: Entity { id: 5 } },
    ];
    assert_eq!(first_foe(&s), Some(s[2]));
    assert_eq!(first_foe(&s[..2].to_vec()), None);
    assert_eq!(threats(&s), vec![6, 9]);
}

#[test]
fn a_later_mover_steps_only_where_no_one_stands_or_someone_left() {
    let mut world = World::new(room(10, 10));
    let _player = hero(&mut world, 2, 2);
    let first = monster(&mut world, 5, 5, vec![]);
    let second = monster(&mut world, 6, 5, vec![]);
    let third = monster(&mut world, 7, 5, vec![]);
    let fourth = monster(&mut world, 3, 3, vec![]);
    MapIndexingSystem {}.run(&mut world);
    let at_start = world.map.blocked.clone();
    let mut left: Vec<usize> = Vec::new();

    // the tile ahead is taken at the start: the second cannot go there yet
    assert!(at_start[55]);
    assert!(!take_path_step(&mut world, second, &path(vec![56, 55])));
    // the first moves on and leaves its tile
    assert!(take_path_step(&mut world, first, &path(vec![55, 44])));
    assert!(!at_start[44]);
    left.push(55);
    // now the second follows onto the tile that was left
    assert!(take_path_step(&mut world, second, &path(vec![56, 55])));
    assert!(at_start[55] && left.contains(&55));
    left.push(56);
    // and the third onto the tile that the second left
    assert!(take_path_step(&mut world, third, &path(vec![57, 56])));
    assert!(at_start[56] && left.contains(&56));
    left.push(57);
    // a tile that was blocked at the start and was never left stays refused
    assert!(at_start[33] && !left.contains(&33));
    assert!(!take_path_step(&mut world, first, &path(vec![44, 33])));
    assert!(take_path_step(&mut world, first, &path(vec![44, 45])));
    left.push(44);
    assert!(!take_path_step(&mut world, third, &path(vec![56, 45])));
    for (t, was) in at_start.iter().enumerate() {
        if *was && !left.contains(&t) {
            assert!(world.map.blocked[t]);
        }
    }
    assert_eq!(world.entities[first.id].position, Some(Position { x: 5, y: 4 }));
    assert_eq!(world.entities[second.id].position, Some(Position { x: 5, y: 5 }));
    assert_eq!(world.entities[third.id].position, Some(Position { x: 6, y: 5 }));
    assert_eq!(world.entities[fourth.id].position, Some(Position { x: 3, y: 3 }));
}
