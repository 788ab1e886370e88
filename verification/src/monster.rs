//! Making monsters.

use vstd::prelude::*;
use crate::components::{
    BlocksTile, CombatStats, Entity, EntitySpec, Monster, Name, Position, Renderable, Viewshed,
    ViewshedSpec,
};
use crate::config;
use crate::rng::roll_dice;
use crate::spawner::MONSTER_RENDER_ORDER;
use crate::world::{lemma_with_entity_wf, World};

verus! {
/// The record of a monster of kind `m`, made at `start`.
pub open spec fn spec_monster(start: Position, cfg: config::Monsters, m: config::Monster)
    -> EntitySpec {
    EntitySpec {
        position: Some(start),
        renderable: Some(
            Renderable {
                glyph: m.chr,
                fg: cfg.fg_color,
                bg: cfg.bg_color,
                render_order: MONSTER_RENDER_ORDER,
            },
        ),
        viewshed: Some(
            ViewshedSpec {
                visible_tiles: Seq::empty(),
                range: cfg.view_range.tile_count,
                dirty: true,
            },
        ),
        monster: Some(Monster {  }),
        name: Some(Name { name: m.name }),
        blocks_tile: Some(BlocksTile {  }),
        combat_stats: Some(
            CombatStats {
                max_hp: m.stats.max_hp,
                hp: m.stats.starting_hp,
                defense: m.stats.defense,
                power: m.stats.power,
            },
        ),
        ..EntitySpec::bare(true)
    }
}

/// Makes a monster of kind `m`.
pub fn spawn(
    world: &mut World,
    start: Position,
    cfg: &config::Monsters,
    m: &config::Monster,
) -> (e: Entity)
    requires
        old(world)@.wf(),
        old(world)@.map.in_bounds(start.x as int, start.y as int),
        cfg.view_range.in_limits(),
    ensures
        final(world)@ == old(world)@.with_spawned(spec_monster(start, *cfg, *m)),
        final(world)@.wf(),
        e.id == old(world)@.entities.len(),
{
    let ghost before = world@;
    let e = world.create_entity();
    let ghost made = world@;
    assert(made.entities[e.id as int] == EntitySpec::bare(true));
    world.entities[e.id].position = Some(start);
    world.entities[e.id].renderable = Some(
        Renderable {
            glyph: m.chr,
            fg: cfg.fg_color,
            bg: cfg.bg_color,
            render_order: MONSTER_RENDER_ORDER,
        },
    );
    world.entities[e.id].viewshed = Some(
        Viewshed { visible_tiles: Vec::new(), range: cfg.view_range.tile_count, dirty: true },
    );
    world.entities[e.id].monster = Some(Monster {  });
    world.entities[e.id].name = Some(Name { name: m.name.clone() });
    world.entities[e.id].blocks_tile = Some(BlocksTile {  });
    world.entities[e.id].combat_stats = Some(
        CombatStats {
            max_hp: m.stats.max_hp,
            hp: m.stats.starting_hp,
            defense: m.stats.defense,
            power: m.stats.power,
        },
    );
    proof {
        assert(world@.entities[e.id as int] == spec_monster(start, *cfg, *m));
        assert(world@.entities =~= made.entities.update(e.id as int, spec_monster(start, *cfg, *m)));
        assert(world@.entities =~= before.entities.push(spec_monster(start, *cfg, *m)));
        assert(world@.dungeon =~= before.dungeon);
        lemma_with_entity_wf(made, e.id as int, spec_monster(start, *cfg, *m));
    }
    e
}

/// The monster that a roll of the two-sided monster die makes: 1 an orc,
/// anything else a goblin.
pub open spec fn spec_for_roll(roll: int, start: Position, cfg: config::Monsters)
    -> EntitySpec {
    if roll == 1 {
        spec_monster(start, cfg, cfg.orc)
    } else {
        spec_monster(start, cfg, cfg.goblin)
    }
}

/// Makes the monster that `roll` stands for.
pub fn for_roll(world: &mut World, roll: i32, start: Position, cfg: &config::Monsters) -> (e:
    Entity)
    requires
        old(world)@.wf(),
        old(world)@.map.in_bounds(start.x as int, start.y as int),
        cfg.view_range.in_limits(),
    ensures
        final(world)@ == old(world)@.with_spawned(spec_for_roll(roll as int, start, *cfg)),
        final(world)@.wf(),
        e.id == old(world)@.entities.len(),
{
    if roll == 1 {
        spawn(world, start, cfg, &cfg.orc)
    } else {
        spawn(world, start, cfg, &cfg.goblin)
    }
}

/// Makes a monster chosen by a roll of the two-sided monster die.
pub fn random(
    world: &mut World,
    rng: &mut rltk::RandomNumberGenerator,
    start: Position,
    cfg: &config::Monsters,
) -> (e: Entity)
    requires
        old(world)@.wf(),
        old(world)@.map.in_bounds(start.x as int, start.y as int),
        cfg.view_range.in_limits(),
    ensures
        exists|roll: int|
            1 <= roll <= 2 && final(world)@ == old(world)@.with_spawned(
                #[trigger] spec_for_roll(roll, start, *cfg),
            ),
        final(world)@.wf(),
        e.id == old(world)@.entities.len(),
{
    let roll = roll_dice(rng, 1, 2);
    for_roll(world, roll, start, cfg)
}

} // verus!
