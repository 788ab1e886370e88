//! Making the player.

use vstd::prelude::*;
use crate::components::{
    CombatStats, Entity, EntitySpec, Name, Player, Position, Renderable, Viewshed, ViewshedSpec,
};
use crate::config;
use crate::geometry::Coord;
use crate::spawner::PLAYER_RENDER_ORDER;
use crate::world::{lemma_with_entity_wf, World, WorldSpec};

verus! {
/// The record of a player made from `cfg` at `start`.
pub open spec fn spec_player(start: Position, cfg: config::Player) -> EntitySpec {
    EntitySpec {
        position: Some(start),
        renderable: Some(
            Renderable {
                glyph: cfg.chr,
                fg: cfg.fg_color,
                bg: cfg.bg_color,
                render_order: PLAYER_RENDER_ORDER,
            },
        ),
        player: Some(Player {  }),
        viewshed: Some(
            ViewshedSpec {
                visible_tiles: Seq::empty(),
                range: cfg.view_range.tile_count,
                dirty: true,
            },
        ),
        name: Some(Name { name: cfg.name }),
        combat_stats: Some(
            CombatStats {
                max_hp: cfg.stats.max_hp,
                hp: cfg.stats.starting_hp,
                defense: cfg.stats.defense,
                power: cfg.stats.power,
            },
        ),
        ..EntitySpec::bare(true)
    }
}

/// Makes the player and gives their handle.
pub fn spawn(world: &mut World, start: Position, cfg: &config::Player) -> (e: Entity)
    requires
        old(world)@.wf(),
        old(world)@.map.in_bounds(start.x as int, start.y as int),
        cfg.view_range.in_limits(),
    ensures
        final(world)@ == old(world)@.with_spawned(spec_player(start, *cfg)),
        final(world)@.wf(),
        e.id == old(world)@.entities.len(),
{
    let ghost before = world@;
    let e = world.create_entity();
    let ghost made = world@;
    assert(made.entities[e.id as int] == EntitySpec::bare(true));
    world.entities[e.id].position = Some(start);
    world.entities[e.id].renderable = Some(
        Renderable {
            glyph: cfg.chr,
            fg: cfg.fg_color,
            bg: cfg.bg_color,
            render_order: PLAYER_RENDER_ORDER,
        },
    );
    world.entities[e.id].player = Some(Player {  });
    world.entities[e.id].viewshed = Some(
        Viewshed { visible_tiles: Vec::new(), range: cfg.view_range.tile_count, dirty: true },
    );
    world.entities[e.id].name = Some(Name { name: cfg.name.clone() });
    world.entities[e.id].combat_stats = Some(
        CombatStats {
            max_hp: cfg.stats.max_hp,
            hp: cfg.stats.starting_hp,
            defense: cfg.stats.defense,
            power: cfg.stats.power,
        },
    );
    proof {
        assert(world@.entities[e.id as int] == spec_player(start, *cfg));
        assert(world@.entities =~= made.entities.update(e.id as int, spec_player(start, *cfg)));
        assert(world@.entities =~= before.entities.push(spec_player(start, *cfg)));
        assert(world@.dungeon =~= before.dungeon);
        lemma_with_entity_wf(made, e.id as int, spec_player(start, *cfg));
    }
    e
}

/// The player in the world: where they stand and which entity they are.
#[derive(Clone, Copy, Debug, PartialEq, Eq, Structural)]
pub struct Character {
    pub location: Coord,
    pub entity: Entity,
}

/// Puts the player into the world at `start` and makes them the world's
/// player.
pub fn new(world: &mut World, start: Position, cfg: &config::Player) -> (character:
    Character)
    requires
        old(world)@.wf(),
        old(world)@.map.in_bounds(start.x as int, start.y as int),
        cfg.view_range.in_limits(),
    ensures
        final(world)@ == (WorldSpec {
            player: character.entity,
            player_pos: character.location,
            ..old(world)@.with_spawned(spec_player(start, *cfg))
        }),
        character.entity.id == old(world)@.entities.len(),
        character.location == (Coord { x: start.x, y: start.y }),
        final(world)@.wf(),
{
    let entity = spawn(world, start, cfg);
    let ghost spawned = world@;
    world.player = entity;
    world.player_pos = Coord { x: start.x, y: start.y };
    proof {
        assert(world@.entities =~= spawned.entities);
        assert(world@.dungeon =~= spawned.dungeon);
        assert forall|j: int| 0 <= j < world@.entities.len() implies #[trigger] world@.entity_wf(
            j,
        ) by {
            assert(spawned.entity_wf(j));
        }
    }
    Character { location: Coord { x: start.x, y: start.y }, entity }
}

} // verus!
