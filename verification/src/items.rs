//! Making items: potions and scrolls.

use vstd::prelude::*;
use crate::components::{
    AreaOfEffect, Confusion, Consumable, Entity, EntitySpec, InflictsDamage, Item, Name, Position,
    ProvidesHealing, Ranged, Renderable,
};
use crate::config;
use crate::rng::roll_dice;
use crate::spawner::ITEM_RENDER_ORDER;
use crate::world::{lemma_with_entity_wf, World};

verus! {
/// What every item has: a place, a look, a name, and that it is an item
/// that is used up.
pub open spec fn spec_item(pos: Position, cfg: config::Item) -> EntitySpec {
    EntitySpec {
        position: Some(pos),
        renderable: Some(
            Renderable {
                glyph: cfg.chr,
                fg: cfg.fg_color,
                bg: cfg.bg_color,
                render_order: ITEM_RENDER_ORDER,
            },
        ),
        name: Some(Name { name: cfg.name }),
        item: Some(Item {  }),
        consumable: Some(Consumable {  }),
        ..EntitySpec::bare(true)
    }
}

/// A potion that heals by the item's power.
pub open spec fn spec_health_potion(pos: Position, cfg: config::Item) -> EntitySpec {
    EntitySpec {
        provides_healing: Some(ProvidesHealing { heal_amount: cfg.power }),
        ..spec_item(pos, cfg)
    }
}

/// A scroll that hurts one target by the item's power.
pub open spec fn spec_ranged(pos: Position, cfg: config::Item) -> EntitySpec {
    EntitySpec {
        ranged: Some(Ranged { range: cfg.range->0 }),
        inflicts_damage: Some(InflictsDamage { damage: cfg.power }),
        ..spec_item(pos, cfg)
    }
}

/// A scroll that hurts everyone within its radius by the item's power.
pub open spec fn spec_ranged_aoe(pos: Position, cfg: config::Item) -> EntitySpec {
    EntitySpec {
        area_of_effect: Some(AreaOfEffect { radius: cfg.radius->0 }),
        ..spec_ranged(pos, cfg)
    }
}

/// A scroll that confuses one target for as many turns as the item's power.
pub open spec fn spec_ranged_confusion(pos: Position, cfg: config::Item) -> EntitySpec {
    EntitySpec {
        ranged: Some(Ranged { range: cfg.range->0 }),
        confusion: Some(Confusion { turns: cfg.power }),
        ..spec_item(pos, cfg)
    }
}

/// Adds the base of an item to the world and gives its handle.
fn spawn_item(world: &mut World, pos: Position, cfg: &config::Item) -> (e: Entity)
    requires
        old(world)@.wf(),
        old(world)@.map.in_bounds(pos.x as int, pos.y as int),
    ensures
        final(world)@ == old(world)@.with_spawned(spec_item(pos, *cfg)),
        final(world)@.wf(),
        e.id == old(world)@.entities.len(),
{
    let ghost before = world@;
    let e = world.create_entity();
    let ghost made = world@;
    assert(made.entities[e.id as int] == EntitySpec::bare(true));
    world.entities[e.id].position = Some(pos);
    world.entities[e.id].renderable = Some(
        Renderable {
            glyph: cfg.chr,
            fg: cfg.fg_color,
            bg: cfg.bg_color,
            render_order: ITEM_RENDER_ORDER,
        },
    );
    world.entities[e.id].name = Some(Name { name: cfg.name.clone() });
    world.entities[e.id].item = Some(Item {  });
    world.entities[e.id].consumable = Some(Consumable {  });
    proof {
        assert(world@.entities[e.id as int] == spec_item(pos, *cfg));
        assert(world@.entities =~= made.entities.update(e.id as int, spec_item(pos, *cfg)));
        assert(world@.entities =~= before.entities.push(spec_item(pos, *cfg)));
        assert(world@.dungeon =~= before.dungeon);
        lemma_with_entity_wf(made, e.id as int, spec_item(pos, *cfg));
    }
    e
}

/// Makes a potion that heals by the item's power.
pub fn spawn_health_potion(world: &mut World, pos: Position, cfg: &config::Item) -> (e: Entity)
    requires
        old(world)@.wf(),
        old(world)@.map.in_bounds(pos.x as int, pos.y as int),
    ensures
        final(world)@ == old(world)@.with_spawned(spec_health_potion(pos, *cfg)),
        final(world)@.wf(),
        e.id == old(world)@.entities.len(),
{
    let ghost before = world@;
    let e = spawn_item(world, pos, cfg);
    let ghost made = world@;
    assert(made.entities[e.id as int] == spec_item(pos, *cfg));
    world.entities[e.id].provides_healing = Some(ProvidesHealing { heal_amount: cfg.power });
    proof {
        assert(world@.entities[e.id as int] == spec_health_potion(pos, *cfg));
        assert(world@.entities =~= made.entities.update(e.id as int, spec_health_potion(pos, *cfg)));
        assert(world@.entities =~= before.entities.push(spec_health_potion(pos, *cfg)));
        assert(world@.dungeon =~= before.dungeon);
        lemma_with_entity_wf(made, e.id as int, spec_health_potion(pos, *cfg));
    }
    e
}

/// Makes a scroll that hurts one target by the item's power.
pub fn spawn_ranged(world: &mut World, pos: Position, cfg: &config::Item) -> (e: Entity)
    requires
        old(world)@.wf(),
        old(world)@.map.in_bounds(pos.x as int, pos.y as int),
        cfg.is_ranged(),
    ensures
        final(world)@ == old(world)@.with_spawned(spec_ranged(pos, *cfg)),
        final(world)@.wf(),
        e.id == old(world)@.entities.len(),
{
    let ghost before = world@;
    let e = spawn_item(world, pos, cfg);
    let ghost made = world@;
    assert(made.entities[e.id as int] == spec_item(pos, *cfg));
    let range = match cfg.range {
        Some(r) => r,
        None => 0,
    };
    world.entities[e.id].ranged = Some(Ranged { range });
    world.entities[e.id].inflicts_damage = Some(InflictsDamage { damage: cfg.power });
    proof {
        assert(world@.entities[e.id as int] == spec_ranged(pos, *cfg));
        assert(world@.entities =~= made.entities.update(e.id as int, spec_ranged(pos, *cfg)));
        assert(world@.entities =~= before.entities.push(spec_ranged(pos, *cfg)));
        assert(world@.dungeon =~= before.dungeon);
        lemma_with_entity_wf(made, e.id as int, spec_ranged(pos, *cfg));
    }
    e
}

/// Makes a scroll that hurts everyone within its radius by the item's
/// power.
pub fn spawn_ranged_aoe(world: &mut World, pos: Position, cfg: &config::Item) -> (e: Entity)
    requires
        old(world)@.wf(),
        old(world)@.map.in_bounds(pos.x as int, pos.y as int),
        cfg.is_ranged(),
        cfg.has_area(),
    ensures
        final(world)@ == old(world)@.with_spawned(spec_ranged_aoe(pos, *cfg)),
        final(world)@.wf(),
        e.id == old(world)@.entities.len(),
{
    let ghost before = world@;
    let e = spawn_ranged(world, pos, cfg);
    let ghost made = world@;
    assert(made.entities[e.id as int] == spec_ranged(pos, *cfg));
    let radius = match cfg.radius {
        Some(r) => r,
        None => 0,
    };
    world.entities[e.id].area_of_effect = Some(AreaOfEffect { radius });
    proof {
        assert(world@.entities[e.id as int] == spec_ranged_aoe(pos, *cfg));
        assert(world@.entities =~= made.entities.update(e.id as int, spec_ranged_aoe(pos, *cfg)));
        assert(world@.entities =~= before.entities.push(spec_ranged_aoe(pos, *cfg)));
        assert(world@.dungeon =~= before.dungeon);
        lemma_with_entity_wf(made, e.id as int, spec_ranged_aoe(pos, *cfg));
    }
    e
}

/// Makes a scroll that confuses one target for as many turns as the item's
/// power.
pub fn spawn_ranged_confusion(world: &mut World, pos: Position, cfg: &config::Item) -> (e: Entity)
    requires
        old(world)@.wf(),
        old(world)@.map.in_bounds(pos.x as int, pos.y as int),
        cfg.is_ranged(),
    ensures
        final(world)@ == old(world)@.with_spawned(spec_ranged_confusion(pos, *cfg)),
        final(world)@.wf(),
        e.id == old(world)@.entities.len(),
{
    let ghost before = world@;
    let e = spawn_item(world, pos, cfg);
    let ghost made = world@;
    assert(made.entities[e.id as int] == spec_item(pos, *cfg));
    let range = match cfg.range {
        Some(r) => r,
        None => 0,
    };
    world.entities[e.id].ranged = Some(Ranged { range });
    world.entities[e.id].confusion = Some(Confusion { turns: cfg.power });
    proof {
        assert(world@.entities[e.id as int] == spec_ranged_confusion(pos, *cfg));
        assert(world@.entities =~= made.entities.update(e.id as int, spec_ranged_confusion(pos, *cfg)));
        assert(world@.entities =~= before.entities.push(spec_ranged_confusion(pos, *cfg)));
        assert(world@.dungeon =~= before.dungeon);
        lemma_with_entity_wf(made, e.id as int, spec_ranged_confusion(pos, *cfg));
    }
    e
}

/// The item that a roll of the five-sided item die makes: 1 a magic
/// missile scroll, 2 a fireball scroll, 3 a confusion scroll, anything else
/// a health potion.
pub open spec fn spec_for_roll(roll: int, pos: Position, cfg: config::Items) -> EntitySpec {
    if roll == 1 {
        spec_ranged(pos, cfg.magic_missile_scroll)
    } else if roll == 2 {
        spec_ranged_aoe(pos, cfg.fireball_scroll)
    } else if roll == 3 {
        spec_ranged_confusion(pos, cfg.confusion_scroll)
    } else {
        spec_health_potion(pos, cfg.health_potion)
    }
}

impl config::Items {
    /// Every scroll has what its kind needs.
    pub open spec fn complete(self) -> bool {
        &&& self.magic_missile_scroll.is_ranged()
        &&& self.fireball_scroll.is_ranged()
        &&& self.fireball_scroll.has_area()
        &&& self.confusion_scroll.is_ranged()
    }

    /// Whether every scroll has what its kind needs.
    pub fn is_complete(&self) -> (r: bool)
        ensures
            r == self.complete(),
    {
        let area = match self.fireball_scroll.radius {
            Some(r) => -crate::components::MAX_SIGHT_RANGE <= r
                && r <= crate::components::MAX_SIGHT_RANGE,
            None => false,
        };
        self.magic_missile_scroll.range.is_some() && self.fireball_scroll.range.is_some() && area
            && self.confusion_scroll.range.is_some()
    }
}

/// Makes the item that `roll` stands for.
pub fn for_roll(world: &mut World, roll: i32, start: Position, cfg: &config::Items) -> (e:
    Entity)
    requires
        old(world)@.wf(),
        old(world)@.map.in_bounds(start.x as int, start.y as int),
        cfg.complete(),
    ensures
        final(world)@ == old(world)@.with_spawned(spec_for_roll(roll as int, start, *cfg)),
        final(world)@.wf(),
        e.id == old(world)@.entities.len(),
{
    if roll == 1 {
        spawn_ranged(world, start, &cfg.magic_missile_scroll)
    } else if roll == 2 {
        spawn_ranged_aoe(world, start, &cfg.fireball_scroll)
    } else if roll == 3 {
        spawn_ranged_confusion(world, start, &cfg.confusion_scroll)
    } else {
        spawn_health_potion(world, start, &cfg.health_potion)
    }
}

/// Makes an item chosen by a roll of the five-sided item die.
pub fn random(
    world: &mut World,
    rng: &mut rltk::RandomNumberGenerator,
    start: Position,
    cfg: &config::Items,
) -> (e: Entity)
    requires
        old(world)@.wf(),
        old(world)@.map.in_bounds(start.x as int, start.y as int),
        cfg.complete(),
    ensures
        exists|roll: int|
            1 <= roll <= 5 && final(world)@ == old(world)@.with_spawned(
                #[trigger] spec_for_roll(roll, start, *cfg),
            ),
        final(world)@.wf(),
        e.id == old(world)@.entities.len(),
{
    let roll = roll_dice(rng, 1, 5);
    for_roll(world, roll, start, cfg)
}

} // verus!
