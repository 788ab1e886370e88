//! Picking items up, dropping them, and using them.

use vstd::prelude::*;
use crate::components::{
    copy_name, CombatStats, Confusion, Entity, EntitySpec, InBackpack, Position, SufferDamage,
};
use crate::gamelog::LogEntry;
use crate::geometry::Coord;
use crate::visibility::{lemma_marks_is_membership, marks};
use crate::combat::spec_pending_plus;
use crate::indexing::lemma_occupants_are_who_stands_there;
use crate::map::lemma_idx_in_range;
use crate::world::{lemma_names_push, lemma_with_entity_wf, names, World, WorldSpec};

verus! {

impl WorldSpec {
    /// The world once entity `e` has acted on its wish to pick an item up:
    /// the item leaves the map and lies in the collector's backpack, with a
    /// log entry if the collector is the player. Without such a wish, or
    /// with a wish for an item that is no more, nothing changes.
    pub open spec fn after_pickup_of(self, e: int) -> WorldSpec {
        match self.entities[e].wants_to_pickup {
            Some(wish) => if self.is_alive(wish.item) {
                let picked = self.with_entity(
                    wish.item.id as int,
                    EntitySpec {
                        position: None,
                        in_backpack: Some(InBackpack { owner: wish.collected_by }),
                        ..self.entities[wish.item.id as int]
                    },
                );
                if wish.collected_by == self.player {
                    picked.with_log(
                        LogEntry::PicksUp { item: self.entities[wish.item.id as int].name },
                    )
                } else {
                    picked
                }
            } else {
                self
            },
            None => self,
        }
    }

    /// The world once the entities before index `n` have picked up what
    /// they wanted, in index order.
    pub open spec fn after_pickups(self, n: int) -> WorldSpec
        decreases n,
    {
        if n <= 0 {
            self
        } else {
            self.after_pickups(n - 1).after_pickup_of(n - 1)
        }
    }

    /// The world without any wish to pick something up.
    pub open spec fn without_pickup_wishes(self) -> WorldSpec {
        WorldSpec {
            entities: Seq::new(
                self.entities.len(),
                |t: int| EntitySpec { wants_to_pickup: None, ..self.entities[t] },
            ),
            ..self
        }
    }

    /// The world after the item collection system.
    pub open spec fn after_item_collection(self) -> WorldSpec {
        self.after_pickups(self.entities.len() as int).without_pickup_wishes()
    }

    /// The world once entity `e` has acted on its wish to drop an item: the
    /// item lies where `e` stands and is in no backpack, with a log entry if
    /// `e` is the player. Without such a wish, without a place to stand on,
    /// or with a wish for an item that is no more, nothing changes.
    pub open spec fn after_drop_of(self, e: int) -> WorldSpec {
        match (self.entities[e].wants_to_drop, self.entities[e].position) {
            (Some(wish), Some(here)) => if self.is_alive(wish.item) {
                let dropped = self.with_entity(
                    wish.item.id as int,
                    EntitySpec {
                        position: Some(Position { x: here.x, y: here.y }),
                        in_backpack: None,
                        ..self.entities[wish.item.id as int]
                    },
                );
                if e == self.player.id {
                    dropped.with_log(
                        LogEntry::Drops { item: self.entities[wish.item.id as int].name },
                    )
                } else {
                    dropped
                }
            } else {
                self
            },
            _ => self,
        }
    }

    /// The world once the entities before index `n` have dropped what they
    /// wanted, in index order.
    pub open spec fn after_drops(self, n: int) -> WorldSpec
        decreases n,
    {
        if n <= 0 {
            self
        } else {
            self.after_drops(n - 1).after_drop_of(n - 1)
        }
    }

    /// The world without any wish to drop something.
    pub open spec fn without_drop_wishes(self) -> WorldSpec {
        WorldSpec {
            entities: Seq::new(
                self.entities.len(),
                |t: int| EntitySpec { wants_to_drop: None, ..self.entities[t] },
            ),
            ..self
        }
    }

    /// The world after the item drop system.
    pub open spec fn after_item_drop(self) -> WorldSpec {
        self.after_drops(self.entities.len() as int).without_drop_wishes()
    }
}

/// The item collection system.
pub struct ItemCollectionSystem {}

/// The item drop system.
pub struct ItemDropSystem {}

/// Lets entity `e` pick up what it wants to.
fn pickup_of(world: &mut World, e: usize)
    requires
        old(world)@.wf(),
        e < old(world)@.entities.len(),
    ensures
        final(world)@ == old(world)@.after_pickup_of(e as int),
        final(world)@.wf(),
        final(world)@.entities.len() == old(world)@.entities.len(),
{
    let ghost before = world@;
    match world.entities[e].wants_to_pickup {
        Some(wish) => {
            if world.is_alive(wish.item) {
                let name = copy_name(&world.entities[wish.item.id].name);
                world.entities[wish.item.id].position = None;
                world.entities[wish.item.id].in_backpack = Some(
                    InBackpack { owner: wish.collected_by },
                );
                proof {
                    let i = wish.item.id as int;
                    let rec = EntitySpec {
                        position: None,
                        in_backpack: Some(InBackpack { owner: wish.collected_by }),
                        ..before.entities[i]
                    };
                    assert(world@.entities =~= before.entities.update(i, rec));
                    assert(world@.dungeon =~= before.dungeon);
                    assert(before.entity_wf(i));
                    lemma_with_entity_wf(before, i, rec);
                }
                if wish.collected_by == world.player {
                    world.push_log(LogEntry::PicksUp { item: name });
                }
            }
        },
        None => {},
    }
}

/// Lets entity `e` drop what it wants to.
fn drop_of(world: &mut World, e: usize)
    requires
        old(world)@.wf(),
        e < old(world)@.entities.len(),
    ensures
        final(world)@ == old(world)@.after_drop_of(e as int),
        final(world)@.wf(),
        final(world)@.entities.len() == old(world)@.entities.len(),
{
    let ghost before = world@;
    match (world.entities[e].wants_to_drop, world.entities[e].position) {
        (Some(wish), Some(here)) => {
            if world.is_alive(wish.item) {
                let name = copy_name(&world.entities[wish.item.id].name);
                world.entities[wish.item.id].position = Some(Position { x: here.x, y: here.y });
                world.entities[wish.item.id].in_backpack = None;
                proof {
                    let i = wish.item.id as int;
                    let rec = EntitySpec {
                        position: Some(Position { x: here.x, y: here.y }),
                        in_backpack: None,
                        ..before.entities[i]
                    };
                    assert(world@.entities =~= before.entities.update(i, rec));
                    assert(world@.dungeon =~= before.dungeon);
                    assert(before.entity_wf(i));
                    assert(before.entity_wf(e as int));
                    lemma_with_entity_wf(before, i, rec);
                }
                if e == world.player.id {
                    world.push_log(LogEntry::Drops { item: name });
                }
            }
        },
        _ => {},
    }
}

impl ItemCollectionSystem {
    /// Resolves every wish to pick an item up, in index order: the item
    /// loses its position and lies in the collector's backpack. Every such
    /// wish is gone afterwards.
    pub fn run(&mut self, world: &mut World)
        requires
            old(world)@.wf(),
        ensures
            final(world)@ == old(world)@.after_item_collection(),
            final(world)@.wf(),
    {
        let ghost start = world@;
        let n: usize = world.entities.len();
        let mut i: usize = 0;
        while i < n
            invariant
                i <= n,
                n == start.entities.len(),
                n == world@.entities.len(),
                world@.wf(),
                world@ == start.after_pickups(i as int),
            decreases n - i,
        {
            pickup_of(world, i);
            i += 1;
        }
        let ghost picked = world@;
        assert(world@.entities.len() == world.entities@.len());
        let mut k: usize = 0;
        while k < n
            invariant
                k <= n,
                n == picked.entities.len(),
                n == world.entities@.len(),
                picked.wf(),
                world@ == (WorldSpec { entities: world@.entities, ..picked }),
                forall|t: int|
                    0 <= t < n ==> world@.entities[t] == (if t < k {
                        EntitySpec { wants_to_pickup: None, ..picked.entities[t] }
                    } else {
                        picked.entities[t]
                    }),
            decreases n - k,
        {
            let ghost before = world@;
            world.entities[k].wants_to_pickup = None;
            assert(world@.dungeon =~= picked.dungeon);
            assert forall|t: int| 0 <= t < n implies world@.entities[t] == (if t < k + 1 {
                EntitySpec { wants_to_pickup: None, ..picked.entities[t] }
            } else {
                picked.entities[t]
            }) by {
                if t != k {
                    assert(world@.entities[t] == before.entities[t]);
                }
            }
            k += 1;
        }
        assert(world@.entities =~= picked.without_pickup_wishes().entities);
        proof {
            assert forall|j: int| 0 <= j < n implies #[trigger] world@.entity_wf(j) by {
                assert(picked.entity_wf(j));
            }
        }
    }
}

impl ItemDropSystem {
    /// Resolves every wish to drop an item, in index order: the item lies
    /// where the dropper stands and is in no backpack. Every such wish is
    /// gone afterwards.
    pub fn run(&mut self, world: &mut World)
        requires
            old(world)@.wf(),
        ensures
            final(world)@ == old(world)@.after_item_drop(),
            final(world)@.wf(),
    {
        let ghost start = world@;
        let n: usize = world.entities.len();
        let mut i: usize = 0;
        while i < n
            invariant
                i <= n,
                n == start.entities.len(),
                n == world@.entities.len(),
                world@.wf(),
                world@ == start.after_drops(i as int),
            decreases n - i,
        {
            drop_of(world, i);
            i += 1;
        }
        let ghost dropped = world@;
        assert(world@.entities.len() == world.entities@.len());
        let mut k: usize = 0;
        while k < n
            invariant
                k <= n,
                n == dropped.entities.len(),
                n == world.entities@.len(),
                dropped.wf(),
                world@ == (WorldSpec { entities: world@.entities, ..dropped }),
                forall|t: int|
                    0 <= t < n ==> world@.entities[t] == (if t < k {
                        EntitySpec { wants_to_drop: None, ..dropped.entities[t] }
                    } else {
                        dropped.entities[t]
                    }),
            decreases n - k,
        {
            let ghost before = world@;
            world.entities[k].wants_to_drop = None;
            assert(world@.dungeon =~= dropped.dungeon);
            assert forall|t: int| 0 <= t < n implies world@.entities[t] == (if t < k + 1 {
                EntitySpec { wants_to_drop: None, ..dropped.entities[t] }
            } else {
                dropped.entities[t]
            }) by {
                if t != k {
                    assert(world@.entities[t] == before.entities[t]);
                }
            }
            k += 1;
        }
        assert(world@.entities =~= dropped.without_drop_wishes().entities);
        proof {
            assert forall|j: int| 0 <= j < n implies #[trigger] world@.entity_wf(j) by {
                assert(dropped.entity_wf(j));
            }
        }
    }
}

/// Health after healing by `amount`: never above the maximum, and never
/// below what a health value can hold.
pub open spec fn spec_healed(hp: int, max_hp: int, amount: int) -> int {
    if hp + amount > max_hp {
        max_hp
    } else if hp + amount < i32::MIN {
        i32::MIN as int
    } else {
        hp + amount
    }
}

/// Health after healing by `amount`.
pub fn healed(hp: i32, max_hp: i32, amount: i32) -> (r: i32)
    ensures
        r == spec_healed(hp as int, max_hp as int, amount as int),
{
    let sum: i64 = hp as i64 + amount as i64;
    if sum > max_hp as i64 {
        max_hp
    } else if sum < i32::MIN as i64 {
        i32::MIN
    } else {
        sum as i32
    }
}

impl WorldSpec {
    /// The occupants of the tiles before index `n` that are in sight of
    /// `(x, y)` within `radius`, tile by tile in index order.
    pub open spec fn blast_targets(self, x: int, y: int, radius: int, n: int) -> Seq<Entity>
        decreases n,
    {
        if n <= 0 {
            Seq::empty()
        } else if self.map.in_sight(x, y, radius).contains(
            (self.map.x_of(n - 1), self.map.y_of(n - 1)),
        ) {
            self.blast_targets(x, y, radius, n - 1) + self.map.tile_content[n - 1]
        } else {
            self.blast_targets(x, y, radius, n - 1)
        }
    }

    /// The record of `item`, or a bare one if the handle names none.
    pub open spec fn item_record(self, item: Entity) -> EntitySpec {
        if item.id < self.entities.len() {
            self.entities[item.id as int]
        } else {
            EntitySpec::bare(false)
        }
    }

    /// Whom `user` affects by using `item`. Without a target tile it is the
    /// user. With one, it is who occupies that tile, or, for an item with an
    /// area of effect, who occupies a tile in sight of the target tile
    /// within the radius. A target tile off the map affects no one.
    pub open spec fn item_targets(self, user: int, item: Entity, target: Option<Coord>) -> Seq<
        Entity,
    > {
        match target {
            None => seq![Entity { id: user as usize }],
            Some(p) => if !self.map.in_bounds(p.x as int, p.y as int) {
                Seq::empty()
            } else {
                match self.item_record(item).area_of_effect {
                    None => self.map.tile_content[self.map.idx(p.x as int, p.y as int)],
                    Some(area) => self.blast_targets(
                        p.x as int,
                        p.y as int,
                        area.radius as int,
                        self.map.tile_content.len() as int,
                    ),
                }
            },
        }
    }

    /// `target` can be healed: it has stats.
    pub open spec fn can_heal(self, target: Entity) -> bool {
        target.id < self.entities.len() && self.entities[target.id as int].combat_stats is Some
    }

    /// The world once `target` is healed by `amount` through `item`, with a
    /// log entry if the user is the player.
    pub open spec fn after_heal_of(self, user: int, item: Entity, amount: i32, target: Entity)
        -> WorldSpec {
        if self.can_heal(target) {
            let stats = self.entities[target.id as int].combat_stats->0;
            let done = self.with_entity(
                target.id as int,
                EntitySpec {
                    combat_stats: Some(
                        CombatStats {
                            hp: spec_healed(stats.hp as int, stats.max_hp as int, amount as int)
                                as i32,
                            ..stats
                        },
                    ),
                    ..self.entities[target.id as int]
                },
            );
            if user == self.player.id {
                done.with_log(LogEntry::Heals { item: self.item_record(item).name, amount })
            } else {
                done
            }
        } else {
            self
        }
    }

    /// The world once `target` has `amount` more damage pending through
    /// `item`, with a log entry if the user is the player.
    pub open spec fn after_harm_of(self, user: int, item: Entity, amount: i32, target: Entity)
        -> WorldSpec {
        if self.is_alive(target) {
            let done = self.with_pending(target, amount);
            if user == self.player.id {
                done.with_log(
                    LogEntry::Inflicts {
                        item: self.item_record(item).name,
                        target: self.entities[target.id as int].name,
                        amount,
                    },
                )
            } else {
                done
            }
        } else {
            self
        }
    }

    /// The world once `target` is confused for `turns` through `item`, with
    /// a log entry if the user is the player.
    pub open spec fn after_confusion_of(self, user: int, item: Entity, turns: i32, target: Entity)
        -> WorldSpec {
        if self.is_alive(target) {
            let done = self.with_entity(
                target.id as int,
                EntitySpec {
                    confusion: Some(Confusion { turns }),
                    ..self.entities[target.id as int]
                },
            );
            if user == self.player.id {
                done.with_log(
                    LogEntry::Confuses {
                        item: self.item_record(item).name,
                        target: self.entities[target.id as int].name,
                    },
                )
            } else {
                done
            }
        } else {
            self
        }
    }

    /// The world once the first `k` of `targets` are healed.
    pub open spec fn after_heals(
        self,
        user: int,
        item: Entity,
        amount: i32,
        targets: Seq<Entity>,
        k: int,
    ) -> WorldSpec
        decreases k,
    {
        if k <= 0 {
            self
        } else {
            self.after_heals(user, item, amount, targets, k - 1).after_heal_of(
                user,
                item,
                amount,
                targets[k - 1],
            )
        }
    }

    /// The world once the first `k` of `targets` are harmed.
    pub open spec fn after_harms(
        self,
        user: int,
        item: Entity,
        amount: i32,
        targets: Seq<Entity>,
        k: int,
    ) -> WorldSpec
        decreases k,
    {
        if k <= 0 {
            self
        } else {
            self.after_harms(user, item, amount, targets, k - 1).after_harm_of(
                user,
                item,
                amount,
                targets[k - 1],
            )
        }
    }

    /// The world once the first `k` of `targets` are confused.
    pub open spec fn after_confusions(
        self,
        user: int,
        item: Entity,
        turns: i32,
        targets: Seq<Entity>,
        k: int,
    ) -> WorldSpec
        decreases k,
    {
        if k <= 0 {
            self
        } else {
            self.after_confusions(user, item, turns, targets, k - 1).after_confusion_of(
                user,
                item,
                turns,
                targets[k - 1],
            )
        }
    }

    /// One of the first `k` of `targets` can be healed.
    pub open spec fn any_can_heal(self, targets: Seq<Entity>, k: int) -> bool {
        exists|j: int| 0 <= j < k && self.can_heal(#[trigger] targets[j])
    }

    /// One of the first `k` of `targets` is alive.
    pub open spec fn any_alive(self, targets: Seq<Entity>, k: int) -> bool {
        exists|j: int| 0 <= j < k && self.is_alive(#[trigger] targets[j])
    }

    /// The world once `item` has had its effects on `targets`: healing
    /// first, then damage, then confusion, each if the item has it.
    pub open spec fn after_effects(self, user: int, item: Entity, targets: Seq<Entity>)
        -> WorldSpec {
        let it = self.item_record(item);
        let n = targets.len() as int;
        let w1 = match it.provides_healing {
            Some(h) => self.after_heals(user, item, h.heal_amount, targets, n),
            None => self,
        };
        let w2 = match it.inflicts_damage {
            Some(d) => w1.after_harms(user, item, d.damage, targets, n),
            None => w1,
        };
        match it.confusion {
            Some(c) => w2.after_confusions(user, item, c.turns, targets, n),
            None => w2,
        }
    }

    /// Whether the use of `item` on `targets` counts: it does if one of the
    /// item's effects took hold of a target. An item without effects is
    /// never used.
    pub open spec fn use_counts(self, item: Entity, targets: Seq<Entity>) -> bool {
        let it = self.item_record(item);
        let n = targets.len() as int;
        ||| (it.provides_healing is Some && self.any_can_heal(targets, n))
        ||| (it.inflicts_damage is Some && self.any_alive(targets, n))
        ||| (it.confusion is Some && self.any_alive(targets, n))
    }

    /// The world once entity `user` has used the item it wants to use. The
    /// item itself is still there.
    pub open spec fn after_use_of(self, user: int) -> WorldSpec {
        match self.entities[user].wants_to_use {
            Some(wish) => self.after_effects(
                user,
                wish.item,
                self.item_targets(user, wish.item, wish.target),
            ),
            None => self,
        }
    }

    /// Whether `user` uses up the item it wants to use: the use counts and
    /// the item is consumable.
    pub open spec fn use_spends(self, user: int) -> bool {
        match self.entities[user].wants_to_use {
            Some(wish) => self.use_counts(
                wish.item,
                self.item_targets(user, wish.item, wish.target),
            ) && self.item_record(wish.item).consumable is Some,
            None => false,
        }
    }

    /// The world once the entities before index `n` have used their items,
    /// in index order.
    pub open spec fn after_uses(self, n: int) -> WorldSpec
        decreases n,
    {
        if n <= 0 {
            self
        } else {
            self.after_uses(n - 1).after_use_of(n - 1)
        }
    }

    /// The items that the entities before index `n` used up.
    pub open spec fn spent_items(self, n: int) -> Seq<Entity>
        decreases n,
    {
        if n <= 0 {
            Seq::empty()
        } else if self.after_uses(n - 1).use_spends(n - 1) {
            self.spent_items(n - 1).push(self.after_uses(n - 1).entities[n - 1].wants_to_use->0.item)
        } else {
            self.spent_items(n - 1)
        }
    }

    /// The world without any wish to use something.
    pub open spec fn without_use_wishes(self) -> WorldSpec {
        WorldSpec {
            entities: Seq::new(
                self.entities.len(),
                |t: int| EntitySpec { wants_to_use: None, ..self.entities[t] },
            ),
            ..self
        }
    }

    /// The world after the item use system: every item has had its effects,
    /// the items that were used up are deleted, and no wish to use
    /// something is left.
    pub open spec fn after_item_use(self) -> WorldSpec {
        let n = self.entities.len() as int;
        self.after_uses(n).without_all(self.spent_items(n)).without_use_wishes()
    }
}

/// The item use system.
pub struct ItemUseSystem {}

/// What the effects of an item leave as they are: the number of records,
/// who is alive, who has stats, what each record is as an item, and
/// everything of the world that is neither a record nor the log.
pub open spec fn effects_frame(before: WorldSpec, after: WorldSpec) -> bool {
    &&& after.entities.len() == before.entities.len()
    &&& after == (WorldSpec { entities: after.entities, log: after.log, ..before })
    &&& forall|t: int|
        0 <= t < before.entities.len() ==> {
            let a = #[trigger] after.entities[t];
            let b = before.entities[t];
            &&& a.alive == b.alive
            &&& a.combat_stats is Some == b.combat_stats is Some
            &&& a.name == b.name
            &&& a.wants_to_use == b.wants_to_use
            &&& a.provides_healing == b.provides_healing
            &&& a.inflicts_damage == b.inflicts_damage
            &&& a.area_of_effect == b.area_of_effect
            &&& a.consumable == b.consumable
            &&& (b.confusion is Some ==> a.confusion is Some)
        }
}

proof fn lemma_effects_frame_trans(a: WorldSpec, b: WorldSpec, c: WorldSpec)
    requires
        effects_frame(a, b),
        effects_frame(b, c),
    ensures
        effects_frame(a, c),
{
    assert forall|t: int| 0 <= t < a.entities.len() implies {
        let x = #[trigger] c.entities[t];
        let y = a.entities[t];
        &&& x.alive == y.alive
        &&& x.combat_stats is Some == y.combat_stats is Some
        &&& x.name == y.name
        &&& x.wants_to_use == y.wants_to_use
        &&& x.provides_healing == y.provides_healing
        &&& x.inflicts_damage == y.inflicts_damage
        &&& x.area_of_effect == y.area_of_effect
        &&& x.consumable == y.consumable
        &&& (y.confusion is Some ==> x.confusion is Some)
    } by {
        let m = b.entities[t];
    }
}

/// Heals `target` by `amount` through `item`, if it has stats.
fn heal_of(world: &mut World, user: usize, item: Entity, amount: i32, target: Entity) -> (r: bool)
    requires
        old(world)@.wf(),
    ensures
        final(world)@ == old(world)@.after_heal_of(user as int, item, amount, target),
        r == old(world)@.can_heal(target),
        final(world)@.wf(),
        effects_frame(old(world)@, final(world)@),
{
    let ghost before = world@;
    if target.id >= world.entities.len() {
        return false;
    }
    let name = if item.id < world.entities.len() {
        copy_name(&world.entities[item.id].name)
    } else {
        None
    };
    if world.entities[target.id].combat_stats.is_none() {
        return false;
    }
    match &mut world.entities[target.id].combat_stats {
        Some(stats) => {
            stats.hp = healed(stats.hp, stats.max_hp, amount);
        },
        None => {},
    }
    proof {
        let i = target.id as int;
        let stats = before.entities[i].combat_stats->0;
        let rec = EntitySpec {
            combat_stats: Some(
                CombatStats {
                    hp: spec_healed(stats.hp as int, stats.max_hp as int, amount as int) as i32,
                    ..stats
                },
            ),
            ..before.entities[i]
        };
        assert(world@.entities =~= before.entities.update(i, rec));
        assert(world@.dungeon =~= before.dungeon);
        assert(before.entity_wf(i));
        lemma_with_entity_wf(before, i, rec);
    }
    if user == world.player.id {
        world.push_log(LogEntry::Heals { item: name, amount });
    }
    true
}

/// Adds `amount` of pending damage to `target` through `item`, if it is
/// alive.
fn harm_of(world: &mut World, user: usize, item: Entity, amount: i32, target: Entity) -> (r: bool)
    requires
        old(world)@.wf(),
    ensures
        final(world)@ == old(world)@.after_harm_of(user as int, item, amount, target),
        r == old(world)@.is_alive(target),
        final(world)@.wf(),
        effects_frame(old(world)@, final(world)@),
{
    if !world.is_alive(target) {
        return false;
    }
    let item_name = if item.id < world.entities.len() {
        copy_name(&world.entities[item.id].name)
    } else {
        None
    };
    let target_name = copy_name(&world.entities[target.id].name);
    SufferDamage::new_damage(world, target, amount);
    if user == world.player.id {
        world.push_log(LogEntry::Inflicts { item: item_name, target: target_name, amount });
    }
    true
}

/// Confuses `target` for `turns` through `item`, if it is alive.
fn confusion_of(world: &mut World, user: usize, item: Entity, turns: i32, target: Entity) -> (r:
    bool)
    requires
        old(world)@.wf(),
    ensures
        final(world)@ == old(world)@.after_confusion_of(user as int, item, turns, target),
        r == old(world)@.is_alive(target),
        final(world)@.wf(),
        effects_frame(old(world)@, final(world)@),
{
    let ghost before = world@;
    if !world.is_alive(target) {
        return false;
    }
    let item_name = if item.id < world.entities.len() {
        copy_name(&world.entities[item.id].name)
    } else {
        None
    };
    let target_name = copy_name(&world.entities[target.id].name);
    world.entities[target.id].confusion = Some(Confusion { turns });
    proof {
        let i = target.id as int;
        let rec = EntitySpec { confusion: Some(Confusion { turns }), ..before.entities[i] };
        assert(world@.entities =~= before.entities.update(i, rec));
        assert(world@.dungeon =~= before.dungeon);
        assert(before.entity_wf(i));
        lemma_with_entity_wf(before, i, rec);
    }
    if user == world.player.id {
        world.push_log(LogEntry::Confuses { item: item_name, target: target_name });
    }
    true
}

/// Appends every entity of `src` to `dst`.
fn append_all(dst: &mut Vec<Entity>, src: &Vec<Entity>)
    ensures
        final(dst)@ == old(dst)@ + src@,
{
    let mut c: usize = 0;
    assert(dst@ =~= old(dst)@ + src@.take(0));
    while c < src.len()
        invariant
            c <= src.len(),
            dst@ == old(dst)@ + src@.take(c as int),
        decreases src.len() - c,
    {
        dst.push(src[c]);
        assert(dst@ =~= old(dst)@ + src@.take(c as int + 1));
        c += 1;
    }
    assert(src@.take(c as int) =~= src@);
}

/// Whom `user` affects by using `item` with the given target tile.
fn targets_of(world: &World, user: usize, item: Entity, target: Option<Coord>) -> (targets: Vec<
    Entity,
>)
    requires
        world@.wf(),
    ensures
        targets@ == world@.item_targets(user as int, item, target),
{
    let mut targets: Vec<Entity> = Vec::new();
    match target {
        None => {
            targets.push(Entity { id: user });
            assert(targets@ =~= seq![Entity { id: user }]);
        },
        Some(p) => {
            if world.map.in_bounds(p.x, p.y) {
                let area = if item.id < world.entities.len() {
                    world.entities[item.id].area_of_effect
                } else {
                    None
                };
                assert(area == world@.item_record(item).area_of_effect);
                match area {
                    None => {
                        let idx = world.map.xy_idx(p.x, p.y);
                        append_all(&mut targets, &world.map.tile_content[idx]);
                        assert(targets@ =~= world@.map.tile_content[idx as int]);
                    },
                    Some(area) => {
                        assert(world@.entity_wf(item.id as int));
                        let tiles = world.map.field_of_view(p.x, p.y, area.radius);
                        let size: usize = world.map.tile_content.len();
                        let mut hit: Vec<bool> = Vec::new();
                        let mut t: usize = 0;
                        while t < size
                            invariant
                                t <= size,
                                hit@.len() == t,
                                forall|j: int| 0 <= j < t ==> !hit@[j],
                            decreases size - t,
                        {
                            hit.push(false);
                            t += 1;
                        }
                        let mut k: usize = 0;
                        while k < tiles.len()
                            invariant
                                k <= tiles.len(),
                                world@.wf(),
                                size == world@.map.size(),
                                hit@.len() == size,
                                forall|j: int|
                                    0 <= j < tiles.len() ==> world@.map.interior(
                                        (#[trigger] tiles[j]).x as int,
                                        tiles[j].y as int,
                                    ),
                                forall|j: int|
                                    #![trigger hit@[j]]
                                    0 <= j < size ==> hit@[j] == marks(
                                        world@.map,
                                        tiles@.take(k as int),
                                        j,
                                    ),
                            decreases tiles.len() - k,
                        {
                            let q = tiles[k];
                            let idx = world.map.xy_idx(q.x, q.y);
                            hit[idx] = true;
                            proof {
                                assert forall|j: int|
                                    #![trigger hit@[j]]
                                    0 <= j < size implies hit@[j] == marks(
                                    world@.map,
                                    tiles@.take(k as int + 1),
                                    j,
                                ) by {
                                    crate::visibility::lemma_marks_next(
                                        world@.map,
                                        tiles@,
                                        k as int,
                                        j,
                                    );
                                }
                            }
                            k += 1;
                        }
                        assert(tiles@.take(k as int) =~= tiles@);
                        let mut t: usize = 0;
                        while t < size
                            invariant
                                t <= size,
                                world@.wf(),
                                size == world@.map.size(),
                                size == world.map.tile_content@.len(),
                                hit@.len() == size,
                                forall|j: int|
                                    0 <= j < tiles.len() ==> world@.map.interior(
                                        (#[trigger] tiles[j]).x as int,
                                        tiles[j].y as int,
                                    ),
                                crate::fov::points_model(tiles@) == world@.map.in_sight(
                                    p.x as int,
                                    p.y as int,
                                    area.radius as int,
                                ),
                                forall|j: int|
                                    #![trigger hit@[j]]
                                    0 <= j < size ==> hit@[j] == marks(world@.map, tiles@, j),
                                targets@ == world@.blast_targets(
                                    p.x as int,
                                    p.y as int,
                                    area.radius as int,
                                    t as int,
                                ),
                            decreases size - t,
                        {
                            proof {
                                lemma_marks_is_membership(world@.map, tiles@, t as int);
                            }
                            if hit[t] {
                                append_all(&mut targets, &world.map.tile_content[t]);
                            }
                            t += 1;
                        }
                    },
                }
            }
        },
    }
    targets
}

proof fn lemma_any_can_heal_next(w: WorldSpec, targets: Seq<Entity>, k: int)
    requires
        0 <= k < targets.len(),
    ensures
        w.any_can_heal(targets, k + 1) <==> (w.any_can_heal(targets, k) || w.can_heal(targets[k])),
{
    if w.any_can_heal(targets, k) {
        let j = choose|j: int| 0 <= j < k && w.can_heal(#[trigger] targets[j]);
        assert(w.can_heal(targets[j]));
    }
    if w.any_can_heal(targets, k + 1) {
        let j = choose|j: int| 0 <= j < k + 1 && w.can_heal(#[trigger] targets[j]);
        if j < k {
            assert(w.any_can_heal(targets, k));
        }
    }
}

proof fn lemma_any_alive_next(w: WorldSpec, targets: Seq<Entity>, k: int)
    requires
        0 <= k < targets.len(),
    ensures
        w.any_alive(targets, k + 1) <==> (w.any_alive(targets, k) || w.is_alive(targets[k])),
{
    if w.any_alive(targets, k) {
        let j = choose|j: int| 0 <= j < k && w.is_alive(#[trigger] targets[j]);
        assert(w.is_alive(targets[j]));
    }
    if w.any_alive(targets, k + 1) {
        let j = choose|j: int| 0 <= j < k + 1 && w.is_alive(#[trigger] targets[j]);
        if j < k {
            assert(w.any_alive(targets, k));
        }
    }
}

/// Whether anyone is alive, or can be healed, is read off what the effects
/// of an item leave as they are.
proof fn lemma_frame_keeps_targets(a: WorldSpec, b: WorldSpec, targets: Seq<Entity>, k: int)
    requires
        effects_frame(a, b),
        0 <= k <= targets.len(),
    ensures
        a.any_alive(targets, k) == b.any_alive(targets, k),
        a.any_can_heal(targets, k) == b.any_can_heal(targets, k),
{
    if a.any_alive(targets, k) {
        let j = choose|j: int| 0 <= j < k && a.is_alive(#[trigger] targets[j]);
        assert(b.is_alive(targets[j]));
    }
    if b.any_alive(targets, k) {
        let j = choose|j: int| 0 <= j < k && b.is_alive(#[trigger] targets[j]);
        assert(a.is_alive(targets[j]));
    }
    if a.any_can_heal(targets, k) {
        let j = choose|j: int| 0 <= j < k && a.can_heal(#[trigger] targets[j]);
        assert(b.can_heal(targets[j]));
    }
    if b.any_can_heal(targets, k) {
        let j = choose|j: int| 0 <= j < k && b.can_heal(#[trigger] targets[j]);
        assert(a.can_heal(targets[j]));
    }
}

/// Heals every target that has stats.
fn heal_all(world: &mut World, user: usize, item: Entity, amount: i32, targets: &Vec<Entity>) -> (r:
    bool)
    requires
        old(world)@.wf(),
    ensures
        final(world)@ == old(world)@.after_heals(
            user as int,
            item,
            amount,
            targets@,
            targets@.len() as int,
        ),
        r == old(world)@.any_can_heal(targets@, targets@.len() as int),
        final(world)@.wf(),
        effects_frame(old(world)@, final(world)@),
{
    let ghost start = world@;
    let mut any = false;
    let mut k: usize = 0;
    while k < targets.len()
        invariant
            k <= targets.len(),
            world@.wf(),
            world@ == start.after_heals(user as int, item, amount, targets@, k as int),
            any == start.any_can_heal(targets@, k as int),
            effects_frame(start, world@),
        decreases targets.len() - k,
    {
        let ghost before = world@;
        let did = heal_of(world, user, item, amount, targets[k]);
        proof {
            lemma_effects_frame_trans(start, before, world@);
            lemma_any_can_heal_next(start, targets@, k as int);
        }
        any = any || did;
        k += 1;
    }
    any
}

/// Adds pending damage to every target that is alive.
fn harm_all(world: &mut World, user: usize, item: Entity, amount: i32, targets: &Vec<Entity>) -> (r:
    bool)
    requires
        old(world)@.wf(),
    ensures
        final(world)@ == old(world)@.after_harms(
            user as int,
            item,
            amount,
            targets@,
            targets@.len() as int,
        ),
        r == old(world)@.any_alive(targets@, targets@.len() as int),
        final(world)@.wf(),
        effects_frame(old(world)@, final(world)@),
{
    let ghost start = world@;
    let mut any = false;
    let mut k: usize = 0;
    while k < targets.len()
        invariant
            k <= targets.len(),
            world@.wf(),
            world@ == start.after_harms(user as int, item, amount, targets@, k as int),
            any == start.any_alive(targets@, k as int),
            effects_frame(start, world@),
        decreases targets.len() - k,
    {
        let ghost before = world@;
        let did = harm_of(world, user, item, amount, targets[k]);
        proof {
            lemma_effects_frame_trans(start, before, world@);
            lemma_any_alive_next(start, targets@, k as int);
        }
        any = any || did;
        k += 1;
    }
    any
}

/// Confuses every target that is alive.
fn confuse_all(world: &mut World, user: usize, item: Entity, turns: i32, targets: &Vec<Entity>)
    -> (r: bool)
    requires
        old(world)@.wf(),
    ensures
        final(world)@ == old(world)@.after_confusions(
            user as int,
            item,
            turns,
            targets@,
            targets@.len() as int,
        ),
        r == old(world)@.any_alive(targets@, targets@.len() as int),
        final(world)@.wf(),
        effects_frame(old(world)@, final(world)@),
{
    let ghost start = world@;
    let mut any = false;
    let mut k: usize = 0;
    while k < targets.len()
        invariant
            k <= targets.len(),
            world@.wf(),
            world@ == start.after_confusions(user as int, item, turns, targets@, k as int),
            any == start.any_alive(targets@, k as int),
            effects_frame(start, world@),
        decreases targets.len() - k,
    {
        let ghost before = world@;
        let did = confusion_of(world, user, item, turns, targets[k]);
        proof {
            lemma_effects_frame_trans(start, before, world@);
            lemma_any_alive_next(start, targets@, k as int);
        }
        any = any || did;
        k += 1;
    }
    any
}

/// Lets `item` have its effects on `targets`: healing, then damage, then
/// confusion, each if the item has it. Says whether the use counts.
pub fn apply_item(world: &mut World, user: Entity, item: Entity, targets: &Vec<Entity>) -> (counts:
    bool)
    requires
        old(world)@.wf(),
    ensures
        final(world)@ == old(world)@.after_effects(user.id as int, item, targets@),
        counts == old(world)@.use_counts(item, targets@),
        final(world)@.wf(),
        effects_frame(old(world)@, final(world)@),
{
    let ghost start = world@;
    let (healing, damage, confusion) = if item.id < world.entities.len() {
        (
            world.entities[item.id].provides_healing,
            world.entities[item.id].inflicts_damage,
            world.entities[item.id].confusion,
        )
    } else {
        (None, None, None)
    };
    let mut counts = false;
    match healing {
        Some(h) => {
            let did = heal_all(world, user.id, item, h.heal_amount, targets);
            counts = counts || did;
        },
        None => {},
    }
    let ghost w1 = world@;
    match damage {
        Some(d) => {
            let did = harm_all(world, user.id, item, d.damage, targets);
            proof {
                lemma_frame_keeps_targets(start, w1, targets@, targets@.len() as int);
                lemma_effects_frame_trans(start, w1, world@);
            }
            counts = counts || did;
        },
        None => {},
    }
    let ghost w2 = world@;
    match confusion {
        Some(c) => {
            let did = confuse_all(world, user.id, item, c.turns, targets);
            proof {
                lemma_frame_keeps_targets(start, w2, targets@, targets@.len() as int);
                lemma_effects_frame_trans(start, w2, world@);
            }
            counts = counts || did;
        },
        None => {},
    }
    counts
}

/// Lets entity `user` use the item it wants to use, and says which item it
/// used up, if any.
fn use_of(world: &mut World, user: usize) -> (spent: Option<Entity>)
    requires
        old(world)@.wf(),
        user < old(world)@.entities.len(),
    ensures
        final(world)@ == old(world)@.after_use_of(user as int),
        spent == (if old(world)@.use_spends(user as int) {
            Some(old(world)@.entities[user as int].wants_to_use->0.item)
        } else {
            None
        }),
        final(world)@.wf(),
        effects_frame(old(world)@, final(world)@),
{
    match world.entities[user].wants_to_use {
        Some(wish) => {
            let targets = targets_of(world, user, wish.item, wish.target);
            let consumable = wish.item.id < world.entities.len()
                && world.entities[wish.item.id].consumable.is_some();
            let counts = apply_item(world, Entity { id: user }, wish.item, &targets);
            if counts && consumable {
                Some(wish.item)
            } else {
                None
            }
        },
        None => {
            assert(world@.log.take(world@.log.len() as int) =~= world@.log);
            None
        },
    }
}

impl ItemUseSystem {
    /// Resolves every wish to use an item, in index order. The targets are
    /// the user, or who occupies the target tile, or, for an item with an
    /// area of effect, who occupies a tile in sight of the target tile
    /// within the radius. Healing, damage and confusion are applied to them
    /// as far as the item has them. A consumable item whose use counted is
    /// deleted once every wish is resolved, and every wish to use
    /// something is gone afterwards.
    pub fn run(&mut self, world: &mut World)
        requires
            old(world)@.wf(),
        ensures
            final(world)@ == old(world)@.after_item_use(),
            final(world)@.wf(),
    {
        let ghost start = world@;
        let n: usize = world.entities.len();
        let mut spent: Vec<Entity> = Vec::new();
        let mut i: usize = 0;
        while i < n
            invariant
                i <= n,
                n == start.entities.len(),
                n == world@.entities.len(),
                world@.wf(),
                world@ == start.after_uses(i as int),
                spent@ == start.spent_items(i as int),
            decreases n - i,
        {
            let used_up = use_of(world, i);
            match used_up {
                Some(item) => {
                    spent.push(item);
                },
                None => {},
            }
            i += 1;
        }
        world.delete_all(&spent);
        let ghost swept = world@;
        assert(world@.entities.len() == world.entities@.len());
        let mut k: usize = 0;
        while k < n
            invariant
                k <= n,
                n == swept.entities.len(),
                n == world.entities@.len(),
                swept.wf(),
                world@ == (WorldSpec { entities: world@.entities, ..swept }),
                forall|t: int|
                    0 <= t < n ==> world@.entities[t] == (if t < k {
                        EntitySpec { wants_to_use: None, ..swept.entities[t] }
                    } else {
                        swept.entities[t]
                    }),
            decreases n - k,
        {
            let ghost before = world@;
            world.entities[k].wants_to_use = None;
            assert(world@.dungeon =~= swept.dungeon);
            assert forall|t: int| 0 <= t < n implies world@.entities[t] == (if t < k + 1 {
                EntitySpec { wants_to_use: None, ..swept.entities[t] }
            } else {
                swept.entities[t]
            }) by {
                if t != k {
                    assert(world@.entities[t] == before.entities[t]);
                }
            }
            k += 1;
        }
        assert(world@.entities =~= swept.without_use_wishes().entities);
        proof {
            assert forall|j: int| 0 <= j < n implies #[trigger] world@.entity_wf(j) by {
                assert(swept.entity_wf(j));
            }
        }
    }
}


/// A record with `amount` more damage pending.
pub open spec fn harmed(rec: EntitySpec, amount: i32) -> EntitySpec {
    EntitySpec { suffer_damage: spec_pending_plus(rec.suffer_damage, seq![amount]), ..rec }
}

impl WorldSpec {
    /// Tile `t` is in sight of `(x, y)` within `radius`.
    pub open spec fn tile_in_sight(self, x: int, y: int, radius: int, t: int) -> bool {
        self.map.in_sight(x, y, radius).contains((self.map.x_of(t), self.map.y_of(t)))
    }

    /// Record `j` stands on a tile in sight of `(x, y)` within `radius`.
    pub open spec fn in_blast(self, j: int, x: int, y: int, radius: int) -> bool {
        self.entities[j].position matches Some(q) && self.map.in_sight(x, y, radius).contains(
            (q.x as int, q.y as int),
        )
    }
}

/// Once the index is built, the occupants of the tiles in sight are those
/// who stand on such a tile, and no one is among them twice.
proof fn lemma_blast_lists_who_stands_in_sight(v: WorldSpec, x: int, y: int, radius: int, n: int)
    requires
        v.entities.len() <= usize::MAX,
        0 <= n <= v.map.tile_content.len(),
    ensures
        ({
            let w = v.after_indexing();
            let list = w.blast_targets(x, y, radius, n);
            &&& forall|k: int|
                0 <= k < list.len() ==> {
                    let e = #[trigger] list[k];
                    e.id < v.entities.len() && exists|t: int|
                        0 <= t < n && w.tile_in_sight(x, y, radius, t) && #[trigger] v.stands_on(
                            e.id as int,
                            t,
                        )
                }
            &&& forall|j: int, t: int|
                0 <= j < v.entities.len() && 0 <= t < n && w.tile_in_sight(x, y, radius, t)
                    && #[trigger] v.stands_on(j, t) ==> names(list, j)
            &&& list.no_duplicates()
        }),
    decreases n,
{
    let w = v.after_indexing();
    let list = w.blast_targets(x, y, radius, n);
    if n > 0 {
        lemma_blast_lists_who_stands_in_sight(v, x, y, radius, n - 1);
        let prev = w.blast_targets(x, y, radius, n - 1);
        let here = w.map.tile_content[n - 1];
        let len = v.entities.len() as int;
        assert(here == v.occupants(n - 1, len));
        lemma_occupants_are_who_stands_there(v, n - 1, len);
        if w.tile_in_sight(x, y, radius, n - 1) {
            assert(list == prev + here);
            assert forall|k: int| 0 <= k < list.len() implies ({
                let e = #[trigger] list[k];
                e.id < v.entities.len() && exists|t: int|
                    0 <= t < n && w.tile_in_sight(x, y, radius, t) && #[trigger] v.stands_on(
                        e.id as int,
                        t,
                    )
            }) by {
                if k < prev.len() {
                    assert(list[k] == prev[k]);
                    let t = choose|t: int|
                        0 <= t < n - 1 && w.tile_in_sight(x, y, radius, t) && #[trigger] v.stands_on(
                            prev[k].id as int,
                            t,
                        );
                    assert(v.stands_on(list[k].id as int, t));
                } else {
                    assert(list[k] == here[k - prev.len()]);
                    assert(v.stands_on(list[k].id as int, n - 1));
                }
            }
            assert forall|j: int, t: int|
                0 <= j < v.entities.len() && 0 <= t < n && w.tile_in_sight(x, y, radius, t)
                    && #[trigger] v.stands_on(j, t) implies names(list, j) by {
                if t < n - 1 {
                    assert(names(prev, j));
                    let k = choose|k: int| 0 <= k < prev.len() && (#[trigger] prev[k]).id == j;
                    assert(list[k].id == j);
                } else {
                    assert(names(here, j));
                    let k = choose|k: int| 0 <= k < here.len() && (#[trigger] here[k]).id == j;
                    assert(list[prev.len() + k].id == j);
                }
            }
            assert forall|i: int, k: int| 0 <= i < list.len() && 0 <= k < list.len() && i
                != k implies list[i] != list[k] by {
                if i < prev.len() && k < prev.len() {
                    assert(list[i] == prev[i] && list[k] == prev[k]);
                } else if i >= prev.len() && k >= prev.len() {
                    let a = i - prev.len();
                    let b = k - prev.len();
                    assert(list[i] == here[a] && list[k] == here[b]);
                    if a < b {
                        assert(here[a].id < here[b].id);
                    } else {
                        assert(here[b].id < here[a].id);
                    }
                } else {
                    let (lo, hi) = if i < k {
                        (i, k)
                    } else {
                        (k, i)
                    };
                    assert(list[lo] == prev[lo]);
                    assert(list[hi] == here[hi - prev.len()]);
                    let t = choose|t: int|
                        0 <= t < n - 1 && w.tile_in_sight(x, y, radius, t) && #[trigger] v.stands_on(
                            prev[lo].id as int,
                            t,
                        );
                    assert(v.stands_on(here[hi - prev.len()].id as int, n - 1));
                }
            }
        } else {
            assert(list == prev);
        }
    }
}

/// Harm done to a list of targets in which no one occurs twice reaches
/// each of them that is alive once, and no one else.
proof fn lemma_harms_reach_the_targets(
    w: WorldSpec,
    user: int,
    item: Entity,
    amount: i32,
    targets: Seq<Entity>,
    k: int,
)
    requires
        targets.no_duplicates(),
        0 <= k <= targets.len(),
    ensures
        ({
            let a = w.after_harms(user, item, amount, targets, k);
            &&& a.entities.len() == w.entities.len()
            &&& forall|j: int|
                0 <= j < w.entities.len() ==> #[trigger] a.entities[j] == (if names(
                    targets.take(k),
                    j,
                ) && w.entities[j].alive {
                    harmed(w.entities[j], amount)
                } else {
                    w.entities[j]
                })
        }),
    decreases k,
{
    if k > 0 {
        lemma_harms_reach_the_targets(w, user, item, amount, targets, k - 1);
        let prev = w.after_harms(user, item, amount, targets, k - 1);
        let t = targets[k - 1];
        let a = prev.after_harm_of(user, item, amount, t);
        assert(a == w.after_harms(user, item, amount, targets, k));
        assert(targets.take(k) =~= targets.take(k - 1).push(t));
        assert forall|j: int| 0 <= j < w.entities.len() implies #[trigger] a.entities[j] == (if names(
            targets.take(k),
            j,
        ) && w.entities[j].alive {
            harmed(w.entities[j], amount)
        } else {
            w.entities[j]
        }) by {
            lemma_names_push(targets.take(k - 1), t, j);
            if j == t.id {
                if names(targets.take(k - 1), j) {
                    let i = choose|i: int|
                        0 <= i < targets.take(k - 1).len() && (#[trigger] targets.take(k - 1)[i]).id
                            == j;
                    assert(targets[i] == targets[k - 1]);
                }
                assert(prev.entities[j] == w.entities[j]);
            } else {
                assert(a.entities[j] == prev.entities[j]);
            }
        }
    } else {
        assert(targets.take(0).len() == 0);
    }
}

/// An item that harms an area, used once the index is built, puts its
/// damage once on everyone alive who stands on a tile in sight of the
/// target tile within the radius, and leaves every other record as it is.
pub proof fn lemma_blast_harms_exactly_who_stands_in_sight(
    v: WorldSpec,
    user: int,
    item: Entity,
    p: Coord,
    j: int,
)
    requires
        v.wf(),
        v.map.in_bounds(p.x as int, p.y as int),
        v.item_record(item).area_of_effect is Some,
        v.item_record(item).inflicts_damage is Some,
        v.item_record(item).provides_healing is None,
        v.item_record(item).confusion is None,
        0 <= j < v.entities.len(),
    ensures
        ({
            let w = v.after_indexing();
            let radius = v.item_record(item).area_of_effect->0.radius as int;
            let amount = v.item_record(item).inflicts_damage->0.damage;
            let after = w.after_effects(user, item, w.item_targets(user, item, Some(p)));
            after.entities[j] == (if w.entities[j].alive && w.in_blast(
                j,
                p.x as int,
                p.y as int,
                radius,
            ) {
                harmed(w.entities[j], amount)
            } else {
                w.entities[j]
            })
        }),
{
    let w = v.after_indexing();
    let radius = v.item_record(item).area_of_effect->0.radius as int;
    let amount = v.item_record(item).inflicts_damage->0.damage;
    let x = p.x as int;
    let y = p.y as int;
    let size = w.map.tile_content.len() as int;
    let targets = w.item_targets(user, item, Some(p));
    assert(w.item_record(item) == v.item_record(item));
    assert(targets == w.blast_targets(x, y, radius, size));
    lemma_blast_lists_who_stands_in_sight(v, x, y, radius, size);
    lemma_harms_reach_the_targets(w, user, item, amount, targets, targets.len() as int);
    assert(targets.take(targets.len() as int) =~= targets);
    assert(v.entity_wf(j));
    if w.in_blast(j, x, y, radius) {
        let q = v.entities[j].position->0;
        lemma_idx_in_range(v.map, q.x as int, q.y as int);
        let t = v.map.idx(q.x as int, q.y as int);
        assert(v.stands_on(j, t));
        assert(w.tile_in_sight(x, y, radius, t));
        assert(names(targets, j));
    }
    if names(targets, j) {
        let k = choose|k: int| 0 <= k < targets.len() && (#[trigger] targets[k]).id == j;
        let t = choose|t: int|
            0 <= t < size && w.tile_in_sight(x, y, radius, t) && #[trigger] v.stands_on(
                targets[k].id as int,
                t,
            );
        let q = v.entities[j].position->0;
        lemma_idx_in_range(v.map, q.x as int, q.y as int);
        assert(w.in_blast(j, x, y, radius));
    }
}


/// An item without any effect does nothing when it is used, and is not
/// used up, whoever its targets are.
pub proof fn lemma_use_without_effect_spends_nothing(w: WorldSpec, user: int)
    requires
        w.entities[user].wants_to_use matches Some(wish) && {
            let it = w.item_record(wish.item);
            it.provides_healing is None && it.inflicts_damage is None && it.confusion is None
        },
    ensures
        !w.use_spends(user),
        w.after_use_of(user) == w,
{
}


/// Healing reaches no one but its targets.
proof fn lemma_heals_spare_the_rest(
    w: WorldSpec,
    user: int,
    item: Entity,
    amount: i32,
    targets: Seq<Entity>,
    k: int,
    j: int,
)
    requires
        0 <= k <= targets.len(),
        0 <= j < w.entities.len(),
        !names(targets, j),
    ensures
        w.after_heals(user, item, amount, targets, k).entities.len() == w.entities.len(),
        w.after_heals(user, item, amount, targets, k).entities[j] == w.entities[j],
    decreases k,
{
    if k > 0 {
        lemma_heals_spare_the_rest(w, user, item, amount, targets, k - 1, j);
        assert(targets[k - 1].id != j);
    }
}

/// Harm reaches no one but its targets.
proof fn lemma_harms_spare_the_rest(
    w: WorldSpec,
    user: int,
    item: Entity,
    amount: i32,
    targets: Seq<Entity>,
    k: int,
    j: int,
)
    requires
        0 <= k <= targets.len(),
        0 <= j < w.entities.len(),
        !names(targets, j),
    ensures
        w.after_harms(user, item, amount, targets, k).entities.len() == w.entities.len(),
        w.after_harms(user, item, amount, targets, k).entities[j] == w.entities[j],
    decreases k,
{
    if k > 0 {
        lemma_harms_spare_the_rest(w, user, item, amount, targets, k - 1, j);
        assert(targets[k - 1].id != j);
    }
}

/// Confusion reaches no one but its targets.
proof fn lemma_confusions_spare_the_rest(
    w: WorldSpec,
    user: int,
    item: Entity,
    turns: i32,
    targets: Seq<Entity>,
    k: int,
    j: int,
)
    requires
        0 <= k <= targets.len(),
        0 <= j < w.entities.len(),
        !names(targets, j),
    ensures
        w.after_confusions(user, item, turns, targets, k).entities.len() == w.entities.len(),
        w.after_confusions(user, item, turns, targets, k).entities[j] == w.entities[j],
    decreases k,
{
    if k > 0 {
        lemma_confusions_spare_the_rest(w, user, item, turns, targets, k - 1, j);
        assert(targets[k - 1].id != j);
    }
}

/// Whatever an item does, it does to its targets: the record of anyone
/// who is not among them stays as it is.
pub proof fn lemma_effects_spare_the_rest(
    w: WorldSpec,
    user: int,
    item: Entity,
    targets: Seq<Entity>,
    j: int,
)
    requires
        0 <= j < w.entities.len(),
        !names(targets, j),
    ensures
        w.after_effects(user, item, targets).entities.len() == w.entities.len(),
        w.after_effects(user, item, targets).entities[j] == w.entities[j],
{
    let it = w.item_record(item);
    let n = targets.len() as int;
    let w1 = match it.provides_healing {
        Some(h) => w.after_heals(user, item, h.heal_amount, targets, n),
        None => w,
    };
    if it.provides_healing is Some {
        lemma_heals_spare_the_rest(w, user, item, it.provides_healing->0.heal_amount, targets, n, j);
    }
    let w2 = match it.inflicts_damage {
        Some(d) => w1.after_harms(user, item, d.damage, targets, n),
        None => w1,
    };
    if it.inflicts_damage is Some {
        lemma_harms_spare_the_rest(w1, user, item, it.inflicts_damage->0.damage, targets, n, j);
    }
    if it.confusion is Some {
        lemma_confusions_spare_the_rest(w2, user, item, it.confusion->0.turns, targets, n, j);
    }
}

/// An item with an area of effect, used once the index is built, leaves
/// the record of everyone as it is who does not stand on a tile in sight
/// of the target tile within the radius, whatever its effects are.
pub proof fn lemma_blast_spares_who_stands_out_of_sight(
    v: WorldSpec,
    user: int,
    item: Entity,
    p: Coord,
    j: int,
)
    requires
        v.wf(),
        v.map.in_bounds(p.x as int, p.y as int),
        v.item_record(item).area_of_effect is Some,
        0 <= j < v.entities.len(),
        !v.after_indexing().in_blast(
            j,
            p.x as int,
            p.y as int,
            v.item_record(item).area_of_effect->0.radius as int,
        ),
    ensures
        ({
            let w = v.after_indexing();
            w.after_effects(user, item, w.item_targets(user, item, Some(p))).entities[j]
                == w.entities[j]
        }),
{
    let w = v.after_indexing();
    let radius = v.item_record(item).area_of_effect->0.radius as int;
    let x = p.x as int;
    let y = p.y as int;
    let size = w.map.tile_content.len() as int;
    let targets = w.item_targets(user, item, Some(p));
    assert(w.item_record(item) == v.item_record(item));
    assert(targets == w.blast_targets(x, y, radius, size));
    lemma_blast_lists_who_stands_in_sight(v, x, y, radius, size);
    assert(v.entity_wf(j));
    if names(targets, j) {
        let k = choose|k: int| 0 <= k < targets.len() && (#[trigger] targets[k]).id == j;
        let t = choose|t: int|
            0 <= t < size && w.tile_in_sight(x, y, radius, t) && #[trigger] v.stands_on(
                targets[k].id as int,
                t,
            );
        let q = v.entities[j].position->0;
        lemma_idx_in_range(v.map, q.x as int, q.y as int);
        assert(w.in_blast(j, x, y, radius));
    }
    lemma_effects_spare_the_rest(w, user, item, targets, j);
}

} // verus!
