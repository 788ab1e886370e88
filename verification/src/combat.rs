//! Melee and damage: attack intents become pending damage, pending damage
//! becomes lost health, and who has no health left is swept away.

use vstd::prelude::*;
use crate::components::{copy_name, CombatStats, Entity, EntitySpec, SufferDamage};
use crate::gamelog::LogEntry;
use crate::state::RunState;
use crate::world::{World, WorldSpec};

verus! {

/// What a hit takes off: the attacker's power less the target's defense,
/// never below nothing and never beyond what an amount can hold.
pub open spec fn spec_melee_damage(power: int, defense: int) -> int {
    if power - defense <= 0 {
        0
    } else if power - defense >= i32::MAX {
        i32::MAX as int
    } else {
        power - defense
    }
}

/// What a hit of the given power takes off a target of the given defense.
pub fn melee_damage(power: i32, defense: i32) -> (d: i32)
    ensures
        d == spec_melee_damage(power as int, defense as int),
{
    let diff: i64 = power as i64 - defense as i64;
    if diff <= 0 {
        0
    } else if diff >= i32::MAX as i64 {
        i32::MAX
    } else {
        diff as i32
    }
}

/// The sum of a list of amounts.
pub open spec fn spec_total(amounts: Seq<i32>) -> int
    decreases amounts.len(),
{
    if amounts.len() == 0 {
        0
    } else {
        spec_total(amounts.drop_last()) + amounts.last()
    }
}

/// Health after losing `total`, kept within what a health value can hold.
pub open spec fn spec_health_after(hp: int, total: int) -> int {
    if hp - total < i32::MIN {
        i32::MIN as int
    } else if hp - total > i32::MAX {
        i32::MAX as int
    } else {
        hp - total
    }
}

/// Pending damage with `hits` added at the end. No hits leave it as it is,
/// also where there is none.
pub open spec fn spec_pending_plus(pending: Option<Seq<i32>>, hits: Seq<i32>) -> Option<Seq<i32>> {
    if hits.len() == 0 {
        pending
    } else {
        match pending {
            Some(p) => Some(p + hits),
            None => Some(hits),
        }
    }
}

impl WorldSpec {
    /// The attack that entity `a` makes this tick, as the target's index and
    /// the damage dealt. It makes none unless it wants to, has a name and
    /// stats, is still standing, and its target has stats and is still
    /// standing too.
    pub open spec fn melee_attack(self, a: int) -> Option<(int, int)> {
        let e = self.entities[a];
        if e.wants_to_melee is Some && e.name is Some && e.combat_stats is Some
            && e.combat_stats->0.hp > 0 {
            let t = e.wants_to_melee->0.target.id as int;
            if t < self.entities.len() && self.entities[t].combat_stats is Some
                && self.entities[t].combat_stats->0.hp > 0 {
                Some(
                    (
                        t,
                        spec_melee_damage(
                            e.combat_stats->0.power as int,
                            self.entities[t].combat_stats->0.defense as int,
                        ),
                    ),
                )
            } else {
                None
            }
        } else {
            None
        }
    }

    /// The hits that land on `t` from the attackers before index `n`, in the
    /// order of the attackers. An attack that deals no damage is no hit.
    pub open spec fn melee_hits(self, t: int, n: int) -> Seq<i32>
        decreases n,
    {
        if n <= 0 {
            Seq::empty()
        } else {
            match self.melee_attack(n - 1) {
                Some((target, damage)) => if target == t && damage > 0 {
                    self.melee_hits(t, n - 1).push(damage as i32)
                } else {
                    self.melee_hits(t, n - 1)
                },
                None => self.melee_hits(t, n - 1),
            }
        }
    }

    /// The log entry for the attack of `a`, if it makes one.
    pub open spec fn melee_entry(self, a: int) -> Option<LogEntry> {
        match self.melee_attack(a) {
            Some((target, damage)) => if damage == 0 {
                Some(
                    LogEntry::UnableToHurt {
                        attacker: self.entities[a].name,
                        target: self.entities[target].name,
                    },
                )
            } else {
                Some(
                    LogEntry::Hits {
                        attacker: self.entities[a].name,
                        target: self.entities[target].name,
                        amount: damage as i32,
                    },
                )
            },
            None => None,
        }
    }

    /// The log entries for the attacks of the entities before index `n`.
    pub open spec fn melee_log(self, n: int) -> Seq<LogEntry>
        decreases n,
    {
        if n <= 0 {
            Seq::empty()
        } else {
            match self.melee_entry(n - 1) {
                Some(entry) => self.melee_log(n - 1).push(entry),
                None => self.melee_log(n - 1),
            }
        }
    }

    /// The world once the attacks of the entities before index `n` have
    /// landed; no intent is cleared yet.
    pub open spec fn melee_landed(self, n: int) -> WorldSpec {
        WorldSpec {
            entities: Seq::new(
                self.entities.len(),
                |t: int|
                    EntitySpec {
                        suffer_damage: spec_pending_plus(
                            self.entities[t].suffer_damage,
                            self.melee_hits(t, n),
                        ),
                        ..self.entities[t]
                    },
            ),
            log: self.log + self.melee_log(n),
            ..self
        }
    }

    /// The world after the melee system: every attack has landed as pending
    /// damage on its target and every melee intent is gone.
    pub open spec fn after_melee(self) -> WorldSpec {
        let landed = self.melee_landed(self.entities.len() as int);
        WorldSpec {
            entities: Seq::new(
                self.entities.len(),
                |t: int| EntitySpec { wants_to_melee: None, ..landed.entities[t] },
            ),
            ..landed
        }
    }

    /// The world after the damage system: who has stats loses the sum of
    /// their pending damage, and no pending damage is left on anyone.
    pub open spec fn after_damage(self) -> WorldSpec {
        WorldSpec {
            entities: Seq::new(
                self.entities.len(),
                |t: int|
                    {
                        let e = self.entities[t];
                        EntitySpec {
                            combat_stats: match (e.combat_stats, e.suffer_damage) {
                                (Some(stats), Some(pending)) => Some(
                                    CombatStats {
                                        hp: spec_health_after(
                                            stats.hp as int,
                                            spec_total(pending),
                                        ) as i32,
                                        ..stats
                                    },
                                ),
                                _ => e.combat_stats,
                            },
                            suffer_damage: None,
                            ..e
                        }
                    },
            ),
            ..self
        }
    }

    /// Entity `i` has stats and no health left.
    pub open spec fn is_dead(self, i: int) -> bool {
        self.entities[i].combat_stats matches Some(stats) && stats.hp < 1
    }

    /// Entity `i` is swept away: dead, and not a player.
    pub open spec fn is_swept(self, i: int) -> bool {
        self.is_dead(i) && self.entities[i].player is None
    }

    /// The log entries for the deaths among the entities before index `n`:
    /// one for each that is swept away and has a name.
    pub open spec fn death_log(self, n: int) -> Seq<LogEntry>
        decreases n,
    {
        if n <= 0 {
            Seq::empty()
        } else if self.is_swept(n - 1) && self.entities[n - 1].name is Some {
            self.death_log(n - 1).push(LogEntry::Dies { victim: self.entities[n - 1].name })
        } else {
            self.death_log(n - 1)
        }
    }

    /// A player is among the dead.
    pub open spec fn player_died(self) -> bool {
        exists|i: int|
            0 <= i < self.entities.len() && #[trigger] self.is_dead(i)
                && self.entities[i].player is Some
    }

    /// The world after the death sweep: every dead entity but a player is
    /// deleted, each named one with a log entry; a dead player stays and
    /// ends the game.
    pub open spec fn after_death_sweep(self) -> WorldSpec {
        WorldSpec {
            entities: Seq::new(
                self.entities.len(),
                |i: int|
                    if self.is_swept(i) {
                        EntitySpec::bare(false)
                    } else {
                        self.entities[i]
                    },
            ),
            log: self.log + self.death_log(self.entities.len() as int),
            run_state: if self.player_died() {
                RunState::GameOver
            } else {
                self.run_state
            },
            ..self
        }
    }
}

/// The sum of a list of amounts.
pub fn total(amounts: &Vec<i32>) -> (t: i128)
    ensures
        t == spec_total(amounts@),
{
    let mut t: i128 = 0;
    let mut i: usize = 0;
    while i < amounts.len()
        invariant
            i <= amounts.len(),
            t == spec_total(amounts@.take(i as int)),
            -0x8000_0000 * i <= t <= 0x8000_0000 * i,
        decreases amounts.len() - i,
    {
        assert(amounts@.take(i as int + 1).drop_last() =~= amounts@.take(i as int));
        t = t + amounts[i] as i128;
        i += 1;
    }
    assert(amounts@.take(i as int) =~= amounts@);
    t
}

/// Health after losing `total`.
pub fn health_after(hp: i32, total: i128) -> (r: i32)
    ensures
        r == spec_health_after(hp as int, total as int),
{
    if total >= 0 {
        if total > hp as i128 - i32::MIN as i128 {
            i32::MIN
        } else {
            (hp as i128 - total) as i32
        }
    } else {
        if total < hp as i128 - i32::MAX as i128 {
            i32::MAX
        } else {
            (hp as i128 - total) as i32
        }
    }
}

impl SufferDamage {
    /// Adds one amount of pending damage to `victim`, after what is pending
    /// already. A victim that is not alive takes none.
    pub fn new_damage(world: &mut World, victim: Entity, amount: i32)
        requires
            old(world)@.wf(),
        ensures
            final(world)@ == old(world)@.with_pending(victim, amount),
            final(world)@.wf(),
    {
        if !world.is_alive(victim) {
            return ;
        }
        let ghost before = world@;
        match &mut world.entities[victim.id].suffer_damage {
            Some(suffering) => {
                suffering.amount.push(amount);
            },
            None => {
                let mut amounts: Vec<i32> = Vec::new();
                amounts.push(amount);
                world.entities[victim.id].suffer_damage = Some(SufferDamage { amount: amounts });
            },
        }
        assert(world@.entities[victim.id as int].suffer_damage == spec_pending_plus(
            before.entities[victim.id as int].suffer_damage,
            seq![amount],
        )) by {
            match before.entities[victim.id as int].suffer_damage {
                Some(p) => {
                    assert(p.push(amount) =~= p + seq![amount]);
                },
                None => {
                    assert(Seq::<i32>::empty().push(amount) =~= seq![amount]);
                },
            }
        }
        assert(world@.entities =~= before.with_pending(victim, amount).entities);
        assert(world@.dungeon =~= before.dungeon);
        proof {
            assert(before.entity_wf(victim.id as int));
            crate::world::lemma_with_entity_wf(
                before,
                victim.id as int,
                world@.entities[victim.id as int],
            );
        }
    }
}

impl WorldSpec {
    /// The world with one more amount of damage pending on `victim`, if
    /// `victim` is alive.
    pub open spec fn with_pending(self, victim: Entity, amount: i32) -> WorldSpec {
        if self.is_alive(victim) {
            self.with_entity(
                victim.id as int,
                EntitySpec {
                    suffer_damage: spec_pending_plus(
                        self.entities[victim.id as int].suffer_damage,
                        seq![amount],
                    ),
                    ..self.entities[victim.id as int]
                },
            )
        } else {
            self
        }
    }
}

/// The melee system.
pub struct MeleeSystem {}

/// The damage system.
pub struct DamageSystem {}

/// The attack that entity `a` makes this tick.
fn melee_attack_of(world: &World, a: usize) -> (r: Option<(usize, i32)>)
    requires
        a < world@.entities.len(),
    ensures
        match r {
            Some((t, d)) => world@.melee_attack(a as int) == Some((t as int, d as int)),
            None => world@.melee_attack(a as int) is None,
        },
{
    let e = &world.entities[a];
    match (&e.wants_to_melee, &e.name, &e.combat_stats) {
        (Some(wants), Some(_), Some(stats)) => {
            if stats.hp > 0 {
                let t = wants.target.id;
                if t < world.entities.len() {
                    match &world.entities[t].combat_stats {
                        Some(target_stats) => {
                            if target_stats.hp > 0 {
                                Some((t, melee_damage(stats.power, target_stats.defense)))
                            } else {
                                None
                            }
                        },
                        None => None,
                    }
                } else {
                    None
                }
            } else {
                None
            }
        },
        _ => None,
    }
}

/// Landing attacks changes pending damage and the log only, so the attacks
/// still to come are the ones that were decided at the start.
proof fn lemma_melee_attack_stable(w: WorldSpec, n: int, a: int)
    requires
        0 <= a < w.entities.len(),
    ensures
        w.melee_landed(n).melee_attack(a) == w.melee_attack(a),
{
}

/// No hit lands on an entity without stats.
proof fn lemma_no_hits_without_stats(w: WorldSpec, t: int, n: int)
    requires
        0 <= t < w.entities.len(),
        w.entities[t].combat_stats is None,
    ensures
        w.melee_hits(t, n).len() == 0,
    decreases n,
{
    if n > 0 {
        lemma_no_hits_without_stats(w, t, n - 1);
    }
}

/// The melee system keeps a well-formed world well-formed.
pub proof fn lemma_after_melee_wf(w: WorldSpec)
    requires
        w.wf(),
    ensures
        w.after_melee().wf(),
{
    let w2 = w.after_melee();
    assert forall|i: int| 0 <= i < w2.entities.len() implies #[trigger] w2.entity_wf(i) by {
        assert(w.entity_wf(i));
        if !w.entities[i].alive {
            lemma_no_hits_without_stats(w, i, w.entities.len() as int);
        }
    }
}

impl MeleeSystem {
    /// Resolves every melee intent. An attacker that is still standing
    /// and whose target is still standing deals its power less the target's
    /// defense: nothing but a log entry if that is not positive, else one
    /// more amount of pending damage on the target, with a log entry. Every
    /// melee intent is gone afterwards, whatever came of it.
    pub fn run(&mut self, world: &mut World)
        requires
            old(world)@.wf(),
        ensures
            final(world)@ == old(world)@.after_melee(),
            final(world)@.wf(),
    {
        let n: usize = world.entities.len();
        let ghost start = world@;
        assert(world@ =~= start.melee_landed(0)) by {
            assert(world@.entities =~= start.melee_landed(0).entities);
            assert(world@.log =~= start.melee_landed(0).log);
        }
        let mut a: usize = 0;
        while a < n
            invariant
                a <= n,
                n == start.entities.len(),
                start.wf(),
                world@.wf(),
                world@ == start.melee_landed(a as int),
            decreases n - a,
        {
            let attack = melee_attack_of(world, a);
            proof {
                lemma_melee_attack_stable(start, a as int, a as int);
            }
            let ghost before = world@;
            match attack {
                Some((t, damage)) => {
                    let attacker = copy_name(&world.entities[a].name);
                    let target = copy_name(&world.entities[t].name);
                    if damage == 0 {
                        world.push_log(LogEntry::UnableToHurt { attacker, target });
                    } else {
                        world.push_log(LogEntry::Hits { attacker, target, amount: damage });
                        SufferDamage::new_damage(world, Entity { id: t }, damage);
                        assert(before.entity_wf(t as int));
                    }
                },
                None => {},
            }
            a += 1;
            assert(world@ =~= start.melee_landed(a as int)) by {
                let goal = start.melee_landed(a as int);
                assert(world@.log =~= goal.log);
                assert forall|t: int| 0 <= t < n implies world@.entities[t]
                    == goal.entities[t] by {
                    let p = start.entities[t].suffer_damage;
                    let h = start.melee_hits(t, a as int - 1);
                    let d: i32 = match start.melee_attack(a as int - 1) {
                        Some((_, damage)) => damage as i32,
                        None => 0i32,
                    };
                    match p {
                        Some(s) => {
                            assert((s + h).push(d) =~= s + h.push(d));
                            assert(s + h + seq![d] =~= s + h.push(d));
                            assert(s + seq![d] =~= s + Seq::<i32>::empty().push(d));
                        },
                        None => {
                            assert(h + seq![d] =~= h.push(d));
                        },
                    }
                }
                assert(world@.entities =~= goal.entities);
            }
        }
        let ghost landed = world@;
        assert(world@.entities.len() == world.entities@.len());
        let mut i: usize = 0;
        while i < n
            invariant
                i <= n,
                n == landed.entities.len(),
                n == world.entities@.len(),
                world@.entities.len() == n,
                world@ == (WorldSpec { entities: world@.entities, ..landed }),
                forall|t: int|
                    0 <= t < n ==> world@.entities[t] == (if t < i {
                        EntitySpec { wants_to_melee: None, ..landed.entities[t] }
                    } else {
                        landed.entities[t]
                    }),
            decreases n - i,
        {
            let ghost before = world@;
            world.entities[i].wants_to_melee = None;
            assert(world@.dungeon =~= landed.dungeon);
            assert forall|t: int| 0 <= t < n implies world@.entities[t] == (if t < i + 1 {
                EntitySpec { wants_to_melee: None, ..landed.entities[t] }
            } else {
                landed.entities[t]
            }) by {
                if t != i {
                    assert(world@.entities[t] == before.entities[t]);
                }
            }
            i += 1;
        }
        assert(world@.entities =~= start.after_melee().entities);
        proof {
            lemma_after_melee_wf(start);
        }
    }
}

/// The damage system keeps a well-formed world well-formed.
pub proof fn lemma_after_damage_wf(w: WorldSpec)
    requires
        w.wf(),
    ensures
        w.after_damage().wf(),
{
    let w2 = w.after_damage();
    assert forall|i: int| 0 <= i < w2.entities.len() implies #[trigger] w2.entity_wf(i) by {
        assert(w.entity_wf(i));
    }
}

impl DamageSystem {
    /// Applies pending damage: every entity with stats loses the sum of what
    /// is pending on it, and nothing is left pending on anyone.
    pub fn run(&mut self, world: &mut World)
        requires
            old(world)@.wf(),
        ensures
            final(world)@ == old(world)@.after_damage(),
            final(world)@.wf(),
    {
        let n: usize = world.entities.len();
        let ghost start = world@;
        let ghost goal = start.after_damage();
        assert(world@.entities.len() == world.entities@.len());
        let mut i: usize = 0;
        while i < n
            invariant
                i <= n,
                n == start.entities.len(),
                n == world.entities@.len(),
                goal == start.after_damage(),
                world@ == (WorldSpec { entities: world@.entities, ..start }),
                forall|t: int|
                    0 <= t < n ==> world@.entities[t] == (if t < i {
                        goal.entities[t]
                    } else {
                        start.entities[t]
                    }),
            decreases n - i,
        {
            let ghost before = world@;
            let pending: Option<i128> = match &world.entities[i].suffer_damage {
                Some(suffering) => Some(total(&suffering.amount)),
                None => None,
            };
            match pending {
                Some(lost) => {
                    match &mut world.entities[i].combat_stats {
                        Some(stats) => {
                            stats.hp = health_after(stats.hp, lost);
                        },
                        None => {},
                    }
                },
                None => {},
            }
            world.entities[i].suffer_damage = None;
            assert(world@.dungeon =~= start.dungeon);
            assert forall|t: int| 0 <= t < n implies world@.entities[t] == (if t < i + 1 {
                goal.entities[t]
            } else {
                start.entities[t]
            }) by {
                if t != i {
                    assert(world@.entities[t] == before.entities[t]);
                } else {
                    assert(before.entities[t] == start.entities[t]);
                }
            }
            i += 1;
        }
        assert(world@.entities =~= goal.entities);
        proof {
            lemma_after_damage_wf(start);
        }
    }
}

impl WorldSpec {
    /// A player is among the dead before index `n`.
    pub open spec fn player_died_before(self, n: int) -> bool {
        exists|i: int| 0 <= i < n && #[trigger] self.is_dead(i) && self.entities[i].player is Some
    }
}

/// The death sweep, run once at the end of every tick: every entity whose
/// health is below one is deleted, with a log entry if it has a name. A
/// player is never deleted: a dead player ends the game instead.
pub fn delete_the_dead(world: &mut World)
    requires
        old(world)@.wf(),
    ensures
        final(world)@ == old(world)@.after_death_sweep(),
        final(world)@.wf(),
{
    let n: usize = world.entities.len();
    let ghost start = world@;
    let mut dead: Vec<Entity> = Vec::new();
    let mut player_dead = false;
    assert(world@.log =~= start.log + start.death_log(0));
    let mut i: usize = 0;
    while i < n
        invariant
            i <= n,
            n == start.entities.len(),
            start.wf(),
            world@.wf(),
            world@ == (WorldSpec { log: start.log + start.death_log(i as int), ..start }),
            player_dead == start.player_died_before(i as int),
            forall|t: int|
                #![trigger crate::world::names(dead@, t)]
                #![trigger start.is_swept(t)]
                0 <= t < n ==> (crate::world::names(dead@, t) <==> (t < i && start.is_swept(t))),
        decreases n - i,
    {
        let ghost dead_before = dead@;
        let hp: Option<i32> = match &world.entities[i].combat_stats {
            Some(stats) => Some(stats.hp),
            None => None,
        };
        let mut swept = false;
        match hp {
            Some(hp) => {
                if hp < 1 {
                    if world.entities[i].player.is_some() {
                        player_dead = true;
                    } else {
                        swept = true;
                        if world.entities[i].name.is_some() {
                            let victim = copy_name(&world.entities[i].name);
                            world.push_log(LogEntry::Dies { victim });
                        }
                        dead.push(Entity { id: i });
                    }
                }
            },
            None => {},
        }
        proof {
            assert(swept == start.is_swept(i as int));
            assert(world@.log =~= start.log + start.death_log(i as int + 1));
            assert forall|t: int|
                #![trigger crate::world::names(dead@, t)]
                #![trigger start.is_swept(t)]
                0 <= t < n implies (crate::world::names(dead@, t) <==> (t < i + 1
                && start.is_swept(t))) by {
                if swept {
                    assert(dead@ == dead_before.push(Entity { id: i }));
                    crate::world::lemma_names_push(dead_before, Entity { id: i }, t);
                } else {
                    assert(dead@ == dead_before);
                }
            }
            if start.player_died_before(i as int + 1) {
                let j = choose|j: int|
                    0 <= j < i + 1 && #[trigger] start.is_dead(j)
                        && start.entities[j].player is Some;
                if j < i {
                    assert(start.player_died_before(i as int));
                }
            }
            if start.is_dead(i as int) && start.entities[i as int].player is Some {
                assert(start.player_died_before(i as int + 1));
            }
            if start.player_died_before(i as int) {
                let j = choose|j: int|
                    0 <= j < i && #[trigger] start.is_dead(j) && start.entities[j].player is Some;
                assert(start.is_dead(j));
                assert(start.player_died_before(i as int + 1));
            }
        }
        i += 1;
    }
    if player_dead {
        world.run_state = RunState::GameOver;
        assert(world@.entities =~= start.entities);
        assert(world@.dungeon =~= start.dungeon);
        assert forall|t: int| 0 <= t < world@.entities.len() implies #[trigger] world@.entity_wf(
            t,
        ) by {
            assert(start.entity_wf(t));
        }
    }
    assert(start.player_died_before(n as int) == start.player_died());
    world.delete_all(&dead);
    assert(world@.entities =~= start.after_death_sweep().entities) by {
        assert forall|t: int| 0 <= t < n implies world@.entities[t]
            == start.after_death_sweep().entities[t] by {
            assert(start.entity_wf(t));
            assert(start.is_swept(t) ==> start.entities[t].alive);
        }
    }
}

/// Melee and damage together take from each survivor exactly what was
/// pending on it: the health of an entity that is still standing after the
/// damage system has dropped by the sum of the amounts that were pending on
/// it after the melee system, and nothing is pending on anyone any more.
/// Stated for every entity whose health, less that sum, is a health value.
pub proof fn lemma_damage_is_applied_once(w: WorldSpec, e: int)
    requires
        0 <= e < w.entities.len(),
        w.entities[e].combat_stats is Some,
        w.after_melee().after_damage().entities[e].combat_stats->0.hp > 0,
        w.entities[e].combat_stats->0.hp - spec_total(
            match w.after_melee().entities[e].suffer_damage {
                Some(pending) => pending,
                None => Seq::empty(),
            },
        ) <= i32::MAX,
    ensures
        w.after_melee().after_damage().entities[e].combat_stats is Some,
        w.entities[e].combat_stats->0.hp - w.after_melee().after_damage().entities[e].combat_stats->0.hp
            == spec_total(
            match w.after_melee().entities[e].suffer_damage {
                Some(pending) => pending,
                None => Seq::empty(),
            },
        ),
        forall|t: int|
            0 <= t < w.entities.len() ==> (
            #[trigger] w.after_melee().after_damage().entities[t]).suffer_damage is None,
{
    let m = w.after_melee();
    assert(m.entities[e].combat_stats == w.entities[e].combat_stats);
    assert(spec_total(Seq::<i32>::empty()) == 0);
}

/// What is pending on an entity after the melee system is what was pending
/// before, followed by the hits of this tick.
pub proof fn lemma_pending_after_melee(w: WorldSpec, t: int)
    requires
        0 <= t < w.entities.len(),
    ensures
        w.after_melee().entities[t].suffer_damage == spec_pending_plus(
            w.entities[t].suffer_damage,
            w.melee_hits(t, w.entities.len() as int),
        ),
{
}

} // verus!
