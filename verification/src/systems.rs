//! The two halves of the system pipeline that need no path: visibility
//! before the monsters and creatures decide, and indexing, melee, damage
//! and the inventory systems after. The module `pipeline` runs the whole
//! of a tick step by step, with these halves as two of its steps.

use vstd::prelude::*;
use crate::combat::{DamageSystem, MeleeSystem};
use crate::components::{Entity, EntitySpec};
use crate::indexing::MapIndexingSystem;
use crate::inventory::{ItemCollectionSystem, ItemDropSystem, ItemUseSystem};
use crate::state::{RunState, State};
use crate::visibility::VisibilitySystem;
use crate::world::{lemma_wf_reads, WorldSpec};

verus! {

impl WorldSpec {
    /// The world with the turn handed back to the player, if the
    /// simulation was ticking.
    pub open spec fn with_turn_ended(self) -> WorldSpec {
        if self.run_state == RunState::Ticking {
            WorldSpec { run_state: RunState::AwaitingInput, ..self }
        } else {
            self
        }
    }

    /// The world after the second half of the pipeline: the index is
    /// rebuilt, then melee is resolved, then damage is applied, then items
    /// are picked up, used and dropped, and the turn goes back to the
    /// player.
    pub open spec fn after_resolution(self) -> WorldSpec {
        let fought = self.after_indexing().after_melee().after_damage();
        fought.after_item_collection().after_item_use().after_item_drop().with_turn_ended()
    }
}

impl State {
    /// The first half of the pipeline: the visibility system.
    pub fn run_systems_before_ai(&mut self, rng: &mut rltk::RandomNumberGenerator)
        requires
            old(self).ecs@.wf(),
        ensures
            old(self).ecs@.visibility_outcome(final(self).ecs@),
            final(self).mapgen_next_state == old(self).mapgen_next_state,
            final(self).ecs@.wf(),
    {
        let mut vis = VisibilitySystem {  };
        vis.run(&mut self.ecs, rng);
    }

    /// The second half of the pipeline, run once the monsters have decided:
    /// indexing, melee, damage, item collection, item use, item drop, in
    /// this order, and then the end of the turn.
    pub fn run_systems_after_ai(&mut self)
        requires
            old(self).ecs@.wf(),
        ensures
            final(self).ecs@ == old(self).ecs@.after_resolution(),
            final(self).mapgen_next_state == old(self).mapgen_next_state,
            final(self).ecs@.wf(),
    {
        let mut mapindex = MapIndexingSystem {  };
        mapindex.run(&mut self.ecs);
        let mut melee = MeleeSystem {  };
        melee.run(&mut self.ecs);
        let mut damage = DamageSystem {  };
        damage.run(&mut self.ecs);
        let mut pickup = ItemCollectionSystem {  };
        pickup.run(&mut self.ecs);
        let mut itemuse = ItemUseSystem {  };
        itemuse.run(&mut self.ecs);
        let mut drop_items = ItemDropSystem {  };
        drop_items.run(&mut self.ecs);
        let ghost resolved = self.ecs@;
        if self.ecs.run_state == RunState::Ticking {
            self.ecs.run_state = RunState::AwaitingInput;
            proof {
                assert(self.ecs@.entities =~= resolved.entities);
                assert(self.ecs@.dungeon =~= resolved.dungeon);
                lemma_wf_reads(resolved, self.ecs@);
            }
        }
    }
}

/// Each of the four wishes of `b` is the wish of `a`, or gone.
pub open spec fn wishes_fade(a: EntitySpec, b: EntitySpec) -> bool {
    &&& (b.wants_to_melee == a.wants_to_melee || b.wants_to_melee is None)
    &&& (b.wants_to_pickup == a.wants_to_pickup || b.wants_to_pickup is None)
    &&& (b.wants_to_use == a.wants_to_use || b.wants_to_use is None)
    &&& (b.wants_to_drop == a.wants_to_drop || b.wants_to_drop is None)
}

/// World `b` has the records of `a`, and no wish in it is new.
pub open spec fn no_new_wishes(a: WorldSpec, b: WorldSpec) -> bool {
    &&& b.entities.len() == a.entities.len()
    &&& forall|e: int|
        0 <= e < a.entities.len() ==> wishes_fade(a.entities[e], #[trigger] b.entities[e])
}

proof fn lemma_no_new_wishes_trans(a: WorldSpec, b: WorldSpec, c: WorldSpec)
    requires
        no_new_wishes(a, b),
        no_new_wishes(b, c),
    ensures
        no_new_wishes(a, c),
{
    assert forall|e: int| 0 <= e < a.entities.len() implies wishes_fade(
        a.entities[e],
        #[trigger] c.entities[e],
    ) by {
        assert(wishes_fade(a.entities[e], b.entities[e]));
        assert(wishes_fade(b.entities[e], c.entities[e]));
    }
}

proof fn lemma_pickups_make_no_wishes(w: WorldSpec, n: int)
    requires
        0 <= n <= w.entities.len(),
    ensures
        no_new_wishes(w, w.after_pickups(n)),
    decreases n,
{
    if n > 0 {
        lemma_pickups_make_no_wishes(w, n - 1);
        let prev = w.after_pickups(n - 1);
        assert(no_new_wishes(prev, prev.after_pickup_of(n - 1)));
        lemma_no_new_wishes_trans(w, prev, prev.after_pickup_of(n - 1));
    }
}

proof fn lemma_drops_make_no_wishes(w: WorldSpec, n: int)
    requires
        0 <= n <= w.entities.len(),
    ensures
        no_new_wishes(w, w.after_drops(n)),
    decreases n,
{
    if n > 0 {
        lemma_drops_make_no_wishes(w, n - 1);
        let prev = w.after_drops(n - 1);
        assert(no_new_wishes(prev, prev.after_drop_of(n - 1)));
        lemma_no_new_wishes_trans(w, prev, prev.after_drop_of(n - 1));
    }
}

proof fn lemma_heals_make_no_wishes(
    w: WorldSpec,
    user: int,
    item: Entity,
    amount: i32,
    targets: Seq<Entity>,
    k: int,
)
    requires
        0 <= k <= targets.len(),
    ensures
        no_new_wishes(w, w.after_heals(user, item, amount, targets, k)),
    decreases k,
{
    if k > 0 {
        lemma_heals_make_no_wishes(w, user, item, amount, targets, k - 1);
        let prev = w.after_heals(user, item, amount, targets, k - 1);
        let next = prev.after_heal_of(user, item, amount, targets[k - 1]);
        assert(no_new_wishes(prev, next));
        lemma_no_new_wishes_trans(w, prev, next);
    }
}

proof fn lemma_harms_make_no_wishes(
    w: WorldSpec,
    user: int,
    item: Entity,
    amount: i32,
    targets: Seq<Entity>,
    k: int,
)
    requires
        0 <= k <= targets.len(),
    ensures
        no_new_wishes(w, w.after_harms(user, item, amount, targets, k)),
    decreases k,
{
    if k > 0 {
        lemma_harms_make_no_wishes(w, user, item, amount, targets, k - 1);
        let prev = w.after_harms(user, item, amount, targets, k - 1);
        let next = prev.after_harm_of(user, item, amount, targets[k - 1]);
        assert(no_new_wishes(prev, next));
        lemma_no_new_wishes_trans(w, prev, next);
    }
}

proof fn lemma_confusions_make_no_wishes(
    w: WorldSpec,
    user: int,
    item: Entity,
    turns: i32,
    targets: Seq<Entity>,
    k: int,
)
    requires
        0 <= k <= targets.len(),
    ensures
        no_new_wishes(w, w.after_confusions(user, item, turns, targets, k)),
    decreases k,
{
    if k > 0 {
        lemma_confusions_make_no_wishes(w, user, item, turns, targets, k - 1);
        let prev = w.after_confusions(user, item, turns, targets, k - 1);
        let next = prev.after_confusion_of(user, item, turns, targets[k - 1]);
        assert(no_new_wishes(prev, next));
        lemma_no_new_wishes_trans(w, prev, next);
    }
}

proof fn lemma_effects_make_no_wishes(w: WorldSpec, user: int, item: Entity, targets: Seq<Entity>)
    ensures
        no_new_wishes(w, w.after_effects(user, item, targets)),
{
    let it = w.item_record(item);
    let n = targets.len() as int;
    let w1 = match it.provides_healing {
        Some(h) => w.after_heals(user, item, h.heal_amount, targets, n),
        None => w,
    };
    let w2 = match it.inflicts_damage {
        Some(d) => w1.after_harms(user, item, d.damage, targets, n),
        None => w1,
    };
    let w3 = match it.confusion {
        Some(c) => w2.after_confusions(user, item, c.turns, targets, n),
        None => w2,
    };
    if it.provides_healing is Some {
        lemma_heals_make_no_wishes(w, user, item, it.provides_healing->0.heal_amount, targets, n);
    }
    if it.inflicts_damage is Some {
        lemma_harms_make_no_wishes(w1, user, item, it.inflicts_damage->0.damage, targets, n);
    }
    if it.confusion is Some {
        lemma_confusions_make_no_wishes(w2, user, item, it.confusion->0.turns, targets, n);
    }
    lemma_no_new_wishes_trans(w, w1, w2);
    lemma_no_new_wishes_trans(w, w2, w3);
}

proof fn lemma_uses_make_no_wishes(w: WorldSpec, n: int)
    requires
        0 <= n <= w.entities.len(),
    ensures
        no_new_wishes(w, w.after_uses(n)),
    decreases n,
{
    if n > 0 {
        lemma_uses_make_no_wishes(w, n - 1);
        let prev = w.after_uses(n - 1);
        match prev.entities[n - 1].wants_to_use {
            Some(wish) => {
                lemma_effects_make_no_wishes(
                    prev,
                    n - 1,
                    wish.item,
                    prev.item_targets(n - 1, wish.item, wish.target),
                );
            },
            None => {},
        }
        lemma_no_new_wishes_trans(w, prev, prev.after_use_of(n - 1));
    }
}

/// No wish outlives the tick it was made in: once the second half of the
/// pipeline has run, no one wants to melee, to pick up, to use or to drop
/// anything, whatever came of the wish.
pub proof fn lemma_wishes_are_consumed(w: WorldSpec, e: int)
    requires
        0 <= e < w.entities.len(),
    ensures
        w.after_resolution().entities.len() == w.entities.len(),
        w.after_resolution().entities[e].wants_to_melee is None,
        w.after_resolution().entities[e].wants_to_pickup is None,
        w.after_resolution().entities[e].wants_to_use is None,
        w.after_resolution().entities[e].wants_to_drop is None,
{
    let n = w.entities.len() as int;
    let indexed = w.after_indexing();
    let fought = indexed.after_melee();
    let hurt = fought.after_damage();
    assert(fought.entities[e].wants_to_melee is None);
    assert(hurt.entities[e].wants_to_melee is None);
    // item collection
    lemma_pickups_make_no_wishes(hurt, n);
    let picked = hurt.after_pickups(n);
    assert(wishes_fade(hurt.entities[e], picked.entities[e]));
    let collected = hurt.after_item_collection();
    assert(collected.entities[e].wants_to_melee is None);
    assert(collected.entities[e].wants_to_pickup is None);
    // item use
    lemma_uses_make_no_wishes(collected, n);
    let used = collected.after_uses(n);
    assert(wishes_fade(collected.entities[e], used.entities[e]));
    let swept = used.without_all(collected.spent_items(n));
    assert(wishes_fade(used.entities[e], swept.entities[e]));
    let spent = collected.after_item_use();
    assert(spent.entities[e].wants_to_melee is None);
    assert(spent.entities[e].wants_to_pickup is None);
    assert(spent.entities[e].wants_to_use is None);
    // item drop
    lemma_drops_make_no_wishes(spent, n);
    let dropped = spent.after_drops(n);
    assert(wishes_fade(spent.entities[e], dropped.entities[e]));
    let done = spent.after_item_drop();
    assert(done.entities[e].wants_to_drop is None);
}


proof fn lemma_pickups_keep_the_run_state(w: WorldSpec, n: int)
    requires
        0 <= n <= w.entities.len(),
    ensures
        w.after_pickups(n).run_state == w.run_state,
    decreases n,
{
    if n > 0 {
        lemma_pickups_keep_the_run_state(w, n - 1);
    }
}

proof fn lemma_drops_keep_the_run_state(w: WorldSpec, n: int)
    requires
        0 <= n <= w.entities.len(),
    ensures
        w.after_drops(n).run_state == w.run_state,
    decreases n,
{
    if n > 0 {
        lemma_drops_keep_the_run_state(w, n - 1);
    }
}

proof fn lemma_heals_keep_the_run_state(
    w: WorldSpec,
    user: int,
    item: Entity,
    amount: i32,
    targets: Seq<Entity>,
    k: int,
)
    requires
        0 <= k <= targets.len(),
    ensures
        w.after_heals(user, item, amount, targets, k).run_state == w.run_state,
    decreases k,
{
    if k > 0 {
        lemma_heals_keep_the_run_state(w, user, item, amount, targets, k - 1);
    }
}

proof fn lemma_harms_keep_the_run_state(
    w: WorldSpec,
    user: int,
    item: Entity,
    amount: i32,
    targets: Seq<Entity>,
    k: int,
)
    requires
        0 <= k <= targets.len(),
    ensures
        w.after_harms(user, item, amount, targets, k).run_state == w.run_state,
    decreases k,
{
    if k > 0 {
        lemma_harms_keep_the_run_state(w, user, item, amount, targets, k - 1);
    }
}

proof fn lemma_confusions_keep_the_run_state(
    w: WorldSpec,
    user: int,
    item: Entity,
    turns: i32,
    targets: Seq<Entity>,
    k: int,
)
    requires
        0 <= k <= targets.len(),
    ensures
        w.after_confusions(user, item, turns, targets, k).run_state == w.run_state,
    decreases k,
{
    if k > 0 {
        lemma_confusions_keep_the_run_state(w, user, item, turns, targets, k - 1);
    }
}

proof fn lemma_uses_keep_the_run_state(w: WorldSpec, n: int)
    requires
        0 <= n <= w.entities.len(),
    ensures
        w.after_uses(n).run_state == w.run_state,
    decreases n,
{
    if n > 0 {
        lemma_uses_keep_the_run_state(w, n - 1);
        let prev = w.after_uses(n - 1);
        match prev.entities[n - 1].wants_to_use {
            Some(wish) => {
                let targets = prev.item_targets(n - 1, wish.item, wish.target);
                let it = prev.item_record(wish.item);
                let k = targets.len() as int;
                let w1 = match it.provides_healing {
                    Some(h) => prev.after_heals(n - 1, wish.item, h.heal_amount, targets, k),
                    None => prev,
                };
                let w2 = match it.inflicts_damage {
                    Some(d) => w1.after_harms(n - 1, wish.item, d.damage, targets, k),
                    None => w1,
                };
                if it.provides_healing is Some {
                    lemma_heals_keep_the_run_state(
                        prev,
                        n - 1,
                        wish.item,
                        it.provides_healing->0.heal_amount,
                        targets,
                        k,
                    );
                }
                if it.inflicts_damage is Some {
                    lemma_harms_keep_the_run_state(
                        w1,
                        n - 1,
                        wish.item,
                        it.inflicts_damage->0.damage,
                        targets,
                        k,
                    );
                }
                if it.confusion is Some {
                    lemma_confusions_keep_the_run_state(
                        w2,
                        n - 1,
                        wish.item,
                        it.confusion->0.turns,
                        targets,
                        k,
                    );
                }
            },
            None => {},
        }
    }
}

/// The second half of the pipeline ends the turn and does nothing else to
/// the run state: where the simulation was ticking, input is awaited, and
/// any other state is left as it is.
pub proof fn lemma_resolution_ends_the_turn(w: WorldSpec)
    requires
        w.entities.len() <= usize::MAX,
    ensures
        w.after_resolution().run_state == w.with_turn_ended().run_state,
{
    let fought = w.after_indexing().after_melee().after_damage();
    let n = fought.entities.len() as int;
    lemma_pickups_keep_the_run_state(fought, n);
    let picked = fought.after_item_collection();
    lemma_uses_keep_the_run_state(picked, picked.entities.len() as int);
    let used = picked.after_item_use();
    lemma_drops_keep_the_run_state(used, used.entities.len() as int);
}

} // verus!
