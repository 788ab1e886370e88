//! Entry triggers: what an entity sets off by moving onto a tile.

use vstd::prelude::*;
use crate::components::{copy_name, Entity, EntitySpec};
use crate::gamelog::LogEntry;
use crate::world::{World, WorldSpec};

verus! {

/// One trigger that was set off: by whom, which trigger, on which tile,
/// and, if the trigger has an area of effect, within which radius of that
/// tile its effect is felt.
#[derive(Clone, Copy, Debug, PartialEq, Eq, Structural)]
pub struct Firing {
    pub creator: Entity,
    pub trigger: Entity,
    pub tile_idx: usize,
    pub radius: Option<i32>,
}

/// The trigger system.
pub struct TriggerSystem {}

impl WorldSpec {
    /// Entity `e` moved this tick and stands somewhere.
    pub open spec fn moved(self, e: int) -> bool {
        self.entities[e].entity_moved is Some && self.entities[e].position is Some
    }

    /// The tile that `e` stands on.
    pub open spec fn tile_of(self, e: int) -> int {
        self.map.idx(
            self.entities[e].position->0.x as int,
            self.entities[e].position->0.y as int,
        )
    }

    /// `occupant` is a trigger that `e` sets off: another entity, with an
    /// entry trigger.
    pub open spec fn sets_off(self, e: int, occupant: Entity) -> bool {
        &&& occupant.id != e
        &&& occupant.id < self.entities.len()
        &&& self.entities[occupant.id as int].entry_trigger is Some
    }

    /// The firing of `occupant` by `e`.
    pub open spec fn firing_of(self, e: int, occupant: Entity) -> Firing {
        Firing {
            creator: Entity { id: e as usize },
            trigger: occupant,
            tile_idx: self.tile_of(e) as usize,
            radius: match self.entities[occupant.id as int].area_of_effect {
                Some(a) => Some(a.radius),
                None => None,
            },
        }
    }

    /// The triggers that `e` sets off among the first `k` occupants of its
    /// tile.
    pub open spec fn firings_by(self, e: int, k: int) -> Seq<Firing>
        decreases k,
    {
        if k <= 0 {
            Seq::empty()
        } else {
            let occupant = self.map.tile_content[self.tile_of(e)][k - 1];
            if self.sets_off(e, occupant) {
                self.firings_by(e, k - 1).push(self.firing_of(e, occupant))
            } else {
                self.firings_by(e, k - 1)
            }
        }
    }

    /// The log entries for the named triggers that `e` sets off among the
    /// first `k` occupants of its tile.
    pub open spec fn trigger_log_by(self, e: int, k: int) -> Seq<LogEntry>
        decreases k,
    {
        if k <= 0 {
            Seq::empty()
        } else {
            let occupant = self.map.tile_content[self.tile_of(e)][k - 1];
            if self.sets_off(e, occupant) && self.entities[occupant.id as int].name is Some {
                self.trigger_log_by(e, k - 1).push(
                    LogEntry::Triggers { what: self.entities[occupant.id as int].name },
                )
            } else {
                self.trigger_log_by(e, k - 1)
            }
        }
    }

    /// The number of occupants of the tile that `e` stands on.
    pub open spec fn company_of(self, e: int) -> int {
        self.map.tile_content[self.tile_of(e)].len() as int
    }

    /// The triggers that the entities before index `n` set off, in index
    /// order of the movers.
    pub open spec fn firings(self, n: int) -> Seq<Firing>
        decreases n,
    {
        if n <= 0 {
            Seq::empty()
        } else if self.moved(n - 1) {
            self.firings(n - 1) + self.firings_by(n - 1, self.company_of(n - 1))
        } else {
            self.firings(n - 1)
        }
    }

    /// The log entries for the triggers that the entities before index `n`
    /// set off.
    pub open spec fn trigger_log(self, n: int) -> Seq<LogEntry>
        decreases n,
    {
        if n <= 0 {
            Seq::empty()
        } else if self.moved(n - 1) {
            self.trigger_log(n - 1) + self.trigger_log_by(n - 1, self.company_of(n - 1))
        } else {
            self.trigger_log(n - 1)
        }
    }

    /// The world after the trigger system: the named triggers that were set
    /// off are in the log, and no one is marked as moved.
    pub open spec fn after_triggers(self) -> WorldSpec {
        WorldSpec {
            entities: Seq::new(
                self.entities.len(),
                |i: int| EntitySpec { entity_moved: None, ..self.entities[i] },
            ),
            log: self.log + self.trigger_log(self.entities.len() as int),
            ..self
        }
    }
}

impl TriggerSystem {
    /// Finds what was set off by those who moved this tick: every entity
    /// with an entry trigger that shares a tile with a mover, other than
    /// the mover itself. The firings are handed to the caller, who applies
    /// their effects. No one is marked as moved afterwards.
    pub fn run(&mut self, world: &mut World) -> (fired: Vec<Firing>)
        requires
            old(world)@.wf(),
        ensures
            final(world)@ == old(world)@.after_triggers(),
            fired@ == old(world)@.firings(old(world)@.entities.len() as int),
            final(world)@.wf(),
    {
        let ghost start = world@;
        let n: usize = world.entities.len();
        let mut fired: Vec<Firing> = Vec::new();
        assert(world@.log =~= start.log + start.trigger_log(0));
        let mut e: usize = 0;
        while e < n
            invariant
                e <= n,
                n == start.entities.len(),
                start.wf(),
                world@.wf(),
                world@ == (WorldSpec { log: start.log + start.trigger_log(e as int), ..start }),
                fired@ == start.firings(e as int),
            decreases n - e,
        {
            let here = match (world.entities[e].entity_moved, world.entities[e].position) {
                (Some(_), Some(p)) => Some(p),
                _ => None,
            };
            match here {
                Some(p) => {
                    assert(start.entity_wf(e as int));
                    let idx = world.map.xy_idx(p.x, p.y);
                    assert(world.map@.tile_content[idx as int] == world.map.tile_content@[idx as int]@);
                    let count: usize = world.map.tile_content[idx].len();
                    let ghost fired_before = fired@;
                    let ghost log_before = world@.log;
                    assert(fired@ =~= fired_before + start.firings_by(e as int, 0));
                    assert(world@.log =~= log_before + start.trigger_log_by(e as int, 0));
                    let mut k: usize = 0;
                    while k < count
                        invariant
                            k <= count,
                            e < n,
                            n == start.entities.len(),
                            start.wf(),
                            world@.wf(),
                            start.moved(e as int),
                            idx == start.tile_of(e as int),
                            idx < world.map.tile_content@.len(),
                            count == start.company_of(e as int),
                            count == world.map.tile_content@[idx as int]@.len(),
                            world.map.tile_content@[idx as int]@ == start.map.tile_content[idx as int],
                            log_before == start.log + start.trigger_log(e as int),
                            world@ == (WorldSpec {
                                log: log_before + start.trigger_log_by(e as int, k as int),
                                ..start
                            }),
                            fired@ == fired_before + start.firings_by(e as int, k as int),
                        decreases count - k,
                    {
                        let occupant = world.map.tile_content[idx][k];
                        if occupant.id != e && occupant.id < world.entities.len()
                            && world.entities[occupant.id].entry_trigger.is_some() {
                            if world.entities[occupant.id].name.is_some() {
                                let what = copy_name(&world.entities[occupant.id].name);
                                world.push_log(LogEntry::Triggers { what });
                            }
                            let radius = match world.entities[occupant.id].area_of_effect {
                                Some(a) => Some(a.radius),
                                None => None,
                            };
                            fired.push(
                                Firing { creator: Entity { id: e }, trigger: occupant, tile_idx: idx, radius },
                            );
                        }
                        k += 1;
                        assert(fired@ =~= fired_before + start.firings_by(e as int, k as int));
                        assert(world@.log =~= log_before + start.trigger_log_by(e as int, k as int));
                    }
                    assert(world@.log =~= start.log + start.trigger_log(e as int + 1));
                    assert(fired@ =~= start.firings(e as int + 1));
                },
                None => {},
            }
            e += 1;
        }
        let ghost logged = world@;
        assert(world@.entities.len() == world.entities@.len());
        let mut i: usize = 0;
        while i < n
            invariant
                i <= n,
                n == logged.entities.len(),
                n == world.entities@.len(),
                world@ == (WorldSpec { entities: world@.entities, ..logged }),
                forall|t: int|
                    0 <= t < n ==> world@.entities[t] == (if t < i {
                        EntitySpec { entity_moved: None, ..logged.entities[t] }
                    } else {
                        logged.entities[t]
                    }),
            decreases n - i,
        {
            let ghost before = world@;
            world.entities[i].entity_moved = None;
            assert(world@.dungeon =~= logged.dungeon);
            assert forall|t: int| 0 <= t < n implies world@.entities[t] == (if t < i + 1 {
                EntitySpec { entity_moved: None, ..logged.entities[t] }
            } else {
                logged.entities[t]
            }) by {
                if t != i {
                    assert(world@.entities[t] == before.entities[t]);
                }
            }
            i += 1;
        }
        assert(world@.entities =~= start.after_triggers().entities);
        proof {
            assert forall|j: int| 0 <= j < n implies #[trigger] world@.entity_wf(j) by {
                assert(start.entity_wf(j));
            }
        }
        fired
    }
}

} // verus!
