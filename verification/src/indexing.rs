//! The spatial index: which tiles are blocked and who stands where. It is
//! rebuilt from the positions once per tick, before anything asks it.

use vstd::prelude::*;
use crate::components::Entity;
use crate::map::{lemma_idx_in_range, MapSpec};
use crate::tiles::spec_tile_walkable;
use crate::world::{World, WorldSpec};

verus! {

impl WorldSpec {
    /// Entity `e` has a position, and it is tile `t`.
    pub open spec fn stands_on(self, e: int, t: int) -> bool {
        self.entities[e].position matches Some(p) && self.map.idx(p.x as int, p.y as int) == t
    }

    /// Among the entities before index `n`, one that blocks its tile stands
    /// on `t`.
    pub open spec fn blocker_on(self, t: int, n: int) -> bool {
        exists|e: int|
            0 <= e < n && #[trigger] self.stands_on(e, t) && self.entities[e].blocks_tile is Some
    }

    /// The entities before index `n` that stand on `t`, in index order.
    pub open spec fn occupants(self, t: int, n: int) -> Seq<Entity>
        decreases n,
    {
        if n <= 0 {
            Seq::empty()
        } else if self.stands_on(n - 1, t) {
            self.occupants(t, n - 1).push(Entity { id: (n - 1) as usize })
        } else {
            self.occupants(t, n - 1)
        }
    }

    /// The map with its index built from the entities before index `n`: a
    /// tile is blocked by its terrain or by a blocking entity on it, and its
    /// occupant list holds who stands on it.
    pub open spec fn indexed_map(self, n: int) -> MapSpec {
        MapSpec {
            blocked: Seq::new(
                self.map.tiles.len(),
                |t: int| !spec_tile_walkable(self.map.tiles[t]) || self.blocker_on(t, n),
            ),
            tile_content: Seq::new(self.map.tile_content.len(), |t: int| self.occupants(t, n)),
            ..self.map
        }
    }

    /// The world after the indexing system.
    pub open spec fn after_indexing(self) -> WorldSpec {
        WorldSpec { map: self.indexed_map(self.entities.len() as int), ..self }
    }
}

/// The indexing system.
pub struct MapIndexingSystem {}

impl MapIndexingSystem {
    /// Rebuilds the blocked flags and the occupant lists from scratch:
    /// nothing of the previous tick's index survives.
    pub fn run(&mut self, world: &mut World)
        requires
            old(world)@.wf(),
        ensures
            final(world)@ == old(world)@.after_indexing(),
            final(world)@.wf(),
    {
        let ghost start = world@;
        world.map.populate_blocked();
        world.map.clear_content_index();
        let n: usize = world.entities.len();
        assert(world@.entities =~= start.entities);
        assert(world@.dungeon =~= start.dungeon);
        assert(world@.map =~= start.indexed_map(0)) by {
            assert(world@.map.blocked =~= start.indexed_map(0).blocked);
            assert(world@.map.tile_content =~= start.indexed_map(0).tile_content);
        }
        let mut i: usize = 0;
        while i < n
            invariant
                i <= n,
                n == start.entities.len(),
                start.wf(),
                world.map@.wf(),
                world@ == (WorldSpec { map: start.indexed_map(i as int), ..start }),
            decreases n - i,
        {
            let ghost before = world@;
            match world.entities[i].position {
                Some(p) => {
                    assert(start.entity_wf(i as int));
                    let idx = world.map.xy_idx(p.x, p.y);
                    if world.entities[i].blocks_tile.is_some() {
                        world.map.blocked[idx] = true;
                    }
                    world.map.tile_content[idx].push(Entity { id: i });
                },
                None => {},
            }
            proof {
                let goal = start.indexed_map(i as int + 1);
                assert(world@.entities =~= start.entities);
                assert(world@.dungeon =~= start.dungeon);
                assert forall|t: int| 0 <= t < goal.blocked.len() implies world@.map.blocked[t]
                    == goal.blocked[t] by {
                    if start.blocker_on(t, i as int) {
                        let e = choose|e: int|
                            0 <= e < i && #[trigger] start.stands_on(e, t)
                                && start.entities[e].blocks_tile is Some;
                        assert(start.stands_on(e, t));
                        assert(start.blocker_on(t, i as int + 1));
                    }
                    if start.blocker_on(t, i as int + 1) {
                        let e = choose|e: int|
                            0 <= e < i + 1 && #[trigger] start.stands_on(e, t)
                                && start.entities[e].blocks_tile is Some;
                        if e < i {
                            assert(start.blocker_on(t, i as int));
                        }
                    }
                    if start.stands_on(i as int, t) && start.entities[i as int].blocks_tile is Some {
                        assert(start.blocker_on(t, i as int + 1));
                    }
                }
                assert(world@.map.blocked =~= goal.blocked);
                assert forall|t: int| 0 <= t < goal.tile_content.len() implies world@.map.tile_content[t]
                    == goal.tile_content[t] by {
                    assert(before.map.tile_content[t] == start.occupants(t, i as int));
                    match start.entities[i as int].position {
                        Some(p) => {
                            lemma_idx_in_range(start.map, p.x as int, p.y as int);
                            let idx = start.map.idx(p.x as int, p.y as int);
                            if t == idx {
                                assert(world@.map.tile_content[t] == before.map.tile_content[t].push(
                                    Entity { id: i },
                                ));
                            } else {
                                assert(world@.map.tile_content[t] == before.map.tile_content[t]);
                            }
                        },
                        None => {
                            assert(world@.map.tile_content[t] == before.map.tile_content[t]);
                        },
                    }
                }
                assert(world@.map.tile_content =~= goal.tile_content);
            }
            i += 1;
        }
        proof {
            lemma_after_indexing_wf(start);
        }
    }
}

/// Indexing keeps a well-formed world well-formed.
pub proof fn lemma_after_indexing_wf(w: WorldSpec)
    requires
        w.wf(),
    ensures
        w.after_indexing().wf(),
{
    let w2 = w.after_indexing();
    assert forall|i: int| 0 <= i < w2.entities.len() implies #[trigger] w2.entity_wf(i) by {
        assert(w.entity_wf(i));
    }
}

/// After indexing, a tile is blocked if and only if its terrain cannot be
/// walked on or an entity that blocks its tile stands on it.
pub proof fn lemma_blocked_iff_wall_or_blocker(w: WorldSpec, t: int)
    requires
        w.wf(),
        0 <= t < w.map.size(),
    ensures
        w.after_indexing().map.blocked[t] <==> (!spec_tile_walkable(w.map.tiles[t]) || exists|
            e: int,
        |
            0 <= e < w.entities.len() && w.entities[e].blocks_tile is Some
                && #[trigger] w.stands_on(e, t)),
{
    if w.blocker_on(t, w.entities.len() as int) {
        let e = choose|e: int|
            0 <= e < w.entities.len() && #[trigger] w.stands_on(e, t)
                && w.entities[e].blocks_tile is Some;
        assert(w.stands_on(e, t));
    }
}

/// After indexing, an entity is listed on a tile if and only if it stands
/// there, and no entity is listed twice.
pub proof fn lemma_occupants_are_who_stands_there(w: WorldSpec, t: int, n: int)
    requires
        0 <= n <= w.entities.len() <= usize::MAX,
    ensures
        forall|k: int|
            0 <= k < w.occupants(t, n).len() ==> {
                let e = #[trigger] w.occupants(t, n)[k];
                e.id < n && w.stands_on(e.id as int, t)
            },
        forall|e: int| 0 <= e < n && w.stands_on(e, t) ==> crate::world::names(w.occupants(t, n), e),
        forall|j: int, k: int|
            0 <= j < k < w.occupants(t, n).len() ==> w.occupants(t, n)[j].id < w.occupants(
                t,
                n,
            )[k].id,
    decreases n,
{
    if n > 0 {
        lemma_occupants_are_who_stands_there(w, t, n - 1);
        let prev = w.occupants(t, n - 1);
        assert forall|e: int| 0 <= e < n && w.stands_on(e, t) implies crate::world::names(
            w.occupants(t, n),
            e,
        ) by {
            if e < n - 1 {
                assert(crate::world::names(prev, e));
                let k = choose|k: int| 0 <= k < prev.len() && (#[trigger] prev[k]).id == e;
                assert(w.occupants(t, n)[k].id == e);
            } else {
                assert(w.occupants(t, n)[prev.len() as int].id == e);
            }
        }
    }
}

} // verus!
