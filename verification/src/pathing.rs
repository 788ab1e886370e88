//! Taking the first step of a path. The path itself is searched for by the
//! caller, over the exits and distances that the map hands out; a step is
//! taken only if it is one of those exits.

use vstd::prelude::*;
use crate::components::{Entity, EntityMoved, EntitySpec, Position, ViewshedSpec};
use crate::map::{lemma_idx_in_range, lemma_point_of_index, MapSpec};
use crate::world::{World, WorldSpec};

verus! {

/// The outcome of a path search: whether a path was found, and the tile
/// indices along it, beginning with the tile the search started from.
#[derive(Debug)]
pub struct NavigationPath {
    pub success: bool,
    pub steps: Vec<usize>,
}

impl MapSpec {
    /// A single step leads from tile `from` to tile `to`: `to` is another
    /// tile of the map, in the interior, not blocked, and touches `from`.
    pub open spec fn step_is_open(self, from: int, to: int) -> bool {
        &&& 0 <= to < self.size()
        &&& to != from
        &&& self.exit_valid(self.x_of(to), self.y_of(to))
        &&& -1 <= self.x_of(to) - self.x_of(from) <= 1
        &&& -1 <= self.y_of(to) - self.y_of(from) <= 1
    }
}

impl WorldSpec {
    /// Entity `e` takes the first step of `steps`: it stands somewhere, a
    /// path was found that has a step beyond its start, and that step is
    /// open from where `e` stands.
    pub open spec fn takes_step(self, e: Entity, success: bool, steps: Seq<usize>) -> bool {
        &&& self.is_alive(e)
        &&& self.entities[e.id as int].position is Some
        &&& success
        &&& steps.len() > 1
        &&& self.map.step_is_open(
            self.map.idx(
                self.entities[e.id as int].position->0.x as int,
                self.entities[e.id as int].position->0.y as int,
            ),
            steps[1] as int,
        )
    }

    /// The world once `e` has followed a path for one step, if it takes
    /// the step: the tile it leaves is no longer blocked, the tile it enters
    /// is, it stands on the new tile and is marked as moved, and its
    /// viewshed, if it has one, is out of date. Otherwise nothing changes.
    pub open spec fn after_path_step(self, e: Entity, success: bool, steps: Seq<usize>)
        -> WorldSpec {
        if self.takes_step(e, success, steps) {
            let rec = self.entities[e.id as int];
            let from = self.map.idx(rec.position->0.x as int, rec.position->0.y as int);
            let to = steps[1] as int;
            WorldSpec {
                entities: self.entities.update(
                    e.id as int,
                    EntitySpec {
                        position: Some(
                            Position {
                                x: self.map.x_of(to) as i32,
                                y: self.map.y_of(to) as i32,
                            },
                        ),
                        viewshed: match rec.viewshed {
                            Some(v) => Some(ViewshedSpec { dirty: true, ..v }),
                            None => None,
                        },
                        entity_moved: Some(EntityMoved {  }),
                        ..rec
                    },
                ),
                map: MapSpec {
                    blocked: self.map.blocked.update(from, false).update(to, true),
                    ..self.map
                },
                ..self
            }
        } else {
            self
        }
    }
}

impl crate::map::TileMap {
    /// Whether a single step leads from tile `from` to tile `to`.
    pub fn is_step_open(&self, from: usize, to: usize) -> (r: bool)
        requires
            self@.wf(),
            from < self@.size(),
        ensures
            r == self@.step_is_open(from as int, to as int),
    {
        if to >= self.tiles.len() || to == from {
            return false;
        }
        let p = self.idx_xy(from);
        let q = self.idx_xy(to);
        self.is_exit_valid(q.x, q.y) && q.x - p.x >= -1 && q.x - p.x <= 1 && q.y - p.y >= -1
            && q.y - p.y <= 1
    }
}

/// Lets `e` follow `path` for one step, and says whether it moved. The
/// step is taken only if it is open from where `e` stands: a path that was
/// not searched for on this map as it is now moves no one.
pub fn take_path_step(world: &mut World, e: Entity, path: &NavigationPath) -> (moved: bool)
    requires
        old(world)@.wf(),
    ensures
        final(world)@ == old(world)@.after_path_step(e, path.success, path.steps@),
        moved == old(world)@.takes_step(e, path.success, path.steps@),
        final(world)@.wf(),
{
    let ghost before = world@;
    if !world.is_alive(e) || !path.success || path.steps.len() <= 1 {
        return false;
    }
    let here = match world.entities[e.id].position {
        Some(p) => p,
        None => {
            return false;
        },
    };
    assert(before.entity_wf(e.id as int));
    let from = world.map.xy_idx(here.x, here.y);
    let to = path.steps[1];
    if !world.map.is_step_open(from, to) {
        return false;
    }
    let q = world.map.idx_xy(to);
    world.map.blocked[from] = false;
    world.map.blocked[to] = true;
    world.entities[e.id].position = Some(Position { x: q.x, y: q.y });
    world.entities[e.id].entity_moved = Some(EntityMoved {  });
    match &mut world.entities[e.id].viewshed {
        Some(v) => {
            v.dirty = true;
        },
        None => {},
    }
    proof {
        let goal = before.after_path_step(e, path.success, path.steps@);
        assert(world@.entities =~= goal.entities);
        assert(world@.dungeon =~= goal.dungeon);
        assert(world@.map.tile_content =~= goal.map.tile_content);
        assert(world@.map =~= goal.map);
        assert forall|j: int| 0 <= j < world@.entities.len() implies #[trigger] world@.entity_wf(
            j,
        ) by {
            assert(before.entity_wf(j));
        }
    }
    true
}

/// A step along a path never ends on a tile that was blocked when the step
/// was taken, nor outside the interior of the map, and it ends next to
/// where it began.
pub proof fn lemma_step_lands_on_open_tile(
    w: WorldSpec,
    e: Entity,
    success: bool,
    steps: Seq<usize>,
)
    requires
        w.wf(),
        w.takes_step(e, success, steps),
    ensures
        ({
            let before = w.entities[e.id as int].position->0;
            let after = w.after_path_step(e, success, steps).entities[e.id as int].position->0;
            &&& !w.map.blocked[w.map.idx(after.x as int, after.y as int)]
            &&& w.map.interior(after.x as int, after.y as int)
            &&& -1 <= after.x - before.x <= 1
            &&& -1 <= after.y - before.y <= 1
            &&& after != before
        }),
{
    let rec = w.entities[e.id as int];
    assert(w.entity_wf(e.id as int));
    let from = w.map.idx(rec.position->0.x as int, rec.position->0.y as int);
    let to = steps[1] as int;
    lemma_idx_in_range(w.map, rec.position->0.x as int, rec.position->0.y as int);
    lemma_point_of_index(w.map, to);
}

/// Every tile that was blocked on map `start` and that no mover has left
/// since, `left` being the tiles that were left, is blocked on map `now`.
pub open spec fn still_blocked(start: MapSpec, left: Set<int>, now: MapSpec) -> bool {
    &&& now.blocked.len() == start.blocked.len()
    &&& forall|t: int|
        0 <= t < start.blocked.len() && start.blocked[t] && !left.contains(t)
            ==> #[trigger] now.blocked[t]
}

/// Over the steps that are taken one after another while a system runs,
/// no step ends on a tile that was blocked when the system began, unless
/// a mover has left that tile since. The first step of such a run
/// therefore never ends on a tile that was blocked at the beginning, and
/// after each step the same holds of the next, with the tile that was just
/// left counted among those that were left.
pub proof fn lemma_steps_keep_off_blocked_tiles(
    start: MapSpec,
    left: Set<int>,
    w: WorldSpec,
    e: Entity,
    success: bool,
    steps: Seq<usize>,
)
    requires
        w.wf(),
        still_blocked(start, left, w.map),
        w.takes_step(e, success, steps),
    ensures
        ({
            let before = w.entities[e.id as int].position->0;
            let from = w.map.idx(before.x as int, before.y as int);
            let next = w.after_path_step(e, success, steps);
            let after = next.entities[e.id as int].position->0;
            let to = w.map.idx(after.x as int, after.y as int);
            &&& 0 <= to < start.blocked.len()
            &&& to != from
            &&& !start.blocked[to] || left.contains(to)
            &&& still_blocked(start, left.insert(from), next.map)
        }),
{
    let rec = w.entities[e.id as int];
    assert(w.entity_wf(e.id as int));
    let from = w.map.idx(rec.position->0.x as int, rec.position->0.y as int);
    let to = steps[1] as int;
    lemma_idx_in_range(w.map, rec.position->0.x as int, rec.position->0.y as int);
    lemma_point_of_index(w.map, to);
    let next = w.after_path_step(e, success, steps);
    assert(!w.map.blocked[to]);
    assert forall|t: int|
        0 <= t < start.blocked.len() && start.blocked[t] && !left.insert(from).contains(
            t,
        ) implies #[trigger] next.map.blocked[t] by {
        assert(w.map.blocked[t]);
        assert(t != from);
    }
}

/// When a system begins, nothing has been left yet: every tile that is
/// blocked is blocked.
pub proof fn lemma_nothing_left_at_first(m: MapSpec)
    ensures
        still_blocked(m, Set::empty(), m),
{
}

/// A monster's decision leaves the map as it is, so what holds of the
/// blocked tiles before it holds after it.
pub proof fn lemma_decisions_move_no_one(w: WorldSpec, e: Entity)
    ensures
        w.after_monster_decision(e).map == w.map,
{
}

/// Whoever does not take a step stays where it is, and the blocked flags
/// stay as they are.
pub proof fn lemma_no_step_no_move(w: WorldSpec, e: Entity, success: bool, steps: Seq<usize>)
    requires
        !w.takes_step(e, success, steps),
    ensures
        w.after_path_step(e, success, steps) == w,
{
}

/// A path that an entity asks for: from the tile it stands on to the tile
/// it wants to get to.
#[derive(Clone, Copy, Debug, PartialEq, Eq, Structural)]
pub struct PathRequest {
    pub entity: Entity,
    pub from: usize,
    pub to: usize,
}

impl WorldSpec {
    /// Entity `e` approaches this tick: it is its turn, and it wants to
    /// approach a tile of the map from where it stands, with a viewshed to
    /// bring up to date after.
    pub open spec fn approaches(self, e: int) -> bool {
        &&& self.entities[e].my_turn is Some
        &&& self.entities[e].position is Some
        &&& self.entities[e].viewshed is Some
        &&& self.entities[e].wants_to_approach matches Some(wish) && wish.idx < self.map.size()
    }

    /// The paths that the entities before index `n` ask for, in index
    /// order.
    pub open spec fn path_requests(self, n: int) -> Seq<PathRequest>
        decreases n,
    {
        if n <= 0 {
            Seq::empty()
        } else if self.approaches(n - 1) {
            self.path_requests(n - 1).push(
                PathRequest {
                    entity: Entity { id: (n - 1) as usize },
                    from: self.map.idx(
                        self.entities[n - 1].position->0.x as int,
                        self.entities[n - 1].position->0.y as int,
                    ) as usize,
                    to: self.entities[n - 1].wants_to_approach->0.idx,
                },
            )
        } else {
            self.path_requests(n - 1)
        }
    }

    /// The world once the approaches of this tick are over: who approached
    /// has had its turn, and no wish to approach is left.
    pub open spec fn after_approaches(self) -> WorldSpec {
        WorldSpec {
            entities: Seq::new(
                self.entities.len(),
                |e: int|
                    EntitySpec {
                        my_turn: if self.approaches(e) {
                            None
                        } else {
                            self.entities[e].my_turn
                        },
                        wants_to_approach: None,
                        ..self.entities[e]
                    },
            ),
            ..self
        }
    }
}

/// The paths that are asked for this tick. The caller searches each from
/// the map as it is when the entity's turn comes, and hands it to
/// `take_path_step`.
pub fn path_requests(world: &World) -> (requests: Vec<PathRequest>)
    requires
        world@.wf(),
    ensures
        requests@ == world@.path_requests(world@.entities.len() as int),
{
    let mut requests: Vec<PathRequest> = Vec::new();
    let n: usize = world.entities.len();
    let mut e: usize = 0;
    while e < n
        invariant
            e <= n,
            n == world@.entities.len(),
            world@.wf(),
            requests@ == world@.path_requests(e as int),
        decreases n - e,
    {
        let rec = &world.entities[e];
        match (rec.position, rec.wants_to_approach) {
            (Some(p), Some(wish)) => {
                if rec.my_turn.is_some() && rec.viewshed.is_some() && wish.idx
                    < world.map.tiles.len() {
                    assert(world@.entity_wf(e as int));
                    let from = world.map.xy_idx(p.x, p.y);
                    requests.push(PathRequest { entity: Entity { id: e }, from, to: wish.idx });
                }
            },
            _ => {},
        }
        e += 1;
    }
    requests
}

/// Ends the approaches of this tick.
pub fn finish_approaches(world: &mut World)
    requires
        old(world)@.wf(),
    ensures
        final(world)@ == old(world)@.after_approaches(),
        final(world)@.wf(),
{
    let ghost start = world@;
    let n: usize = world.entities.len();
    assert(world@.entities.len() == world.entities@.len());
    let mut i: usize = 0;
    while i < n
        invariant
            i <= n,
            n == start.entities.len(),
            n == world.entities@.len(),
            start.wf(),
            world@ == (WorldSpec { entities: world@.entities, ..start }),
            forall|t: int|
                0 <= t < n ==> world@.entities[t] == (if t < i {
                    start.after_approaches().entities[t]
                } else {
                    start.entities[t]
                }),
        decreases n - i,
    {
        let ghost before = world@;
        let approached = match world.entities[i].wants_to_approach {
            Some(wish) => world.entities[i].my_turn.is_some() && world.entities[i].position.is_some()
                && world.entities[i].viewshed.is_some() && wish.idx < world.map.tiles.len(),
            None => false,
        };
        if approached {
            world.entities[i].my_turn = None;
        }
        world.entities[i].wants_to_approach = None;
        assert(world@.dungeon =~= start.dungeon);
        assert forall|t: int| 0 <= t < n implies world@.entities[t] == (if t < i + 1 {
            start.after_approaches().entities[t]
        } else {
            start.entities[t]
        }) by {
            if t != i {
                assert(world@.entities[t] == before.entities[t]);
            } else {
                assert(before.entities[t] == start.entities[t]);
                assert(before.map == start.map);
            }
        }
        i += 1;
    }
    assert(world@.entities =~= start.after_approaches().entities);
    proof {
        assert forall|j: int| 0 <= j < n implies #[trigger] world@.entity_wf(j) by {
            assert(start.entity_wf(j));
        }
    }
}

} // verus!
