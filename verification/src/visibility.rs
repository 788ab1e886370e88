//! The visibility system: what each entity sees, and what the player's
//! sight reveals of the map and of what hides on it.

use vstd::prelude::*;
use crate::components::{copy_name, Entity, EntitySpec};
use crate::fov::points_model;
use crate::gamelog::LogEntry;
use crate::geometry::Coord;
use crate::map::{lemma_idx_in_range, lemma_point_of_index, MapSpec, MAX_MAP_SIDE};
use crate::rng::roll_dice;
use crate::world::{names, World, WorldSpec};

verus! {

broadcast use vstd::std_specs::hash::group_hash_axioms;

/// One roll in this many notices something hidden that is in view.
pub const SPOT_HIDDEN_DIE: i32 = 24;

/// Whether a roll of the spotting die notices what is hidden.
pub open spec fn spec_roll_spots(roll: int) -> bool {
    roll == 1
}

/// Some point of `tiles` is the tile with index `t`.
pub open spec fn marks(map: MapSpec, tiles: Seq<Coord>, t: int) -> bool {
    exists|k: int|
        0 <= k < tiles.len() && map.idx((#[trigger] tiles[k]).x as int, tiles[k].y as int) == t
}

/// Record `after` is `before` with the same name and, at most, the hidden
/// marker taken off.
pub open spec fn hidden_fades(before: EntitySpec, after: EntitySpec) -> bool {
    after.name == before.name && (after.hidden == before.hidden || after.hidden is None)
}

impl WorldSpec {
    /// `entry` reports that entity `x` was noticed between this world and
    /// `after`: it was hidden and is hidden no more, it has a name, and the
    /// entry says that this name was spotted.
    pub open spec fn is_report_of(self, after: WorldSpec, x: int, entry: LogEntry) -> bool {
        &&& 0 <= x < self.entities.len()
        &&& self.entities[x].hidden is Some
        &&& after.entities[x].hidden is None
        &&& self.entities[x].name is Some
        &&& entry == (LogEntry::Spots { what: self.entities[x].name })
    }

    /// `entry` reports that someone was noticed between this world and
    /// `after`.
    pub open spec fn is_report(self, after: WorldSpec, entry: LogEntry) -> bool {
        exists|x: int| #[trigger] self.is_report_of(after, x, entry)
    }

    /// The log of `after` is the log of this world followed by entries that
    /// each report someone who was noticed in between.
    pub open spec fn spotted_since(self, after: WorldSpec) -> bool {
        &&& self.log.len() <= after.log.len()
        &&& after.log.take(self.log.len() as int) == self.log
        &&& forall|k: int|
            self.log.len() <= k < after.log.len() ==> self.is_report(after, #[trigger] after.log[k])
    }
}

/// Reports of what was noticed stay reports while names stay and hidden
/// markers only come off.
pub proof fn lemma_spotted_twice(a: WorldSpec, b: WorldSpec, c: WorldSpec)
    requires
        a.spotted_since(b),
        b.spotted_since(c),
        a.entities.len() == b.entities.len(),
        b.entities.len() == c.entities.len(),
        forall|x: int| 0 <= x < a.entities.len() ==> hidden_fades(a.entities[x], #[trigger] b.entities[x]),
        forall|x: int| 0 <= x < a.entities.len() ==> hidden_fades(b.entities[x], #[trigger] c.entities[x]),
    ensures
        a.spotted_since(c),
{
    assert(c.log.take(a.log.len() as int) =~= b.log.take(a.log.len() as int)) by {
        assert(c.log.take(b.log.len() as int) == b.log);
    }
    assert forall|k: int| a.log.len() <= k < c.log.len() implies a.is_report(
        c,
        #[trigger] c.log[k],
    ) by {
        if k < b.log.len() {
            assert(c.log.take(b.log.len() as int)[k] == b.log[k]);
            assert(a.is_report(b, b.log[k]));
            let x = choose|x: int| #[trigger] a.is_report_of(b, x, b.log[k]);
            assert(hidden_fades(b.entities[x], c.entities[x]));
            assert(a.is_report_of(c, x, c.log[k]));
        } else {
            assert(b.is_report(c, c.log[k]));
            let x = choose|x: int| #[trigger] b.is_report_of(c, x, c.log[k]);
            assert(hidden_fades(a.entities[x], b.entities[x]));
            assert(a.is_report_of(c, x, c.log[k]));
        }
    }
}

/// Whether the log reports what was noticed is read off the log and the
/// hidden markers alone.
pub proof fn lemma_spotted_reads(a: WorldSpec, b: WorldSpec, c: WorldSpec)
    requires
        a.spotted_since(b),
        c.log == b.log,
        a.entities.len() == b.entities.len(),
        c.entities.len() == b.entities.len(),
        forall|x: int|
            0 <= x < b.entities.len() ==> (#[trigger] c.entities[x]).hidden == b.entities[x].hidden,
    ensures
        a.spotted_since(c),
{
    assert forall|k: int| a.log.len() <= k < c.log.len() implies a.is_report(
        c,
        #[trigger] c.log[k],
    ) by {
        assert(a.is_report(b, b.log[k]));
        let x = choose|x: int| #[trigger] a.is_report_of(b, x, b.log[k]);
        assert(c.entities[x].hidden == b.entities[x].hidden);
        assert(a.is_report_of(c, x, c.log[k]));
    }
}

/// A world reports nothing since itself.
pub proof fn lemma_nothing_spotted(a: WorldSpec, b: WorldSpec)
    requires
        b.log == a.log,
    ensures
        a.spotted_since(b),
{
    assert(b.log.take(a.log.len() as int) =~= a.log);
}

impl WorldSpec {
    /// Among the entities before index `n`, one that blocks the view stands
    /// on `t`.
    pub open spec fn sight_blocker_on(self, t: int, n: int) -> bool {
        exists|e: int|
            0 <= e < n && #[trigger] self.stands_on(e, t)
                && self.entities[e].blocks_visibility is Some
    }

    /// The map as sight lines are cast on it: a tile is marked as blocking
    /// the view exactly if an entity that blocks the view stands on it.
    pub open spec fn sight_map(self) -> MapSpec {
        MapSpec {
            view_blocked: Seq::new(
                self.map.view_blocked.len(),
                |t: int| self.sight_blocker_on(t, self.entities.len() as int),
            ),
            ..self.map
        }
    }

    /// Entity `e` looks around this tick: it has a position and a viewshed
    /// that is out of date.
    pub open spec fn looks(self, e: int) -> bool {
        &&& self.entities[e].position is Some
        &&& self.entities[e].viewshed matches Some(v) && v.dirty
    }

    /// What `e` sees when it looks around.
    pub open spec fn sight_of(self, e: int) -> Set<(int, int)> {
        self.sight_map().in_sight(
            self.entities[e].position->0.x as int,
            self.entities[e].position->0.y as int,
            self.entities[e].viewshed->0.range as int,
        )
    }

    /// `e` is a player who looks around and sees tile `t`.
    pub open spec fn reveals(self, e: int, t: int) -> bool {
        self.looks(e) && self.entities[e].player is Some && self.sight_of(e).contains(
            (self.map.x_of(t), self.map.y_of(t)),
        )
    }

    /// A player before index `n` looks around and sees tile `t`.
    pub open spec fn revealed_by(self, t: int, n: int) -> bool {
        exists|e: int| 0 <= e < n && #[trigger] self.reveals(e, t)
    }

    /// The last player before index `n` who looks around, if there is one.
    pub open spec fn last_revealer(self, n: int) -> Option<int>
        decreases n,
    {
        if n <= 0 {
            None
        } else if self.looks(n - 1) && self.entities[n - 1].player is Some {
            Some(n - 1)
        } else {
            self.last_revealer(n - 1)
        }
    }

    /// The visible flags once the players before index `n` have looked
    /// around: what the last of them sees, or the flags as they were if none
    /// of them looked.
    pub open spec fn visible_after(self, n: int) -> Seq<bool> {
        match self.last_revealer(n) {
            Some(e) => Seq::new(self.map.visible_tiles.len(), |t: int| self.reveals(e, t)),
            None => self.map.visible_tiles,
        }
    }

    /// The revealed flags once the players before index `n` have looked
    /// around: what was revealed stays revealed, and what any of them sees
    /// is revealed too.
    pub open spec fn revealed_after(self, n: int) -> Seq<bool> {
        Seq::new(
            self.map.revealed_tiles.len(),
            |t: int| self.map.revealed_tiles[t] || self.revealed_by(t, n),
        )
    }

    /// Entity `x` may be noticed by the players before index `n`: it is
    /// listed on a tile that one of them sees.
    pub open spec fn in_view_of_players(self, x: int, n: int) -> bool {
        exists|t: int|
            0 <= t < self.map.tile_content.len() && self.revealed_by(t, n) && #[trigger] names(
                self.map.tile_content[t],
                x,
            )
    }

    /// How the visibility system may leave record `e`, given that the
    /// players before index `n` have looked around: only the viewshed and
    /// the hidden marker can differ. The viewshed is brought up to date if
    /// `e` looked around and is the same otherwise. The hidden marker is
    /// gone only if a player had `e` in view.
    pub open spec fn seen_entity(self, after: EntitySpec, e: int, looked: bool, n: int) -> bool {
        let before = self.entities[e];
        &&& after == (EntitySpec { viewshed: after.viewshed, hidden: after.hidden, ..before })
        &&& if looked && self.looks(e) {
            &&& after.viewshed matches Some(v)
            &&& !v.dirty
            &&& v.range == before.viewshed->0.range
            &&& v.visible_tiles.no_duplicates()
            &&& points_model(v.visible_tiles) == self.sight_of(e)
        } else {
            after.viewshed == before.viewshed
        }
        &&& (after.hidden == before.hidden || (after.hidden is None && self.in_view_of_players(
            e,
            n,
        )))
    }

    /// What the visibility system may make of this world. Everything is
    /// determined but the order in which an entity lists the tiles it sees,
    /// and which of the hidden things in a player's view are noticed.
    pub open spec fn visibility_outcome(self, after: WorldSpec) -> bool {
        let n = self.entities.len() as int;
        &&& after.entities.len() == n
        &&& forall|e: int| 0 <= e < n ==> self.seen_entity(#[trigger] after.entities[e], e, true, n)
        &&& after.map == (MapSpec {
            view_blocked: self.sight_map().view_blocked,
            visible_tiles: self.visible_after(n),
            revealed_tiles: self.revealed_after(n),
            ..self.map
        })
        &&& self.spotted_since(after)
        &&& after == (WorldSpec {
            entities: after.entities,
            map: after.map,
            log: after.log,
            ..self
        })
    }

    /// The world once `x` has had its chance to be noticed with `roll`: on a
    /// roll that spots, a hidden `x` is hidden no more, with a log entry if
    /// it has a name. Anything else changes nothing.
    pub open spec fn after_notice(self, x: Entity, roll: int) -> WorldSpec {
        if self.is_alive(x) && self.entities[x.id as int].hidden is Some && spec_roll_spots(roll) {
            let found = self.with_entity(
                x.id as int,
                EntitySpec { hidden: None, ..self.entities[x.id as int] },
            );
            if self.entities[x.id as int].name is Some {
                found.with_log(LogEntry::Spots { what: self.entities[x.id as int].name })
            } else {
                found
            }
        } else {
            self
        }
    }
}

/// Gives `x` its chance to be noticed, with the roll that was made for it.
pub fn notice(world: &mut World, x: Entity, roll: i32)
    requires
        old(world)@.wf(),
    ensures
        final(world)@ == old(world)@.after_notice(x, roll as int),
        final(world)@.wf(),
{
    if world.is_alive(x) && world.entities[x.id].hidden.is_some() && roll == 1 {
        let ghost before = world@;
        if world.entities[x.id].name.is_some() {
            let what = copy_name(&world.entities[x.id].name);
            world.entities[x.id].hidden = None;
            world.log.push(LogEntry::Spots { what });
        } else {
            world.entities[x.id].hidden = None;
        }
        assert(world@.entities =~= before.after_notice(x, roll as int).entities);
        assert(world@.dungeon =~= before.dungeon);
        proof {
            assert(before.entity_wf(x.id as int));
            crate::world::lemma_with_entity_wf(
                before,
                x.id as int,
                EntitySpec { hidden: None, ..before.entities[x.id as int] },
            );
            crate::world::lemma_wf_reads(
                before.with_entity(
                    x.id as int,
                    EntitySpec { hidden: None, ..before.entities[x.id as int] },
                ),
                world@,
            );
        }
    }
}

/// Record `after` is `before` with, at most, the hidden marker taken off.
pub open spec fn unhidden(before: EntitySpec, after: EntitySpec) -> bool {
    &&& after == (EntitySpec { hidden: after.hidden, ..before })
    &&& (after.hidden == before.hidden || after.hidden is None)
}

impl WorldSpec {
    /// What noticing hidden things on the tiles `tiles` may make of this
    /// world: records lose at most their hidden marker, and only records
    /// listed on one of the tiles; the log grows by reports of what was
    /// spotted.
    pub open spec fn noticing_outcome(self, after: WorldSpec, tiles: Seq<Coord>) -> bool {
        &&& after.entities.len() == self.entities.len()
        &&& forall|x: int|
            0 <= x < self.entities.len() ==> {
                &&& unhidden(self.entities[x], #[trigger] after.entities[x])
                &&& (after.entities[x].hidden != self.entities[x].hidden ==> exists|t: int|
                    0 <= t < self.map.tile_content.len() && marks(self.map, tiles, t)
                        && #[trigger] names(self.map.tile_content[t], x))
            }
        &&& self.spotted_since(after)
    }
}

/// Rebuilds the set of view-blocking tiles from the entities that block
/// the view.
fn rebuild_view_blocked(world: &mut World)
    requires
        old(world)@.wf(),
    ensures
        final(world)@ == (WorldSpec { map: old(world)@.sight_map(), ..old(world)@ }),
        final(world)@.wf(),
{
    let ghost start = world@;
    let ghost size = start.map.view_blocked.len() as int;
    world.map.view_blocked.clear();
    proof {
        lemma_idx_in_range(start.map, start.player_pos.x as int, start.player_pos.y as int);
        assert(world@.entities =~= start.entities);
        assert(world@.dungeon =~= start.dungeon);
        assert(world@.map.tile_content =~= start.map.tile_content);
    }
    let n: usize = world.entities.len();
    let mut i: usize = 0;
    while i < n
        invariant
            i <= n,
            n == start.entities.len(),
            start.wf(),
            size == start.map.view_blocked.len(),
            size == world.map@.view_blocked.len(),
            size <= MAX_MAP_SIDE * MAX_MAP_SIDE,
            world@ == (WorldSpec {
                map: MapSpec { view_blocked: world.map@.view_blocked, ..start.map },
                ..start
            }),
            forall|k: int|
                0 <= k < size ==> world.map@.view_blocked[k] == start.sight_blocker_on(k, i as int),
        decreases n - i,
    {
        let ghost flags = world.map@.view_blocked;
        let ghost marked = world.map.view_blocked@;
        match world.entities[i].position {
            Some(p) => {
                assert(start.entity_wf(i as int));
                let idx = world.map.xy_idx(p.x, p.y);
                if world.entities[i].blocks_visibility.is_some() {
                    world.map.view_blocked.insert(idx);
                }
            },
            None => {},
        }
        proof {
            assert(world@.entities =~= start.entities);
            assert(world@.dungeon =~= start.dungeon);
            assert(world@.map.tile_content =~= start.map.tile_content);
            assert forall|k: int| 0 <= k < size implies world.map@.view_blocked[k]
                == start.sight_blocker_on(k, i as int + 1) by {
                assert(flags[k] == start.sight_blocker_on(k, i as int));
                assert(flags[k] == marked.contains(k as usize));
                assert(world.map@.view_blocked[k] == world.map.view_blocked@.contains(k as usize));
                if start.stands_on(i as int, k) && start.entities[i as int].blocks_visibility is Some {
                    assert(world.map.view_blocked@ == marked.insert(k as usize));
                } else if start.entities[i as int].position is Some && start.entities[i
                    as int].blocks_visibility is Some {
                    let p = start.entities[i as int].position->0;
                    let there = start.map.idx(p.x as int, p.y as int);
                    assert(there != k);
                    assert(world.map.view_blocked@ == marked.insert(there as usize));
                } else {
                    assert(world.map.view_blocked@ == marked);
                }
                if start.sight_blocker_on(k, i as int) {
                    let e = choose|e: int|
                        0 <= e < i && #[trigger] start.stands_on(e, k)
                            && start.entities[e].blocks_visibility is Some;
                    assert(start.stands_on(e, k));
                    assert(start.sight_blocker_on(k, i as int + 1));
                }
                if start.sight_blocker_on(k, i as int + 1) {
                    let e = choose|e: int|
                        0 <= e < i + 1 && #[trigger] start.stands_on(e, k)
                            && start.entities[e].blocks_visibility is Some;
                    if e < i {
                        assert(start.sight_blocker_on(k, i as int));
                    }
                }
                if start.stands_on(i as int, k) && start.entities[i as int].blocks_visibility is Some {
                    assert(start.sight_blocker_on(k, i as int + 1));
                }
            }
        }
        i += 1;
    }
    assert(world.map@.view_blocked =~= start.sight_map().view_blocked);
    proof {
        assert forall|j: int| 0 <= j < world@.entities.len() implies #[trigger] world@.entity_wf(
            j,
        ) by {
            assert(start.entity_wf(j));
        }
    }
}

/// Gives every hidden entity listed on tile `idx` its chance to be noticed,
/// with a roll of its own.
fn spot_hidden_on(
    world: &mut World,
    rng: &mut rltk::RandomNumberGenerator,
    idx: usize,
    Ghost(tiles): Ghost<Seq<Coord>>,
)
    requires
        old(world)@.wf(),
        idx < old(world)@.map.tile_content.len(),
        marks(old(world)@.map, tiles, idx as int),
    ensures
        old(world)@.noticing_outcome(final(world)@, tiles),
        final(world)@ == (WorldSpec {
            entities: final(world)@.entities,
            log: final(world)@.log,
            ..old(world)@
        }),
        final(world)@.wf(),
{
    let ghost start = world@;
    assert(world.map@.tile_content.len() == world.map.tile_content@.len());
    let count: usize = world.map.tile_content[idx].len();
    proof {
        lemma_nothing_spotted(start, start);
    }
    let mut c: usize = 0;
    while c < count
        invariant
            c <= count,
            idx < world.map.tile_content@.len(),
            count == world.map.tile_content@[idx as int]@.len(),
            start.wf(),
            world@.wf(),
            marks(start.map, tiles, idx as int),
            idx < start.map.tile_content.len(),
            start.map.tile_content[idx as int] == world.map.tile_content@[idx as int]@,
            start.noticing_outcome(world@, tiles),
            world@ == (WorldSpec { entities: world@.entities, log: world@.log, ..start }),
        decreases count - c,
    {
        let x: Entity = world.map.tile_content[idx][c];
        let ghost before = world@;
        if world.is_alive(x) && world.entities[x.id].hidden.is_some() {
            let roll = roll_dice(rng, 1, SPOT_HIDDEN_DIE);
            notice(world, x, roll);
            proof {
                assert(world@.map == before.map);
                assert(world.map@.tile_content[idx as int] == world.map.tile_content@[idx as int]@);
                assert forall|y: int| 0 <= y < start.entities.len() implies {
                    &&& unhidden(start.entities[y], #[trigger] world@.entities[y])
                    &&& (world@.entities[y].hidden != start.entities[y].hidden ==> exists|t: int|
                        0 <= t < start.map.tile_content.len() && marks(start.map, tiles, t)
                            && #[trigger] names(start.map.tile_content[t], y))
                } by {
                    assert(unhidden(start.entities[y], before.entities[y]));
                    if y == x.id {
                        assert(start.map.tile_content[idx as int][c as int].id == y);
                        assert(names(start.map.tile_content[idx as int], y));
                    }
                }
                assert(before.spotted_since(world@)) by {
                    assert(world@.log.take(before.log.len() as int) =~= before.log);
                    if world@.log.len() > before.log.len() {
                        assert(before.is_report_of(
                            world@,
                            x.id as int,
                            world@.log[before.log.len() as int],
                        ));
                    }
                }
                assert forall|y: int| 0 <= y < start.entities.len() implies hidden_fades(
                    before.entities[y],
                    #[trigger] world@.entities[y],
                ) by {}
                assert forall|y: int| 0 <= y < start.entities.len() implies hidden_fades(
                    start.entities[y],
                    #[trigger] before.entities[y],
                ) by {
                    assert(unhidden(start.entities[y], before.entities[y]));
                }
                lemma_spotted_twice(start, before, world@);
            }
        }
        c += 1;
    }
}

/// Noticing in two rounds is noticing.
proof fn lemma_noticing_twice(a: WorldSpec, b: WorldSpec, c: WorldSpec, tiles: Seq<Coord>)
    requires
        a.noticing_outcome(b, tiles),
        b.noticing_outcome(c, tiles),
        b.map.tile_content == a.map.tile_content,
        b.map.width == a.map.width,
    ensures
        a.noticing_outcome(c, tiles),
{
    assert forall|x: int| 0 <= x < a.entities.len() implies {
        &&& unhidden(a.entities[x], #[trigger] c.entities[x])
        &&& (c.entities[x].hidden != a.entities[x].hidden ==> exists|t: int|
            0 <= t < a.map.tile_content.len() && marks(a.map, tiles, t) && #[trigger] names(
                a.map.tile_content[t],
                x,
            ))
    } by {
        assert(unhidden(a.entities[x], b.entities[x]));
        assert(unhidden(b.entities[x], c.entities[x]));
        if c.entities[x].hidden != a.entities[x].hidden {
            if b.entities[x].hidden != a.entities[x].hidden {
                let t = choose|t: int|
                    0 <= t < a.map.tile_content.len() && marks(a.map, tiles, t) && #[trigger] names(
                        a.map.tile_content[t],
                        x,
                    );
                assert(names(a.map.tile_content[t], x));
            } else {
                let t = choose|t: int|
                    0 <= t < b.map.tile_content.len() && marks(b.map, tiles, t) && #[trigger] names(
                        b.map.tile_content[t],
                        x,
                    );
                assert(marks(a.map, tiles, t)) by {
                    let k = choose|k: int|
                        0 <= k < tiles.len() && b.map.idx(
                            (#[trigger] tiles[k]).x as int,
                            tiles[k].y as int,
                        ) == t;
                    assert(a.map.idx(tiles[k].x as int, tiles[k].y as int) == t);
                }
                assert(names(a.map.tile_content[t], x));
            }
        }
    }
    assert forall|x: int| 0 <= x < a.entities.len() implies hidden_fades(
        a.entities[x],
        #[trigger] b.entities[x],
    ) by {
        assert(unhidden(a.entities[x], b.entities[x]));
    }
    assert forall|x: int| 0 <= x < a.entities.len() implies hidden_fades(
        b.entities[x],
        #[trigger] c.entities[x],
    ) by {
        assert(unhidden(b.entities[x], c.entities[x]));
    }
    lemma_spotted_twice(a, b, c);
}

/// The tiles before position `k` of a list, with the next one, are the
/// tiles before position `k + 1`.
pub proof fn lemma_marks_next(map: MapSpec, tiles: Seq<Coord>, k: int, t: int)
    requires
        0 <= k < tiles.len(),
    ensures
        marks(map, tiles.take(k + 1), t) <==> (marks(map, tiles.take(k), t) || map.idx(
            tiles[k].x as int,
            tiles[k].y as int,
        ) == t),
{
    let shorter = tiles.take(k);
    let longer = tiles.take(k + 1);
    if marks(map, shorter, t) {
        let j = choose|j: int|
            0 <= j < shorter.len() && map.idx((#[trigger] shorter[j]).x as int, shorter[j].y as int)
                == t;
        assert(map.idx(longer[j].x as int, longer[j].y as int) == t);
    }
    if map.idx(tiles[k].x as int, tiles[k].y as int) == t {
        assert(map.idx(longer[k].x as int, longer[k].y as int) == t);
    }
    if marks(map, longer, t) {
        let j = choose|j: int|
            0 <= j < longer.len() && map.idx((#[trigger] longer[j]).x as int, longer[j].y as int)
                == t;
        if j < k {
            assert(map.idx(shorter[j].x as int, shorter[j].y as int) == t);
        }
    }
}

impl WorldSpec {
    /// What a player's look at the tiles `tiles` may make of this world:
    /// exactly these tiles are visible, they are revealed beside what was
    /// revealed before, and hidden things on them may have been noticed.
    pub open spec fn revealing_outcome(self, after: WorldSpec, tiles: Seq<Coord>) -> bool {
        &&& self.noticing_outcome(after, tiles)
        &&& after.map == (MapSpec {
            visible_tiles: Seq::new(
                self.map.visible_tiles.len(),
                |t: int| marks(self.map, tiles, t),
            ),
            revealed_tiles: Seq::new(
                self.map.revealed_tiles.len(),
                |t: int| self.map.revealed_tiles[t] || marks(self.map, tiles, t),
            ),
            ..self.map
        })
        &&& after == (WorldSpec {
            entities: after.entities,
            map: after.map,
            log: after.log,
            ..self
        })
    }
}

/// Shows the player the tiles `tiles`: they become the visible tiles, they
/// are revealed for good, and every hidden entity listed on one of them gets
/// its chance to be noticed.
fn show_tiles(world: &mut World, rng: &mut rltk::RandomNumberGenerator, tiles: &Vec<Coord>)
    requires
        old(world)@.wf(),
        forall|k: int|
            0 <= k < tiles.len() ==> old(world)@.map.interior(
                (#[trigger] tiles[k]).x as int,
                tiles[k].y as int,
            ),
    ensures
        old(world)@.revealing_outcome(final(world)@, tiles@),
        final(world)@.wf(),
{
    let ghost start = world@;
    let size: usize = world.map.visible_tiles.len();
    let mut t: usize = 0;
    while t < size
        invariant
            t <= size,
            size == world.map.visible_tiles@.len(),
            world@ == (WorldSpec {
                map: MapSpec { visible_tiles: world.map.visible_tiles@, ..start.map },
                ..start
            }),
            forall|j: int| 0 <= j < t ==> !world.map.visible_tiles@[j],
        decreases size - t,
    {
        world.map.visible_tiles[t] = false;
        assert(world@.entities =~= start.entities);
        assert(world@.dungeon =~= start.dungeon);
        assert(world@.map.tile_content =~= start.map.tile_content);
        t += 1;
    }
    proof {
        crate::world::lemma_wf_reads(start, WorldSpec { map: start.map, ..world@ });
        assert forall|j: int| 0 <= j < world@.entities.len() implies #[trigger] world@.entity_wf(
            j,
        ) by {
            assert(start.entity_wf(j));
        }
        lemma_nothing_spotted(start, world@);
    }
    let mut k: usize = 0;
    while k < tiles.len()
        invariant
            k <= tiles.len(),
            start.wf(),
            world@.wf(),
            size == start.map.size(),
            forall|k: int|
                0 <= k < tiles.len() ==> start.map.interior(
                    (#[trigger] tiles[k]).x as int,
                    tiles[k].y as int,
                ),
            start.noticing_outcome(world@, tiles@),
            world@ == (WorldSpec {
                entities: world@.entities,
                map: MapSpec {
                    visible_tiles: world@.map.visible_tiles,
                    revealed_tiles: world@.map.revealed_tiles,
                    ..start.map
                },
                log: world@.log,
                ..start
            }),
            forall|j: int|
                #![trigger world@.map.visible_tiles[j]]
                0 <= j < size ==> world@.map.visible_tiles[j] == marks(
                    start.map,
                    tiles@.take(k as int),
                    j,
                ),
            forall|j: int|
                #![trigger world@.map.revealed_tiles[j]]
                0 <= j < size ==> world@.map.revealed_tiles[j] == (start.map.revealed_tiles[j]
                    || marks(start.map, tiles@.take(k as int), j)),
        decreases tiles.len() - k,
    {
        let p = tiles[k];
        let ghost before = world@;
        let idx = world.map.xy_idx(p.x, p.y);
        world.map.revealed_tiles[idx] = true;
        world.map.visible_tiles[idx] = true;
        proof {
            assert(world@.entities =~= before.entities);
            assert(world@.dungeon =~= before.dungeon);
            assert(world@.map.tile_content =~= before.map.tile_content);
            crate::world::lemma_wf_reads(before, WorldSpec { map: before.map, ..world@ });
            assert forall|j: int| 0 <= j < world@.entities.len() implies #[trigger] world@.entity_wf(
                j,
            ) by {
                assert(before.entity_wf(j));
            }
            assert(marks(world@.map, tiles@, idx as int)) by {
                assert(world@.map.idx(tiles@[k as int].x as int, tiles@[k as int].y as int) == idx);
            }
            lemma_spotted_reads(start, before, world@);
        }
        let ghost marked = world@;
        spot_hidden_on(world, rng, idx, Ghost(tiles@));
        proof {
            lemma_noticing_twice(start, marked, world@, tiles@);
            assert forall|j: int|
                #![trigger world@.map.visible_tiles[j]]
                0 <= j < size implies world@.map.visible_tiles[j] == marks(
                start.map,
                tiles@.take(k as int + 1),
                j,
            ) by {
                lemma_marks_next(start.map, tiles@, k as int, j);
            }
            assert forall|j: int|
                #![trigger world@.map.revealed_tiles[j]]
                0 <= j < size implies world@.map.revealed_tiles[j] == (
            start.map.revealed_tiles[j] || marks(start.map, tiles@.take(k as int + 1), j)) by {
                lemma_marks_next(start.map, tiles@, k as int, j);
            }
        }
        k += 1;
    }
    proof {
        assert(tiles@.take(k as int) =~= tiles@);
        assert(world@.map.visible_tiles =~= Seq::new(
            start.map.visible_tiles.len(),
            |t: int| marks(start.map, tiles@, t),
        ));
        assert(world@.map.revealed_tiles =~= Seq::new(
            start.map.revealed_tiles.len(),
            |t: int| start.map.revealed_tiles[t] || marks(start.map, tiles@, t),
        ));
    }
}

/// What is in sight depends on the terrain, the view-blocked flags and the
/// sides alone.
pub proof fn lemma_in_sight_reads(a: MapSpec, b: MapSpec, x: int, y: int, range: int)
    requires
        a.tiles == b.tiles,
        a.view_blocked == b.view_blocked,
        a.width == b.width,
        a.height == b.height,
    ensures
        a.in_sight(x, y, range) == b.in_sight(x, y, range),
{
    assert(a.opacity() =~= b.opacity());
    assert(a.in_sight(x, y, range) =~= b.in_sight(x, y, range));
}

/// A list of tiles on the map marks a tile index exactly if it holds the
/// coordinates of that tile.
pub proof fn lemma_marks_is_membership(map: MapSpec, tiles: Seq<Coord>, t: int)
    requires
        map.wf(),
        0 <= t < map.size(),
        forall|k: int|
            0 <= k < tiles.len() ==> map.in_bounds((#[trigger] tiles[k]).x as int, tiles[k].y as int),
    ensures
        marks(map, tiles, t) <==> points_model(tiles).contains((map.x_of(t), map.y_of(t))),
{
    lemma_point_of_index(map, t);
    if marks(map, tiles, t) {
        let k = choose|k: int|
            0 <= k < tiles.len() && map.idx((#[trigger] tiles[k]).x as int, tiles[k].y as int) == t;
        lemma_idx_in_range(map, tiles[k].x as int, tiles[k].y as int);
        assert(tiles[k].x == map.x_of(t) && tiles[k].y == map.y_of(t));
    }
    if points_model(tiles).contains((map.x_of(t), map.y_of(t))) {
        let k = choose|k: int|
            0 <= k < tiles.len() && (#[trigger] tiles[k]).x == map.x_of(t) && tiles[k].y
                == map.y_of(t);
        assert(map.idx(tiles[k].x as int, tiles[k].y as int) == t);
    }
}

/// The players before index `n + 1` who see a tile are those before index
/// `n`, and entity `n` if it is one.
pub proof fn lemma_revealed_by_next(w: WorldSpec, t: int, n: int)
    requires
        0 <= n,
    ensures
        w.revealed_by(t, n + 1) <==> (w.revealed_by(t, n) || w.reveals(n, t)),
{
    if w.revealed_by(t, n) {
        let e = choose|e: int| 0 <= e < n && #[trigger] w.reveals(e, t);
        assert(w.reveals(e, t));
    }
    if w.revealed_by(t, n + 1) {
        let e = choose|e: int| 0 <= e < n + 1 && #[trigger] w.reveals(e, t);
        if e < n {
            assert(w.revealed_by(t, n));
        }
    }
}

/// What the players before index `n` have in view, those before a later
/// index have in view too.
pub proof fn lemma_in_view_grows(w: WorldSpec, x: int, n: int)
    requires
        0 <= n,
        w.in_view_of_players(x, n),
    ensures
        w.in_view_of_players(x, n + 1),
{
    let t = choose|t: int|
        0 <= t < w.map.tile_content.len() && w.revealed_by(t, n) && #[trigger] names(
            w.map.tile_content[t],
            x,
        );
    lemma_revealed_by_next(w, t, n);
    assert(names(w.map.tile_content[t], x));
}

/// The visibility system.
pub struct VisibilitySystem {}

impl VisibilitySystem {
    /// Brings every out-of-date viewshed up to date. The view-blocked flags
    /// are first set anew from the entities that block the view. Then every
    /// entity with a position and a viewshed that is out of date sees what
    /// lies in its range, less the map's outermost ring, and its viewshed is
    /// up to date. What a player sees becomes the map's visible tiles and is
    /// revealed for good; each hidden thing on such a tile is noticed on one
    /// roll in `SPOT_HIDDEN_DIE`.
    pub fn run(&mut self, world: &mut World, rng: &mut rltk::RandomNumberGenerator)
        requires
            old(world)@.wf(),
        ensures
            old(world)@.visibility_outcome(final(world)@),
            final(world)@.wf(),
    {
        let ghost start = world@;
        rebuild_view_blocked(world);
        let n: usize = world.entities.len();
        proof {
            lemma_nothing_spotted(start, world@);
            assert(world@.map.visible_tiles =~= start.visible_after(0));
            assert(world@.map.revealed_tiles =~= start.revealed_after(0));
        }
        let mut i: usize = 0;
        while i < n
            invariant
                i <= n,
                n == start.entities.len(),
                start.wf(),
                world@.wf(),
                world@.entities.len() == n,
                world.entities@.len() == n,
                forall|e: int|
                    0 <= e < n ==> start.seen_entity(
                        #[trigger] world@.entities[e],
                        e,
                        e < i,
                        i as int,
                    ),
                world@.map == (MapSpec {
                    view_blocked: start.sight_map().view_blocked,
                    visible_tiles: start.visible_after(i as int),
                    revealed_tiles: start.revealed_after(i as int),
                    ..start.map
                }),
                start.spotted_since(world@),
                world@ == (WorldSpec {
                    entities: world@.entities,
                    map: world@.map,
                    log: world@.log,
                    ..start
                }),
            decreases n - i,
        {
            let ghost before = world@;
            assert(start.seen_entity(before.entities[i as int], i as int, false, i as int));
            let looks: Option<(i32, i32, i32)> = match (
                &world.entities[i].position,
                &world.entities[i].viewshed,
            ) {
                (Some(p), Some(v)) => if v.dirty {
                    Some((p.x, p.y, v.range))
                } else {
                    None
                },
                _ => None,
            };
            assert(looks is Some == start.looks(i as int));
            match looks {
                Some((x, y, range)) => {
                    assert(before.entity_wf(i as int));
                    let tiles = world.map.field_of_view(x, y, range);
                    proof {
                        lemma_in_sight_reads(
                            world@.map,
                            start.sight_map(),
                            x as int,
                            y as int,
                            range as int,
                        );
                        assert(points_model(tiles@) == start.sight_of(i as int));
                    }
                    let is_player = world.entities[i].player.is_some();
                    if is_player {
                        show_tiles(world, rng, &tiles);
                    }
                    let ghost shown = world@;
                    world.entities[i].viewshed = Some(
                        crate::components::Viewshed { visible_tiles: tiles, range, dirty: false },
                    );
                    proof {
                        assert(world@.dungeon =~= shown.dungeon);
                        assert(world@.entities =~= shown.entities.update(
                            i as int,
                            world@.entities[i as int],
                        ));
                        assert(before.noticing_outcome(shown, tiles@)) by {
                            if !is_player {
                                assert(shown == before);
                                lemma_nothing_spotted(before, shown);
                            }
                        }
                        assert(start.spotted_since(world@)) by {
                            assert forall|e: int| 0 <= e < n implies hidden_fades(
                                start.entities[e],
                                #[trigger] before.entities[e],
                            ) by {
                                assert(start.seen_entity(before.entities[e], e, e < i, i as int));
                            }
                            assert forall|e: int| 0 <= e < n implies hidden_fades(
                                before.entities[e],
                                #[trigger] world@.entities[e],
                            ) by {
                                assert(unhidden(before.entities[e], shown.entities[e]));
                            }
                            lemma_spotted_reads(before, shown, world@);
                            lemma_spotted_twice(start, before, world@);
                        }
                        assert forall|e: int| 0 <= e < n implies start.seen_entity(
                            #[trigger] world@.entities[e],
                            e,
                            e < i + 1,
                            i as int + 1,
                        ) by {
                            assert(start.seen_entity(before.entities[e], e, e < i, i as int));
                            assert(unhidden(before.entities[e], shown.entities[e]));
                            if before.entities[e].hidden != start.entities[e].hidden {
                                lemma_in_view_grows(start, e, i as int);
                            }
                            if shown.entities[e].hidden != before.entities[e].hidden {
                                let t = choose|t: int|
                                    0 <= t < before.map.tile_content.len() && marks(
                                        before.map,
                                        tiles@,
                                        t,
                                    ) && #[trigger] names(before.map.tile_content[t], e);
                                lemma_marks_is_membership(before.map, tiles@, t);
                                assert(start.reveals(i as int, t));
                                lemma_revealed_by_next(start, t, i as int);
                                assert(names(start.map.tile_content[t], e));
                                assert(start.in_view_of_players(e, i as int + 1));
                            }
                        }
                        if is_player {
                            assert(world@.map.visible_tiles =~= start.visible_after(i as int + 1)) by {
                                assert forall|t: int|
                                    0 <= t < start.map.visible_tiles.len() implies world@.map.visible_tiles[t]
                                    == start.reveals(i as int, t) by {
                                    lemma_marks_is_membership(before.map, tiles@, t);
                                }
                            }
                            assert(world@.map.revealed_tiles =~= start.revealed_after(
                                i as int + 1,
                            )) by {
                                assert forall|t: int|
                                    0 <= t < start.map.revealed_tiles.len() implies world@.map.revealed_tiles[t]
                                    == (start.map.revealed_tiles[t] || start.revealed_by(
                                    t,
                                    i as int + 1,
                                )) by {
                                    lemma_marks_is_membership(before.map, tiles@, t);
                                    lemma_revealed_by_next(start, t, i as int);
                                }
                            }
                        } else {
                            assert(world@.map.revealed_tiles =~= start.revealed_after(
                                i as int + 1,
                            )) by {
                                assert forall|t: int|
                                    0 <= t < start.map.revealed_tiles.len() implies world@.map.revealed_tiles[t]
                                    == (start.map.revealed_tiles[t] || start.revealed_by(
                                    t,
                                    i as int + 1,
                                )) by {
                                    lemma_revealed_by_next(start, t, i as int);
                                }
                            }
                        }
                        assert forall|j: int| 0 <= j < n implies #[trigger] world@.entity_wf(j) by {
                            assert(start.entity_wf(j));
                            assert(start.seen_entity(
                                world@.entities[j],
                                j,
                                j < i + 1,
                                i as int + 1,
                            ));
                        }
                    }
                },
                None => {
                    proof {
                        assert forall|e: int| 0 <= e < n implies start.seen_entity(
                            #[trigger] world@.entities[e],
                            e,
                            e < i + 1,
                            i as int + 1,
                        ) by {
                            assert(start.seen_entity(before.entities[e], e, e < i, i as int));
                            if before.entities[e].hidden != start.entities[e].hidden {
                                lemma_in_view_grows(start, e, i as int);
                            }
                        }
                        assert(world@.map.revealed_tiles =~= start.revealed_after(i as int + 1)) by {
                            assert forall|t: int|
                                0 <= t < start.map.revealed_tiles.len() implies world@.map.revealed_tiles[t]
                                == (start.map.revealed_tiles[t] || start.revealed_by(
                                t,
                                i as int + 1,
                            )) by {
                                lemma_revealed_by_next(start, t, i as int);
                            }
                        }
                    }
                },
            }
            i += 1;
        }
    }
}

/// What a creature sees lies inside the map's outermost ring: after the
/// visibility system, every tile in the viewshed of an entity that looked
/// around has both coordinates at least 1 and at most the side less 2.
pub proof fn lemma_sight_is_interior(w: WorldSpec, after: WorldSpec, e: int, k: int)
    requires
        w.visibility_outcome(after),
        0 <= e < w.entities.len(),
        w.looks(e),
        0 <= k < after.entities[e].viewshed->0.visible_tiles.len(),
    ensures
        1 <= after.entities[e].viewshed->0.visible_tiles[k].x <= w.map.width - 2,
        1 <= after.entities[e].viewshed->0.visible_tiles[k].y <= w.map.height - 2,
{
    let tiles = after.entities[e].viewshed->0.visible_tiles;
    assert(w.seen_entity(after.entities[e], e, true, w.entities.len() as int));
    assert(points_model(tiles).contains((tiles[k].x as int, tiles[k].y as int)));
    assert(w.sight_of(e).contains((tiles[k].x as int, tiles[k].y as int)));
}

/// Looking twice shows nothing new: a second run of the visibility system,
/// right after a first, leaves every viewshed as the first run made it.
pub proof fn lemma_second_look_changes_no_viewshed(
    w: WorldSpec,
    first: WorldSpec,
    second: WorldSpec,
    e: int,
)
    requires
        w.visibility_outcome(first),
        first.visibility_outcome(second),
        0 <= e < w.entities.len(),
    ensures
        second.entities[e].viewshed == first.entities[e].viewshed,
{
    assert(w.seen_entity(first.entities[e], e, true, w.entities.len() as int));
    assert(first.seen_entity(second.entities[e], e, true, first.entities.len() as int));
}

/// What is seen does not depend on chance: two runs of the visibility
/// system on the same world give every entity that looks around the same
/// set of visible tiles.
pub proof fn lemma_sight_is_determined(w: WorldSpec, a: WorldSpec, b: WorldSpec, e: int)
    requires
        w.visibility_outcome(a),
        w.visibility_outcome(b),
        0 <= e < w.entities.len(),
    ensures
        a.entities[e].viewshed is Some == b.entities[e].viewshed is Some,
        a.entities[e].viewshed is Some ==> points_model(a.entities[e].viewshed->0.visible_tiles)
            == points_model(b.entities[e].viewshed->0.visible_tiles),
{
    assert(w.seen_entity(a.entities[e], e, true, w.entities.len() as int));
    assert(w.seen_entity(b.entities[e], e, true, w.entities.len() as int));
}

} // verus!
