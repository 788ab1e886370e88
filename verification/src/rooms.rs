//! Filling a room: how many monsters and items it gets and where they
//! stand is up to the dice, what they are made of is not.

use vstd::prelude::*;
use crate::components::{EntitySpec, Position};
use crate::config;
use crate::rect::{
    add_spawn_point, item_count, lemma_spawn_points_stay_distinct, monster_count,
    spec_spawn_index, Rect,
};
use crate::rng::roll_dice;
use crate::items;
use crate::monster;
use crate::world::{World, WorldSpec};

verus! {

/// How often a place is rolled for before it is given up: a room that is
/// all but full gets fewer things than were counted for it.
pub const SPAWN_TRIES: u32 = 200;

/// The span of a room from `a` to `b`, if it is one that a die can have as
/// its number of sides.
pub open spec fn spec_span(a: int, b: int) -> Option<int> {
    let d = if a <= b {
        b - a
    } else {
        a - b
    };
    if 1 <= d < i32::MAX {
        Some(d)
    } else {
        None
    }
}

/// Tile `p` is a place in `room` that the dice can pick, on a map of the
/// given width.
pub open spec fn is_spawn_place(room: Rect, width: int, p: usize) -> bool {
    exists|roll_x: int, roll_y: int|
        spec_span(room.x1 as int, room.x2 as int) is Some && spec_span(
            room.y1 as int,
            room.y2 as int,
        ) is Some && 1 <= roll_x <= spec_span(room.x1 as int, room.x2 as int)->0 && 1 <= roll_y
            <= spec_span(room.y1 as int, room.y2 as int)->0 && #[trigger] spec_spawn_index(
            room,
            roll_x,
            roll_y,
            width,
        ) == Some(p as int)
}

/// The span of a room from `a` to `b`.
pub fn span(a: i32, b: i32) -> (r: Option<i32>)
    ensures
        match r {
            Some(d) => spec_span(a as int, b as int) == Some(d as int),
            None => spec_span(a as int, b as int) is None,
        },
{
    let d: i64 = if a <= b {
        b as i64 - a as i64
    } else {
        a as i64 - b as i64
    };
    if 1 <= d && d < i32::MAX as i64 {
        Some(d as i32)
    } else {
        None
    }
}

/// Rolls for `count` places in `room`, no two on one tile. Each place is
/// rolled for up to `SPAWN_TRIES` times. A room without a span gets none.
pub fn spawn_points(
    rng: &mut rltk::RandomNumberGenerator,
    room: &Rect,
    count: i32,
    map_width: i32,
) -> (points: Vec<usize>)
    ensures
        points@.no_duplicates(),
        points@.len() <= count || points@.len() == 0,
        forall|k: int|
            0 <= k < points@.len() ==> is_spawn_place(*room, map_width as int, #[trigger] points@[k]),
        !has_spans(*room) ==> points@.len() == 0,
        has_spans(*room) ==> exists|rolls: Seq<(i32, i32)>| #[trigger]
            is_spawn_run(*room, map_width as int, count as int, rolls, points@),
{
    let mut points: Vec<usize> = Vec::new();
    let (across, along) = match (span(room.x1, room.x2), span(room.y1, room.y2)) {
        (Some(across), Some(along)) => (across, along),
        _ => {
            return points;
        },
    };
    let ghost mut rolls: Seq<(i32, i32)> = Seq::empty();
    let mut n: i32 = 0;
    while n < count
        invariant
            0 <= n,
            n <= count || n == 0,
            points@.len() <= n,
            spec_span(room.x1 as int, room.x2 as int) == Some(across as int),
            spec_span(room.y1 as int, room.y2 as int) == Some(along as int),
            points@.no_duplicates(),
            forall|k: int|
                0 <= k < points@.len() ==> is_spawn_place(
                    *room,
                    map_width as int,
                    #[trigger] points@[k],
                ),
            rolls_in_room(*room, rolls),
            points@ == spec_points_rolled(*room, map_width as int, rolls, rolls.len() as int),
            rolls.len() <= SPAWN_TRIES * n,
            rolls.len() - points@.len() >= SPAWN_TRIES * (n - points@.len()),
        decreases count - n,
    {
        let mut added = false;
        let mut tries: u32 = 0;
        let ghost rolled = rolls.len();
        let ghost noted = points@.len();
        while !added && tries < SPAWN_TRIES
            invariant
                tries <= SPAWN_TRIES,
                added ==> tries >= 1,
                noted <= n,
                rolled <= SPAWN_TRIES * n,
                rolled - noted >= SPAWN_TRIES * (n - noted),
                rolls.len() == rolled + tries,
                points@.len() == noted + (if added {
                    1int
                } else {
                    0int
                }),
                spec_span(room.x1 as int, room.x2 as int) == Some(across as int),
                spec_span(room.y1 as int, room.y2 as int) == Some(along as int),
                points@.no_duplicates(),
                forall|k: int|
                    0 <= k < points@.len() ==> is_spawn_place(
                        *room,
                        map_width as int,
                        #[trigger] points@[k],
                    ),
                rolls_in_room(*room, rolls),
                points@ == spec_points_rolled(*room, map_width as int, rolls, rolls.len() as int),
            decreases SPAWN_TRIES - tries + (if added {
                0int
            } else {
                1int
            }),
        {
            tries += 1;
            let roll_x = roll_dice(rng, 1, across);
            let roll_y = roll_dice(rng, 1, along);
            let ghost before = points@;
            let ghost earlier = rolls;
            proof {
                rolls = earlier.push((roll_x, roll_y));
                lemma_points_rolled_prefix(
                    *room,
                    map_width as int,
                    earlier,
                    rolls,
                    earlier.len() as int,
                );
            }
            match room.spawn_index(roll_x, roll_y, map_width) {
                Some(idx) => {
                    added = add_spawn_point(&mut points, idx);
                    proof {
                        if added {
                            lemma_spawn_points_stay_distinct(before, idx);
                            assert(is_spawn_place(*room, map_width as int, idx)) by {
                                assert(spec_spawn_index(
                                    *room,
                                    roll_x as int,
                                    roll_y as int,
                                    map_width as int,
                                ) == Some(idx as int));
                            }
                            assert forall|k: int| 0 <= k < points@.len() implies is_spawn_place(
                                *room,
                                map_width as int,
                                #[trigger] points@[k],
                            ) by {
                                if k < before.len() {
                                    assert(points@[k] == before[k]);
                                }
                            }
                        }
                    }
                },
                None => {},
            }
        }
        n += 1;
    }
    assert(is_spawn_run(*room, map_width as int, count as int, rolls, points@));
    points
}

/// The room has a span in both directions.
pub open spec fn has_spans(room: Rect) -> bool {
    spec_span(room.x1 as int, room.x2 as int) is Some && spec_span(
        room.y1 as int,
        room.y2 as int,
    ) is Some
}

/// Each of `rolls` is a pair that the dice of the room can show: the first
/// from 1 to the room's span across, the second from 1 to its span along.
pub open spec fn rolls_in_room(room: Rect, rolls: Seq<(i32, i32)>) -> bool {
    forall|k: int|
        0 <= k < rolls.len() ==> has_spans(room) && 1 <= (#[trigger] rolls[k]).0 <= spec_span(
            room.x1 as int,
            room.x2 as int,
        )->0 && 1 <= rolls[k].1 <= spec_span(room.y1 as int, room.y2 as int)->0
}

/// The places noted once the first `n` of `rolls` are taken, in order: a
/// roll adds the tile it picks, unless it picks none or one that is noted
/// already.
pub open spec fn spec_points_rolled(room: Rect, width: int, rolls: Seq<(i32, i32)>, n: int) -> Seq<
    usize,
>
    decreases n,
{
    if n <= 0 {
        Seq::empty()
    } else {
        let noted = spec_points_rolled(room, width, rolls, n - 1);
        match spec_spawn_index(room, rolls[n - 1].0 as int, rolls[n - 1].1 as int, width) {
            Some(idx) => if noted.contains(idx as usize) {
                noted
            } else {
                noted.push(idx as usize)
            },
            None => noted,
        }
    }
}

/// `points` is what rolling for `count` places with `rolls` comes to: the
/// places are those that the rolls note, in order; no more places are noted
/// than were asked for; and a place is given up only after `SPAWN_TRIES`
/// failed tries, so that for every place that is missing that many rolls
/// failed. A roll fails if it picks no tile, or a tile that is noted
/// already.
pub open spec fn is_spawn_run(
    room: Rect,
    width: int,
    count: int,
    rolls: Seq<(i32, i32)>,
    points: Seq<usize>,
) -> bool {
    let wanted = if count > 0 {
        count
    } else {
        0
    };
    &&& rolls_in_room(room, rolls)
    &&& points == spec_points_rolled(room, width, rolls, rolls.len() as int)
    &&& points.len() <= wanted
    &&& rolls.len() <= SPAWN_TRIES * wanted
    &&& rolls.len() - points.len() >= SPAWN_TRIES * (wanted - points.len())
}

/// The places that the first `n` rolls note depend on these rolls alone.
pub proof fn lemma_points_rolled_prefix(
    room: Rect,
    width: int,
    a: Seq<(i32, i32)>,
    b: Seq<(i32, i32)>,
    n: int,
)
    requires
        0 <= n <= a.len(),
        n <= b.len(),
        forall|k: int| 0 <= k < n ==> a[k] == b[k],
    ensures
        spec_points_rolled(room, width, a, n) == spec_points_rolled(room, width, b, n),
    decreases n,
{
    if n > 0 {
        lemma_points_rolled_prefix(room, width, a, b, n - 1);
    }
}

/// What the dice need of the settings: counts that a die can show, sight
/// ranges within limits, and scrolls with what their kinds need.
pub open spec fn settings_fit(
    rooms: config::Rooms,
    monsters: config::Monsters,
    items: config::Items,
) -> bool {
    &&& 0 <= rooms.max_monsters < i32::MAX - 2
    &&& 0 <= rooms.max_items < i32::MAX - 2
    &&& monsters.view_range.in_limits()
    &&& items.complete()
}

/// Whether the settings are what the dice need.
pub fn settings_are_fit(rooms: &config::Rooms, monsters: &config::Monsters, items: &config::Items)
    -> (r: bool)
    ensures
        r == settings_fit(*rooms, *monsters, *items),
{
    0 <= rooms.max_monsters && rooms.max_monsters < i32::MAX - 2 && 0 <= rooms.max_items
        && rooms.max_items < i32::MAX - 2 && monsters.view_range.is_in_limits()
        && items.is_complete()
}

/// Record `rec` is a monster or an item that the dice can make from the
/// settings, on a tile of the map.
pub open spec fn is_spawned(
    w: WorldSpec,
    rec: EntitySpec,
    monsters: config::Monsters,
    items: config::Items,
) -> bool {
    exists|roll: int, at: Position|
        #![trigger monster::spec_for_roll(roll, at, monsters)]
        #![trigger items::spec_for_roll(roll, at, items)]
        w.map.in_bounds(at.x as int, at.y as int) && (rec == monster::spec_for_roll(
            roll,
            at,
            monsters,
        ) || rec == items::spec_for_roll(roll, at, items))
}

impl WorldSpec {
    /// What filling a room may make of this world: the records so far are
    /// followed by new ones, each a monster or an item that the dice can
    /// make, and nothing else changes.
    pub open spec fn filling_outcome(
        self,
        after: WorldSpec,
        monsters: config::Monsters,
        items: config::Items,
    ) -> bool {
        &&& after == (WorldSpec { entities: after.entities, ..self })
        &&& self.entities.len() <= after.entities.len()
        &&& after.entities.take(self.entities.len() as int) == self.entities
        &&& forall|i: int|
            self.entities.len() <= i < after.entities.len() ==> is_spawned(
                self,
                #[trigger] after.entities[i],
                monsters,
                items,
            )
    }
}

/// Fills a room: the dice say how many monsters and items it gets, where
/// each of them stands, and what each of them is. A room gets up to
/// `max_monsters - 1` monsters and up to `max_items + 1` items.
pub fn spawn(
    world: &mut World,
    rng: &mut rltk::RandomNumberGenerator,
    room: &Rect,
    rooms: &config::Rooms,
    monsters: &config::Monsters,
    items: &config::Items,
)
    requires
        old(world)@.wf(),
        settings_fit(*rooms, *monsters, *items),
    ensures
        old(world)@.filling_outcome(final(world)@, *monsters, *items),
        final(world)@.entities.len() <= old(world)@.entities.len() + rooms.max_monsters
            + rooms.max_items + 2,
        final(world)@.wf(),
{
    let ghost start = world@;
    let width = world.map.width;
    let num_monsters = monster_count(roll_dice(rng, 1, rooms.max_monsters + 2));
    let num_items = item_count(roll_dice(rng, 1, rooms.max_items + 2));
    let monster_spawn_points = spawn_points(rng, room, num_monsters, width);
    let item_spawn_points = spawn_points(rng, room, num_items, width);
    assert(start.entities.take(start.entities.len() as int) =~= start.entities);

    let mut k: usize = 0;
    while k < monster_spawn_points.len()
        invariant
            k <= monster_spawn_points.len(),
            world@.wf(),
            width == start.map.width,
            settings_fit(*rooms, *monsters, *items),
            start.filling_outcome(world@, *monsters, *items),
            world@.entities.len() <= start.entities.len() + k,
        decreases monster_spawn_points.len() - k,
    {
        let idx = monster_spawn_points[k];
        if idx < world.map.tiles.len() {
            let at = world.map.idx_xy(idx);
            let ghost before = world@;
            let place = Position { x: at.x, y: at.y };
            monster::random(world, rng, place, monsters);
            proof {
                let rec = world@.entities[before.entities.len() as int];
                let roll = choose|roll: int|
                    1 <= roll <= 2 && world@ == before.with_spawned(
                        #[trigger] monster::spec_for_roll(roll, place, *monsters),
                    );
                assert(rec == monster::spec_for_roll(roll, place, *monsters));
                assert(is_spawned(start, rec, *monsters, *items));
                assert(world@.entities.take(start.entities.len() as int) =~= before.entities.take(
                    start.entities.len() as int,
                ));
                assert forall|i: int|
                    start.entities.len() <= i < world@.entities.len() implies is_spawned(
                    start,
                    #[trigger] world@.entities[i],
                    *monsters,
                    *items,
                ) by {
                    if i < before.entities.len() {
                        assert(world@.entities[i] == before.entities[i]);
                    }
                }
            }
        }
        k += 1;
    }
    let ghost peopled = world@.entities.len();
    let mut j: usize = 0;
    while j < item_spawn_points.len()
        invariant
            j <= item_spawn_points.len(),
            world@.wf(),
            width == start.map.width,
            settings_fit(*rooms, *monsters, *items),
            start.filling_outcome(world@, *monsters, *items),
            world@.entities.len() <= peopled + j,
        decreases item_spawn_points.len() - j,
    {
        let idx = item_spawn_points[j];
        if idx < world.map.tiles.len() {
            let at = world.map.idx_xy(idx);
            let ghost before = world@;
            let place = Position { x: at.x, y: at.y };
            items::random(world, rng, place, items);
            proof {
                let rec = world@.entities[before.entities.len() as int];
                let roll = choose|roll: int|
                    1 <= roll <= 5 && world@ == before.with_spawned(
                        #[trigger] items::spec_for_roll(roll, place, *items),
                    );
                assert(rec == items::spec_for_roll(roll, place, *items));
                assert(is_spawned(start, rec, *monsters, *items));
                assert(world@.entities.take(start.entities.len() as int) =~= before.entities.take(
                    start.entities.len() as int,
                ));
                assert forall|i: int|
                    start.entities.len() <= i < world@.entities.len() implies is_spawned(
                    start,
                    #[trigger] world@.entities[i],
                    *monsters,
                    *items,
                ) by {
                    if i < before.entities.len() {
                        assert(world@.entities[i] == before.entities[i]);
                    }
                }
            }
        }
        j += 1;
    }
}

} // verus!
