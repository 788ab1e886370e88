//! What creatures with a faction decide on their turn, from whom they see.
//!
//! A creature looks at every tile in its viewshed but its own and reacts to
//! each occupant that has a faction, as the faction table says. Towards
//! those it attacks, the first of these that applies is what it does: melee
//! with the nearest one within reach; a spell, if one of its abilities
//! covers the distance and the roll for it succeeds; a shot, if its best
//! ranged weapon covers the distance; an approach. With no one to attack it
//! flees from those it fears.

use vstd::prelude::*;
use crate::components::{
    Chasing, Entity, EntitySpec, Position, SpecialAbility, WantsToApproach, WantsToCastSpell, WantsToFlee,
    WantsToMelee, WantsToShoot,
};
use crate::geometry::{
    covers, covers_rounded_down, spec_covers, spec_covers_rounded_down, spec_distance_squared,
    Coord,
};
use crate::rng::roll_dice;
use crate::world::{lemma_with_entity_wf, FactionReaction, Reaction, World, WorldSpec};

verus! {

/// The sides of the die that decides whether an ability is used.
pub const ABILITY_DIE: i32 = 100;

/// Someone seen: on which tile, how the one who sees reacts, and who it is.
#[derive(Clone, Copy, Debug, PartialEq, Eq, Structural)]
pub struct Sighting {
    pub idx: usize,
    pub reaction: Reaction,
    pub other: Entity,
}

/// A spell that could be cast: which, at which tile, and with which chance
/// in a hundred.
#[derive(Clone, Copy, Debug, PartialEq, Eq, Structural)]
pub struct CastOption {
    pub spell: Entity,
    pub target: Coord,
    pub chance: i32,
}

/// The system of creatures that act on what they see.
pub struct VisibleAI {}

/// How faction `mine` reacts to faction `theirs`: as the first line of the
/// table from position `k` on says that is about the two, and with
/// indifference if there is none.
pub open spec fn spec_reaction(table: Seq<FactionReaction>, mine: u32, theirs: u32, k: int)
    -> Reaction
    decreases table.len() - k,
{
    if k < 0 || k >= table.len() {
        Reaction::Ignore
    } else if table[k].mine == mine && table[k].theirs == theirs {
        table[k].reaction
    } else {
        spec_reaction(table, mine, theirs, k + 1)
    }
}

/// Whether an ability reaches a target at the given squared distance: the
/// distance is at most the range and at least the minimal range.
pub open spec fn spec_in_bracket(a: SpecialAbility, d2: int) -> bool {
    spec_covers(a.range as int, d2) && (a.min_range <= 0 || d2 >= a.min_range * a.min_range)
}

/// Whether a roll of the ability die lets an ability with this chance be
/// used.
pub open spec fn spec_roll_succeeds(roll: int, chance: int) -> bool {
    roll <= chance
}

/// The first option from position `k` on whose roll succeeds. An option
/// without a roll is not taken.
pub open spec fn spec_first_success(options: Seq<CastOption>, rolls: Seq<i32>, k: int) -> Option<
    int,
>
    decreases options.len() - k,
{
    if k < 0 || k >= options.len() || k >= rolls.len() {
        None
    } else if spec_roll_succeeds(rolls[k] as int, options[k].chance as int) {
        Some(k)
    } else {
        spec_first_success(options, rolls, k + 1)
    }
}

/// The first sighting from position `k` on that is reacted to with an
/// attack.
pub open spec fn spec_first_foe(s: Seq<Sighting>, k: int) -> Option<Sighting>
    decreases s.len() - k,
{
    if k < 0 || k >= s.len() {
        None
    } else if s[k].reaction == Reaction::Attack {
        Some(s[k])
    } else {
        spec_first_foe(s, k + 1)
    }
}

/// The tiles of the first `k` sightings that are reacted to with flight.
pub open spec fn spec_threats(s: Seq<Sighting>, k: int) -> Seq<usize>
    decreases k,
{
    if k <= 0 {
        Seq::empty()
    } else if s[k - 1].reaction == Reaction::Flee {
        spec_threats(s, k - 1).push(s[k - 1].idx)
    } else {
        spec_threats(s, k - 1)
    }
}

impl WorldSpec {
    /// Entity `e` takes a turn in this system: it is its turn, it has a
    /// faction, a position and a viewshed, and it is not the player.
    pub open spec fn takes_ai_turn(self, e: int) -> bool {
        &&& 0 <= e < self.entities.len()
        &&& e != self.player.id
        &&& self.entities[e].my_turn is Some
        &&& self.entities[e].faction is Some
        &&& self.entities[e].position is Some
        &&& self.entities[e].viewshed is Some
    }

    /// Where `e` stands.
    pub open spec fn place_of(self, e: int) -> Coord {
        Coord { x: self.entities[e].position->0.x, y: self.entities[e].position->0.y }
    }

    /// The sightings among the first `k` occupants of tile `idx`, for a
    /// creature of faction `mine`: one for each occupant with a faction.
    pub open spec fn sightings_on(self, mine: u32, idx: int, k: int) -> Seq<Sighting>
        decreases k,
    {
        if k <= 0 {
            Seq::empty()
        } else {
            let o = self.map.tile_content[idx][k - 1];
            if o.id < self.entities.len() && self.entities[o.id as int].faction is Some {
                self.sightings_on(mine, idx, k - 1).push(
                    Sighting {
                        idx: idx as usize,
                        reaction: spec_reaction(
                            self.reactions,
                            mine,
                            self.entities[o.id as int].faction->0.id,
                            0,
                        ),
                        other: o,
                    },
                )
            } else {
                self.sightings_on(mine, idx, k - 1)
            }
        }
    }

    /// The sightings of `e` on the first `k` tiles of its viewshed. Its own
    /// tile is passed over, and so is a tile that is not on the map.
    pub open spec fn sightings(self, e: int, k: int) -> Seq<Sighting>
        decreases k,
    {
        if k <= 0 {
            Seq::empty()
        } else {
            let p = self.entities[e].viewshed->0.visible_tiles[k - 1];
            let idx = self.map.idx(p.x as int, p.y as int);
            if self.map.in_bounds(p.x as int, p.y as int) && idx != self.tile_of(e) {
                self.sightings(e, k - 1) + self.sightings_on(
                    self.entities[e].faction->0.id,
                    idx,
                    self.map.tile_content[idx].len() as int,
                )
            } else {
                self.sightings(e, k - 1)
            }
        }
    }

    /// Everyone `e` sees.
    pub open spec fn all_sightings(self, e: int) -> Seq<Sighting> {
        self.sightings(e, self.entities[e].viewshed->0.visible_tiles.len() as int)
    }

    /// The squared distance from `e` to the tile of a sighting.
    pub open spec fn distance_to(self, e: int, s: Sighting) -> int {
        spec_distance_squared(self.place_of(e), self.map.point_of(s.idx as int))
    }

    /// The nearest of the first `k` sightings that is attacked and within
    /// melee reach; of several that are equally near, the first.
    pub open spec fn nearest_foe(self, e: int, s: Seq<Sighting>, k: int) -> Option<Sighting>
        decreases k,
    {
        if k <= 0 {
            None
        } else {
            let prev = self.nearest_foe(e, s, k - 1);
            let cur = s[k - 1];
            if cur.reaction == Reaction::Attack && self.distance_to(e, cur) <= 2 {
                match prev {
                    Some(p) => if self.distance_to(e, p) <= self.distance_to(e, cur) {
                        prev
                    } else {
                        Some(cur)
                    },
                    None => Some(cur),
                }
            } else {
                prev
            }
        }
    }

    /// The spells that the first `k` of `abilities` offer against a
    /// sighting: one for each ability that reaches it.
    pub open spec fn cast_options_for(
        self,
        e: int,
        s: Sighting,
        abilities: Seq<SpecialAbility>,
        k: int,
    ) -> Seq<CastOption>
        decreases k,
    {
        if k <= 0 {
            Seq::empty()
        } else if spec_in_bracket(abilities[k - 1], self.distance_to(e, s)) {
            self.cast_options_for(e, s, abilities, k - 1).push(
                CastOption {
                    spell: abilities[k - 1].spell,
                    target: self.map.point_of(s.idx as int),
                    chance: abilities[k - 1].chance,
                },
            )
        } else {
            self.cast_options_for(e, s, abilities, k - 1)
        }
    }

    /// The abilities of `e`.
    pub open spec fn abilities_of(self, e: int) -> Seq<SpecialAbility> {
        match self.entities[e].special_abilities {
            Some(a) => a,
            None => Seq::empty(),
        }
    }

    /// The spells that `e` could cast at the first `k` sightings: for each
    /// sighting that is attacked, in order, what its abilities offer.
    pub open spec fn cast_options(self, e: int, s: Seq<Sighting>, k: int) -> Seq<CastOption>
        decreases k,
    {
        if k <= 0 {
            Seq::empty()
        } else if s[k - 1].reaction == Reaction::Attack {
            self.cast_options(e, s, k - 1) + self.cast_options_for(
                e,
                s[k - 1],
                self.abilities_of(e),
                self.abilities_of(e).len() as int,
            )
        } else {
            self.cast_options(e, s, k - 1)
        }
    }

    /// Entity `w` is a ranged weapon that `e` has equipped.
    pub open spec fn is_ranged_weapon_of(self, w: int, e: int) -> bool {
        &&& self.entities[w].weapon matches Some(weapon) && weapon.range is Some
        &&& self.entities[w].equipped matches Some(eq) && eq.owner.id == e
    }

    /// The longest range among the ranged weapons before index `n` that
    /// `e` has equipped.
    pub open spec fn best_range(self, e: int, n: int) -> Option<i32>
        decreases n,
    {
        if n <= 0 {
            None
        } else {
            let prev = self.best_range(e, n - 1);
            if self.is_ranged_weapon_of(n - 1, e) {
                let r = self.entities[n - 1].weapon->0.range->0;
                match prev {
                    Some(p) => if p >= r {
                        prev
                    } else {
                        Some(r)
                    },
                    None => Some(r),
                }
            } else {
                prev
            }
        }
    }

    /// The first sighting from position `k` on that is attacked and that
    /// a weapon of range `range` reaches, the distance rounded down to
    /// whole tiles.
    pub open spec fn first_shot(self, e: int, s: Seq<Sighting>, range: i32, k: int) -> Option<
        Sighting,
    >
        decreases s.len() - k,
    {
        if k < 0 || k >= s.len() {
            None
        } else if s[k].reaction == Reaction::Attack && spec_covers_rounded_down(
            range as int,
            self.distance_to(e, s[k]),
        ) {
            Some(s[k])
        } else {
            self.first_shot(e, s, range, k + 1)
        }
    }

    /// The sighting that `e` shoots at, if it has a ranged weapon that
    /// reaches one.
    pub open spec fn shot_of(self, e: int, s: Seq<Sighting>) -> Option<Sighting> {
        match self.best_range(e, self.entities.len() as int) {
            Some(range) => self.first_shot(e, s, range, 0),
            None => None,
        }
    }

    /// The record of `e` once it has decided, given the rolls for the
    /// spells it could cast.
    pub open spec fn decided(self, e: int, rolls: Seq<i32>) -> EntitySpec {
        let rec = self.entities[e];
        let s = self.all_sightings(e);
        let options = self.cast_options(e, s, s.len() as int);
        match self.nearest_foe(e, s, s.len() as int) {
            Some(foe) => EntitySpec {
                wants_to_melee: Some(WantsToMelee { target: foe.other }),
                ..rec
            },
            None => match spec_first_success(options, rolls, 0) {
                Some(c) => EntitySpec {
                    wants_to_cast_spell: Some(
                        WantsToCastSpell { spell: options[c].spell, target: Some(options[c].target) },
                    ),
                    ..rec
                },
                None => match self.shot_of(e, s) {
                    Some(foe) => EntitySpec {
                        wants_to_shoot: Some(WantsToShoot { target: foe.other }),
                        ..rec
                    },
                    None => match spec_first_foe(s, 0) {
                        Some(foe) => EntitySpec {
                            wants_to_approach: Some(WantsToApproach { idx: foe.idx }),
                            chasing: Some(Chasing { target: foe.other }),
                            ..rec
                        },
                        None => if spec_threats(s, s.len() as int).len() > 0 {
                            EntitySpec {
                                wants_to_flee: Some(spec_threats(s, s.len() as int)),
                                ..rec
                            }
                        } else {
                            rec
                        },
                    },
                },
            },
        }
    }

    /// The world once `e` has had its turn in this system, given the rolls
    /// for the spells it could cast. Who takes no turn changes nothing.
    pub open spec fn after_ai_turn(self, e: int, rolls: Seq<i32>) -> WorldSpec {
        if self.takes_ai_turn(e) {
            self.with_entity(e, self.decided(e, rolls))
        } else {
            self
        }
    }

    /// The world once the entities before index `n` have had their turns,
    /// entity `i` with the rolls `rolls[i]`.
    pub open spec fn after_ai_turns(self, n: int, rolls: Seq<Seq<i32>>) -> WorldSpec
        decreases n,
    {
        if n <= 0 {
            self
        } else {
            self.after_ai_turns(n - 1, rolls).after_ai_turn(n - 1, rolls[n - 1])
        }
    }
}

/// Every roll is one that the ability die can show.
pub open spec fn rolls_possible(rolls: Seq<Seq<i32>>) -> bool {
    forall|i: int, k: int|
        0 <= i < rolls.len() && 0 <= k < rolls[i].len() ==> 1 <= #[trigger] rolls[i][k]
            <= ABILITY_DIE
}

/// How faction `mine` reacts to faction `theirs`.
pub fn faction_reaction(table: &Vec<FactionReaction>, mine: u32, theirs: u32) -> (r: Reaction)
    ensures
        r == spec_reaction(table@, mine, theirs, 0),
{
    let mut k: usize = 0;
    while k < table.len()
        invariant
            k <= table.len(),
            spec_reaction(table@, mine, theirs, 0) == spec_reaction(table@, mine, theirs, k as int),
        decreases table.len() - k,
    {
        if table[k].mine == mine && table[k].theirs == theirs {
            return table[k].reaction;
        }
        k += 1;
    }
    Reaction::Ignore
}

/// Whether an ability reaches a target at the given squared distance.
pub fn in_bracket(a: &SpecialAbility, d2: i128) -> (r: bool)
    requires
        0 <= d2,
    ensures
        r == spec_in_bracket(*a, d2 as int),
{
    if !covers(a.range, d2) {
        return false;
    }
    if a.min_range <= 0 {
        return true;
    }
    let m: i128 = a.min_range as i128;
    assert(0 <= m * m <= 0x8000_0000 * 0x8000_0000) by (nonlinear_arith)
        requires
            0 <= m < 0x8000_0000,
    ;
    d2 >= m * m
}

/// Every sighting is on a tile of the map.
pub open spec fn sightings_on_map(w: WorldSpec, s: Seq<Sighting>) -> bool {
    forall|k: int| 0 <= k < s.len() ==> (#[trigger] s[k]).idx < w.map.size()
}

/// Everyone `e` sees.
fn sightings_of(world: &World, e: usize) -> (s: Vec<Sighting>)
    requires
        world@.wf(),
        world@.takes_ai_turn(e as int),
    ensures
        s@ == world@.all_sightings(e as int),
        sightings_on_map(world@, s@),
{
    let mut s: Vec<Sighting> = Vec::new();
    assert(world@.entity_wf(e as int));
    let here = match world.entities[e].position {
        Some(p) => p,
        None => Position { x: 0, y: 0 },
    };
    let mine = match world.entities[e].faction {
        Some(f) => f.id,
        None => 0,
    };
    let my_idx = world.map.xy_idx(here.x, here.y);
    let count: usize = match &world.entities[e].viewshed {
        Some(v) => v.visible_tiles.len(),
        None => 0,
    };
    let mut k: usize = 0;
    while k < count
        invariant
            k <= count,
            e < world.entities@.len(),
            world@.wf(),
            world@.takes_ai_turn(e as int),
            count == world@.entities[e as int].viewshed->0.visible_tiles.len(),
            mine == world@.entities[e as int].faction->0.id,
            my_idx == world@.tile_of(e as int),
            s@ == world@.sightings(e as int, k as int),
            sightings_on_map(world@, s@),
        decreases count - k,
    {
        let p = match &world.entities[e].viewshed {
            Some(v) => v.visible_tiles[k],
            None => Coord { x: 0, y: 0 },
        };
        if world.map.in_bounds(p.x, p.y) {
            let idx = world.map.xy_idx(p.x, p.y);
            if idx != my_idx {
                assert(world.map@.tile_content[idx as int] == world.map.tile_content@[idx as int]@);
                let content = &world.map.tile_content[idx];
                let ghost base = s@;
                assert(s@ =~= base + world@.sightings_on(mine, idx as int, 0));
                let mut c: usize = 0;
                while c < content.len()
                    invariant
                        c <= content.len(),
                        idx < world@.map.size(),
                        content@ == world@.map.tile_content[idx as int],
                        sightings_on_map(world@, base),
                        s@ == base + world@.sightings_on(mine, idx as int, c as int),
                        sightings_on_map(world@, s@),
                    decreases content.len() - c,
                {
                    let o = content[c];
                    if o.id < world.entities.len() {
                        match world.entities[o.id].faction {
                            Some(f) => {
                                let reaction = faction_reaction(&world.reactions, mine, f.id);
                                s.push(Sighting { idx, reaction, other: o });
                            },
                            None => {},
                        }
                    }
                    c += 1;
                    assert(s@ =~= base + world@.sightings_on(mine, idx as int, c as int));
                    assert forall|j: int| 0 <= j < s@.len() implies (#[trigger] s@[j]).idx
                        < world@.map.size() by {
                        if j < base.len() {
                            assert(s@[j] == base[j]);
                        }
                    }
                }
            }
        }
        k += 1;
    }
    s
}

/// The squared distance from where `e` stands to the tile of a sighting.
fn distance_to(world: &World, e: usize, s: &Sighting) -> (d: i128)
    requires
        world@.wf(),
        world@.takes_ai_turn(e as int),
        s.idx < world@.map.size(),
    ensures
        d == world@.distance_to(e as int, *s),
        0 <= d,
{
    let here = match world.entities[e].position {
        Some(p) => Coord { x: p.x, y: p.y },
        None => Coord { x: 0, y: 0 },
    };
    let there = world.map.idx_xy(s.idx);
    here.distance_squared(&there)
}

/// The nearest sighting that is attacked and within melee reach.
fn nearest_foe(world: &World, e: usize, s: &Vec<Sighting>) -> (r: Option<Sighting>)
    requires
        world@.wf(),
        world@.takes_ai_turn(e as int),
        sightings_on_map(world@, s@),
    ensures
        r == world@.nearest_foe(e as int, s@, s@.len() as int),
{
    let mut best: Option<(i128, Sighting)> = None;
    let mut k: usize = 0;
    while k < s.len()
        invariant
            k <= s.len(),
            world@.wf(),
            world@.takes_ai_turn(e as int),
            sightings_on_map(world@, s@),
            match best {
                Some((d, foe)) => world@.nearest_foe(e as int, s@, k as int) == Some(foe) && d
                    == world@.distance_to(e as int, foe),
                None => world@.nearest_foe(e as int, s@, k as int) is None,
            },
        decreases s.len() - k,
    {
        let cur = s[k];
        if cur.reaction == Reaction::Attack {
            let d = distance_to(world, e, &cur);
            if d <= 2 {
                match best {
                    Some((b, _)) => {
                        if !(b <= d) {
                            best = Some((d, cur));
                        }
                    },
                    None => {
                        best = Some((d, cur));
                    },
                }
            }
        }
        k += 1;
    }
    match best {
        Some((_, foe)) => Some(foe),
        None => None,
    }
}

/// The spells that `e` could cast at whom it attacks.
fn cast_options(world: &World, e: usize, s: &Vec<Sighting>) -> (options: Vec<CastOption>)
    requires
        world@.wf(),
        world@.takes_ai_turn(e as int),
        sightings_on_map(world@, s@),
    ensures
        options@ == world@.cast_options(e as int, s@, s@.len() as int),
{
    let mut options: Vec<CastOption> = Vec::new();
    let count: usize = match &world.entities[e].special_abilities {
        Some(a) => a.abilities.len(),
        None => 0,
    };
    let mut k: usize = 0;
    while k < s.len()
        invariant
            k <= s.len(),
            e < world.entities@.len(),
            world@.wf(),
            world@.takes_ai_turn(e as int),
            sightings_on_map(world@, s@),
            count == world@.abilities_of(e as int).len(),
            options@ == world@.cast_options(e as int, s@, k as int),
        decreases s.len() - k,
    {
        let cur = s[k];
        if cur.reaction == Reaction::Attack {
            let d = distance_to(world, e, &cur);
            let target = world.map.idx_xy(cur.idx);
            let ghost base = options@;
            assert(options@ =~= base + world@.cast_options_for(
                e as int,
                cur,
                world@.abilities_of(e as int),
                0,
            ));
            let mut a: usize = 0;
            while a < count
                invariant
                    a <= count,
                    e < world.entities@.len(),
                    count == world@.abilities_of(e as int).len(),
                    d == world@.distance_to(e as int, cur),
                    0 <= d,
                    target == world@.map.point_of(cur.idx as int),
                    options@ == base + world@.cast_options_for(
                        e as int,
                        cur,
                        world@.abilities_of(e as int),
                        a as int,
                    ),
                decreases count - a,
            {
                let ability = match &world.entities[e].special_abilities {
                    Some(list) => list.abilities[a],
                    None => SpecialAbility { spell: Entity { id: 0 }, chance: 0, range: 0, min_range: 0 },
                };
                if in_bracket(&ability, d) {
                    options.push(CastOption { spell: ability.spell, target, chance: ability.chance });
                }
                a += 1;
                assert(options@ =~= base + world@.cast_options_for(
                    e as int,
                    cur,
                    world@.abilities_of(e as int),
                    a as int,
                ));
            }
        }
        k += 1;
    }
    options
}

/// The longest range among the ranged weapons that `e` has equipped.
fn best_range(world: &World, e: usize) -> (r: Option<i32>)
    ensures
        r == world@.best_range(e as int, world@.entities.len() as int),
{
    let mut best: Option<i32> = None;
    let n: usize = world.entities.len();
    let mut w: usize = 0;
    while w < n
        invariant
            w <= n,
            n == world@.entities.len(),
            best == world@.best_range(e as int, w as int),
        decreases n - w,
    {
        let range = match world.entities[w].weapon {
            Some(weapon) => weapon.range,
            None => None,
        };
        let owned = match world.entities[w].equipped {
            Some(eq) => eq.owner.id == e,
            None => false,
        };
        match range {
            Some(r) => {
                if owned {
                    match best {
                        Some(b) => {
                            if !(b >= r) {
                                best = Some(r);
                            }
                        },
                        None => {
                            best = Some(r);
                        },
                    }
                }
            },
            None => {},
        }
        w += 1;
    }
    best
}

/// The first sighting that is attacked and within `range`.
fn first_shot(world: &World, e: usize, s: &Vec<Sighting>, range: i32) -> (r: Option<Sighting>)
    requires
        world@.wf(),
        world@.takes_ai_turn(e as int),
        sightings_on_map(world@, s@),
    ensures
        r == world@.first_shot(e as int, s@, range, 0),
{
    let mut k: usize = 0;
    while k < s.len()
        invariant
            k <= s.len(),
            world@.wf(),
            world@.takes_ai_turn(e as int),
            sightings_on_map(world@, s@),
            world@.first_shot(e as int, s@, range, 0) == world@.first_shot(
                e as int,
                s@,
                range,
                k as int,
            ),
        decreases s.len() - k,
    {
        let cur = s[k];
        if cur.reaction == Reaction::Attack {
            let d = distance_to(world, e, &cur);
            if covers_rounded_down(range, d) {
                return Some(cur);
            }
        }
        k += 1;
    }
    None
}

/// The first sighting that is attacked.
pub fn first_foe(s: &Vec<Sighting>) -> (r: Option<Sighting>)
    ensures
        r == spec_first_foe(s@, 0),
{
    let mut k: usize = 0;
    while k < s.len()
        invariant
            k <= s.len(),
            spec_first_foe(s@, 0) == spec_first_foe(s@, k as int),
        decreases s.len() - k,
    {
        if s[k].reaction == Reaction::Attack {
            return Some(s[k]);
        }
        k += 1;
    }
    None
}

/// The tiles of the sightings that are fled from.
pub fn threats(s: &Vec<Sighting>) -> (r: Vec<usize>)
    ensures
        r@ == spec_threats(s@, s@.len() as int),
{
    let mut r: Vec<usize> = Vec::new();
    let mut k: usize = 0;
    while k < s.len()
        invariant
            k <= s.len(),
            r@ == spec_threats(s@, k as int),
        decreases s.len() - k,
    {
        if s[k].reaction == Reaction::Flee {
            r.push(s[k].idx);
        }
        k += 1;
    }
    r
}

/// The first option whose roll succeeds.
pub fn first_success(options: &Vec<CastOption>, rolls: &Vec<i32>) -> (r: Option<usize>)
    ensures
        match r {
            Some(c) => spec_first_success(options@, rolls@, 0) == Some(c as int) && c
                < options@.len(),
            None => spec_first_success(options@, rolls@, 0) is None,
        },
{
    let mut k: usize = 0;
    while k < options.len() && k < rolls.len()
        invariant
            k <= options.len(),
            spec_first_success(options@, rolls@, 0) == spec_first_success(
                options@,
                rolls@,
                k as int,
            ),
        decreases options.len() - k,
    {
        if rolls[k] <= options[k].chance {
            return Some(k);
        }
        k += 1;
    }
    None
}

/// The turns before index `n` read the rolls before index `n` only.
pub proof fn lemma_turns_read_own_rolls(w: WorldSpec, n: int, a: Seq<Seq<i32>>, b: Seq<Seq<i32>>)
    requires
        0 <= n <= a.len(),
        n <= b.len(),
        forall|i: int| 0 <= i < n ==> a[i] == b[i],
    ensures
        w.after_ai_turns(n, a) == w.after_ai_turns(n, b),
    decreases n,
{
    if n > 0 {
        lemma_turns_read_own_rolls(w, n - 1, a, b);
    }
}

impl VisibleAI {
    /// Gives `e` its turn, with the rolls that were made for the spells it
    /// could cast: the first roll for the first such spell, and so on.
    pub fn act(&mut self, world: &mut World, e: Entity, rolls: &Vec<i32>)
        requires
            old(world)@.wf(),
        ensures
            final(world)@ == old(world)@.after_ai_turn(e.id as int, rolls@),
            final(world)@.wf(),
    {
        let ghost before = world@;
        let id = e.id;
        if !(id < world.entities.len() && id != world.player.id
            && world.entities[id].my_turn.is_some() && world.entities[id].faction.is_some()
            && world.entities[id].position.is_some() && world.entities[id].viewshed.is_some()) {
            return ;
        }
        let s = sightings_of(world, id);
        match nearest_foe(world, id, &s) {
            Some(foe) => {
                world.entities[id].wants_to_melee = Some(WantsToMelee { target: foe.other });
            },
            None => {
                let options = cast_options(world, id, &s);
                match first_success(&options, rolls) {
                    Some(c) => {
                        world.entities[id].wants_to_cast_spell = Some(
                            WantsToCastSpell {
                                spell: options[c].spell,
                                target: Some(options[c].target),
                            },
                        );
                    },
                    None => {
                        let shot = match best_range(world, id) {
                            Some(range) => first_shot(world, id, &s, range),
                            None => None,
                        };
                        match shot {
                            Some(foe) => {
                                world.entities[id].wants_to_shoot = Some(
                                    WantsToShoot { target: foe.other },
                                );
                            },
                            None => {
                                match first_foe(&s) {
                                    Some(foe) => {
                                        world.entities[id].wants_to_approach = Some(
                                            WantsToApproach { idx: foe.idx },
                                        );
                                        world.entities[id].chasing = Some(
                                            Chasing { target: foe.other },
                                        );
                                    },
                                    None => {
                                        let feared = threats(&s);
                                        if feared.len() > 0 {
                                            world.entities[id].wants_to_flee = Some(
                                                WantsToFlee { indices: feared },
                                            );
                                        }
                                    },
                                }
                            },
                        }
                    },
                }
            },
        }
        proof {
            let rec = before.decided(id as int, rolls@);
            assert(world@.entities[id as int] == rec);
            assert(world@.entities =~= before.entities.update(id as int, rec));
            assert(world@.dungeon =~= before.dungeon);
            assert(before.entity_wf(id as int));
            lemma_with_entity_wf(before, id as int, rec);
        }
    }

    /// The rolls for the spells that `e` could cast: one for each, in
    /// order, up to the first that succeeds. A creature that takes no turn,
    /// or that has a foe within melee reach, needs none.
    fn roll_for(&self, world: &World, rng: &mut rltk::RandomNumberGenerator, e: usize) -> (rolls:
        Vec<i32>)
        requires
            world@.wf(),
        ensures
            forall|k: int| 0 <= k < rolls@.len() ==> 1 <= #[trigger] rolls@[k] <= ABILITY_DIE,
            rolled_until_success(world@.spells_rolled_for(e as int), rolls@),
    {
        let mut rolls: Vec<i32> = Vec::new();
        if !(e < world.entities.len() && e != world.player.id
            && world.entities[e].my_turn.is_some() && world.entities[e].faction.is_some()
            && world.entities[e].position.is_some() && world.entities[e].viewshed.is_some()) {
            return rolls;
        }
        let s = sightings_of(world, e);
        if nearest_foe(world, e, &s).is_some() {
            return rolls;
        }
        let options = cast_options(world, e, &s);
        let mut k: usize = 0;
        while k < options.len()
            invariant
                k <= options.len(),
                rolls@.len() == k,
                options@ == world@.spells_rolled_for(e as int),
                forall|j: int| 0 <= j < rolls@.len() ==> 1 <= #[trigger] rolls@[j] <= ABILITY_DIE,
                forall|j: int|
                    0 <= j < rolls@.len() ==> !spec_roll_succeeds(
                        #[trigger] rolls@[j] as int,
                        options@[j].chance as int,
                    ),
            decreases options.len() - k,
        {
            let roll = roll_dice(rng, 1, ABILITY_DIE);
            rolls.push(roll);
            if roll <= options[k].chance {
                return rolls;
            }
            k += 1;
        }
        rolls
    }

    /// Gives every creature its turn, in index order. Whether a spell is
    /// cast is decided by a roll of the ability die for each spell that
    /// could be cast; everything else is decided by the world as it is.
    pub fn run(&mut self, world: &mut World, rng: &mut rltk::RandomNumberGenerator)
        requires
            old(world)@.wf(),
        ensures
            exists|rolls: Seq<Seq<i32>>|
                rolls.len() == old(world)@.entities.len() && rolls_possible(rolls)
                    && final(world)@ == #[trigger] old(world)@.after_ai_turns(
                    old(world)@.entities.len() as int,
                    rolls,
                ),
            final(world)@.wf(),
    {
        let ghost start = world@;
        let ghost mut all_rolls: Seq<Seq<i32>> = Seq::empty();
        let n: usize = world.entities.len();
        let mut i: usize = 0;
        while i < n
            invariant
                i <= n,
                n == start.entities.len(),
                n == world@.entities.len(),
                world@.wf(),
                all_rolls.len() == i,
                rolls_possible(all_rolls),
                world@ == start.after_ai_turns(i as int, all_rolls),
            decreases n - i,
        {
            let rolls = self.roll_for(world, rng, i);
            let ghost before = world@;
            self.act(world, Entity { id: i }, &rolls);
            proof {
                let longer = all_rolls.push(rolls@);
                lemma_turns_read_own_rolls(start, i as int, all_rolls, longer);
                assert forall|a: int, k: int|
                    0 <= a < longer.len() && 0 <= k < longer[a].len() implies 1
                    <= #[trigger] longer[a][k] <= ABILITY_DIE by {
                    if a < all_rolls.len() {
                        assert(longer[a] == all_rolls[a]);
                    }
                }
                all_rolls = longer;
            }
            i += 1;
        }
    }
}

/// `rolls` are what one creature rolls for the spells `options`: a roll for
/// each spell in order, up to the first roll that succeeds. No roll before
/// the last succeeds, and the rolls stop short of the last spell only on a
/// success.
pub open spec fn rolled_until_success(options: Seq<CastOption>, rolls: Seq<i32>) -> bool {
    &&& rolls.len() <= options.len()
    &&& forall|k: int|
        0 <= k < rolls.len() - 1 ==> !spec_roll_succeeds(
            #[trigger] rolls[k] as int,
            options[k].chance as int,
        )
    &&& (rolls.len() < options.len() ==> rolls.len() > 0 && spec_roll_succeeds(
        rolls[rolls.len() - 1] as int,
        options[rolls.len() - 1].chance as int,
    ))
}

impl WorldSpec {
    /// The spells that `e` rolls for on its turn: the spells it could cast
    /// at whom it attacks. A creature that takes no turn, or that has a foe
    /// within melee reach, rolls for none.
    pub open spec fn spells_rolled_for(self, e: int) -> Seq<CastOption> {
        if self.takes_ai_turn(e) && self.nearest_foe(
            e,
            self.all_sightings(e),
            self.all_sightings(e).len() as int,
        ) is None {
            self.cast_options(e, self.all_sightings(e), self.all_sightings(e).len() as int)
        } else {
            Seq::empty()
        }
    }
}

} // verus!
