//! The system pipeline of one tick as a sequence of steps. Each step runs
//! one phase, or the turn of one entity within a phase, and says which
//! step comes next. Where an entity needs a path, the step hands out the
//! request and the next step takes the path that was found: the caller
//! searches paths and decides nothing else.

use vstd::prelude::*;
use crate::ai::{MonsterAI, MonsterAction};
use crate::components::Entity;
use crate::map::{lemma_idx_in_range, lemma_point_of_index, MapSpec};
use crate::pathing::{
    finish_approaches, lemma_step_lands_on_open_tile, lemma_steps_keep_off_blocked_tiles,
    still_blocked, take_path_step, NavigationPath, PathRequest,
};
use crate::state::{RunState, State};
use crate::systems::lemma_resolution_ends_the_turn;
use crate::triggers::{Firing, TriggerSystem};
use crate::visible_ai::{rolls_possible, VisibleAI};
use crate::world::{World, WorldSpec};

verus! {

/// Where the pipeline stands.
#[derive(Clone, Copy, Debug, PartialEq, Eq, Structural)]
pub enum Phase {
    /// The visibility system is next.
    Visibility,
    /// The monsters from index `next` on have yet to decide.
    Monsters { next: usize },
    /// The monster at this index chases the player and waits for its path.
    MonsterPath { monster: usize },
    /// The creatures that act on what they see are next.
    Creatures,
    /// The entities from index `next` on have yet to approach.
    Approaches { next: usize },
    /// The entity at this index approaches a tile and waits for its path.
    ApproachPath { entity: usize },
    /// Indexing, melee, damage and the inventory systems are next.
    Resolution,
    /// The trigger system is next.
    Triggers,
    /// The pipeline has run.
    Done,
}

/// What one step of the pipeline hands back: the phase that follows, the
/// path that the caller is to search before it, and what the step set off.
#[derive(Debug)]
pub struct Step {
    pub next: Phase,
    pub request: Option<PathRequest>,
    pub fired: Vec<Firing>,
}

impl WorldSpec {
    /// The path that entity `e` asks for when it approaches.
    pub open spec fn approach_request(self, e: int) -> PathRequest {
        PathRequest {
            entity: Entity { id: e as usize },
            from: self.map.idx(
                self.entities[e].position->0.x as int,
                self.entities[e].position->0.y as int,
            ) as usize,
            to: self.entities[e].wants_to_approach->0.idx,
        }
    }

    /// The world once `e` has been handed the path that was found for it:
    /// it takes the first step of the path if it can. Without a path it
    /// stays where it is.
    pub open spec fn after_found_step(self, e: Entity, found: Option<NavigationPath>) -> WorldSpec {
        match found {
            Some(path) => self.after_path_step(e, path.success, path.steps@),
            None => self,
        }
    }

    /// The phase that follows `phase` in this world. The order is fixed:
    /// visibility; the monsters one by one, each followed by its path if it
    /// chases; the creatures; the approaches one by one, each followed by
    /// its path; the resolution; the triggers.
    pub open spec fn phase_after(self, phase: Phase) -> Phase {
        match phase {
            Phase::Visibility => Phase::Monsters { next: 0 },
            Phase::Monsters { next } => if next >= self.entities.len() {
                Phase::Creatures
            } else if self.monster_action(Entity { id: next }) is Chase {
                Phase::MonsterPath { monster: next }
            } else {
                Phase::Monsters { next: (next + 1) as usize }
            },
            Phase::MonsterPath { monster } => if monster < self.entities.len() {
                Phase::Monsters { next: (monster + 1) as usize }
            } else {
                Phase::Monsters { next: monster }
            },
            Phase::Creatures => Phase::Approaches { next: 0 },
            Phase::Approaches { next } => if next >= self.entities.len() {
                Phase::Resolution
            } else if self.approaches(next as int) {
                Phase::ApproachPath { entity: next }
            } else {
                Phase::Approaches { next: (next + 1) as usize }
            },
            Phase::ApproachPath { entity } => if entity < self.entities.len() {
                Phase::Approaches { next: (entity + 1) as usize }
            } else {
                Phase::Approaches { next: entity }
            },
            Phase::Resolution => Phase::Triggers,
            Phase::Triggers => Phase::Done,
            Phase::Done => Phase::Done,
        }
    }

    /// The path that the step of `phase` asks the caller to search: that of
    /// a monster that chases the player, or that of an entity that
    /// approaches a tile.
    pub open spec fn request_in(self, phase: Phase) -> Option<PathRequest> {
        match phase {
            Phase::Monsters { next } => if next < self.entities.len() {
                match self.monster_action(Entity { id: next }) {
                    MonsterAction::Chase { from, to } => Some(
                        PathRequest { entity: Entity { id: next }, from, to },
                    ),
                    _ => None,
                }
            } else {
                None
            },
            Phase::Approaches { next } => if next < self.entities.len() && self.approaches(
                next as int,
            ) {
                Some(self.approach_request(next as int))
            } else {
                None
            },
            _ => None,
        }
    }

    /// What the step of `phase` sets off: the trigger system's firings.
    pub open spec fn fired_in(self, phase: Phase) -> Seq<Firing> {
        if phase == Phase::Triggers {
            self.firings(self.entities.len() as int)
        } else {
            Seq::empty()
        }
    }

    /// World `after` is what the step of `phase` can make of this world,
    /// given the path that was found for the entity that waited for one.
    pub open spec fn pipeline_outcome(
        self,
        phase: Phase,
        found: Option<NavigationPath>,
        after: WorldSpec,
    ) -> bool {
        match phase {
            Phase::Visibility => self.visibility_outcome(after),
            Phase::Monsters { next } => after == (if next < self.entities.len() {
                self.after_monster_decision(Entity { id: next })
            } else {
                self
            }),
            Phase::MonsterPath { monster } => after == self.after_found_step(
                Entity { id: monster },
                found,
            ),
            Phase::Creatures => exists|rolls: Seq<Seq<i32>>|
                rolls.len() == self.entities.len() && rolls_possible(rolls) && after
                    == #[trigger] self.after_ai_turns(self.entities.len() as int, rolls),
            Phase::Approaches { next } => after == (if next >= self.entities.len() {
                self.after_approaches()
            } else {
                self
            }),
            Phase::ApproachPath { entity } => after == self.after_found_step(
                Entity { id: entity },
                found,
            ),
            Phase::Resolution => after == self.after_resolution(),
            Phase::Triggers => after == self.after_triggers(),
            Phase::Done => after == self,
        }
    }
}

/// How far the pipeline has come at `phase`, in a world of `len` records.
pub open spec fn phase_rank(phase: Phase, len: nat) -> nat {
    match phase {
        Phase::Visibility => 0,
        Phase::Monsters { next } => if next < len {
            (1 + 2 * next) as nat
        } else {
            1 + 2 * len
        },
        Phase::MonsterPath { monster } => if monster < len {
            (2 + 2 * monster) as nat
        } else {
            2 * len
        },
        Phase::Creatures => 2 + 2 * len,
        Phase::Approaches { next } => if next < len {
            (4 + 2 * len + 2 * next) as nat
        } else {
            4 + 4 * len
        },
        Phase::ApproachPath { entity } => if entity < len {
            (5 + 2 * len + 2 * entity) as nat
        } else {
            3 + 4 * len
        },
        Phase::Resolution => 5 + 4 * len,
        Phase::Triggers => 6 + 4 * len,
        Phase::Done => 7 + 4 * len,
    }
}

/// The pipeline moves forward: every step but the last leads to a phase
/// that is further on. While the number of records stays at `len`, the
/// steps of one tick therefore come to an end at `Done` after at most
/// `7 + 4 * len` of them.
pub proof fn lemma_pipeline_advances(w: WorldSpec, phase: Phase)
    requires
        w.entities.len() <= usize::MAX,
        phase != Phase::Done,
    ensures
        phase_rank(w.phase_after(phase), w.entities.len()) > phase_rank(phase, w.entities.len()),
        phase_rank(phase, w.entities.len()) < 7 + 4 * w.entities.len(),
{
}

impl WorldSpec {
    /// The world once the monster at index `i` has had its turn: it
    /// decides, and if it chases the player it takes the first step of the
    /// path that was found for it.
    pub open spec fn after_monster_turn(self, i: int, found: Option<NavigationPath>) -> WorldSpec {
        let e = Entity { id: i as usize };
        if self.monster_action(e) is Chase {
            self.after_monster_decision(e).after_found_step(e, found)
        } else {
            self.after_monster_decision(e)
        }
    }

    /// The world once the monsters before index `n` have had their turns,
    /// one after the other, `found[i]` being the path found for the monster
    /// at index `i`.
    pub open spec fn after_monster_turns(self, n: int, found: Seq<Option<NavigationPath>>)
        -> WorldSpec
        decreases n,
    {
        if n <= 0 {
            self
        } else {
            self.after_monster_turns(n - 1, found).after_monster_turn(n - 1, found[n - 1])
        }
    }

    /// The monster at index `i` moves in its turn: it chases the player and
    /// takes the first step of the path that was found for it.
    pub open spec fn monster_moves(self, i: int, found: Option<NavigationPath>) -> bool {
        &&& self.monster_action(Entity { id: i as usize }) is Chase
        &&& found matches Some(path) && self.takes_step(
            Entity { id: i as usize },
            path.success,
            path.steps@,
        )
    }

    /// The tiles that the monsters before index `n` have left in their
    /// turns.
    pub open spec fn tiles_left(self, n: int, found: Seq<Option<NavigationPath>>) -> Set<int>
        decreases n,
    {
        if n <= 0 {
            Set::empty()
        } else {
            let before = self.after_monster_turns(n - 1, found);
            if before.monster_moves(n - 1, found[n - 1]) {
                self.tiles_left(n - 1, found).insert(
                    before.map.idx(
                        before.entities[n - 1].position->0.x as int,
                        before.entities[n - 1].position->0.y as int,
                    ),
                )
            } else {
                self.tiles_left(n - 1, found)
            }
        }
    }
}

/// A monster's turn keeps a well-formed world well-formed, and changes
/// nothing of the map but the blocked flags.
proof fn lemma_monster_turn_wf(w: WorldSpec, i: int, found: Option<NavigationPath>)
    requires
        w.wf(),
        0 <= i < w.entities.len(),
    ensures
        w.after_monster_turn(i, found).wf(),
        w.after_monster_turn(i, found).entities.len() == w.entities.len(),
        w.after_monster_turn(i, found).map == (MapSpec {
            blocked: w.after_monster_turn(i, found).map.blocked,
            ..w.map
        }),
{
    let e = Entity { id: i as usize };
    let after = w.after_monster_turn(i, found);
    assert(w.entity_wf(i));
    if w.monster_action(e) is Chase {
        assert(w.after_monster_decision(e) == w);
        if w.monster_moves(i, found) {
            let path = found->0;
            lemma_step_lands_on_open_tile(w, e, path.success, path.steps@);
            lemma_point_of_index(w.map, path.steps@[1] as int);
            lemma_idx_in_range(
                w.map,
                w.entities[i].position->0.x as int,
                w.entities[i].position->0.y as int,
            );
            assert forall|j: int| 0 <= j < after.entities.len() implies #[trigger] after.entity_wf(
                j,
            ) by {
                assert(w.entity_wf(j));
            }
        }
    } else if w.monster_action(e) == MonsterAction::Attack {
        assert forall|j: int| 0 <= j < after.entities.len() implies #[trigger] after.entity_wf(
            j,
        ) by {
            assert(w.entity_wf(j));
        }
    }
}

/// Over the turns of the monsters, every tile that was blocked when the
/// first turn began and that no monster has left since is still blocked.
pub proof fn lemma_monsters_leave_blocked_tiles_blocked(
    w: WorldSpec,
    n: int,
    found: Seq<Option<NavigationPath>>,
)
    requires
        w.wf(),
        0 <= n <= w.entities.len(),
        n <= found.len(),
    ensures
        w.after_monster_turns(n, found).wf(),
        w.after_monster_turns(n, found).entities.len() == w.entities.len(),
        w.after_monster_turns(n, found).map == (MapSpec {
            blocked: w.after_monster_turns(n, found).map.blocked,
            ..w.map
        }),
        still_blocked(w.map, w.tiles_left(n, found), w.after_monster_turns(n, found).map),
    decreases n,
{
    if n > 0 {
        lemma_monsters_leave_blocked_tiles_blocked(w, n - 1, found);
        let before = w.after_monster_turns(n - 1, found);
        let e = Entity { id: (n - 1) as usize };
        lemma_monster_turn_wf(before, n - 1, found[n - 1]);
        if before.monster_moves(n - 1, found[n - 1]) {
            let path = found[n - 1]->0;
            assert(before.after_monster_decision(e) == before);
            lemma_steps_keep_off_blocked_tiles(
                w.map,
                w.tiles_left(n - 1, found),
                before,
                e,
                path.success,
                path.steps@,
            );
        } else {
            assert(before.after_monster_turn(n - 1, found[n - 1]).map == before.map);
        }
    }
}

/// A monster that moves in its turn moves to a tile next to its own that
/// was not blocked when the first monster's turn began, or that another
/// monster has left since. The tile it leaves is then no longer blocked,
/// the tile it enters is, and its viewshed is out of date. A monster that
/// does not move leaves the map as it is.
pub proof fn lemma_monsters_keep_off_blocked_tiles(
    w: WorldSpec,
    i: int,
    found: Seq<Option<NavigationPath>>,
)
    requires
        w.wf(),
        0 <= i < w.entities.len(),
        i < found.len(),
    ensures
        ({
            let before = w.after_monster_turns(i, found);
            let after = w.after_monster_turns(i + 1, found);
            if before.monster_moves(i, found[i]) {
                let p = before.entities[i].position->0;
                let q = after.entities[i].position->0;
                let from = w.map.idx(p.x as int, p.y as int);
                let to = w.map.idx(q.x as int, q.y as int);
                &&& after.entities[i].position is Some
                &&& w.map.interior(q.x as int, q.y as int)
                &&& q != p
                &&& -1 <= q.x - p.x <= 1
                &&& -1 <= q.y - p.y <= 1
                &&& !w.map.blocked[to] || w.tiles_left(i, found).contains(to)
                &&& !after.map.blocked[from]
                &&& after.map.blocked[to]
                &&& after.entities[i].viewshed matches Some(v) && v.dirty
            } else {
                &&& after.entities[i].position == before.entities[i].position
                &&& after.map == before.map
            }
        }),
{
    lemma_monsters_leave_blocked_tiles_blocked(w, i, found);
    let before = w.after_monster_turns(i, found);
    let e = Entity { id: i as usize };
    assert(w.after_monster_turns(i + 1, found) == before.after_monster_turn(i, found[i]));
    assert(before.entity_wf(i));
    if before.monster_moves(i, found[i]) {
        let path = found[i]->0;
        assert(before.after_monster_decision(e) == before);
        lemma_steps_keep_off_blocked_tiles(
            w.map,
            w.tiles_left(i, found),
            before,
            e,
            path.success,
            path.steps@,
        );
        lemma_step_lands_on_open_tile(before, e, path.success, path.steps@);
        let p = before.entities[i].position->0;
        lemma_idx_in_range(before.map, p.x as int, p.y as int);
        lemma_point_of_index(before.map, path.steps@[1] as int);
    }
}

/// No monster steps onto a tile that was blocked when the first monster's
/// turn began, as long as no monster has left that tile since.
pub proof fn lemma_no_step_onto_a_tile_blocked_at_the_start(
    w: WorldSpec,
    i: int,
    found: Seq<Option<NavigationPath>>,
)
    requires
        w.wf(),
        0 <= i < w.entities.len(),
        i < found.len(),
        w.after_monster_turns(i, found).monster_moves(i, found[i]),
        ({
            let q = w.after_monster_turns(i + 1, found).entities[i].position->0;
            !w.tiles_left(i, found).contains(w.map.idx(q.x as int, q.y as int))
        }),
    ensures
        ({
            let p = w.after_monster_turns(i, found).entities[i].position->0;
            let q = w.after_monster_turns(i + 1, found).entities[i].position->0;
            &&& q != p
            &&& !w.map.blocked[w.map.idx(q.x as int, q.y as int)]
        }),
{
    lemma_monsters_keep_off_blocked_tiles(w, i, found);
}

/// The steps of the pipeline that belong to one monster make up its turn:
/// the step in which it decides, followed, if the pipeline then waits for
/// its path, by the step that takes the path.
pub proof fn lemma_monster_steps_make_a_turn(
    w: WorldSpec,
    i: usize,
    found: Option<NavigationPath>,
    decided: WorldSpec,
    after: WorldSpec,
)
    requires
        i < w.entities.len(),
        w.pipeline_outcome(Phase::Monsters { next: i }, None, decided),
        w.phase_after(Phase::Monsters { next: i }) == (Phase::MonsterPath { monster: i })
            ==> decided.pipeline_outcome(Phase::MonsterPath { monster: i }, found, after),
        w.phase_after(Phase::Monsters { next: i }) != (Phase::MonsterPath { monster: i })
            ==> after == decided,
    ensures
        after == w.after_monster_turn(i as int, found),
{
}

proof fn lemma_ai_turns_keep_the_run_state(w: WorldSpec, n: int, rolls: Seq<Seq<i32>>)
    requires
        0 <= n <= w.entities.len(),
    ensures
        w.after_ai_turns(n, rolls).run_state == w.run_state,
    decreases n,
{
    if n > 0 {
        lemma_ai_turns_keep_the_run_state(w, n - 1, rolls);
    }
}

/// A step of the pipeline leaves the run state as it is, but for the
/// resolution, which ends the turn.
pub proof fn lemma_step_keeps_the_run_state(
    w: WorldSpec,
    phase: Phase,
    found: Option<NavigationPath>,
    after: WorldSpec,
)
    requires
        w.entities.len() <= usize::MAX,
        w.pipeline_outcome(phase, found, after),
    ensures
        after.run_state == (if phase == Phase::Resolution {
            w.with_turn_ended().run_state
        } else {
            w.run_state
        }),
{
    match phase {
        Phase::Creatures => {
            let rolls = choose|rolls: Seq<Seq<i32>>|
                rolls.len() == w.entities.len() && rolls_possible(rolls) && after
                    == #[trigger] w.after_ai_turns(w.entities.len() as int, rolls);
            lemma_ai_turns_keep_the_run_state(w, w.entities.len() as int, rolls);
        },
        Phase::Resolution => {
            lemma_resolution_ends_the_turn(w);
        },
        _ => {},
    }
}

/// The steps before the trigger system: those that the resolution has yet
/// to follow or is.
pub open spec fn before_the_turn_ends(phase: Phase) -> bool {
    !(phase is Triggers) && !(phase is Done)
}

/// Step `i` of a pass: the next world is what the step of phase `i` can
/// make of world `i`, with the path `found[i]`, and the next phase is the
/// one that follows.
pub open spec fn is_step(
    worlds: Seq<WorldSpec>,
    phases: Seq<Phase>,
    found: Seq<Option<NavigationPath>>,
    i: int,
) -> bool {
    &&& worlds[i].entities.len() <= usize::MAX
    &&& worlds[i].pipeline_outcome(phases[i], found[i], worlds[i + 1])
    &&& phases[i + 1] == worlds[i].phase_after(phases[i])
}

/// A pass of the pipeline: worlds and phases that begin at the visibility
/// system and end when the pipeline has run, each world made from the one
/// before by the step of its phase, with `found[i]` the path handed to
/// step `i`.
pub open spec fn is_pass(
    worlds: Seq<WorldSpec>,
    phases: Seq<Phase>,
    found: Seq<Option<NavigationPath>>,
) -> bool {
    &&& 1 <= phases.len() == worlds.len() == found.len()
    &&& phases[0] == Phase::Visibility
    &&& phases[phases.len() - 1] == Phase::Done
    &&& forall|i: int| 0 <= i < phases.len() - 1 ==> #[trigger] is_step(worlds, phases, found, i)
}

proof fn lemma_run_state_along_a_pass(
    worlds: Seq<WorldSpec>,
    phases: Seq<Phase>,
    found: Seq<Option<NavigationPath>>,
    i: int,
)
    requires
        is_pass(worlds, phases, found),
        0 <= i < phases.len(),
    ensures
        worlds[i].run_state == (if before_the_turn_ends(phases[i]) {
            worlds[0].run_state
        } else {
            worlds[0].with_turn_ended().run_state
        }),
    decreases i,
{
    if i > 0 {
        lemma_run_state_along_a_pass(worlds, phases, found, i - 1);
        assert(is_step(worlds, phases, found, i - 1));
        lemma_step_keeps_the_run_state(worlds[i - 1], phases[i - 1], found[i - 1], worlds[i]);
    }
}

/// A pass of the pipeline ends the turn: a simulation that was ticking
/// awaits input once the pipeline has run, whatever paths were found and
/// whatever the dice showed, and any other run state is as it was. No
/// further pass is then asked for.
pub proof fn lemma_a_pass_ends_the_turn(
    worlds: Seq<WorldSpec>,
    phases: Seq<Phase>,
    found: Seq<Option<NavigationPath>>,
)
    requires
        is_pass(worlds, phases, found),
    ensures
        worlds[worlds.len() - 1].run_state == worlds[0].with_turn_ended().run_state,
        worlds[0].run_state == RunState::Ticking ==> worlds[worlds.len() - 1].run_state
            == RunState::AwaitingInput,
        worlds[0].run_state == RunState::Ticking || worlds[0].run_state == RunState::PreRun
            ==> worlds[worlds.len() - 1].run_state.spec_after_systems() != RunState::Ticking,
{
    lemma_run_state_along_a_pass(worlds, phases, found, phases.len() - 1);
}

/// The path that entity `e` asks for, if it approaches this tick.
fn approach_request_of(world: &World, e: usize) -> (request: Option<PathRequest>)
    requires
        world@.wf(),
        e < world@.entities.len(),
    ensures
        request == (if world@.approaches(e as int) {
            Some(world@.approach_request(e as int))
        } else {
            None
        }),
{
    let rec = &world.entities[e];
    match (rec.position, rec.wants_to_approach) {
        (Some(p), Some(wish)) => {
            if rec.my_turn.is_some() && rec.viewshed.is_some() && wish.idx < world.map.tiles.len() {
                assert(world@.entity_wf(e as int));
                let from = world.map.xy_idx(p.x, p.y);
                Some(PathRequest { entity: Entity { id: e }, from, to: wish.idx })
            } else {
                None
            }
        },
        _ => None,
    }
}

/// Runs the step of the pipeline at `phase` and says what follows. A step
/// that hands out a path request is followed by the step that takes the
/// path: the caller searches it on the map as it then is, and hands it in
/// as `found`. Every other step ignores `found`.
pub fn pipeline_step(
    state: &mut State,
    rng: &mut rltk::RandomNumberGenerator,
    phase: Phase,
    found: Option<NavigationPath>,
) -> (step: Step)
    requires
        old(state).ecs@.wf(),
    ensures
        old(state).ecs@.pipeline_outcome(phase, found, final(state).ecs@),
        step.next == old(state).ecs@.phase_after(phase),
        step.request == old(state).ecs@.request_in(phase),
        step.fired@ == old(state).ecs@.fired_in(phase),
        final(state).mapgen_next_state == old(state).mapgen_next_state,
        final(state).ecs@.wf(),
{
    let n: usize = state.ecs.entities.len();
    assert(n == state.ecs@.entities.len());
    match phase {
        Phase::Visibility => {
            state.run_systems_before_ai(rng);
            Step { next: Phase::Monsters { next: 0 }, request: None, fired: Vec::new() }
        },
        Phase::Monsters { next } => {
            if next >= n {
                return Step { next: Phase::Creatures, request: None, fired: Vec::new() };
            }
            let mut monsters = MonsterAI {  };
            match monsters.begin_turn(&mut state.ecs, Entity { id: next }) {
                MonsterAction::Chase { from, to } => Step {
                    next: Phase::MonsterPath { monster: next },
                    request: Some(PathRequest { entity: Entity { id: next }, from, to }),
                    fired: Vec::new(),
                },
                _ => Step { next: Phase::Monsters { next: next + 1 }, request: None, fired: Vec::new() },
            }
        },
        Phase::MonsterPath { monster } => {
            match &found {
                Some(path) => {
                    take_path_step(&mut state.ecs, Entity { id: monster }, path);
                },
                None => {},
            }
            let next: usize = if monster < n {
                monster + 1
            } else {
                monster
            };
            Step { next: Phase::Monsters { next }, request: None, fired: Vec::new() }
        },
        Phase::Creatures => {
            let mut creatures = VisibleAI {  };
            creatures.run(&mut state.ecs, rng);
            Step { next: Phase::Approaches { next: 0 }, request: None, fired: Vec::new() }
        },
        Phase::Approaches { next } => {
            if next >= n {
                finish_approaches(&mut state.ecs);
                return Step { next: Phase::Resolution, request: None, fired: Vec::new() };
            }
            match approach_request_of(&state.ecs, next) {
                Some(request) => Step {
                    next: Phase::ApproachPath { entity: next },
                    request: Some(request),
                    fired: Vec::new(),
                },
                None => Step {
                    next: Phase::Approaches { next: next + 1 },
                    request: None,
                    fired: Vec::new(),
                },
            }
        },
        Phase::ApproachPath { entity } => {
            match &found {
                Some(path) => {
                    take_path_step(&mut state.ecs, Entity { id: entity }, path);
                },
                None => {},
            }
            let next: usize = if entity < n {
                entity + 1
            } else {
                entity
            };
            Step { next: Phase::Approaches { next }, request: None, fired: Vec::new() }
        },
        Phase::Resolution => {
            state.run_systems_after_ai();
            Step { next: Phase::Triggers, request: None, fired: Vec::new() }
        },
        Phase::Triggers => {
            let mut triggers = TriggerSystem {  };
            let fired = triggers.run(&mut state.ecs);
            Step { next: Phase::Done, request: None, fired }
        },
        Phase::Done => Step { next: Phase::Done, request: None, fired: Vec::new() },
    }
}

} // verus!
