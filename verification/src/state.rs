//! The simulation: a flock in a world, the grid that indexes it, and the
//! phases that commands move it through.
//!
//! A step takes one command and the time that has passed. While the
//! simulation plays, a step also advances the flock by one tick: the grid is
//! rebuilt from the flock as it stands, every agent is steered by what it
//! finds there, limited in speed, moved, and kept within the world. Every
//! agent reads the flock as it was before the tick.

use vstd::prelude::*;
use crate::boid::Boid;
use crate::boid::Point;
use crate::config::ConfigError;
use crate::config::InputError;
use crate::config::Tuning;
use crate::grid_laws::lemma_block_entries_in_flock;
use crate::grid_laws::lemma_rebuilt_files;
use crate::grid_laws::lemma_rebuilt_same;
use crate::grid_laws::lemma_rebuilt_shape;
use crate::spatial_grid::grid_error;
use crate::spatial_grid::GridModel;
use crate::spatial_grid::SpatialGrid;

verus! {

/// By how many agents a command grows or shrinks the flock. A flock of no
/// more than this many agents is not shrunk.
pub const POPULATION_STEP: usize = 500;

/// The phase of a simulation.
#[derive(Debug, Clone, Copy, PartialEq, Eq)]
pub enum PlayState {
    /// Waiting to be started; every step that begins here empties the flock
    /// before it looks at the command.
    Setup,
    /// Every step advances the flock by one tick.
    Play,
    /// The flock stands still.
    Pause,
}

/// What the outside asks of a simulation.
#[derive(Debug, Clone, Copy, PartialEq, Eq)]
pub enum Command {
    Start,
    Pause,
    Resume,
    Reset,
    Grow,
    Shrink,
}

/// What a command does to the flock.
#[derive(Debug, Clone, Copy, PartialEq, Eq)]
pub enum FlockChange {
    /// The flock stays as it is.
    Keep,
    /// All agents are discarded.
    Clear,
    /// All agents are discarded and a new flock is made.
    Reseed,
}

/// What a command leads to in a given phase.
#[derive(Debug, Clone, Copy, PartialEq, Eq)]
pub struct Transition {
    pub state: PlayState,
    pub boid_count: usize,
    pub flock: FlockChange,
}

/// The number of agents after it has been grown or shrunk by one step.
/// Growing beyond the largest number and shrinking a flock of no more than
/// one step leave the number as it is.
pub open spec fn adjusted_count(boid_count: usize, increase: bool) -> usize {
    if increase {
        if boid_count <= usize::MAX - POPULATION_STEP {
            (boid_count + POPULATION_STEP) as usize
        } else {
            boid_count
        }
    } else if boid_count > POPULATION_STEP {
        (boid_count - POPULATION_STEP) as usize
    } else {
        boid_count
    }
}

/// What growing or shrinking leads to: a new flock where the number of
/// agents changes, and nothing otherwise.
pub open spec fn resized(state: PlayState, boid_count: usize, increase: bool) -> Transition {
    let count = adjusted_count(boid_count, increase);
    Transition {
        state,
        boid_count: count,
        flock: if count == boid_count {
            FlockChange::Keep
        } else {
            FlockChange::Reseed
        },
    }
}

/// What a command leads to in a given phase with a given number of agents.
///
/// In setup only a start is heard: it makes a new flock and plays. Without
/// it the flock is emptied. While playing or paused, a reset goes back to
/// setup and leaves the flock to be emptied there by the next step, and
/// growing and shrinking replace the flock; a pause is heard only while
/// playing and a resume only while paused. Anything else changes nothing.
pub open spec fn transition_of(state: PlayState, boid_count: usize, command: Option<Command>)
    -> Transition {
    match state {
        PlayState::Setup => match command {
            Some(Command::Start) => Transition {
                state: PlayState::Play,
                boid_count,
                flock: FlockChange::Reseed,
            },
            _ => Transition { state: PlayState::Setup, boid_count, flock: FlockChange::Clear },
        },
        PlayState::Pause => match command {
            Some(Command::Resume) => Transition {
                state: PlayState::Play,
                boid_count,
                flock: FlockChange::Keep,
            },
            Some(Command::Reset) => Transition {
                state: PlayState::Setup,
                boid_count,
                flock: FlockChange::Keep,
            },
            Some(Command::Grow) => resized(state, boid_count, true),
            Some(Command::Shrink) => resized(state, boid_count, false),
            _ => Transition { state, boid_count, flock: FlockChange::Keep },
        },
        PlayState::Play => match command {
            Some(Command::Pause) => Transition {
                state: PlayState::Pause,
                boid_count,
                flock: FlockChange::Keep,
            },
            Some(Command::Reset) => Transition {
                state: PlayState::Setup,
                boid_count,
                flock: FlockChange::Keep,
            },
            Some(Command::Grow) => resized(state, boid_count, true),
            Some(Command::Shrink) => resized(state, boid_count, false),
            _ => Transition { state, boid_count, flock: FlockChange::Keep },
        },
    }
}

/// Why a simulation of the given world and tuning cannot be built, if it
/// cannot. The cell size of its grid is the visual range.
pub open spec fn config_error(width: int, height: int, t: Tuning) -> Option<ConfigError> {
    match grid_error(width, height, t.visual_range as int) {
        Some(e) => Some(e),
        None => if t.speed_limit <= 0 {
            Some(ConfigError::NonPositiveSpeedLimit)
        } else {
            None
        },
    }
}

/// Every agent of the flock is one that [`Boid::new`] can make.
pub open spec fn seeded(flock: Seq<Boid>, width: int, height: int, t: Tuning) -> bool {
    forall|i: int| 0 <= i < flock.len() ==> (#[trigger] flock[i]).is_spawn(width, height, t)
}

/// Agent `i` of the flock after one tick, with `grid` as the grid rebuilt
/// from the flock: steered by its candidates, limited in speed, moved, and
/// kept within the world.
pub open spec fn advanced(
    flock: Seq<Boid>,
    i: int,
    grid: GridModel,
    elapsed_ms: int,
    obstacle: Point,
    width: int,
    height: int,
    t: Tuning,
) -> Boid {
    flock[i].behaved(
        i,
        grid.candidates(flock[i].x as int, flock[i].y as int, t.visual_range as int),
        flock,
        t,
    ).limited(t).moved(elapsed_ms).bounded(obstacle, width, height, t)
}

/// The flock after one tick in a world of the given size. Every agent is
/// advanced from the flock as it was before the tick.
pub open spec fn ticked(
    flock: Seq<Boid>,
    elapsed_ms: int,
    obstacle: Point,
    width: int,
    height: int,
    t: Tuning,
) -> Seq<Boid> {
    let grid = GridModel::empty(width, height, t.visual_range as int).rebuilt(flock);
    Seq::new(
        flock.len(),
        |i: int| advanced(flock, i, grid, elapsed_ms, obstacle, width, height, t),
    )
}

/// What a simulation is.
pub struct StateModel {
    pub state: PlayState,
    pub flock: Seq<Boid>,
    pub boid_count: usize,
    pub width: int,
    pub height: int,
    pub tuning: Tuning,
    pub grid: GridModel,
}

impl StateModel {
    /// The world and the tuning are ones that a simulation can be built
    /// with, and the grid covers the world with cells of the visual range.
    pub open spec fn wf(self) -> bool {
        &&& config_error(self.width, self.height, self.tuning) is None
        &&& self.grid.wf()
        &&& self.grid.cell_size == self.tuning.visual_range
        &&& self.grid.width == GridModel::empty(
            self.width,
            self.height,
            self.tuning.visual_range as int,
        ).width
        &&& self.grid.height == GridModel::empty(
            self.width,
            self.height,
            self.tuning.visual_range as int,
        ).height
    }

    /// `mid` is a flock that the change can leave behind.
    pub open spec fn may_become(self, change: FlockChange, boid_count: usize, mid: Seq<Boid>)
        -> bool {
        match change {
            FlockChange::Keep => mid == self.flock,
            FlockChange::Clear => mid == Seq::<Boid>::empty(),
            FlockChange::Reseed => mid.len() == boid_count && seeded(
                mid,
                self.width,
                self.height,
                self.tuning,
            ),
        }
    }

    /// The simulation after a tick.
    pub open spec fn ticked(self, elapsed_ms: int, obstacle: Point) -> StateModel {
        StateModel {
            flock: ticked(self.flock, elapsed_ms, obstacle, self.width, self.height, self.tuning),
            grid: self.grid.rebuilt(self.flock),
            ..self
        }
    }

    /// The simulation after a command has been applied that leads to `tr`
    /// and leaves `mid` as the flock, and after the tick that follows if the
    /// simulation was playing.
    pub open spec fn stepped(
        self,
        tr: Transition,
        mid: Seq<Boid>,
        elapsed_ms: int,
        obstacle: Point,
    ) -> StateModel {
        let commanded = StateModel {
            state: tr.state,
            boid_count: tr.boid_count,
            flock: mid,
            ..self
        };
        if self.state == PlayState::Play {
            commanded.ticked(elapsed_ms, obstacle)
        } else {
            commanded
        }
    }

    /// The flock that a change leaves behind, with `fresh` as the flock that
    /// is taken where a new one is made.
    pub open spec fn flock_after(self, change: FlockChange, fresh: Seq<Boid>) -> Seq<Boid> {
        match change {
            FlockChange::Keep => self.flock,
            FlockChange::Clear => Seq::<Boid>::empty(),
            FlockChange::Reseed => fresh,
        }
    }

    /// The simulation after a step with the given command, with `fresh` as
    /// the flock that is taken if the command makes a new one.
    pub open spec fn stepped_with(
        self,
        command: Option<Command>,
        fresh: Seq<Boid>,
        elapsed_ms: int,
        obstacle: Point,
    ) -> StateModel {
        let tr = transition_of(self.state, self.boid_count, command);
        self.stepped(tr, self.flock_after(tr.flock, fresh), elapsed_ms, obstacle)
    }

    /// `after` is what a step with the given command can lead to. The
    /// command is applied first; the tick follows if the simulation was
    /// playing when the step began.
    pub open spec fn steps_to(
        self,
        after: StateModel,
        command: Option<Command>,
        elapsed_ms: int,
        obstacle: Point,
    ) -> bool {
        let tr = transition_of(self.state, self.boid_count, command);
        exists|mid: Seq<Boid>|
            #![trigger self.may_become(tr.flock, tr.boid_count, mid)]
            self.may_become(tr.flock, tr.boid_count, mid) && after == self.stepped(
                tr,
                mid,
                elapsed_ms,
                obstacle,
            )
    }
}

/// The simulation.
pub struct State {
    state: PlayState,
    boids: Vec<Boid>,
    spatial_grid: SpatialGrid,
    boid_count: usize,
    width: i32,
    height: i32,
    tuning: Tuning,
}

impl View for State {
    type V = StateModel;

    closed spec fn view(&self) -> StateModel {
        StateModel {
            state: self.state,
            flock: self.boids@,
            boid_count: self.boid_count,
            width: self.width as int,
            height: self.height as int,
            tuning: self.tuning,
            grid: self.spatial_grid@,
        }
    }
}

/// Makes `count` agents at random places in the middle of the world.
pub fn get_boids(count: usize, width: i32, height: i32, tuning: &Tuning) -> (boids: Vec<Boid>)
    ensures
        boids@.len() == count,
        seeded(boids@, width as int, height as int, *tuning),
{
    let mut boids: Vec<Boid> = Vec::new();
    let mut i: usize = 0;
    while i < count
        invariant
            i <= count,
            boids@.len() == i,
            seeded(boids@, width as int, height as int, *tuning),
        decreases count - i,
    {
        boids.push(Boid::new(width, height, tuning));
        i = i + 1;
    }
    boids
}

/// What a command leads to in a given phase with a given number of agents.
pub fn transition(state: PlayState, boid_count: usize, command: Option<Command>) -> (t: Transition)
    ensures
        t == transition_of(state, boid_count, command),
{
    match state {
        PlayState::Setup => match command {
            Some(Command::Start) => Transition {
                state: PlayState::Play,
                boid_count,
                flock: FlockChange::Reseed,
            },
            _ => Transition { state: PlayState::Setup, boid_count, flock: FlockChange::Clear },
        },
        PlayState::Pause => match command {
            Some(Command::Resume) => Transition {
                state: PlayState::Play,
                boid_count,
                flock: FlockChange::Keep,
            },
            Some(Command::Reset) => Transition {
                state: PlayState::Setup,
                boid_count,
                flock: FlockChange::Keep,
            },
            Some(Command::Grow) => resize(state, boid_count, true),
            Some(Command::Shrink) => resize(state, boid_count, false),
            _ => Transition { state, boid_count, flock: FlockChange::Keep },
        },
        PlayState::Play => match command {
            Some(Command::Pause) => Transition {
                state: PlayState::Pause,
                boid_count,
                flock: FlockChange::Keep,
            },
            Some(Command::Reset) => Transition {
                state: PlayState::Setup,
                boid_count,
                flock: FlockChange::Keep,
            },
            Some(Command::Grow) => resize(state, boid_count, true),
            Some(Command::Shrink) => resize(state, boid_count, false),
            _ => Transition { state, boid_count, flock: FlockChange::Keep },
        },
    }
}

/// What growing or shrinking leads to.
fn resize(state: PlayState, boid_count: usize, increase: bool) -> (t: Transition)
    ensures
        t == resized(state, boid_count, increase),
{
    if increase {
        if boid_count <= usize::MAX - POPULATION_STEP {
            Transition { state, boid_count: boid_count + POPULATION_STEP, flock: FlockChange::Reseed }
        } else {
            Transition { state, boid_count, flock: FlockChange::Keep }
        }
    } else if boid_count > POPULATION_STEP {
        Transition { state, boid_count: boid_count - POPULATION_STEP, flock: FlockChange::Reseed }
    } else {
        Transition { state, boid_count, flock: FlockChange::Keep }
    }
}

impl State {
    /// The simulation is one that [`State::new`] or [`State::with_boids`]
    /// can have made.
    pub open spec fn wf(&self) -> bool {
        self@.wf()
    }

    /// Builds a simulation in setup, with a freshly made flock of
    /// `boid_count` agents.
    ///
    /// Fails when the world, the visual range (the cell size of the grid) or
    /// the speed limit is not positive, or when the grid would be too large.
    pub fn new(width: i32, height: i32, boid_count: usize, tuning: Tuning) -> (r: Result<
        State,
        ConfigError,
    >)
        ensures
            match r {
                Ok(s) => config_error(width as int, height as int, tuning) is None && s.wf()
                    && s@.state == PlayState::Setup && s@.boid_count == boid_count && s@.width
                    == width && s@.height == height && s@.tuning == tuning && s@.flock.len()
                    == boid_count && seeded(s@.flock, width as int, height as int, tuning)
                    && s@.grid == GridModel::empty(
                    width as int,
                    height as int,
                    tuning.visual_range as int,
                ),
                Err(e) => config_error(width as int, height as int, tuning) == Some(e),
            },
    {
        let spatial_grid = match SpatialGrid::new(width, height, tuning.visual_range) {
            Ok(g) => g,
            Err(e) => { return Err(e); },
        };
        if tuning.speed_limit <= 0 {
            return Err(ConfigError::NonPositiveSpeedLimit);
        }
        let boids = get_boids(boid_count, width, height, &tuning);
        Ok(State { state: PlayState::Setup, boids, spatial_grid, boid_count, width, height, tuning })
    }

    /// Builds a playing simulation of the given flock.
    ///
    /// Fails as [`State::new`] does.
    pub fn with_boids(width: i32, height: i32, boids: Vec<Boid>, tuning: Tuning) -> (r: Result<
        State,
        ConfigError,
    >)
        ensures
            match r {
                Ok(s) => config_error(width as int, height as int, tuning) is None && s.wf()
                    && s@.state == PlayState::Play && s@.boid_count == boids@.len() && s@.width
                    == width && s@.height == height && s@.tuning == tuning && s@.flock == boids@
                    && s@.grid == GridModel::empty(
                    width as int,
                    height as int,
                    tuning.visual_range as int,
                ),
                Err(e) => config_error(width as int, height as int, tuning) == Some(e),
            },
    {
        let spatial_grid = match SpatialGrid::new(width, height, tuning.visual_range) {
            Ok(g) => g,
            Err(e) => { return Err(e); },
        };
        if tuning.speed_limit <= 0 {
            return Err(ConfigError::NonPositiveSpeedLimit);
        }
        let boid_count: usize = boids.len();
        Ok(State { state: PlayState::Play, boids, spatial_grid, boid_count, width, height, tuning })
    }

    /// Grows or shrinks the number of agents by one step and, where the
    /// number changes, replaces the flock by a freshly made one.
    pub fn adjust_boid_count(&mut self, increase: bool)
        requires
            old(self).wf(),
        ensures
            final(self).wf(),
            old(self)@.may_become(
                resized(old(self)@.state, old(self)@.boid_count, increase).flock,
                adjusted_count(old(self)@.boid_count, increase),
                final(self)@.flock,
            ),
            final(self)@ == (StateModel {
                boid_count: adjusted_count(old(self)@.boid_count, increase),
                flock: final(self)@.flock,
                ..old(self)@
            }),
    {
        let tr = resize(self.state, self.boid_count, increase);
        match tr.flock {
            FlockChange::Reseed => {
                self.boid_count = tr.boid_count;
                self.boids = get_boids(self.boid_count, self.width, self.height, &self.tuning);
            },
            _ => {},
        }
    }

    /// Clears the grid and files every agent of the flock by its position.
    pub fn update_spatial_grid(&mut self)
        requires
            old(self).wf(),
        ensures
            final(self).wf(),
            final(self)@ == (StateModel {
                grid: old(self)@.grid.rebuilt(old(self)@.flock),
                ..old(self)@
            }),
    {
        self.spatial_grid.clear();
        let n: usize = self.boids.len();
        let mut i: usize = 0;
        while i < n
            invariant
                i <= n,
                n == self.boids@.len(),
                self.boids == old(self).boids,
                self.state == old(self).state,
                self.boid_count == old(self).boid_count,
                self.width == old(self).width,
                self.height == old(self).height,
                self.tuning == old(self).tuning,
                old(self).wf(),
                self.spatial_grid.wf(),
                self.spatial_grid@ == old(self).spatial_grid@.rebuilt(self.boids@.take(i as int)),
            decreases n - i,
        {
            proof {
                assert(self.boids@.take(i + 1).drop_last() == self.boids@.take(i as int));
                assert(self.boids@.take(i + 1).last() == self.boids@[i as int]);
            }
            self.spatial_grid.insert(i, &self.boids[i]);
            i = i + 1;
        }
        proof {
            assert(self.boids@.take(n as int) == self.boids@);
            lemma_rebuilt_shape(old(self).spatial_grid@, self.boids@);
        }
    }

    /// The candidates of every agent of the flock, in the order of the
    /// flock: what the grid returns for the agent's position and the visual
    /// range.
    pub fn get_all_neighbor_lists(&self) -> (lists: Vec<Vec<usize>>)
        requires
            self.wf(),
        ensures
            lists@.len() == self@.flock.len(),
            forall|i: int|
                0 <= i < lists@.len() ==> (#[trigger] lists@[i])@ == self@.grid.candidates(
                    self@.flock[i].x as int,
                    self@.flock[i].y as int,
                    self@.tuning.visual_range as int,
                ),
    {
        let mut lists: Vec<Vec<usize>> = Vec::new();
        let n: usize = self.boids.len();
        let mut i: usize = 0;
        while i < n
            invariant
                i <= n,
                n == self.boids@.len(),
                self.wf(),
                lists@.len() == i,
                forall|j: int|
                    0 <= j < i ==> (#[trigger] lists@[j])@ == self@.grid.candidates(
                        self@.flock[j].x as int,
                        self@.flock[j].y as int,
                        self@.tuning.visual_range as int,
                    ),
            decreases n - i,
        {
            let found = self.spatial_grid.get_neighbors(&self.boids[i], self.tuning.visual_range);
            lists.push(found);
            i = i + 1;
        }
        lists
    }

    /// Advances the flock by one tick of `elapsed_ms` milliseconds, with an
    /// obstacle at the given point.
    ///
    /// Fails, and changes nothing, when the elapsed time is negative.
    pub fn tick(&mut self, elapsed_ms: i64, obstacle: Point) -> (r: Result<(), InputError>)
        requires
            old(self).wf(),
        ensures
            final(self).wf(),
            elapsed_ms < 0 ==> r == Err::<(), InputError>(InputError::NegativeElapsedTime)
                && final(self)@ == old(self)@,
            elapsed_ms >= 0 ==> r is Ok && final(self)@ == old(self)@.ticked(
                elapsed_ms as int,
                obstacle,
            ),
    {
        if elapsed_ms < 0 {
            return Err(InputError::NegativeElapsedTime);
        }
        self.update_spatial_grid();
        let neighbor_lists = self.get_all_neighbor_lists();
        let n: usize = self.boids.len();
        let ghost flock = self.boids@;
        let ghost grid = self.spatial_grid@;
        proof {
            lemma_rebuilt_same(
                old(self).spatial_grid@,
                GridModel::empty(
                    self.width as int,
                    self.height as int,
                    self.tuning.visual_range as int,
                ),
                flock,
            );
            lemma_rebuilt_files(old(self).spatial_grid@, flock);
        }
        let mut next: Vec<Boid> = Vec::new();
        let mut i: usize = 0;
        while i < n
            invariant
                i <= n,
                n == flock.len(),
                flock == self.boids@,
                grid == self.spatial_grid@,
                grid.files(flock),
                self.wf(),
                neighbor_lists@.len() == n,
                forall|j: int|
                    0 <= j < n ==> (#[trigger] neighbor_lists@[j])@ == grid.candidates(
                        flock[j].x as int,
                        flock[j].y as int,
                        self.tuning.visual_range as int,
                    ),
                next@.len() == i,
                forall|j: int|
                    0 <= j < i ==> #[trigger] next@[j] == advanced(
                        flock,
                        j,
                        grid,
                        elapsed_ms as int,
                        obstacle,
                        self.width as int,
                        self.height as int,
                        self.tuning,
                    ),
            decreases n - i,
        {
            let mut boid: Boid = self.boids[i];
            proof {
                let found = neighbor_lists@[i as int]@;
                let radius = grid.cell_radius(self.tuning.visual_range as int);
                let cx = grid.column(boid.x as int);
                let cy = grid.row(boid.y as int);
                lemma_block_entries_in_flock(
                    grid,
                    flock,
                    vstd::math::max(cx - radius, 0),
                    vstd::math::min(cx + radius, grid.width - 1),
                    vstd::math::max(cy - radius, 0),
                    vstd::math::min(cy + radius, grid.height - 1),
                );
                assert(forall|k: int| 0 <= k < found.len() ==> found[k] < flock.len());
            }
            boid.calculate_behaviors(
                i,
                neighbor_lists[i].as_slice(),
                self.boids.as_slice(),
                &self.tuning,
            );
            boid.limit_speed(&self.tuning);
            boid.update_position(elapsed_ms);
            boid.keep_within_bounds(obstacle, self.width, self.height, &self.tuning);
            next.push(boid);
            i = i + 1;
        }
        self.boids = next;
        proof {
            assert(self.boids@ =~= ticked(
                flock,
                elapsed_ms as int,
                obstacle,
                self.width as int,
                self.height as int,
                self.tuning,
            ));
        }
        Ok(())
    }

    /// Takes one command and lets `elapsed_ms` milliseconds pass. The
    /// command is applied first; if the simulation was playing when the step
    /// began, the flock is then advanced by one tick. Where the command
    /// makes a new flock, its agents are made at random.
    ///
    /// Fails, and changes nothing, when the elapsed time is negative.
    pub fn step(&mut self, command: Option<Command>, elapsed_ms: i64, obstacle: Point) -> (r: Result<
        (),
        InputError,
    >)
        requires
            old(self).wf(),
        ensures
            final(self).wf(),
            elapsed_ms < 0 ==> r == Err::<(), InputError>(InputError::NegativeElapsedTime)
                && final(self)@ == old(self)@,
            elapsed_ms >= 0 ==> r is Ok && old(self)@.steps_to(
                final(self)@,
                command,
                elapsed_ms as int,
                obstacle,
            ),
    {
        if elapsed_ms < 0 {
            return Err(InputError::NegativeElapsedTime);
        }
        let tr = transition(self.state, self.boid_count, command);
        let fresh: Vec<Boid> = match tr.flock {
            FlockChange::Reseed => get_boids(tr.boid_count, self.width, self.height, &self.tuning),
            _ => Vec::new(),
        };
        proof {
            assert(old(self)@.may_become(
                tr.flock,
                tr.boid_count,
                old(self)@.flock_after(tr.flock, fresh@),
            ));
        }
        self.step_with(command, elapsed_ms, obstacle, fresh)
    }

    /// Takes one command and lets `elapsed_ms` milliseconds pass, as
    /// [`State::step`] does, but with the flock to take, `fresh`, given
    /// where the command makes a new one. Nothing is left to chance: what
    /// the step leads to is decided by the simulation and what it is given.
    /// Where the command makes no new flock, `fresh` is not looked at.
    ///
    /// Fails, and changes nothing, when the elapsed time is negative.
    pub fn step_with(
        &mut self,
        command: Option<Command>,
        elapsed_ms: i64,
        obstacle: Point,
        fresh: Vec<Boid>,
    ) -> (r: Result<(), InputError>)
        requires
            old(self).wf(),
        ensures
            final(self).wf(),
            elapsed_ms < 0 ==> r == Err::<(), InputError>(InputError::NegativeElapsedTime)
                && final(self)@ == old(self)@,
            elapsed_ms >= 0 ==> r is Ok && final(self)@ == old(self)@.stepped_with(
                command,
                fresh@,
                elapsed_ms as int,
                obstacle,
            ),
    {
        if elapsed_ms < 0 {
            return Err(InputError::NegativeElapsedTime);
        }
        let tr = transition(self.state, self.boid_count, command);
        let was_playing: bool = match self.state {
            PlayState::Play => true,
            _ => false,
        };
        match tr.flock {
            FlockChange::Keep => {},
            FlockChange::Clear => {
                self.boids = Vec::new();
            },
            FlockChange::Reseed => {
                self.boids = fresh;
            },
        }
        self.state = tr.state;
        self.boid_count = tr.boid_count;
        if was_playing {
            let _ = self.tick(elapsed_ms, obstacle);
        }
        Ok(())
    }

    /// The flock, in its order.
    pub fn boids(&self) -> (boids: &Vec<Boid>)
        ensures
            boids@ == self@.flock,
    {
        &self.boids
    }

    /// The phase.
    pub fn play_state(&self) -> (state: PlayState)
        ensures
            state == self@.state,
    {
        self.state
    }

    /// The number of agents that a new flock is made with.
    pub fn boid_count(&self) -> (count: usize)
        ensures
            count == self@.boid_count,
    {
        self.boid_count
    }

    /// The width of the world.
    pub fn width(&self) -> (width: i32)
        ensures
            width == self@.width,
    {
        self.width
    }

    /// The height of the world.
    pub fn height(&self) -> (height: i32)
        ensures
            height == self@.height,
    {
        self.height
    }

    /// The tuning.
    pub fn tuning(&self) -> (tuning: Tuning)
        ensures
            tuning == self@.tuning,
    {
        self.tuning
    }

    /// The grid, as the last tick left it.
    pub fn spatial_grid(&self) -> (grid: &SpatialGrid)
        ensures
            grid@ == self@.grid,
            self.wf() ==> grid.wf(),
    {
        &self.spatial_grid
    }
}

/// What a step leads to is decided by the simulation and what the step is
/// given, unless the step makes a new flock: two steps from the same
/// simulation with the same command, time and obstacle end in the same
/// simulation.
pub proof fn lemma_step_decided(
    before: StateModel,
    one: StateModel,
    other: StateModel,
    command: Option<Command>,
    elapsed_ms: int,
    obstacle: Point,
)
    requires
        transition_of(before.state, before.boid_count, command).flock != FlockChange::Reseed,
        before.steps_to(one, command, elapsed_ms, obstacle),
        before.steps_to(other, command, elapsed_ms, obstacle),
    ensures
        one == other,
{
    let tr = transition_of(before.state, before.boid_count, command);
    let mid_one = choose|mid: Seq<Boid>|
        #![trigger before.may_become(tr.flock, tr.boid_count, mid)]
        before.may_become(tr.flock, tr.boid_count, mid) && one == before.stepped(
            tr,
            mid,
            elapsed_ms,
            obstacle,
        );
    let mid_other = choose|mid: Seq<Boid>|
        #![trigger before.may_become(tr.flock, tr.boid_count, mid)]
        before.may_become(tr.flock, tr.boid_count, mid) && other == before.stepped(
            tr,
            mid,
            elapsed_ms,
            obstacle,
        );
    assert(mid_one == mid_other);
}

/// A playing simulation that is given no command is advanced by one tick,
/// and by nothing else: runs of such steps from the same simulation, with
/// the same times and obstacles, show the same flock after every tick.
pub proof fn lemma_quiet_step_is_a_tick(
    before: StateModel,
    after: StateModel,
    elapsed_ms: int,
    obstacle: Point,
)
    requires
        before.state == PlayState::Play,
        before.steps_to(after, None, elapsed_ms, obstacle),
    ensures
        after == before.ticked(elapsed_ms, obstacle),
{
    let tr = transition_of(before.state, before.boid_count, None);
    let mid = choose|mid: Seq<Boid>|
        #![trigger before.may_become(tr.flock, tr.boid_count, mid)]
        before.may_become(tr.flock, tr.boid_count, mid) && after == before.stepped(
            tr,
            mid,
            elapsed_ms,
            obstacle,
        );
    assert(mid == before.flock);
    assert((StateModel { state: tr.state, boid_count: tr.boid_count, flock: mid, ..before })
        == before);
}

/// What a step's input is: the command, the time that has passed, the
/// obstacle, and the flock to take if the command makes a new one.
pub struct StepInput {
    pub command: Option<Command>,
    pub elapsed_ms: int,
    pub obstacle: Point,
    pub fresh: Seq<Boid>,
}

/// The simulation after a run of steps, one for each input in turn.
pub open spec fn ran(start: StateModel, inputs: Seq<StepInput>) -> StateModel
    decreases inputs.len(),
{
    if inputs.len() == 0 {
        start
    } else {
        let last = inputs.last();
        ran(start, inputs.drop_last()).stepped_with(
            last.command,
            last.fresh,
            last.elapsed_ms,
            last.obstacle,
        )
    }
}

/// Two runs that start from equal simulations and are given the same
/// inputs, the new flocks among them, show equal simulations after every
/// step: the same phase, the same count, and the same position, velocity
/// and colour at every place of the flock.
pub proof fn lemma_runs_agree(one: StateModel, other: StateModel, inputs: Seq<StepInput>, k: int)
    requires
        one == other,
        0 <= k <= inputs.len(),
    ensures
        ran(one, inputs.take(k)) == ran(other, inputs.take(k)),
        ran(one, inputs.take(k)).state == ran(other, inputs.take(k)).state,
        ran(one, inputs.take(k)).flock == ran(other, inputs.take(k)).flock,
{
}

/// A step with a given new flock is one of the steps that the command can
/// lead to, where the given flock is one that could have been made: of the
/// new count, with every agent one that [`Boid::new`] can make.
pub proof fn lemma_step_with_is_a_step(
    before: StateModel,
    command: Option<Command>,
    fresh: Seq<Boid>,
    elapsed_ms: int,
    obstacle: Point,
)
    requires
        transition_of(before.state, before.boid_count, command).flock == FlockChange::Reseed
            ==> fresh.len() == transition_of(before.state, before.boid_count, command).boid_count,
        transition_of(before.state, before.boid_count, command).flock == FlockChange::Reseed
            ==> seeded(fresh, before.width, before.height, before.tuning),
    ensures
        before.steps_to(
            before.stepped_with(command, fresh, elapsed_ms, obstacle),
            command,
            elapsed_ms,
            obstacle,
        ),
{
    let tr = transition_of(before.state, before.boid_count, command);
    assert(before.may_become(tr.flock, tr.boid_count, before.flock_after(tr.flock, fresh)));
}

} // verus!
