use boids::boid::Boid;
use boids::boid::Point;
use boids::config::ConfigError;
use boids::config::InputError;
use boids::config::Tuning;
use boids::state::get_boids;
use boids::state::transition;
use boids::state::Command;
use boids::state::FlockChange;
use boids::state::PlayState;
use boids::state::State;
use boids::state::Transition;
use boids::state::POPULATION_STEP;

const WIDTH: i32 = 1_280_000;
const HEIGHT: i32 = 720_000;

fn still(x: i32, y: i32) -> Boid {
    Boid { x, y, dx: 0, dy: 0, color: [255, 128, 128, 128] }
}

fn moving(x: i32, y: i32, dx: i32, dy: i32) -> Boid {
    Boid { x, y, dx, dy, color: [255, 128, 128, 128] }
}

fn nowhere() -> Point {
    Point { x: -1_000_000, y: -1_000_000 }
}

fn playing(flock: Vec<Boid>) -> State {
    match State::with_boids(WIDTH, HEIGHT, flock, Tuning::default()) {
        Ok(s) => s,
        Err(e) => panic!("no simulation: {:?}", e),
    }
}

fn fresh(count: usize) -> State {
    match State::new(WIDTH, HEIGHT, count, Tuning::default()) {
        Ok(s) => s,
        Err(e) => panic!("no simulation: {:?}", e),
    }
}

#[test]
fn a_new_simulation_waits_in_setup() {
    let s = fresh(30);
    assert_eq!(s.play_state(), PlayState::Setup);
    assert_eq!(s.boid_count(), 30);
    assert_eq!(s.boids().len(), 30);
    assert_eq!((s.width(), s.height()), (WIDTH, HEIGHT));
    assert_eq!(s.tuning(), Tuning::default());
    assert_eq!((s.spatial_grid().width(), s.spatial_grid().height()), (40, 23));
    assert_eq!(s.spatial_grid().cell_size(), 32_000);
}

#[test]
fn a_simulation_refuses_a_bad_world() {
    let t = Tuning::default();
    assert_eq!(State::new(0, HEIGHT, 10, t).err(), Some(ConfigError::NonPositiveWorld));
    assert_eq!(State::new(WIDTH, -5, 10, t).err(), Some(ConfigError::NonPositiveWorld));
    assert_eq!(
        State::with_boids(WIDTH, 0, Vec::new(), t).err(),
        Some(ConfigError::NonPositiveWorld)
    );
}

#[test]
fn a_simulation_refuses_bad_tuning() {
    let mut t = Tuning::default();
    t.visual_range = 0;
    assert_eq!(State::new(WIDTH, HEIGHT, 10, t).err(), Some(ConfigError::NonPositiveCellSize));
    let mut t = Tuning::default();
    t.speed_limit = 0;
    assert_eq!(State::new(WIDTH, HEIGHT, 10, t).err(), Some(ConfigError::NonPositiveSpeedLimit));
    t.speed_limit = -400_000;
    assert_eq!(
        State::with_boids(WIDTH, HEIGHT, Vec::new(), t).err(),
        Some(ConfigError::NonPositiveSpeedLimit)
    );
    let mut t = Tuning::default();
    t.visual_range = 1;
    assert_eq!(State::new(WIDTH, HEIGHT, 10, t).err(), Some(ConfigError::GridTooLarge));
    // the world and the cell size are looked at before the speed limit
    t.speed_limit = 0;
    assert_eq!(State::new(WIDTH, HEIGHT, 10, t).err(), Some(ConfigError::GridTooLarge));
    assert_eq!(State::new(0, HEIGHT, 10, t).err(), Some(ConfigError::NonPositiveWorld));
}

#[test]
fn get_boids_makes_as_many_as_asked() {
    let t = Tuning::default();
    assert_eq!(get_boids(0, WIDTH, HEIGHT, &t).len(), 0);
    let flock = get_boids(64, WIDTH, HEIGHT, &t);
    assert_eq!(flock.len(), 64);
    for b in &flock {
        assert!(b.x >= WIDTH / 4 && b.x < 3 * WIDTH / 4);
        assert!(b.y >= HEIGHT / 4 && b.y < 3 * HEIGHT / 4);
    }
}

#[test]
fn transitions_follow_the_table() {
    let keep = |state| Transition { state, boid_count: 1000, flock: FlockChange::Keep };
    let clear = Transition { state: PlayState::Setup, boid_count: 1000, flock: FlockChange::Clear };
    let reset = keep(PlayState::Setup);
    let seed = |state, boid_count| Transition { state, boid_count, flock: FlockChange::Reseed };
    let all = [
        None,
        Some(Command::Start),
        Some(Command::Pause),
        Some(Command::Resume),
        Some(Command::Reset),
        Some(Command::Grow),
        Some(Command::Shrink),
    ];
    for c in all {
        let want = match c {
            Some(Command::Start) => seed(PlayState::Play, 1000),
            _ => clear,
        };
        assert_eq!(transition(PlayState::Setup, 1000, c), want);
    }
    for c in all {
        let want = match c {
            Some(Command::Pause) => keep(PlayState::Pause),
            Some(Command::Reset) => reset,
            Some(Command::Grow) => seed(PlayState::Play, 1500),
            Some(Command::Shrink) => seed(PlayState::Play, 500),
            _ => keep(PlayState::Play),
        };
        assert_eq!(transition(PlayState::Play, 1000, c), want);
    }
    for c in all {
        let want = match c {
            Some(Command::Resume) => keep(PlayState::Play),
            Some(Command::Reset) => reset,
            Some(Command::Grow) => seed(PlayState::Pause, 1500),
            Some(Command::Shrink) => seed(PlayState::Pause, 500),
            _ => keep(PlayState::Pause),
        };
        assert_eq!(transition(PlayState::Pause, 1000, c), want);
    }
}

#[test]
fn shrinking_stops_at_one_step() {
    assert_eq!(POPULATION_STEP, 500);
    let stay = |boid_count| Transition { state: PlayState::Play, boid_count, flock: FlockChange::Keep };
    assert_eq!(transition(PlayState::Play, 500, Some(Command::Shrink)), stay(500));
    assert_eq!(transition(PlayState::Play, 499, Some(Command::Shrink)), stay(499));
    assert_eq!(transition(PlayState::Play, 0, Some(Command::Shrink)), stay(0));
    assert_eq!(
        transition(PlayState::Play, 501, Some(Command::Shrink)),
        Transition { state: PlayState::Play, boid_count: 1, flock: FlockChange::Reseed }
    );
    assert_eq!(
        transition(PlayState::Play, usize::MAX - 499, Some(Command::Grow)),
        stay(usize::MAX - 499)
    );
    assert_eq!(
        transition(PlayState::Play, usize::MAX - 500, Some(Command::Grow)),
        Transition { state: PlayState::Play, boid_count: usize::MAX, flock: FlockChange::Reseed }
    );
}

#[test]
fn setup_empties_the_flock_until_started() {
    let mut s = fresh(20);
    assert_eq!(s.step(None, 16, nowhere()), Ok(()));
    assert_eq!(s.play_state(), PlayState::Setup);
    assert_eq!(s.boids().len(), 0);
    assert_eq!(s.step(Some(Command::Grow), 16, nowhere()), Ok(()));
    assert_eq!((s.play_state(), s.boid_count(), s.boids().len()), (PlayState::Setup, 20, 0));
    assert_eq!(s.step(Some(Command::Start), 16, nowhere()), Ok(()));
    assert_eq!((s.play_state(), s.boid_count(), s.boids().len()), (PlayState::Play, 20, 20));
    for b in s.boids() {
        assert!(b.x >= WIDTH / 4 && b.x < 3 * WIDTH / 4);
    }
}

#[test]
fn pause_freezes_and_resume_goes_on() {
    let mut s = playing(vec![moving(640_000, 360_000, 1000, 0)]);
    assert_eq!(s.step(Some(Command::Pause), 1000, nowhere()), Ok(()));
    // the tick of the step that pauses still runs
    assert_eq!(s.play_state(), PlayState::Pause);
    assert_eq!(s.boids()[0], moving(641_000, 360_000, 1000, 0));
    assert_eq!(s.step(None, 1000, nowhere()), Ok(()));
    assert_eq!(s.step(Some(Command::Start), 1000, nowhere()), Ok(()));
    assert_eq!(s.step(Some(Command::Pause), 1000, nowhere()), Ok(()));
    assert_eq!(s.play_state(), PlayState::Pause);
    assert_eq!(s.boids()[0], moving(641_000, 360_000, 1000, 0));
    assert_eq!(s.step(Some(Command::Resume), 1000, nowhere()), Ok(()));
    assert_eq!(s.play_state(), PlayState::Play);
    assert_eq!(s.boids()[0], moving(641_000, 360_000, 1000, 0));
    assert_eq!(s.step(None, 1000, nowhere()), Ok(()));
    assert_eq!(s.boids()[0], moving(642_000, 360_000, 1000, 0));
}

#[test]
fn reset_leaves_the_flock_to_the_next_step() {
    let flock = vec![moving(640_000, 360_000, 1000, 0), still(100_000, 100_000)];
    let mut s = playing(flock);
    assert_eq!(s.step(Some(Command::Reset), 1000, nowhere()), Ok(()));
    // the phase changes, the flock stays and is still advanced by this step
    assert_eq!((s.play_state(), s.boid_count(), s.boids().len()), (PlayState::Setup, 2, 2));
    assert_eq!(s.boids()[0], moving(641_000, 360_000, 1000, 0));
    assert_eq!(s.boids()[1], still(100_000, 100_000));
    assert_eq!(s.step(None, 1000, nowhere()), Ok(()));
    assert_eq!((s.play_state(), s.boid_count(), s.boids().len()), (PlayState::Setup, 2, 0));
    assert_eq!(s.step(Some(Command::Start), 16, nowhere()), Ok(()));
    assert_eq!((s.play_state(), s.boids().len()), (PlayState::Play, 2));
}

#[test]
fn reset_while_paused_keeps_the_flock_as_it_is() {
    let flock = vec![moving(640_000, 360_000, 1000, 0)];
    let mut s = playing(flock);
    assert_eq!(s.step(Some(Command::Pause), 0, nowhere()), Ok(()));
    assert_eq!(s.step(Some(Command::Reset), 1000, nowhere()), Ok(()));
    assert_eq!((s.play_state(), s.boid_count(), s.boids().len()), (PlayState::Setup, 1, 1));
    assert_eq!(s.boids()[0], moving(640_000, 360_000, 1000, 0));
    // a start right after the reset empties the flock and makes a new one
    assert_eq!(s.step(Some(Command::Start), 1000, nowhere()), Ok(()));
    assert_eq!((s.play_state(), s.boids().len()), (PlayState::Play, 1));
}

#[test]
fn pause_resume_and_reset_keep_count_and_flock() {
    for command in [Command::Pause, Command::Resume, Command::Reset] {
        for state in [PlayState::Play, PlayState::Pause] {
            let t = transition(state, 1000, Some(command));
            assert_eq!((t.boid_count, t.flock), (1000, FlockChange::Keep));
        }
    }
    assert_eq!(transition(PlayState::Play, 7, Some(Command::Pause)).state, PlayState::Pause);
    assert_eq!(transition(PlayState::Pause, 7, Some(Command::Resume)).state, PlayState::Play);
    assert_eq!(transition(PlayState::Play, 7, Some(Command::Reset)).state, PlayState::Setup);
    assert_eq!(transition(PlayState::Pause, 7, Some(Command::Reset)).state, PlayState::Setup);
}

#[test]
fn a_step_with_a_given_flock_leaves_nothing_to_chance() {
    let start = vec![moving(640_000, 360_000, 1000, 0), still(650_000, 360_000)];
    let fresh = vec![moving(500_000, 300_000, 0, 2000), still(505_000, 300_000), still(9, 9)];
    let commands = [
        None,
        Some(Command::Grow),
        Some(Command::Pause),
        Some(Command::Shrink),
        Some(Command::Resume),
        None,
        Some(Command::Reset),
        None,
        Some(Command::Start),
        None,
    ];
    let mut a = playing(start.clone());
    let mut b = playing(start);
    for (k, command) in commands.iter().enumerate() {
        let obstacle = Point { x: 500_000 + 1000 * (k as i32), y: 300_000 };
        assert_eq!(a.step_with(*command, 40, obstacle, fresh.clone()), Ok(()));
        assert_eq!(b.step_with(*command, 40, obstacle, fresh.clone()), Ok(()));
        assert_eq!(a.boids(), b.boids());
        assert_eq!(a.play_state(), b.play_state());
        assert_eq!(a.boid_count(), b.boid_count());
    }
    assert_eq!((a.play_state(), a.boid_count(), a.boids().len()), (PlayState::Play, 2, 3));
}

#[test]
fn a_given_flock_is_taken_only_where_a_new_one_is_made() {
    let start = vec![still(640_000, 360_000)];
    let fresh = vec![still(1, 2), still(3, 4)];
    let mut s = playing(start.clone());
    assert_eq!(s.step_with(None, 0, nowhere(), fresh.clone()), Ok(()));
    assert_eq!(s.boids(), &start);
    assert_eq!(s.step_with(Some(Command::Pause), 0, nowhere(), fresh.clone()), Ok(()));
    assert_eq!(s.boids(), &start);
    assert_eq!(s.step_with(Some(Command::Grow), 0, nowhere(), fresh.clone()), Ok(()));
    assert_eq!((s.boid_count(), s.boids().len()), (501, 2));
    assert_eq!(s.boids(), &fresh);
    assert_eq!(
        s.step_with(Some(Command::Grow), -1, nowhere(), Vec::new()),
        Err(InputError::NegativeElapsedTime)
    );
    assert_eq!((s.boid_count(), s.boids().len()), (501, 2));
}

#[test]
fn growing_and_shrinking_replace_the_flock() {
    let mut s = playing(vec![still(640_000, 360_000)]);
    assert_eq!(s.step(Some(Command::Shrink), 0, nowhere()), Ok(()));
    assert_eq!((s.boid_count(), s.boids().len()), (1, 1));
    assert_eq!(s.boids()[0], still(640_000, 360_000));
    assert_eq!(s.step(Some(Command::Grow), 0, nowhere()), Ok(()));
    assert_eq!((s.play_state(), s.boid_count(), s.boids().len()), (PlayState::Play, 501, 501));
    assert_eq!(s.step(Some(Command::Pause), 0, nowhere()), Ok(()));
    assert_eq!(s.step(Some(Command::Grow), 0, nowhere()), Ok(()));
    assert_eq!((s.play_state(), s.boid_count(), s.boids().len()), (PlayState::Pause, 1001, 1001));
    assert_eq!(s.step(Some(Command::Shrink), 0, nowhere()), Ok(()));
    assert_eq!((s.boid_count(), s.boids().len()), (501, 501));
}

#[test]
fn adjust_boid_count_steps_and_reseeds() {
    let mut s = playing(vec![still(1, 1)]);
    s.adjust_boid_count(false);
    assert_eq!((s.boid_count(), s.boids().len()), (1, 1));
    assert_eq!(s.boids()[0], still(1, 1));
    s.adjust_boid_count(true);
    assert_eq!((s.boid_count(), s.boids().len()), (501, 501));
    s.adjust_boid_count(false);
    assert_eq!((s.boid_count(), s.boids().len()), (1, 1));
    assert_eq!(s.play_state(), PlayState::Play);
}

#[test]
fn negative_time_is_refused_and_changes_nothing() {
    let flock = vec![moving(640_000, 360_000, 1000, 2000), still(10, 10)];
    let mut s = playing(flock.clone());
    assert_eq!(s.tick(-1, nowhere()), Err(InputError::NegativeElapsedTime));
    assert_eq!(s.boids(), &flock);
    assert_eq!(
        s.step(Some(Command::Reset), i64::MIN, nowhere()),
        Err(InputError::NegativeElapsedTime)
    );
    assert_eq!(s.play_state(), PlayState::Play);
    assert_eq!(s.boids(), &flock);
    let mut s = fresh(5);
    assert_eq!(s.step(Some(Command::Start), -16, nowhere()), Err(InputError::NegativeElapsedTime));
    assert_eq!((s.play_state(), s.boids().len()), (PlayState::Setup, 5));
}
