use boids::boid::Boid;
use boids::boid::Point;
use boids::config::Tuning;
use boids::config::EDGE_BUFFER;
use boids::config::SPEED_LIMIT;
use boids::config::TURN_FACTOR;

const WIDTH: i32 = 1_280_000;
const HEIGHT: i32 = 720_000;

fn moving(x: i32, y: i32, dx: i32, dy: i32) -> Boid {
    Boid { x, y, dx, dy, color: [128, 160, 255, 128] }
}

fn nowhere() -> Point {
    Point { x: -1_000_000, y: -1_000_000 }
}

fn speed_sq(b: &Boid) -> i128 {
    (b.dx as i128) * (b.dx as i128) + (b.dy as i128) * (b.dy as i128)
}

#[test]
fn default_tuning_has_the_standard_values() {
    let t = Tuning::default();
    assert_eq!(t.speed_limit, 400_000);
    assert_eq!(t.visual_range, 32_000);
    assert_eq!(t.min_distance, 16_000);
    assert_eq!(t.avoid_factor, 500);
    assert_eq!(t.centering_factor, 50);
    assert_eq!(t.matching_factor, 100);
    assert_eq!(t.turn_factor, 16_000);
    assert_eq!(t.edge_buffer, 40_000);
    assert_eq!(t.obstacle_radius, 20_000);
}

#[test]
fn limit_speed_shortens_a_fast_velocity() {
    let mut b = moving(0, 0, 3_000_000, 4_000_000);
    b.limit_speed(&Tuning::default());
    assert_eq!(b, moving(0, 0, 240_000, 320_000));
    let mut b = moving(5, 6, -3_000_000, 4_000_000);
    b.limit_speed(&Tuning::default());
    assert_eq!(b, moving(5, 6, -240_000, 320_000));
}

#[test]
fn limit_speed_rounds_the_speed_up() {
    let mut b = moving(0, 0, 400_000, 400_000);
    b.limit_speed(&Tuning::default());
    assert_eq!(b, moving(0, 0, 282_842, 282_842));
    assert!(speed_sq(&b) <= (SPEED_LIMIT as i128) * (SPEED_LIMIT as i128));
}

#[test]
fn limit_speed_keeps_a_slow_velocity() {
    let t = Tuning::default();
    let mut b = moving(0, 0, 300_000, 0);
    b.limit_speed(&t);
    assert_eq!(b, moving(0, 0, 300_000, 0));
    let mut b = moving(0, 0, 0, -400_000);
    b.limit_speed(&t);
    assert_eq!(b, moving(0, 0, 0, -400_000));
}

#[test]
fn limit_speed_never_leaves_more_than_the_limit() {
    let t = Tuning::default();
    let limit_sq = (SPEED_LIMIT as i128) * (SPEED_LIMIT as i128);
    let samples = [
        (i32::MAX, i32::MAX),
        (i32::MIN, i32::MIN),
        (i32::MIN, i32::MAX),
        (400_001, 0),
        (1, 400_000),
        (-282_843, 282_843),
        (123_456_789, -987_654_321),
    ];
    for (dx, dy) in samples {
        let mut b = moving(0, 0, dx, dy);
        b.limit_speed(&t);
        assert!(speed_sq(&b) <= limit_sq);
        assert!(b.dx == 0 || (b.dx > 0) == (dx > 0));
        assert!(b.dy == 0 || (b.dy > 0) == (dy > 0));
    }
}

#[test]
fn update_position_moves_by_velocity_and_time() {
    let mut b = moving(100_000, 100_000, -3240, 0);
    b.update_position(100);
    assert_eq!(b, moving(99_676, 100_000, -3240, 0));
    let mut b = moving(0, 0, 400_000, -200_000);
    b.update_position(1000);
    assert_eq!(b, moving(400_000, -200_000, 400_000, -200_000));
    let mut b = moving(7, 8, 400_000, -200_000);
    b.update_position(0);
    assert_eq!(b, moving(7, 8, 400_000, -200_000));
}

#[test]
fn update_position_rounds_toward_zero() {
    let mut b = moving(0, 0, 1, -1);
    b.update_position(999);
    assert_eq!(b, moving(0, 0, 1, -1));
    let mut b = moving(0, 0, 1999, -1999);
    b.update_position(1);
    assert_eq!(b, moving(1, -1, 1999, -1999));
}

#[test]
fn update_position_saturates() {
    let mut b = moving(i32::MAX - 1, i32::MIN + 1, 1_000_000, -1_000_000);
    b.update_position(1000);
    assert_eq!(b, moving(i32::MAX, i32::MIN, 1_000_000, -1_000_000));
    let mut b = moving(0, 0, i32::MAX, i32::MIN);
    b.update_position(i64::MAX);
    assert_eq!(b, moving(i32::MAX, i32::MIN, i32::MAX, i32::MIN));
}

#[test]
fn low_edges_turn_and_damp() {
    let mut b = moving(EDGE_BUFFER / 2, HEIGHT / 2, 0, 0);
    b.keep_within_bounds(nowhere(), WIDTH, HEIGHT, &Tuning::default());
    assert_eq!(b, moving(20_000, 360_000, 12_800, 0));
    assert_eq!(b.dx, TURN_FACTOR * 8 / 10);
    let mut b = moving(WIDTH / 2, 39_999, 1000, -1000);
    b.keep_within_bounds(nowhere(), WIDTH, HEIGHT, &Tuning::default());
    assert_eq!(b, moving(640_000, 39_999, 1000, 12_000));
}

#[test]
fn high_edges_turn_and_damp() {
    let mut b = moving(1_260_000, 700_000, 0, 5000);
    b.keep_within_bounds(nowhere(), WIDTH, HEIGHT, &Tuning::default());
    assert_eq!(b, moving(1_260_000, 700_000, -12_800, -8800));
}

#[test]
fn the_middle_is_left_alone() {
    let t = Tuning::default();
    for (x, y) in [(40_000, 40_000), (1_240_000, 680_000), (640_000, 360_000)] {
        let mut b = moving(x, y, 777, -888);
        b.keep_within_bounds(nowhere(), WIDTH, HEIGHT, &t);
        assert_eq!(b, moving(x, y, 777, -888));
    }
}

#[test]
fn the_obstacle_pushes_by_the_whole_offset() {
    let t = Tuning::default();
    let mut b = moving(640_000, 360_000, 100, 200);
    b.keep_within_bounds(Point { x: 630_000, y: 365_000 }, WIDTH, HEIGHT, &t);
    assert_eq!(b, moving(640_000, 360_000, 10_100, -4800));
    // At exactly the radius nothing is pushed.
    let mut b = moving(640_000, 360_000, 100, 200);
    b.keep_within_bounds(Point { x: 620_000, y: 360_000 }, WIDTH, HEIGHT, &t);
    assert_eq!(b, moving(640_000, 360_000, 100, 200));
}

#[test]
fn edge_and_obstacle_add_up() {
    let mut b = moving(20_000, 360_000, 0, 0);
    b.keep_within_bounds(Point { x: 15_000, y: 360_000 }, WIDTH, HEIGHT, &Tuning::default());
    assert_eq!(b, moving(20_000, 360_000, 17_800, 0));
}
