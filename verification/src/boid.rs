//! One agent of the flock and the rules that change its velocity.

use vstd::prelude::*;
use crate::config::Tuning;
use crate::config::DAMPING;
use crate::fixed::ceil_sqrt;
use crate::fixed::ceil_sqrt_u64;
use crate::fixed::div_trunc;
use crate::fixed::saturate;
use crate::fixed::saturate_i128;
use crate::fixed::scale;
use crate::fixed::scale_by;
use crate::fixed::UNIT;

verus! {

/// A position in the plane, in thousandths of a pixel.
#[derive(Debug, Clone, Copy, PartialEq, Eq)]
pub struct Point {
    pub x: i32,
    pub y: i32,
}

/// One agent: where it is, how fast it moves, and its colour.
///
/// Positions are thousandths of a pixel, velocities thousandths of a pixel
/// per second. The colour is red, green, blue and opacity, each from 0 to
/// 255. An agent is told apart from the others by its place in the flock,
/// never by its value.
#[derive(Debug, Clone, Copy, PartialEq, Eq)]
pub struct Boid {
    pub x: i32,
    pub y: i32,
    pub dx: i32,
    pub dy: i32,
    pub color: [u8; 4],
}

/// What a pass over an agent's candidates adds up.
pub struct Tally {
    /// Sum of the offsets from each close neighbour to the agent.
    pub avoid_x: int,
    pub avoid_y: int,
    /// Number of close neighbours.
    pub close: nat,
    /// Sum of the positions of the neighbours in visual range.
    pub sum_x: int,
    pub sum_y: int,
    /// Sum of the velocities of the neighbours in visual range.
    pub sum_dx: int,
    pub sum_dy: int,
    /// Number of neighbours in visual range.
    pub seen: nat,
}

impl Tally {
    /// The tally of no candidates.
    pub open spec fn zero() -> Tally {
        Tally { avoid_x: 0, avoid_y: 0, close: 0, sum_x: 0, sum_y: 0, sum_dx: 0, sum_dy: 0, seen: 0 }
    }
}

/// The bound on the magnitude of each sum of a tally over `n` candidates.
spec fn tally_limit(n: int) -> int {
    n * 0x1_0000_0000
}

/// The velocity on one axis after separation, cohesion and alignment.
///
/// Separation is applied first, cohesion to the result of separation, and
/// alignment to the result of cohesion.
pub open spec fn steered_axis(
    vel: int,
    pos: int,
    avoid: int,
    close: nat,
    sum_pos: int,
    sum_vel: int,
    seen: nat,
    t: Tuning,
) -> int {
    let separated = if close > 0 {
        vel + scale(avoid, t.avoid_factor as int)
    } else {
        vel
    };
    if seen > 0 {
        let center = div_trunc(sum_pos, seen as int);
        let centered = separated + scale(center - pos, t.centering_factor as int);
        let mean = div_trunc(sum_vel, seen as int);
        centered + scale(mean - centered, t.matching_factor as int)
    } else {
        separated
    }
}

/// The velocity on one axis after the speed has been limited. A velocity
/// whose squared speed exceeds the squared limit is multiplied by the limit
/// and divided by the speed, the square root being rounded up so that the
/// result never exceeds the limit.
pub open spec fn limited_axis(vel: int, speed_sq: int, limit: int) -> int {
    if speed_sq > limit * limit {
        div_trunc(vel * limit, ceil_sqrt(speed_sq))
    } else {
        vel
    }
}

/// The velocity on one axis after the edges of the world have been applied.
/// Within the edge buffer of the low edge the turn factor is added, within
/// the edge buffer of the high edge it is taken away, and in both cases the
/// result is damped. Elsewhere the velocity is kept.
pub open spec fn turned_axis(pos: int, vel: int, extent: int, t: Tuning) -> int {
    if pos < t.edge_buffer {
        scale(vel + t.turn_factor, DAMPING as int)
    } else if pos > extent - t.edge_buffer {
        scale(vel - t.turn_factor, DAMPING as int)
    } else {
        vel
    }
}

impl Boid {
    /// The squared distance between two agents.
    pub open spec fn sq_distance(self, other: Boid) -> int {
        (self.x - other.x) * (self.x - other.x) + (self.y - other.y) * (self.y - other.y)
    }

    /// `other` is closer than the minimum distance.
    pub open spec fn is_close(self, other: Boid, t: Tuning) -> bool {
        self.sq_distance(other) < t.min_distance * t.min_distance
    }

    /// `other` is closer than the visual range.
    pub open spec fn is_visible(self, other: Boid, t: Tuning) -> bool {
        self.sq_distance(other) < t.visual_range * t.visual_range
    }

    /// The tally `tl` after one more agent, `other`, has been looked at.
    /// Whether `other` is close and whether it is visible are judged
    /// independently.
    pub open spec fn observe(self, tl: Tally, other: Boid, t: Tuning) -> Tally {
        let close = self.is_close(other, t);
        let visible = self.is_visible(other, t);
        Tally {
            avoid_x: if close { tl.avoid_x + (self.x - other.x) } else { tl.avoid_x },
            avoid_y: if close { tl.avoid_y + (self.y - other.y) } else { tl.avoid_y },
            close: if close { tl.close + 1 } else { tl.close },
            sum_x: if visible { tl.sum_x + other.x } else { tl.sum_x },
            sum_y: if visible { tl.sum_y + other.y } else { tl.sum_y },
            sum_dx: if visible { tl.sum_dx + other.dx } else { tl.sum_dx },
            sum_dy: if visible { tl.sum_dy + other.dy } else { tl.sum_dy },
            seen: if visible { tl.seen + 1 } else { tl.seen },
        }
    }

    /// The tally over `candidates`, which index into `flock`. A candidate
    /// equal to `own_index` is the agent itself and is passed over; any
    /// other candidate is looked at, also one that has the agent's own
    /// position and velocity.
    pub open spec fn tally(
        self,
        own_index: int,
        candidates: Seq<usize>,
        flock: Seq<Boid>,
        t: Tuning,
    ) -> Tally
        decreases candidates.len(),
    {
        if candidates.len() == 0 {
            Tally::zero()
        } else {
            let before = self.tally(own_index, candidates.drop_last(), flock, t);
            let j = candidates.last() as int;
            if j == own_index {
                before
            } else {
                self.observe(before, flock[j], t)
            }
        }
    }

    /// The agent after the three flocking rules have been applied for the
    /// given candidates: position and colour are kept, the velocity is
    /// steered and then saturated.
    pub open spec fn behaved(
        self,
        own_index: int,
        candidates: Seq<usize>,
        flock: Seq<Boid>,
        t: Tuning,
    ) -> Boid {
        let tl = self.tally(own_index, candidates, flock, t);
        Boid {
            dx: saturate(
                steered_axis(
                    self.dx as int,
                    self.x as int,
                    tl.avoid_x,
                    tl.close,
                    tl.sum_x,
                    tl.sum_dx,
                    tl.seen,
                    t,
                ),
            ) as i32,
            dy: saturate(
                steered_axis(
                    self.dy as int,
                    self.y as int,
                    tl.avoid_y,
                    tl.close,
                    tl.sum_y,
                    tl.sum_dy,
                    tl.seen,
                    t,
                ),
            ) as i32,
            ..self
        }
    }

    /// The squared speed.
    pub open spec fn speed_sq(self) -> int {
        self.dx * self.dx + self.dy * self.dy
    }

    /// The agent with its speed brought down to the limit: position and
    /// colour are kept, and a velocity faster than the limit is shortened.
    pub open spec fn limited(self, t: Tuning) -> Boid {
        Boid {
            dx: saturate(limited_axis(self.dx as int, self.speed_sq(), t.speed_limit as int))
                as i32,
            dy: saturate(limited_axis(self.dy as int, self.speed_sq(), t.speed_limit as int))
                as i32,
            ..self
        }
    }

    /// The agent after `tick_ms` milliseconds of travel at its velocity.
    pub open spec fn moved(self, tick_ms: int) -> Boid {
        Boid {
            x: saturate(self.x + div_trunc(self.dx * tick_ms, UNIT as int)) as i32,
            y: saturate(self.y + div_trunc(self.dy * tick_ms, UNIT as int)) as i32,
            ..self
        }
    }

    /// The agent is closer to `p` than `radius`.
    pub open spec fn is_near(self, p: Point, radius: int) -> bool {
        (self.x - p.x) * (self.x - p.x) + (self.y - p.y) * (self.y - p.y) < radius * radius
    }

    /// The agent after it has been turned back from the edges of a world of
    /// the given size and pushed away from the obstacle. The position is
    /// kept; the push is the whole offset from the obstacle to the agent.
    pub open spec fn bounded(self, obstacle: Point, width: int, height: int, t: Tuning) -> Boid {
        let near = self.is_near(obstacle, t.obstacle_radius as int);
        Boid {
            dx: saturate(
                turned_axis(self.x as int, self.dx as int, width, t) + if near {
                    self.x - obstacle.x
                } else {
                    0
                },
            ) as i32,
            dy: saturate(
                turned_axis(self.y as int, self.dy as int, height, t) + if near {
                    self.y - obstacle.y
                } else {
                    0
                },
            ) as i32,
            ..self
        }
    }

    /// The squared distance between two agents.
    pub fn squared_distance(&self, other: &Boid) -> (d: i128)
        ensures
            d == self.sq_distance(*other),
            0 <= d <= 0x2_0000_0000_0000_0000,
    {
        let ox: i128 = self.x as i128 - other.x as i128;
        let oy: i128 = self.y as i128 - other.y as i128;
        assert(0 <= ox * ox <= 0x1_0000_0000_0000_0000) by (nonlinear_arith)
            requires
                -0x1_0000_0000 <= ox <= 0x1_0000_0000,
        ;
        assert(0 <= oy * oy <= 0x1_0000_0000_0000_0000) by (nonlinear_arith)
            requires
                -0x1_0000_0000 <= oy <= 0x1_0000_0000,
        ;
        ox * ox + oy * oy
    }

    /// Applies separation, cohesion and alignment to the velocity.
    ///
    /// `neighbor_indices` are the candidates, as indices into `boids`, the
    /// flock as it was before this tick; `own_index` is the agent's own
    /// place in it.
    pub fn calculate_behaviors(
        &mut self,
        own_index: usize,
        neighbor_indices: &[usize],
        boids: &[Boid],
        tuning: &Tuning,
    )
        requires
            forall|k: int| 0 <= k < neighbor_indices@.len() ==> neighbor_indices@[k] < boids@.len(),
        ensures
            *final(self) == old(self).behaved(
                own_index as int,
                neighbor_indices@,
                boids@,
                *tuning,
            ),
    {
        let me: Boid = *self;
        let min_sq: i128 = square(tuning.min_distance);
        let visual_sq: i128 = square(tuning.visual_range);
        let mut avoid_x: i128 = 0;
        let mut avoid_y: i128 = 0;
        let mut num_close: usize = 0;
        let mut center_x: i128 = 0;
        let mut center_y: i128 = 0;
        let mut avg_dx: i128 = 0;
        let mut avg_dy: i128 = 0;
        let mut num_neighbors: usize = 0;
        let n: usize = neighbor_indices.len();
        let mut k: usize = 0;
        while k < n
            invariant
                k <= n,
                n == neighbor_indices@.len(),
                forall|i: int|
                    0 <= i < neighbor_indices@.len() ==> neighbor_indices@[i] < boids@.len(),
                min_sq == tuning.min_distance * tuning.min_distance,
                visual_sq == tuning.visual_range * tuning.visual_range,
                me.tally(own_index as int, neighbor_indices@.take(k as int), boids@, *tuning)
                    == (Tally {
                    avoid_x: avoid_x as int,
                    avoid_y: avoid_y as int,
                    close: num_close as nat,
                    sum_x: center_x as int,
                    sum_y: center_y as int,
                    sum_dx: avg_dx as int,
                    sum_dy: avg_dy as int,
                    seen: num_neighbors as nat,
                }),
                num_close <= k,
                num_neighbors <= k,
                -tally_limit(k as int) <= avoid_x <= tally_limit(k as int),
                -tally_limit(k as int) <= avoid_y <= tally_limit(k as int),
                -tally_limit(k as int) <= center_x <= tally_limit(k as int),
                -tally_limit(k as int) <= center_y <= tally_limit(k as int),
                -tally_limit(k as int) <= avg_dx <= tally_limit(k as int),
                -tally_limit(k as int) <= avg_dy <= tally_limit(k as int),
            decreases n - k,
        {
            let idx: usize = neighbor_indices[k];
            proof {
                assert(neighbor_indices@.take(k + 1).drop_last() == neighbor_indices@.take(
                    k as int,
                ));
                assert(neighbor_indices@.take(k + 1).last() == idx);
            }
            if idx != own_index {
                let other: &Boid = &boids[idx];
                let squared_dist: i128 = me.squared_distance(other);
                if squared_dist < min_sq {
                    avoid_x = avoid_x + (me.x as i128 - other.x as i128);
                    avoid_y = avoid_y + (me.y as i128 - other.y as i128);
                    num_close = num_close + 1;
                }
                if squared_dist < visual_sq {
                    center_x = center_x + other.x as i128;
                    center_y = center_y + other.y as i128;
                    avg_dx = avg_dx + other.dx as i128;
                    avg_dy = avg_dy + other.dy as i128;
                    num_neighbors = num_neighbors + 1;
                }
            }
            k = k + 1;
        }
        proof {
            assert(neighbor_indices@.take(n as int) == neighbor_indices@);
        }
        self.dx = steer_axis(
            me.dx,
            me.x,
            avoid_x,
            num_close,
            center_x,
            avg_dx,
            num_neighbors,
            tuning,
        );
        self.dy = steer_axis(
            me.dy,
            me.y,
            avoid_y,
            num_close,
            center_y,
            avg_dy,
            num_neighbors,
            tuning,
        );
    }

    /// Kept for callers of the separate rules: separation is part of
    /// [`Boid::calculate_behaviors`], and this does nothing.
    pub fn avoid_others(&mut self, _boids: &[Boid])
        ensures
            *final(self) == *old(self),
    {
    }

    /// Kept for callers of the separate rules: cohesion is part of
    /// [`Boid::calculate_behaviors`], and this does nothing.
    pub fn fly_towards_center(&mut self, _boids: &[Boid])
        ensures
            *final(self) == *old(self),
    {
    }

    /// Kept for callers of the separate rules: alignment is part of
    /// [`Boid::calculate_behaviors`], and this does nothing.
    pub fn match_velocity(&mut self, _boids: &[Boid])
        ensures
            *final(self) == *old(self),
    {
    }

    /// Shortens a velocity that is faster than the speed limit to the limit,
    /// keeping its direction up to rounding.
    pub fn limit_speed(&mut self, tuning: &Tuning)
        ensures
            *final(self) == old(self).limited(*tuning),
            final(self).speed_sq() <= tuning.speed_limit * tuning.speed_limit,
    {
        let squared_speed: i128 = square(self.dx) + square(self.dy);
        let limit_sq: i128 = square(tuning.speed_limit);
        if squared_speed > limit_sq {
            let speed: u64 = ceil_sqrt_u64(squared_speed as u64);
            let limit: i128 = tuning.speed_limit as i128;
            let vx: i128 = self.dx as i128;
            let vy: i128 = self.dy as i128;
            proof {
                lemma_limited_speed(vx as int, vy as int, limit as int, speed as int);
                assert(-0x4000_0000_0000_0000 <= vx * limit <= 0x4000_0000_0000_0000)
                    by (nonlinear_arith)
                    requires
                        -0x8000_0000 <= vx <= 0x8000_0000,
                        -0x8000_0000 <= limit <= 0x8000_0000,
                ;
                assert(-0x4000_0000_0000_0000 <= vy * limit <= 0x4000_0000_0000_0000)
                    by (nonlinear_arith)
                    requires
                        -0x8000_0000 <= vy <= 0x8000_0000,
                        -0x8000_0000 <= limit <= 0x8000_0000,
                ;
            }
            self.dx = saturate_i128((vx * limit) / (speed as i128));
            self.dy = saturate_i128((vy * limit) / (speed as i128));
        }
    }

    /// Turns the agent back from the edges of the world and pushes it away
    /// from the obstacle at `cursor`.
    pub fn keep_within_bounds(
        &mut self,
        cursor: Point,
        win_width: i32,
        win_height: i32,
        tuning: &Tuning,
    )
        ensures
            *final(self) == old(self).bounded(
                cursor,
                win_width as int,
                win_height as int,
                *tuning,
            ),
    {
        let mut vx: i128 = turn_axis(self.x, self.dx, win_width, tuning);
        let mut vy: i128 = turn_axis(self.y, self.dy, win_height, tuning);
        let dx_cursor: i128 = self.x as i128 - cursor.x as i128;
        let dy_cursor: i128 = self.y as i128 - cursor.y as i128;
        assert(0 <= dx_cursor * dx_cursor <= 0x1_0000_0000_0000_0000) by (nonlinear_arith)
            requires
                -0x1_0000_0000 <= dx_cursor <= 0x1_0000_0000,
        ;
        assert(0 <= dy_cursor * dy_cursor <= 0x1_0000_0000_0000_0000) by (nonlinear_arith)
            requires
                -0x1_0000_0000 <= dy_cursor <= 0x1_0000_0000,
        ;
        let squared_dist_cursor: i128 = dx_cursor * dx_cursor + dy_cursor * dy_cursor;
        if squared_dist_cursor < square(tuning.obstacle_radius) {
            vx = vx + dx_cursor;
            vy = vy + dy_cursor;
        }
        self.dx = saturate_i128(vx);
        self.dy = saturate_i128(vy);
    }

    /// Moves the agent along its velocity for `tick` milliseconds.
    pub fn update_position(&mut self, tick: i64)
        ensures
            *final(self) == old(self).moved(tick as int),
    {
        self.x = saturate_i128(self.x as i128 + travel(self.dx, tick));
        self.y = saturate_i128(self.y as i128 + travel(self.dy, tick));
    }
}

/// The distance covered at velocity `vel` in `tick` milliseconds, rounded
/// toward zero.
fn travel(vel: i32, tick: i64) -> (d: i128)
    ensures
        d == div_trunc(vel * tick, UNIT as int),
        -0x4000_0000_0000_0000_0000_0000 <= d <= 0x4000_0000_0000_0000_0000_0000,
{
    let v: i128 = vel as i128;
    let t: i128 = tick as i128;
    assert(-0x4000_0000_0000_0000_0000_0000 <= v * t <= 0x4000_0000_0000_0000_0000_0000)
        by (nonlinear_arith)
        requires
            -0x8000_0000 <= v <= 0x8000_0000,
            -0x8000_0000_0000_0000 <= t <= 0x8000_0000_0000_0000,
    ;
    (v * t) / (UNIT as i128)
}

/// Applies the edges of the world to one axis of the velocity.
fn turn_axis(pos: i32, vel: i32, extent: i32, tuning: &Tuning) -> (r: i128)
    ensures
        r == turned_axis(pos as int, vel as int, extent as int, *tuning),
        -0x1_0000_0000 <= r <= 0x1_0000_0000,
{
    if pos < tuning.edge_buffer {
        scale_by(vel as i128 + tuning.turn_factor as i128, DAMPING)
    } else if pos as i64 > extent as i64 - tuning.edge_buffer as i64 {
        scale_by(vel as i128 - tuning.turn_factor as i128, DAMPING)
    } else {
        vel as i128
    }
}

/// Saturation never grows a value.
proof fn lemma_saturate_shrinks(v: int)
    ensures
        saturate(v) * saturate(v) <= v * v,
{
    let s = saturate(v);
    assert(s * s <= v * v) by (nonlinear_arith)
        requires
            (0 <= s <= v) || (v <= s <= 0),
    ;
}

/// A velocity faster than the limit, multiplied by the limit and divided by
/// its speed rounded up, is no faster than the limit.
pub proof fn lemma_limited_speed(vx: int, vy: int, limit: int, speed: int)
    requires
        vx * vx + vy * vy > limit * limit,
        speed == ceil_sqrt(vx * vx + vy * vy),
    ensures
        speed >= 1,
        ({
            let nx = saturate(div_trunc(vx * limit, speed));
            let ny = saturate(div_trunc(vy * limit, speed));
            nx * nx + ny * ny <= limit * limit
        }),
{
    let sq = vx * vx + vy * vy;
    assert(limit * limit >= 0) by (nonlinear_arith);
    assert(crate::fixed::is_ceil_sqrt(sq, speed)) by {
        assert(crate::fixed::is_ceil_sqrt(sq, crate::fixed::ceil_sqrt(sq))) by {
            crate::fixed::lemma_ceil_sqrt_exists(sq);
        }
    }
    assert(speed >= 1) by (nonlinear_arith)
        requires
            speed >= 0,
            speed * speed >= sq,
            sq > 0,
    ;
    let qx = div_trunc(vx * limit, speed);
    let qy = div_trunc(vy * limit, speed);
    lemma_quotient_square(vx * limit, speed);
    lemma_quotient_square(vy * limit, speed);
    let ss = speed * speed;
    let ll = limit * limit;
    let xx = vx * vx;
    let yy = vy * vy;
    let ax = qx * qx;
    let ay = qy * qy;
    assert((vx * limit) * (vx * limit) == xx * ll) by (nonlinear_arith)
        requires
            ll == limit * limit,
            xx == vx * vx,
    ;
    assert((vy * limit) * (vy * limit) == yy * ll) by (nonlinear_arith)
        requires
            ll == limit * limit,
            yy == vy * vy,
    ;
    assert((ax + ay) * ss == ax * ss + ay * ss) by (nonlinear_arith);
    assert(xx * ll + yy * ll == sq * ll) by (nonlinear_arith)
        requires
            sq == xx + yy,
    ;
    assert(sq * ll <= ss * ll) by (nonlinear_arith)
        requires
            sq <= ss,
            ll >= 0,
    ;
    assert((qx * qx + qy * qy) * ss <= ss * (limit * limit));
    assert(qx * qx + qy * qy <= limit * limit) by (nonlinear_arith)
        requires
            (qx * qx + qy * qy) * ss <= ss * (limit * limit),
            ss >= 1,
    ;
    lemma_saturate_shrinks(qx);
    lemma_saturate_shrinks(qy);
}

/// The square of a truncated quotient, multiplied by the squared divisor,
/// does not exceed the square of the dividend.
proof fn lemma_quotient_square(p: int, s: int)
    requires
        s >= 1,
    ensures
        (div_trunc(p, s) * div_trunc(p, s)) * (s * s) <= p * p,
{
    let q = div_trunc(p, s);
    if p >= 0 {
        vstd::arithmetic::div_mod::lemma_fundamental_div_mod(p, s);
        assert(0 <= q * s <= p) by (nonlinear_arith)
            requires
                p == s * q + p % s,
                0 <= p % s < s,
                p >= 0,
                s >= 1,
        ;
        assert((q * q) * (s * s) <= p * p) by (nonlinear_arith)
            requires
                0 <= q * s <= p,
        ;
    } else {
        let m = -p;
        let k = m / s;
        vstd::arithmetic::div_mod::lemma_fundamental_div_mod(m, s);
        assert(0 <= k * s <= m) by (nonlinear_arith)
            requires
                m == s * k + m % s,
                0 <= m % s < s,
                m >= 0,
                s >= 1,
        ;
        assert((k * k) * (s * s) <= m * m) by (nonlinear_arith)
            requires
                0 <= k * s <= m,
        ;
        assert(q * q == k * k) by (nonlinear_arith)
            requires
                q == -k,
        ;
        assert(m * m == p * p) by (nonlinear_arith)
            requires
                m == -p,
        ;
    }
}

/// The square of a length.
fn square(v: i32) -> (s: i128)
    ensures
        s == v * v,
        0 <= s <= 0x4000_0000_0000_0000,
{
    let w: i128 = v as i128;
    assert(0 <= w * w <= 0x4000_0000_0000_0000) by (nonlinear_arith)
        requires
            -0x8000_0000 <= w <= 0x8000_0000,
    ;
    w * w
}

/// Dividing by a positive count never grows a sum.
proof fn lemma_mean_bounds(sum: int, count: int, limit: int)
    requires
        count >= 1,
        -limit <= sum <= limit,
    ensures
        -limit <= div_trunc(sum, count) <= limit,
{
    if sum >= 0 {
        assert(0 <= sum / count <= sum) by (nonlinear_arith)
            requires
                sum >= 0,
                count >= 1,
        ;
    } else {
        assert(0 <= (-sum) / count <= -sum) by (nonlinear_arith)
            requires
                sum < 0,
                count >= 1,
        ;
    }
}

/// Steers one axis of the velocity from the sums of a tally.
fn steer_axis(
    vel: i32,
    pos: i32,
    avoid: i128,
    close: usize,
    sum_pos: i128,
    sum_vel: i128,
    seen: usize,
    tuning: &Tuning,
) -> (r: i32)
    requires
        -tally_limit(usize::MAX as int) <= avoid <= tally_limit(usize::MAX as int),
        -tally_limit(usize::MAX as int) <= sum_pos <= tally_limit(usize::MAX as int),
        -tally_limit(usize::MAX as int) <= sum_vel <= tally_limit(usize::MAX as int),
    ensures
        r == saturate(
            steered_axis(
                vel as int,
                pos as int,
                avoid as int,
                close as nat,
                sum_pos as int,
                sum_vel as int,
                seen as nat,
                *tuning,
            ),
        ),
{
    let mut v: i128 = vel as i128;
    if close > 0 {
        v = v + scale_by(avoid, tuning.avoid_factor);
    }
    if seen > 0 {
        proof {
            lemma_mean_bounds(sum_pos as int, seen as int, tally_limit(usize::MAX as int));
            lemma_mean_bounds(sum_vel as int, seen as int, tally_limit(usize::MAX as int));
        }
        let center: i128 = sum_pos / (seen as i128);
        v = v + scale_by(center - pos as i128, tuning.centering_factor);
        let mean: i128 = sum_vel / (seen as i128);
        v = v + scale_by(mean - v, tuning.matching_factor);
    }
    saturate_i128(v)
}

} // verus!
