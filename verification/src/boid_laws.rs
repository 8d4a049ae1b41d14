//! What holds of the rules of an agent whatever the flock: the speed limit
//! is kept, an agent never counts itself, and agents at the same place
//! still count each other.

use vstd::prelude::*;
use crate::boid::lemma_limited_speed;
use crate::boid::Boid;
use crate::config::Tuning;
use crate::fixed::ceil_sqrt;
use crate::fixed::div_trunc;
use crate::fixed::saturate;

verus! {

/// After its speed has been limited, no agent is faster than the speed
/// limit.
pub proof fn lemma_speed_limited(b: Boid, t: Tuning)
    ensures
        b.limited(t).speed_sq() <= t.speed_limit * t.speed_limit,
{
    if b.speed_sq() > t.speed_limit * t.speed_limit {
        lemma_limited_speed(
            b.dx as int,
            b.dy as int,
            t.speed_limit as int,
            ceil_sqrt(b.speed_sq()),
        );
    }
}

/// An agent never counts itself: its own place among the candidates, where
/// ever it stands, changes nothing of the tally.
pub proof fn lemma_self_excluded(
    me: Boid,
    own_index: usize,
    before: Seq<usize>,
    after: Seq<usize>,
    flock: Seq<Boid>,
    t: Tuning,
)
    ensures
        me.tally(own_index as int, before + seq![own_index] + after, flock, t) == me.tally(
            own_index as int,
            before + after,
            flock,
            t,
        ),
    decreases after.len(),
{
    let with_self = before + seq![own_index] + after;
    let without = before + after;
    if after.len() == 0 {
        assert(with_self.drop_last() == before);
        assert(without == before);
    } else {
        lemma_self_excluded(me, own_index, before, after.drop_last(), flock, t);
        assert(with_self.drop_last() == before + seq![own_index] + after.drop_last());
        assert(without.drop_last() == before + after.drop_last());
        assert(with_self.last() == without.last());
    }
}

/// Two agents at the same place do not pass each other over: a candidate at
/// another place of the flock that has the agent's own position is counted
/// as close and as visible, whenever the two ranges are not zero.
pub proof fn lemma_coincident_counted(
    me: Boid,
    own_index: usize,
    candidates: Seq<usize>,
    other_index: usize,
    flock: Seq<Boid>,
    t: Tuning,
)
    requires
        other_index != own_index,
        other_index < flock.len(),
        flock[other_index as int].x == me.x,
        flock[other_index as int].y == me.y,
        t.min_distance != 0,
        t.visual_range != 0,
    ensures
        me.tally(own_index as int, candidates.push(other_index), flock, t).close == me.tally(
            own_index as int,
            candidates,
            flock,
            t,
        ).close + 1,
        me.tally(own_index as int, candidates.push(other_index), flock, t).seen == me.tally(
            own_index as int,
            candidates,
            flock,
            t,
        ).seen + 1,
{
    let more = candidates.push(other_index);
    assert(more.drop_last() == candidates);
    assert(more.last() == other_index);
    let m = t.min_distance as int;
    let v = t.visual_range as int;
    assert(m * m > 0) by (nonlinear_arith)
        requires
            m != 0,
    ;
    assert(v * v > 0) by (nonlinear_arith)
        requires
            v != 0,
    ;
    assert(me.sq_distance(flock[other_index as int]) == 0) by (nonlinear_arith)
        requires
            flock[other_index as int].x == me.x,
            flock[other_index as int].y == me.y,
            me.sq_distance(flock[other_index as int]) == (me.x - flock[other_index as int].x) * (me.x
                - flock[other_index as int].x) + (me.y - flock[other_index as int].y) * (me.y
                - flock[other_index as int].y),
    ;
}

/// A velocity of 32 bits, multiplied by a limit and divided by a speed that
/// is larger than the limit, still fits 32 bits, and is off from the exact
/// quotient by less than one.
proof fn lemma_quotient_close(v: int, limit: int, speed: int)
    requires
        speed >= 1,
        -speed < limit < speed,
        i32::MIN <= v <= i32::MAX,
    ensures
        -speed < div_trunc(v * limit, speed) * speed - v * limit < speed,
        saturate(div_trunc(v * limit, speed)) == div_trunc(v * limit, speed),
{
    let p = v * limit;
    let q = div_trunc(p, speed);
    if p >= 0 {
        vstd::arithmetic::div_mod::lemma_fundamental_div_mod(p, speed);
        assert(q * speed == speed * q) by (nonlinear_arith);
        assert(p <= 0x8000_0000 * (speed - 1)) by (nonlinear_arith)
            requires
                p == v * limit,
                p >= 0,
                -speed < limit < speed,
                -0x8000_0000 <= v <= 0x8000_0000,
        ;
        assert(q < 0x8000_0000) by (nonlinear_arith)
            requires
                q * speed <= p,
                p <= 0x8000_0000 * (speed - 1),
                speed >= 1,
        ;
        assert(q >= 0) by (nonlinear_arith)
            requires
                p >= 0,
                speed >= 1,
                q == p / speed,
        ;
    } else {
        let m = -p;
        let k = m / speed;
        vstd::arithmetic::div_mod::lemma_fundamental_div_mod(m, speed);
        assert(k * speed == speed * k) by (nonlinear_arith);
        assert(q * speed == -(k * speed)) by (nonlinear_arith)
            requires
                q == -k,
        ;
        assert(m <= 0x8000_0000 * (speed - 1)) by (nonlinear_arith)
            requires
                m == -(v * limit),
                m >= 0,
                -speed < limit < speed,
                -0x8000_0000 <= v <= 0x8000_0000,
        ;
        assert(k < 0x8000_0000) by (nonlinear_arith)
            requires
                k * speed <= m,
                m <= 0x8000_0000 * (speed - 1),
                speed >= 1,
        ;
        assert(k >= 0) by (nonlinear_arith)
            requires
                m >= 0,
                speed >= 1,
                k == m / speed,
        ;
    }
}

/// Limiting the speed keeps the heading up to rounding: a velocity faster
/// than the limit becomes, on each axis, the old velocity times the limit
/// over the speed, the speed being the rounded-up root of the squared
/// speed, and is off from that by less than one.
pub proof fn lemma_limit_keeps_heading(b: Boid, t: Tuning)
    requires
        b.speed_sq() > t.speed_limit * t.speed_limit,
    ensures
        ({
            let speed = ceil_sqrt(b.speed_sq());
            let after = b.limited(t);
            &&& speed >= 1
            &&& -speed < after.dx * speed - b.dx * t.speed_limit < speed
            &&& -speed < after.dy * speed - b.dy * t.speed_limit < speed
        }),
{
    let speed = ceil_sqrt(b.speed_sq());
    let limit = t.speed_limit as int;
    crate::fixed::lemma_ceil_sqrt_exists(b.speed_sq());
    lemma_limited_speed(b.dx as int, b.dy as int, limit, speed);
    if limit >= speed {
        crate::fixed::lemma_square_monotone(speed, limit);
    }
    if -limit >= speed {
        crate::fixed::lemma_square_monotone(speed, -limit);
        assert((-limit) * (-limit) == limit * limit) by (nonlinear_arith);
    }
    lemma_quotient_close(b.dx as int, limit, speed);
    lemma_quotient_close(b.dy as int, limit, speed);
}

} // verus!
