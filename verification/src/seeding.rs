//! Making new agents from random samples.
//!
//! A sample is 32 random bits. Its top 24 bits are read as a fraction from
//! 0 up to, but not including, 1; what an agent gets from a sample is a
//! whole number computed from that fraction.

use vstd::prelude::*;
use crate::boid::Boid;
use crate::config::Tuning;
use crate::fixed::div_trunc;
use crate::fixed::saturate;
use crate::fixed::saturate_i128;

verus! {

/// The top 24 bits of a sample: the numerator of a fraction of `2^24`, which
/// stands for a number from 0 up to, but not including, 1.
pub open spec fn fraction(bits: u32) -> int {
    bits as int / 256
}

/// A coordinate in the middle half of an extent: a quarter of the extent
/// plus the sampled fraction of half of it.
pub open spec fn spawn_coordinate(extent: int, bits: u32) -> int {
    div_trunc(fraction(bits) * extent, 0x200_0000) + div_trunc(extent, 4)
}

/// A velocity between minus a half and a half of the speed limit: the
/// sampled fraction, less one half, of the limit.
pub open spec fn spawn_velocity(limit: int, bits: u32) -> int {
    div_trunc((fraction(bits) - 0x80_0000) * limit, 0x100_0000)
}

/// A colour channel in the brighter half of its range.
pub open spec fn spawn_shade(bits: u32) -> int {
    128 + fraction(bits) / 0x2_0000
}

/// Opacity of a newly made agent: one half.
pub const SPAWN_OPACITY: u8 = 128;

impl Boid {
    /// The agent that seven samples give in a world of the given size:
    /// two for the position, two for the velocity and three for the colour.
    pub open spec fn spawned(win_width: int, win_height: int, t: Tuning, samples: Seq<u32>) -> Boid {
        Boid {
            x: saturate(spawn_coordinate(win_width, samples[0])) as i32,
            y: saturate(spawn_coordinate(win_height, samples[1])) as i32,
            dx: saturate(spawn_velocity(t.speed_limit as int, samples[2])) as i32,
            dy: saturate(spawn_velocity(t.speed_limit as int, samples[3])) as i32,
            color: [
                spawn_shade(samples[4]) as u8,
                spawn_shade(samples[5]) as u8,
                spawn_shade(samples[6]) as u8,
                SPAWN_OPACITY,
            ],
        }
    }

    /// The agent is one that [`Boid::new`] can make in a world of the given
    /// size: some seven samples give it.
    pub open spec fn is_spawn(self, win_width: int, win_height: int, t: Tuning) -> bool {
        exists|samples: Seq<u32>|
            samples.len() == 7 && self == #[trigger] Boid::spawned(
                win_width,
                win_height,
                t,
                samples,
            )
    }

    /// Makes the agent that the given samples stand for.
    pub fn from_samples(win_width: i32, win_height: i32, tuning: &Tuning, samples: [u32; 7]) -> (b:
        Boid)
        ensures
            b == Boid::spawned(win_width as int, win_height as int, *tuning, samples@),
    {
        let r: u8 = shade(samples[4]);
        let g: u8 = shade(samples[5]);
        let b: u8 = shade(samples[6]);
        let color: [u8; 4] = [r, g, b, SPAWN_OPACITY];
        let made = Boid {
            x: coordinate(win_width, samples[0]),
            y: coordinate(win_height, samples[1]),
            dx: velocity(tuning.speed_limit, samples[2]),
            dy: velocity(tuning.speed_limit, samples[3]),
            color,
        };
        proof {
            let want = Boid::spawned(win_width as int, win_height as int, *tuning, samples@);
            assert(made.color@ =~= want.color@);
            assert(made.color == want.color);
        }
        made
    }

    /// Makes an agent at a random place in the middle of the world, with a
    /// random velocity of at most half the speed limit on each axis and a
    /// random bright colour.
    pub fn new(win_width: i32, win_height: i32, tuning: &Tuning) -> (b: Boid)
        ensures
            b.is_spawn(win_width as int, win_height as int, *tuning),
    {
        let samples: [u32; 7] = [
            random_bits(),
            random_bits(),
            random_bits(),
            random_bits(),
            random_bits(),
            random_bits(),
            random_bits(),
        ];
        let made = Boid::from_samples(win_width, win_height, tuning, samples);
        assert(made == Boid::spawned(win_width as int, win_height as int, *tuning, samples@));
        made
    }
}

/// Thirty-two random bits from `rand::random`, which draws them from the
/// generator that the `rand` crate keeps for each thread. Nothing is claimed
/// of the value. The generator takes its seed from the operating system
/// when a thread first uses it, and panics if the system has none to give.
#[verifier::external_body]
fn random_bits() -> (bits: u32) {
    rand::random::<u32>()
}

/// The coordinate that a sample stands for.
fn coordinate(extent: i32, bits: u32) -> (c: i32)
    ensures
        c == saturate(spawn_coordinate(extent as int, bits)),
{
    let f: i128 = (bits / 256) as i128;
    let e: i128 = extent as i128;
    assert(-0x80_0000_0000_0000 <= f * e <= 0x80_0000_0000_0000) by (nonlinear_arith)
        requires
            0 <= f <= 0x100_0000,
            -0x8000_0000 <= e <= 0x8000_0000,
    ;
    saturate_i128((f * e) / 0x200_0000 + e / 4)
}

/// The velocity that a sample stands for.
fn velocity(limit: i32, bits: u32) -> (v: i32)
    ensures
        v == saturate(spawn_velocity(limit as int, bits)),
{
    let f: i128 = (bits / 256) as i128 - 0x80_0000;
    let l: i128 = limit as i128;
    assert(-0x80_0000_0000_0000 <= f * l <= 0x80_0000_0000_0000) by (nonlinear_arith)
        requires
            -0x100_0000 <= f <= 0x100_0000,
            -0x8000_0000 <= l <= 0x8000_0000,
    ;
    saturate_i128((f * l) / 0x100_0000)
}

/// The colour channel that a sample stands for.
fn shade(bits: u32) -> (s: u8)
    ensures
        s == spawn_shade(bits),
{
    (128 + (bits / 256) / 0x2_0000) as u8
}

/// A sampled coordinate lies in the middle half of a positive extent: at
/// least a quarter of the extent, and less than half the extent beyond it.
pub proof fn lemma_coordinate_in_the_middle(extent: int, bits: u32)
    requires
        0 < extent <= i32::MAX,
    ensures
        div_trunc(extent, 4) <= spawn_coordinate(extent, bits),
        2 * (spawn_coordinate(extent, bits) - div_trunc(extent, 4)) < extent,
        saturate(spawn_coordinate(extent, bits)) == spawn_coordinate(extent, bits),
{
    let f = fraction(bits);
    let offset = (f * extent) / 0x200_0000;
    assert(0 <= f < 0x100_0000);
    assert(0 <= f * extent < 0x100_0000 * extent) by (nonlinear_arith)
        requires
            0 <= f < 0x100_0000,
            extent > 0,
    ;
    assert(0 <= 2 * offset < extent);
}

/// A sampled velocity is at most half of a positive speed limit, in either
/// direction.
pub proof fn lemma_velocity_within_half(limit: int, bits: u32)
    requires
        0 < limit <= i32::MAX,
    ensures
        -limit <= 2 * spawn_velocity(limit, bits) < limit,
        saturate(spawn_velocity(limit, bits)) == spawn_velocity(limit, bits),
{
    let f = fraction(bits) - 0x80_0000;
    let p = f * limit;
    assert(-0x80_0000 <= f < 0x80_0000);
    if f >= 0 {
        assert(0 <= p < 0x80_0000 * limit) by (nonlinear_arith)
            requires
                p == f * limit,
                0 <= f < 0x80_0000,
                limit > 0,
        ;
        assert(0 <= 2 * (p / 0x100_0000) < limit);
    } else {
        assert(0 < -p <= 0x80_0000 * limit) by (nonlinear_arith)
            requires
                p == f * limit,
                -0x80_0000 <= f < 0,
                limit > 0,
        ;
        assert(0 <= 2 * ((-p) / 0x100_0000) <= limit);
    }
}

/// A new agent stands in the middle half of a world of positive size, is no
/// faster than half of a positive speed limit on each axis, and has a bright
/// colour of half opacity.
pub proof fn lemma_spawn_in_the_middle(b: Boid, win_width: int, win_height: int, t: Tuning)
    requires
        0 < win_width <= i32::MAX,
        0 < win_height <= i32::MAX,
        t.speed_limit > 0,
        b.is_spawn(win_width, win_height, t),
    ensures
        div_trunc(win_width, 4) <= b.x,
        2 * (b.x - div_trunc(win_width, 4)) < win_width,
        div_trunc(win_height, 4) <= b.y,
        2 * (b.y - div_trunc(win_height, 4)) < win_height,
        -t.speed_limit <= 2 * b.dx < t.speed_limit,
        -t.speed_limit <= 2 * b.dy < t.speed_limit,
        128 <= b.color@[0],
        128 <= b.color@[1],
        128 <= b.color@[2],
        b.color@[3] == SPAWN_OPACITY,
{
    let samples = choose|samples: Seq<u32>|
        samples.len() == 7 && b == #[trigger] Boid::spawned(win_width, win_height, t, samples);
    lemma_coordinate_in_the_middle(win_width, samples[0]);
    lemma_coordinate_in_the_middle(win_height, samples[1]);
    lemma_velocity_within_half(t.speed_limit as int, samples[2]);
    lemma_velocity_within_half(t.speed_limit as int, samples[3]);
    assert(0 <= fraction(samples[4]) / 0x2_0000 < 128);
    assert(0 <= fraction(samples[5]) / 0x2_0000 < 128);
    assert(0 <= fraction(samples[6]) / 0x2_0000 < 128);
}

} // verus!
