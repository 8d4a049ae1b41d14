//! Tuning of the flock rules, and the ways a configuration can be refused.
//!
//! Lengths are thousandths of a pixel, velocities thousandths of a pixel per
//! second, and steering factors are per-mille.

use vstd::prelude::*;

verus! {

/// Fastest an agent may travel after its speed is limited: 400 pixels per
/// second.
pub const SPEED_LIMIT: i32 = 400_000;

/// Radius within which an agent perceives others: 32 pixels.
pub const VISUAL_RANGE: i32 = 32_000;

/// Radius within which agents push each other away: 16 pixels.
pub const MIN_DISTANCE: i32 = 16_000;

/// Share of the separation vector added to the velocity: one half.
pub const AVOID_FACTOR: u16 = 500;

/// Share of the offset to the neighbours' centre added to the velocity: one
/// twentieth.
pub const CENTERING_FACTOR: u16 = 50;

/// Share of the difference to the neighbours' mean velocity added to the
/// velocity: one tenth.
pub const MATCHING_FACTOR: u16 = 100;

/// Velocity added per tick to an agent near an edge: 16 pixels per second.
pub const TURN_FACTOR: i32 = 16_000;

/// Width of the band along each edge in which agents are turned back: 40
/// pixels.
pub const EDGE_BUFFER: i32 = 40_000;

/// Radius around the obstacle within which agents are pushed away: 20
/// pixels.
pub const OBSTACLE_RADIUS: i32 = 20_000;

/// Share of an axis' velocity that is kept when the agent was turned on that
/// axis: four fifths.
pub const DAMPING: u16 = 800;

/// The rule parameters shared by all agents of a flock.
#[derive(Debug, Clone, Copy, PartialEq, Eq)]
pub struct Tuning {
    pub speed_limit: i32,
    pub visual_range: i32,
    pub min_distance: i32,
    pub avoid_factor: u16,
    pub centering_factor: u16,
    pub matching_factor: u16,
    pub turn_factor: i32,
    pub edge_buffer: i32,
    pub obstacle_radius: i32,
}

/// Why a grid or a simulation could not be built.
#[derive(Debug, Clone, Copy, PartialEq, Eq)]
pub enum ConfigError {
    /// The world's width or height is zero or negative.
    NonPositiveWorld,
    /// The cell size is zero or negative.
    NonPositiveCellSize,
    /// The speed limit is zero or negative.
    NonPositiveSpeedLimit,
    /// The grid would have more cells than a grid may have.
    GridTooLarge,
}

/// Why a step of the simulation was refused.
#[derive(Debug, Clone, Copy, PartialEq, Eq)]
pub enum InputError {
    /// The elapsed time is negative.
    NegativeElapsedTime,
}

impl Tuning {
    /// The parameters given by the constants of this module.
    pub open spec fn standard() -> Tuning {
        Tuning {
            speed_limit: SPEED_LIMIT,
            visual_range: VISUAL_RANGE,
            min_distance: MIN_DISTANCE,
            avoid_factor: AVOID_FACTOR,
            centering_factor: CENTERING_FACTOR,
            matching_factor: MATCHING_FACTOR,
            turn_factor: TURN_FACTOR,
            edge_buffer: EDGE_BUFFER,
            obstacle_radius: OBSTACLE_RADIUS,
        }
    }
}

impl Default for Tuning {
    fn default() -> (t: Tuning)
        ensures
            t == Tuning::standard(),
    {
        Tuning {
            speed_limit: SPEED_LIMIT,
            visual_range: VISUAL_RANGE,
            min_distance: MIN_DISTANCE,
            avoid_factor: AVOID_FACTOR,
            centering_factor: CENTERING_FACTOR,
            matching_factor: MATCHING_FACTOR,
            turn_factor: TURN_FACTOR,
            edge_buffer: EDGE_BUFFER,
            obstacle_radius: OBSTACLE_RADIUS,
        }
    }
}

} // verus!
