//! A flock of point agents that steer by separation, cohesion and alignment,
//! with a uniform grid for finding each agent's neighbours.

pub mod boid;
pub mod boid_laws;
pub mod config;
pub mod fixed;
pub mod flock_laws;
pub mod grid_laws;
pub mod seeding;
pub mod spatial_grid;
pub mod state;
