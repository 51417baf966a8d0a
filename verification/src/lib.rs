//! A grid-maze ray-casting engine.
//!
//! The library walks rays through a rectangular character grid to find wall
//! intersections, projects wall stakes and billboard sprites onto a screen
//! buffer with a radial flashlight lighting model, and drives autonomous
//! enemies that roam the maze with a turn-preference bias.
//!
//! All world coordinates, angles and unit factors are fixed-point integers
//! scaled by [`fixed::FP_ONE`]. Trigonometric values (a ray direction, the
//! cosine of an angular offset) are computed by the caller and handed in as
//! fixed-point numbers; everything downstream of them is exact integer
//! arithmetic.

pub mod caster;
pub mod enemy;
pub mod fixed;
pub mod framebuffer;
pub mod lighting;
pub mod maze;
pub mod player;
pub mod projector;
