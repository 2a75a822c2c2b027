//! Terrain-like noise from sums of sine ridges, in fixed-point arithmetic.
//!
//! A [`field::Field`] is a formula for a number at each point of the plane.
//! [`grid::sample_and_normalize`] takes its values on a lattice of pixels
//! and brings them into the range from 0 to 1; [`color`] turns each value
//! into a gray level or a terrain color, and [`render`] lays the colors out
//! as the bytes of an image. All numbers are [`fixed::Fixed`], so the same
//! field gives the same bytes on every machine.

pub mod color;
pub mod field;
pub mod fixed;
pub mod grid;
pub mod render;
pub mod trig;
