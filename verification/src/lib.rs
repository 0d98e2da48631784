//! A colorized Game-of-Life simulator on a toroidal grid.
//!
//! The grid evolves under Conway's rules extended with color inheritance:
//! newborn cells take the channel-wise average of their live neighbors'
//! colors.  Two scripted effects mutate the grid outside the normal rule:
//! a "comet" that stamps concentric ripples of a fresh color, and a "ghost"
//! that sweeps a clearing band across the grid.

pub mod cell;
pub mod rng;
pub mod rules;
pub mod trig;
pub mod universe;

pub use cell::Cell;
pub use universe::Universe;
