//! A procedural landscape generator's verified core: a generic square grid
//! that doubles its resolution by fanning each cell out into a 2x2 block,
//! and a landscape state machine that seeds random cells of a boolean
//! occupancy grid and renders it as a grid of colors.
//!
//! The shell around it — a window, a keyboard, an image surface — stays
//! outside; the core works on plain values and draws its randomness
//! through one narrow boundary.

pub mod color;
pub mod grid;
pub mod landscape;
mod rng;
