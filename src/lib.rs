//! A solver for packing puzzles: it enumerates every way to tile a region of
//! grid cells exactly with a multiset of polycube pieces.
//!
//! The search always fills the least open cell of the target (cells are
//! ordered by `z`, then `y`, then `x`): for each template left in the bag, in
//! each of its distinct orientations under the 24 rotations of the cube, it
//! anchors the piece's least cell on that open cell, and recurses when the
//! piece fits. `solver::solutions` states the packings found, in order;
//! `cover` proves that each of them covers the target exactly, using every
//! copy in the bag once, and that every such cover is among them; `rotation`
//! proves that a template with no rotational symmetry takes 24 distinct
//! orientations.

pub mod vector;
pub mod geometry;
pub mod symmetry;
pub mod piece;
pub mod template;
pub mod bag;
pub mod solver;
pub mod cover;
pub mod rotation;
pub mod display;
pub mod util;
