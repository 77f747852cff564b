//! Verified core of a Gerber RS-274X / ODB++ artwork engine.
//!
//! The crate parses printed-circuit-board artwork into vectorized geometric
//! primitives, splits them into polarity-ordered sublayers and transposes the
//! result into struct-of-arrays buffers with a bounding box, ready for a GPU
//! front end. Coordinates are fixed-point: `i64` values counting 10^-6 mm.

use vstd::prelude::*;

pub mod fixed;
pub mod text;
pub mod trig;
pub mod geom;
pub mod boolean;
pub mod expr;
pub mod macro_def;
pub mod state;
pub mod buffers;
pub mod aperture;
pub mod graphics;
pub mod parser;
pub mod odb;
pub mod layers;

verus! {

} // verus!
