//! Exact rewriting of Bézier paths into the form that renderers ask for:
//! no cubic curves, and no quadratic curve that turns back along an axis.
//!
//! Coordinates are exact rationals of unbounded size. A split point then
//! lies on the curve it was taken from, a piece is monotone without a
//! margin for rounding, and every contract is a statement of ordinary
//! arithmetic. A binary64 number is read exactly by `double::from_double_bits`.
//!
//! The modules, from the ground up:
//!
//! - `limbs`, `integer`, `rational`, `double`: the numbers;
//! - `point`, `path`: points, path elements and paths;
//! - `splitter`: splitting a quadratic curve where it turns back;
//! - `approx`: standing in for a cubic curve by lines or quadratic curves;
//! - `rewrite`: the two walks over a path, `monotonize_quads` and `break_path`;
//! - `fractions`, `monotone`, `exact`, `laws`: what is proved of all this.
//!
//! A flattener or a decomposer of cubic curves works on binary64 numbers
//! and is no part of this crate. Where a strategy asks for one, the caller
//! runs it on the curves that `rewrite::cubic_segments` lists and hands in
//! what it made of each.

pub mod limbs;
pub mod integer;
pub mod rational;
pub mod double;
pub mod point;
pub mod fractions;
pub mod path;
pub mod splitter;
pub mod monotone;
pub mod exact;
pub mod approx;
pub mod rewrite;
pub mod laws;

pub use crate::approx::CubicApprox;
pub use crate::rewrite::{break_path, monotonize_quads};
