//! A verified core for an interactive cubic Bezier curve editor.
//!
//! The heart of the crate is the curve engine in [`bezier`]: a closed-form
//! point evaluator, a uniform-parameter sampler that turns a curve into a
//! renderable polyline, and a De Casteljau splitter that cuts one cubic
//! Bezier into two. To keep the arithmetic exact, every coordinate is an
//! integer numerator over an explicit positive denominator; the contracts
//! pin each result to the scaled Bernstein polynomial of the inputs, and the
//! splitter comes with a proved round-trip law: re-sampling the two halves
//! reproduces the samples of the parent curve.
//!
//! Around the engine sit small verified models of the editor's interaction
//! state: mouse button and cursor bookkeeping in [`mouse`] and the
//! hover/drag/selection rules in [`selection`]. Windowing, rendering and
//! event dispatch are left to the surrounding application shell.

pub mod arith;
pub mod bezier;
pub mod mouse;
pub mod position;
pub mod selection;
