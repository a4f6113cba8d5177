//! A generalized Hilbert space-filling curve over an arbitrary rectangular
//! integer grid, not restricted to power-of-two squares.
//!
//! The curve is built by recursively partitioning the rectangle into four
//! quasi-squares, each traversed in one of four orientations, down to four
//! small base patterns; a split that leaves an empty sub-rectangle simply
//! contributes nothing. The result is a total ordering of every cell of the
//! rectangle — a bijection between positions and cells for every height and
//! width — and on near-square rectangles consecutive cells are always
//! grid-adjacent.
//!
//! The modules split the crate along that line: [`point`] holds the
//! coordinate value type, [`model`] the mathematical model of the traversal
//! and the proofs of its laws, and [`hilbertcurve`] the executable engine,
//! whose contracts pin its output to the model.

pub mod hilbertcurve;
pub mod model;
pub mod point;
