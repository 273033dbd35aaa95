//! A dense, fixed-size two-dimensional container.
//!
//! A [`Grid`] stores one value per `(x, y)` cell in a single contiguous
//! backing vector in row-major order, and offers bounds-checked point access,
//! whole-grid transformation, and data-parallel variants of the
//! transformations.

pub mod coords;
pub mod grid;
pub mod par;
pub mod text;

pub use grid::Grid;
