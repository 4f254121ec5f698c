//! A rotation engine for an N×N×N Rubik's-cube-like puzzle: a cube-shaped
//! grid of cells together with an engine that applies sequences of discrete
//! 90°-multiple rotations, each restricted to the layers selected by a slice
//! mask. The rotation mathematics is defined for cubes of extent exactly 3.

pub mod coord;
pub mod engine;
pub mod grid;
pub mod laws;

pub use coord::Axis;
pub use coord::rotate_vector;
pub use engine::Rot;
pub use engine::rotate;
pub use grid::Grid;
pub use grid::GridError;
