//! A software renderer's verified core: the mesh text format, the layout
//! of vectors and matrices, the integer side of rasterisation, and the
//! camera's reaction to events.

pub mod camera;
pub mod common;
pub mod errors;
pub mod geometry;
pub mod model;
pub mod renderer;
pub mod text;
