//! Voxel models: a dense grid of voxels, a loader for uncompressed
//! single-matrix Qubicle Binary data, and a greedy mesher that turns a grid
//! into the quads of its visible faces.

pub mod boxes;
pub mod cover;
pub mod greedy;
pub mod matrix;
pub mod mesh;
pub mod qb;
pub mod quad;
pub mod voxel;

pub use cover::Origin;
pub use greedy::Patch;
pub use matrix::{BlockCount, Grid, Matrix, Position};
pub use qb::{load, FormatError, ParseError, QubicleBinaryLoader};
pub use quad::{Normal, Quad, Side, TexCoord, Vertex};
pub use voxel::{Color, Voxel};
