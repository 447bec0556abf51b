//! Surface memory for ternary texture-like access.
//!
//! A two-dimensional grid of trits with row/column addressing, boundary
//! handling (clamp, wrap, mirror), region-to-region copy and fill.
pub mod address;
pub mod boundary;
pub mod surface;
pub mod trit;
pub mod view;

pub use address::SurfaceAddress;
pub use boundary::BoundaryMode;
pub use surface::SurfaceMemory;
pub use trit::Trit;
