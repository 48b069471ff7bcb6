//! The integer core of a small software renderer.
//!
//! A frame is drawn body by body: vertices are transformed, triangles are
//! assembled and rasterized into fragments, fragments are shaded and
//! composited by depth. The transforms and the shading are real arithmetic
//! and live with the caller. This crate holds what is exact: the hashing
//! that the noise fields rest on, the order of depths and distances, the
//! coverage of a triangle, and the frame that keeps the nearest fragment of
//! each pixel.

pub mod cellular;
pub mod framebuffer;
pub mod ieee;
pub mod lattice;
pub mod pipeline;
pub mod raster;
pub mod shaders;
pub mod simplex;
pub mod stars;
