//! A software rasterizer: perspective projection of triangle meshes through a
//! camera, and scanline filling of triangles with interpolated attributes.
//!
//! Real-valued quantities (world coordinates, rotations, intensities) are
//! represented as saturating 16.16 fixed-point integers; see [`fixed`].
//! Drawing operations append pixel writes to a caller-owned buffer, which a
//! display layer then presents.

pub mod fixed;
pub mod math;
pub mod raster;
pub mod camera;
pub mod object;
