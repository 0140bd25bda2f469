//! A software rasterizer on an integer pixel grid: colour and depth buffers,
//! line drawing, and depth-tested scan conversion of flat and textured
//! triangles.

pub mod grid;
pub mod color;
pub mod color_buffer;
pub mod depth_buffer;
pub mod triangle;
pub mod line;
pub mod texture;
pub mod drawing;
pub mod raster;
pub mod geometry;
pub mod render;
pub mod mesh;
