//! Loading of line-oriented polygon mesh text, and depth-buffered
//! rasterization of its triangles into a packed-RGB frame.

pub mod lex;
pub mod obj;
pub mod raster;
pub mod render;
