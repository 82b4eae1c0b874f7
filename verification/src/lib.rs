//! Mean brightness of a raster image, over every pixel or over a random
//! sample of its columns and rows.

pub mod error;
pub mod evaluate;
pub mod grid;
pub mod luminance;
pub mod ratio;
pub mod sampler;
pub mod traversal;
