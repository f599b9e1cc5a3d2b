//! Stockbook: 1-bit raster images packed into byte arrays, with verified
//! pixel lookup and a verified quantise-and-pack pipeline.

mod bits;
mod color;
mod data;
mod iter;
mod stamp;

pub use bits::{pack_colors, pack_image};
pub use color::{quantize, Color};
pub use iter::Pixels;
pub use stamp::Stamp;
