//! A small verified image-compositing library.
//!
//! The library composes raster images into fixed-layout collages and draws
//! caption text with a dilation-based outline effect.  Images are plain RGBA
//! pixel buffers; resizing is nearest-neighbor; overlaying is a direct,
//! non-blended copy.  Glyph rasterization and mask dilation are performed by
//! outside crates behind trusted wrappers; everything around them is verified.

pub mod pixel;
pub mod rect;
pub mod overlay;
pub mod resize;
pub mod font;
pub mod text;
pub mod collage;
pub mod words;
