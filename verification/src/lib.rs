//! Glyph rasterization with a bounded cache, text composition, nearest-colour
//! quantization and compositing onto palette-indexed images.

pub mod bitmap;
pub mod cache;
pub mod color;
pub mod compositor;
pub mod font;
pub mod fontapi;
pub mod layout;
pub mod loading;
pub mod palette;
