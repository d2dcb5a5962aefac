//! Rendering of short texts and per-key colours onto a small pixel matrix.
//!
//! The centre of the crate is [`PixelBuf`]: it remembers what the display
//! shows and hands out only the pixels that have to change. Around it
//! stand the font and the rasterizer that turn a text into a frame, the
//! table that says which light sits under which key, and the reader of
//! colours written in hexadecimal.

pub mod color;
pub mod diff;
pub mod font;
pub mod layout;
pub mod pixel_buf;
pub mod raster;

pub use color::{hex_to_rgb, ParseError};
pub use font::{glyph, Glyph};
pub use layout::pos_to_voyager;
pub use diff::{Cell, PixelChange};
pub use pixel_buf::PixelBuf;
pub use raster::{rasterize, text_to_px};
