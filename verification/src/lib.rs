//! Software rasterisation on indexed-colour bitmaps: clipping, pixel
//! transfers between bitmaps, and line, rectangle and circle drawing, with
//! every routine's effect on the pixel buffer stated and proved.
//!
//! A [`Bitmap`] holds one palette index per pixel and a clip rectangle that
//! confines drawing. The contracts speak of its picture, a [`Raster`]: what
//! a transfer leaves is `Raster::blit`, and what a drawing routine leaves is
//! `Raster::paint` of a [`Shape`] in an [`Ink`].

pub mod arith;
pub mod bitmap;
pub mod blendmap;
pub mod blit;
pub mod circle;
pub mod clip;
pub mod font;
pub mod laws;
pub mod line;
pub mod paint;
pub mod primitives;
pub mod raster;
pub mod rect;
pub mod transfer;

pub use bitmap::{Bitmap, BitmapError};
pub use blendmap::{BlendMap, BlendMapError};
pub use blit::BlitMethod;
pub use clip::clip_blit;
pub use font::{Character, Font, FontRenderOpts, GlyphCharacter, GlyphFont};
pub use paint::{Ink, Shape};
pub use raster::Raster;
pub use rect::Rect;
