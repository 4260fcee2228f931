//! A software rendering backend for terminal-style character grids.
//!
//! The engine owns a flat RGB pixel buffer and converts grid cells
//! (a text fragment plus colors and style modifiers) into blocks of
//! pixels, compositing glyph coverage over a background fill.

pub mod backend;
pub mod bdf_backend;
pub mod cell;
pub mod color;
pub mod mask;
pub mod pixmap;
pub mod redraw;
pub mod text;

pub use backend::RenderError;
pub use backend::SoftBackend;
pub use backend::WindowSize;
pub use bdf_backend::Bdf;
pub use cell::Cell;
pub use cell::Grid;
pub use cell::Modifier;
pub use color::blend_ignore_bg_alpha;
pub use color::blend_rgba;
pub use color::dim_rgb;
pub use color::rat_to_rgb;
pub use color::Color;
pub use mask::merge_masks;
pub use mask::GlyphMask;
pub use mask::Rasterizer;
pub use pixmap::RgbPixmap;
pub use redraw::RedrawSet;
pub use text::add_strikeout;
pub use text::add_underline;
pub use text::is_unicode_block_drawing;
