//! Decoder for PCF (Portable Compiled Font) binary files.
//!
//! A PCF file starts with a little-endian header (magic word and table
//! count) and a directory of sub-table records; the sub-table bodies are
//! big-endian. The decoder turns such a byte buffer into an in-memory
//! glyph table: font-wide metrics, a code-point-to-glyph mapping and one
//! bitmap per glyph, with every offset checked against the buffer.
pub mod accel;
pub mod bitmap;
pub mod directory;
pub mod encoding;
pub mod error;
pub mod geometry;
pub mod glyph;
pub mod glyphs;
pub mod metrics;
pub mod packed;
pub mod pcf;
pub mod reader;

pub use error::PcfError;
pub use geometry::{BoundingBox, Coord};
pub use glyph::Glyph;
pub use pcf::PcfFont;
