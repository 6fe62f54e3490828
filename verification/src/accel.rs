//! The accelerators sub-table: font-wide summary metrics.
//!
//! The body is big-endian: a little-endian format word, eight flag
//! bytes, three 32-bit fields (font ascent, font descent, max overlap)
//! and two uncompressed metric records for the logical bounds. When the
//! format word carries the ink-bounds bit, two more records follow for
//! the ink bounds; otherwise the ink bounds alias the logical bounds.
use vstd::prelude::*;

use crate::directory::{spec_find_table, find_table, Table, PCF_ACCELERATORS, PCF_BDF_ACCELERATORS};
use crate::error::PcfError;
use crate::geometry::{BoundingBox, Coord};
use crate::metrics::{read_uncompressed_metrics, spec_uncompressed_at, UncompressedMetrics};
use crate::reader::{le32_at, read_i32_be, read_i32_le, read_u8_at, be32_at, signed32};

verus! {

/// Format-word bit: the table body is encoded most-significant-byte
/// first.
pub const PCF_BYTE_MASK: i32 = 4;

/// Format-word bit: the accelerators body carries separate ink bounds.
pub const PCF_ACCEL_W_INKBOUNDS: i32 = 256;

/// Font-wide summary metrics.
#[derive(Clone, Copy, Debug, PartialEq, Eq, Structural)]
pub struct Accelerators {
    pub no_overlap: u8,
    pub constant_metrics: u8,
    pub terminal_font: u8,
    pub constant_width: u8,
    pub ink_inside: u8,
    pub ink_metrics: u8,
    pub draw_direction: u8,
    pub padding: u8,
    pub font_ascent: i32,
    pub font_descent: i32,
    pub max_overlap: i32,
    pub minbounds: UncompressedMetrics,
    pub maxbounds: UncompressedMetrics,
    pub ink_minbounds: UncompressedMetrics,
    pub ink_maxbounds: UncompressedMetrics,
}

/// The directory record the accelerator decode uses: the BDF
/// accelerators when present, else the plain accelerators.
pub open spec fn spec_accel_table(ts: Seq<(i32, Table)>) -> Option<Table> {
    match spec_find_table(ts, PCF_BDF_ACCELERATORS) {
        Some(t) => Some(t),
        None => spec_find_table(ts, PCF_ACCELERATORS),
    }
}

/// The accelerators format word at table offset `off`.
pub open spec fn spec_accel_format(s: Seq<u8>, off: int) -> i32 {
    signed32(le32_at(s, off)) as i32
}

/// Whether a format word announces a most-significant-byte-first body.
pub open spec fn format_is_msb(format: i32) -> bool {
    format & PCF_BYTE_MASK != 0
}

/// Whether an accelerators format word announces separate ink bounds.
pub open spec fn accel_has_ink(format: i32) -> bool {
    format & PCF_ACCEL_W_INKBOUNDS != 0
}

/// How many bytes the accelerators body occupies, format word included.
pub open spec fn accel_body_len(format: i32) -> int {
    if accel_has_ink(format) {
        72
    } else {
        48
    }
}

/// The whole accelerators body at `off` lies inside the buffer and is
/// big-endian encoded.
pub open spec fn accel_ok(s: Seq<u8>, off: int) -> bool {
    &&& off + 4 <= s.len()
    &&& format_is_msb(spec_accel_format(s, off))
    &&& off + accel_body_len(spec_accel_format(s, off)) <= s.len()
}

/// Which error the accelerator decode reports when `accel_ok` fails.
pub open spec fn accel_err(s: Seq<u8>, off: int) -> PcfError {
    if off + 4 > s.len() {
        PcfError::OutOfBounds
    } else if !format_is_msb(spec_accel_format(s, off)) {
        PcfError::UnsupportedEndianness
    } else {
        PcfError::OutOfBounds
    }
}

/// The accelerators record starting at table offset `off`.
pub open spec fn spec_accelerators(s: Seq<u8>, off: int) -> Accelerators {
    let format = spec_accel_format(s, off);
    let minbounds = spec_uncompressed_at(s, off + 24);
    let maxbounds = spec_uncompressed_at(s, off + 36);
    Accelerators {
        no_overlap: s[off + 4],
        constant_metrics: s[off + 5],
        terminal_font: s[off + 6],
        constant_width: s[off + 7],
        ink_inside: s[off + 8],
        ink_metrics: s[off + 9],
        draw_direction: s[off + 10],
        padding: s[off + 11],
        font_ascent: signed32(be32_at(s, off + 12)) as i32,
        font_descent: signed32(be32_at(s, off + 16)) as i32,
        max_overlap: signed32(be32_at(s, off + 20)) as i32,
        minbounds,
        maxbounds,
        ink_minbounds: if accel_has_ink(format) {
            spec_uncompressed_at(s, off + 48)
        } else {
            minbounds
        },
        ink_maxbounds: if accel_has_ink(format) {
            spec_uncompressed_at(s, off + 60)
        } else {
            maxbounds
        },
    }
}

/// Decodes the accelerators: looks the BDF accelerators up, falling back
/// to the plain accelerators, and reads the body at that table's offset.
pub fn read_accelerators(b: &[u8], tables: &Vec<(i32, Table)>) -> (r: Result<
    Accelerators,
    PcfError,
>)
    ensures
        spec_accel_table(tables@) is None ==> r == Err::<Accelerators, PcfError>(
            PcfError::MissingTable,
        ),
        spec_accel_table(tables@) matches Some(t) ==> {
            &&& accel_ok(b@, t.offset as int) ==> r == Ok::<Accelerators, PcfError>(
                spec_accelerators(b@, t.offset as int),
            )
            &&& !accel_ok(b@, t.offset as int) ==> r == Err::<Accelerators, PcfError>(
                accel_err(b@, t.offset as int),
            )
        },
{
    let table: Table = match find_table(tables, PCF_BDF_ACCELERATORS) {
        Some(t) => t,
        None => match find_table(tables, PCF_ACCELERATORS) {
            Some(t) => t,
            None => {
                return Err(PcfError::MissingTable);
            },
        },
    };
    let off: u64 = table.offset as u64;
    let format: i32 = match read_i32_le(b, off) {
        Ok(v) => v,
        Err(e) => {
            return Err(e);
        },
    };
    if format & PCF_BYTE_MASK == 0 {
        return Err(PcfError::UnsupportedEndianness);
    }
    let no_overlap: u8 = match read_u8_at(b, off + 4) {
        Ok(v) => v,
        Err(e) => {
            return Err(e);
        },
    };
    let constant_metrics: u8 = match read_u8_at(b, off + 5) {
        Ok(v) => v,
        Err(e) => {
            return Err(e);
        },
    };
    let terminal_font: u8 = match read_u8_at(b, off + 6) {
        Ok(v) => v,
        Err(e) => {
            return Err(e);
        },
    };
    let constant_width: u8 = match read_u8_at(b, off + 7) {
        Ok(v) => v,
        Err(e) => {
            return Err(e);
        },
    };
    let ink_inside: u8 = match read_u8_at(b, off + 8) {
        Ok(v) => v,
        Err(e) => {
            return Err(e);
        },
    };
    let ink_metrics: u8 = match read_u8_at(b, off + 9) {
        Ok(v) => v,
        Err(e) => {
            return Err(e);
        },
    };
    let draw_direction: u8 = match read_u8_at(b, off + 10) {
        Ok(v) => v,
        Err(e) => {
            return Err(e);
        },
    };
    let padding: u8 = match read_u8_at(b, off + 11) {
        Ok(v) => v,
        Err(e) => {
            return Err(e);
        },
    };
    let font_ascent: i32 = match read_i32_be(b, off + 12) {
        Ok(v) => v,
        Err(e) => {
            return Err(e);
        },
    };
    let font_descent: i32 = match read_i32_be(b, off + 16) {
        Ok(v) => v,
        Err(e) => {
            return Err(e);
        },
    };
    let max_overlap: i32 = match read_i32_be(b, off + 20) {
        Ok(v) => v,
        Err(e) => {
            return Err(e);
        },
    };
    let minbounds: UncompressedMetrics = match read_uncompressed_metrics(b, off + 24) {
        Ok((m, _)) => m,
        Err(e) => {
            return Err(e);
        },
    };
    let maxbounds: UncompressedMetrics = match read_uncompressed_metrics(b, off + 36) {
        Ok((m, _)) => m,
        Err(e) => {
            return Err(e);
        },
    };
    let (ink_minbounds, ink_maxbounds): (UncompressedMetrics, UncompressedMetrics) = if format
        & PCF_ACCEL_W_INKBOUNDS != 0 {
        let ink_min: UncompressedMetrics = match read_uncompressed_metrics(b, off + 48) {
            Ok((m, _)) => m,
            Err(e) => {
                return Err(e);
            },
        };
        let ink_max: UncompressedMetrics = match read_uncompressed_metrics(b, off + 60) {
            Ok((m, _)) => m,
            Err(e) => {
                return Err(e);
            },
        };
        (ink_min, ink_max)
    } else {
        (minbounds, maxbounds)
    };
    Ok(
        Accelerators {
            no_overlap,
            constant_metrics,
            terminal_font,
            constant_width,
            ink_inside,
            ink_metrics,
            draw_direction,
            padding,
            font_ascent,
            font_descent,
            max_overlap,
            minbounds,
            maxbounds,
            ink_minbounds,
            ink_maxbounds,
        },
    )
}

/// The font-wide rectangle the accelerators' ink bounds span: the size
/// joins the extreme bearings and vertical extents, and the offset puts
/// the lower-left corner at the minimum bearing and the negated maximum
/// descent.
pub open spec fn spec_bounding_box(a: Accelerators) -> BoundingBox {
    BoundingBox {
        size: Coord {
            x: (a.ink_maxbounds.right_side_bearing - a.ink_minbounds.left_side_bearing) as i32,
            y: (a.ink_maxbounds.character_ascent + a.ink_maxbounds.character_descent) as i32,
        },
        offset: Coord {
            x: a.ink_minbounds.left_side_bearing as i32,
            y: (-(a.ink_maxbounds.character_descent as int)) as i32,
        },
    }
}

/// Derives the font bounding box from the accelerators' ink bounds.
pub fn get_bounding_box(a: &Accelerators) -> (r: BoundingBox)
    ensures
        r == spec_bounding_box(*a),
{
    let width: i32 = a.ink_maxbounds.right_side_bearing as i32
        - a.ink_minbounds.left_side_bearing as i32;
    let height: i32 = a.ink_maxbounds.character_ascent as i32
        + a.ink_maxbounds.character_descent as i32;
    BoundingBox {
        size: Coord::new(width, height),
        offset: Coord::new(
            a.ink_minbounds.left_side_bearing as i32,
            -(a.ink_maxbounds.character_descent as i32),
        ),
    }
}

} // verus!
