//! The bitmaps sub-table: glyph count and bitmap-size class.
//!
//! After the format word come a big-endian glyph count, one 32-bit
//! bitmap offset per glyph, and four candidate totals, one per row
//! padding class (1, 2, 4 or 8 bytes). The low two bits of the format
//! word select the padding class; only the 4-byte class is supported,
//! and the glyph assembler computes its row stride from that rule.
use vstd::prelude::*;

use crate::directory::{spec_find_table, find_table, Table, PCF_BITMAPS};
use crate::encoding::{format_is_default, spec_format_word};
use crate::error::PcfError;
use crate::reader::{be32_at, read_i32_be, read_i32_le, signed32};

verus! {

/// The padding class (low two bits of the format word) whose rows are
/// padded to 32-bit words.
pub const PCF_PAD_DWORD: i32 = 2;

/// What the bitmaps sub-table announces: how many glyphs the font holds
/// and the total bitmap size under the selected padding class.
#[derive(Clone, Copy, Debug, PartialEq, Eq, Structural)]
pub struct Bitmap {
    pub glyph_count: i32,
    pub bitmap_sizes: i32,
}

/// The glyph count at table offset `off`.
pub open spec fn spec_glyph_count(s: Seq<u8>, off: int) -> int {
    signed32(be32_at(s, off + 4))
}

/// The bitmaps record at table offset `off`: the glyph count, and the
/// size total of the 4-byte padding class (the third of the four
/// candidates after the offset array).
pub open spec fn spec_bitmap(s: Seq<u8>, off: int) -> Bitmap {
    Bitmap {
        glyph_count: spec_glyph_count(s, off) as i32,
        bitmap_sizes: signed32(
            be32_at(s, off + 8 + 4 * spec_glyph_count(s, off) + 8),
        ) as i32,
    }
}

/// The bitmaps header at `off` is the default format with 4-byte row
/// padding, and the offset array and the four size words lie inside the
/// buffer.
pub open spec fn bitmap_ok(s: Seq<u8>, off: int) -> bool {
    &&& off + 4 <= s.len()
    &&& format_is_default(spec_format_word(s, off))
    &&& spec_format_word(s, off) % 4 == PCF_PAD_DWORD
    &&& off + 8 <= s.len()
    &&& spec_glyph_count(s, off) >= 0
    &&& off + 8 + 4 * spec_glyph_count(s, off) + 16 <= s.len()
}

/// Which error the bitmaps decode reports when `bitmap_ok` fails.
pub open spec fn bitmap_err(s: Seq<u8>, off: int) -> PcfError {
    if off + 4 > s.len() {
        PcfError::OutOfBounds
    } else if !format_is_default(spec_format_word(s, off)) {
        PcfError::UnsupportedFormat
    } else if spec_format_word(s, off) % 4 != PCF_PAD_DWORD {
        PcfError::UnsupportedPadding
    } else {
        PcfError::OutOfBounds
    }
}

/// Decodes the bitmaps header: reads the glyph count, skips the offset
/// array, and picks the size total that the format word's padding bits
/// select.
pub fn read_bitmap(b: &[u8], tables: &Vec<(i32, Table)>) -> (r: Result<Bitmap, PcfError>)
    ensures
        spec_find_table(tables@, PCF_BITMAPS) is None ==> r == Err::<Bitmap, PcfError>(
            PcfError::MissingTable,
        ),
        spec_find_table(tables@, PCF_BITMAPS) matches Some(t) ==> {
            &&& bitmap_ok(b@, t.offset as int) ==> r == Ok::<Bitmap, PcfError>(
                spec_bitmap(b@, t.offset as int),
            )
            &&& !bitmap_ok(b@, t.offset as int) ==> r == Err::<Bitmap, PcfError>(
                bitmap_err(b@, t.offset as int),
            )
        },
{
    let table: Table = match find_table(tables, PCF_BITMAPS) {
        Some(t) => t,
        None => {
            return Err(PcfError::MissingTable);
        },
    };
    let off: u64 = table.offset as u64;
    let format: i32 = match read_i32_le(b, off) {
        Ok(v) => v,
        Err(e) => {
            return Err(e);
        },
    };
    if format < 0 || format > 255 {
        return Err(PcfError::UnsupportedFormat);
    }
    if format % 4 != PCF_PAD_DWORD {
        return Err(PcfError::UnsupportedPadding);
    }
    let glyph_count: i32 = match read_i32_be(b, off + 4) {
        Ok(v) => v,
        Err(e) => {
            return Err(e);
        },
    };
    if glyph_count < 0 {
        return Err(PcfError::OutOfBounds);
    }
    let sizes: u64 = off + 8 + 4 * (glyph_count as u64);
    let _one: i32 = match read_i32_be(b, sizes) {
        Ok(v) => v,
        Err(e) => {
            return Err(e);
        },
    };
    let _two: i32 = match read_i32_be(b, sizes + 4) {
        Ok(v) => v,
        Err(e) => {
            return Err(e);
        },
    };
    let three: i32 = match read_i32_be(b, sizes + 8) {
        Ok(v) => v,
        Err(e) => {
            return Err(e);
        },
    };
    let _four: i32 = match read_i32_be(b, sizes + 12) {
        Ok(v) => v,
        Err(e) => {
            return Err(e);
        },
    };
    Ok(Bitmap { glyph_count, bitmap_sizes: three })
}

} // verus!
