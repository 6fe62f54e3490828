//! The BDF-encodings sub-table: the code-point-to-glyph-index mapping.
//!
//! The table defines a two-dimensional index space over the high and low
//! byte of a code point. A code point whose bytes fall inside the
//! configured ranges selects one big-endian 16-bit entry of the index
//! array; the value `0xFFFF` marks an absent glyph.
use vstd::prelude::*;

use crate::directory::{spec_find_table, find_table, Table, PCF_BDF_ENCODINGS};
use crate::error::PcfError;
use crate::reader::{be16_at, le32_at, read_i16_be, read_i32_le, read_u16_be, signed16, signed32};

verus! {

/// The index value that marks a code point without a glyph.
pub const NO_GLYPH: u16 = 65535;

/// The parameters of the encoding table's index space.
#[derive(Clone, Copy, Debug, PartialEq, Eq, Structural)]
pub struct Encoding {
    pub min_byte2: i16,
    pub max_byte2: i16,
    pub min_byte1: i16,
    pub max_byte1: i16,
    pub default_char: i16,
}

/// A sub-table's little-endian format word at table offset `off`.
pub open spec fn spec_format_word(s: Seq<u8>, off: int) -> i32 {
    signed32(le32_at(s, off)) as i32
}

/// Whether a format word is the default variant: every bit above the
/// low byte (ink-bounds, compressed-metrics and other variants) clear.
pub open spec fn format_is_default(format: i32) -> bool {
    0 <= format < 256
}

/// The encoding parameters at table offset `off`: five big-endian
/// 16-bit fields after the format word.
pub open spec fn spec_encoding(s: Seq<u8>, off: int) -> Encoding {
    Encoding {
        min_byte2: signed16(be16_at(s, off + 4)) as i16,
        max_byte2: signed16(be16_at(s, off + 6)) as i16,
        min_byte1: signed16(be16_at(s, off + 8)) as i16,
        max_byte1: signed16(be16_at(s, off + 10)) as i16,
        default_char: signed16(be16_at(s, off + 12)) as i16,
    }
}

/// The encoding header at `off` lies inside the buffer and is the
/// default format.
pub open spec fn enc_ok(s: Seq<u8>, off: int) -> bool {
    &&& off + 4 <= s.len()
    &&& format_is_default(spec_format_word(s, off))
    &&& off + 14 <= s.len()
}

/// Which error the encoding decode reports when `enc_ok` fails.
pub open spec fn enc_err(s: Seq<u8>, off: int) -> PcfError {
    if off + 4 > s.len() {
        PcfError::OutOfBounds
    } else if !format_is_default(spec_format_word(s, off)) {
        PcfError::UnsupportedFormat
    } else {
        PcfError::OutOfBounds
    }
}

/// Decodes the encoding parameters from the BDF-encodings table.
pub fn read_encoding(b: &[u8], tables: &Vec<(i32, Table)>) -> (r: Result<Encoding, PcfError>)
    ensures
        spec_find_table(tables@, PCF_BDF_ENCODINGS) is None ==> r == Err::<Encoding, PcfError>(
            PcfError::MissingTable,
        ),
        spec_find_table(tables@, PCF_BDF_ENCODINGS) matches Some(t) ==> {
            &&& enc_ok(b@, t.offset as int) ==> r == Ok::<Encoding, PcfError>(
                spec_encoding(b@, t.offset as int),
            )
            &&& !enc_ok(b@, t.offset as int) ==> r == Err::<Encoding, PcfError>(
                enc_err(b@, t.offset as int),
            )
        },
{
    let table: Table = match find_table(tables, PCF_BDF_ENCODINGS) {
        Some(t) => t,
        None => {
            return Err(PcfError::MissingTable);
        },
    };
    let off: u64 = table.offset as u64;
    let format: i32 = match read_i32_le(b, off) {
        Ok(v) => v,
        Err(e) => {
            return Err(e);
        },
    };
    if format < 0 || format > 255 {
        return Err(PcfError::UnsupportedFormat);
    }
    let min_byte2: i16 = match read_i16_be(b, off + 4) {
        Ok(v) => v,
        Err(e) => {
            return Err(e);
        },
    };
    let max_byte2: i16 = match read_i16_be(b, off + 6) {
        Ok(v) => v,
        Err(e) => {
            return Err(e);
        },
    };
    let min_byte1: i16 = match read_i16_be(b, off + 8) {
        Ok(v) => v,
        Err(e) => {
            return Err(e);
        },
    };
    let max_byte1: i16 = match read_i16_be(b, off + 10) {
        Ok(v) => v,
        Err(e) => {
            return Err(e);
        },
    };
    let default_char: i16 = match read_i16_be(b, off + 12) {
        Ok(v) => v,
        Err(e) => {
            return Err(e);
        },
    };
    Ok(Encoding { min_byte2, max_byte2, min_byte1, max_byte1, default_char })
}

/// Whether both bytes of code point `cp` fall inside the encoding's
/// configured ranges.
pub open spec fn cp_in_range(e: Encoding, cp: int) -> bool {
    &&& e.min_byte1 <= cp / 256 <= e.max_byte1
    &&& e.min_byte2 <= cp % 256 <= e.max_byte2
}

/// The position of code point `cp` in the encoding's index array.
pub open spec fn enc_idx(e: Encoding, cp: int) -> int {
    (cp / 256 - e.min_byte1) * (e.max_byte2 - e.min_byte2 + 1) + (cp % 256 - e.min_byte2)
}

/// The glyph index the encoding table assigns to code point `cp`, or
/// `None` when either byte is out of range or the entry is `0xFFFF`.
pub open spec fn spec_glyph_index(s: Seq<u8>, e: Encoding, indices_off: int, cp: int) -> Option<
    u16,
> {
    if !cp_in_range(e, cp) {
        None
    } else if be16_at(s, indices_off + 2 * enc_idx(e, cp)) == NO_GLYPH {
        None
    } else {
        Some(be16_at(s, indices_off + 2 * enc_idx(e, cp)) as u16)
    }
}

/// The index entry that code point `cp` selects, if any, lies inside
/// the buffer.
pub open spec fn glyph_index_ok(s: Seq<u8>, e: Encoding, indices_off: int, cp: int) -> bool {
    cp_in_range(e, cp) ==> indices_off + 2 * enc_idx(e, cp) + 2 <= s.len()
}

/// Resolves one code point to its glyph index: splits it into high and
/// low byte, rejects it when either byte is outside the configured
/// range, and otherwise reads its entry of the index array at
/// `indices_off`. An out-of-range byte means an absent glyph, never
/// entry zero.
pub fn glyph_index_for(b: &[u8], e: &Encoding, indices_off: u64, code_point: i32) -> (r: Result<
    Option<u16>,
    PcfError,
>)
    requires
        0 <= code_point <= 0xFFFF,
    ensures
        glyph_index_ok(b@, *e, indices_off as int, code_point as int) ==> r == Ok::<
            Option<u16>,
            PcfError,
        >(spec_glyph_index(b@, *e, indices_off as int, code_point as int)),
        !glyph_index_ok(b@, *e, indices_off as int, code_point as int) ==> r == Err::<
            Option<u16>,
            PcfError,
        >(PcfError::OutOfBounds),
{
    let enc1: i32 = code_point / 256;
    let enc2: i32 = code_point % 256;
    if enc1 < e.min_byte1 as i32 || enc1 > e.max_byte1 as i32 {
        return Ok(None);
    }
    if enc2 < e.min_byte2 as i32 || enc2 > e.max_byte2 as i32 {
        return Ok(None);
    }
    let span: i64 = e.max_byte2 as i64 - e.min_byte2 as i64 + 1;
    let row: i64 = enc1 as i64 - e.min_byte1 as i64;
    let col: i64 = enc2 as i64 - e.min_byte2 as i64;
    proof {
        assert(0 <= row * span <= 33023 * 65536) by (nonlinear_arith)
            requires
                0 <= row <= 33023,
                1 <= span <= 65536,
        ;
    }
    let idx: i64 = row * span + col;
    proof {
        assert(cp_in_range(*e, code_point as int));
        assert(idx == enc_idx(*e, code_point as int));
    }
    let n: u64 = b.len() as u64;
    let cursor: u64 = match indices_off.checked_add(2 * (idx as u64)) {
        Some(c) => c,
        None => {
            proof {
                assert(b@.len() == n <= u64::MAX);
                assert(indices_off + 2 * enc_idx(*e, code_point as int) + 2 > b@.len());
            }
            return Err(PcfError::OutOfBounds);
        },
    };
    match read_u16_be(b, cursor) {
        Ok(v) => {
            if v == NO_GLYPH {
                Ok(None)
            } else {
                Ok(Some(v))
            }
        },
        Err(e) => Err(e),
    }
}

} // verus!
