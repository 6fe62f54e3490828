//! Per-glyph metric records.
//!
//! Metrics come in two on-disk forms. The uncompressed form is five
//! big-endian signed 16-bit fields followed by an unsigned attributes
//! field, 12 bytes in all. The compressed form stores each of the five
//! fields as one unsigned byte biased by `+0x80`; the attributes field is
//! implied zero.
use vstd::prelude::*;

use crate::error::PcfError;
use crate::reader::{be16_at, read_i16_be, read_u16_be, read_u8_at, signed16};

verus! {

/// A glyph's metrics in the uncompressed, 12-byte form, as the
/// accelerators table also stores its four bound records.
#[derive(Clone, Copy, Debug, PartialEq, Eq, Structural)]
pub struct UncompressedMetrics {
    pub left_side_bearing: i16,
    pub right_side_bearing: i16,
    pub character_width: i16,
    pub character_ascent: i16,
    pub character_descent: i16,
    pub character_attributes: u16,
}

/// A glyph's metrics decoded from the compressed, 5-byte form. The
/// stored bytes are biased by `+0x80`, so every decoded field lies in
/// `-128..=127`; the attributes field is implied zero.
#[derive(Clone, Copy, Debug, PartialEq, Eq, Structural)]
pub struct CompressedMetrics {
    pub left_side_bearing: i16,
    pub right_side_bearing: i16,
    pub character_width: i16,
    pub character_ascent: i16,
    pub character_descent: i16,
    pub character_attributes: i16,
}

impl CompressedMetrics {
    /// Every field fits in a signed byte, as removing the `+0x80` bias
    /// from a stored byte guarantees.
    pub open spec fn wf(self) -> bool {
        &&& -128 <= self.left_side_bearing <= 127
        &&& -128 <= self.right_side_bearing <= 127
        &&& -128 <= self.character_width <= 127
        &&& -128 <= self.character_ascent <= 127
        &&& -128 <= self.character_descent <= 127
        &&& self.character_attributes == 0
    }
}

/// The uncompressed metrics record starting at byte `i`.
pub open spec fn spec_uncompressed_at(s: Seq<u8>, i: int) -> UncompressedMetrics {
    UncompressedMetrics {
        left_side_bearing: signed16(be16_at(s, i)) as i16,
        right_side_bearing: signed16(be16_at(s, i + 2)) as i16,
        character_width: signed16(be16_at(s, i + 4)) as i16,
        character_ascent: signed16(be16_at(s, i + 6)) as i16,
        character_descent: signed16(be16_at(s, i + 8)) as i16,
        character_attributes: be16_at(s, i + 10) as u16,
    }
}

/// The compressed metrics record starting at byte `i`, with the `+0x80`
/// bias removed from each field.
pub open spec fn spec_compressed_at(s: Seq<u8>, i: int) -> CompressedMetrics {
    CompressedMetrics {
        left_side_bearing: (s[i] - 0x80) as i16,
        right_side_bearing: (s[i + 1] - 0x80) as i16,
        character_width: (s[i + 2] - 0x80) as i16,
        character_ascent: (s[i + 3] - 0x80) as i16,
        character_descent: (s[i + 4] - 0x80) as i16,
        character_attributes: 0,
    }
}

/// Decodes one uncompressed metrics record at `cursor` and returns it
/// together with the cursor advanced past its 12 bytes.
pub fn read_uncompressed_metrics(b: &[u8], cursor: u64) -> (r: Result<
    (UncompressedMetrics, u64),
    PcfError,
>)
    ensures
        cursor + 12 <= b@.len() ==> r == Ok::<(UncompressedMetrics, u64), PcfError>(
            (spec_uncompressed_at(b@, cursor as int), (cursor + 12) as u64),
        ),
        cursor + 12 > b@.len() ==> r == Err::<(UncompressedMetrics, u64), PcfError>(
            PcfError::OutOfBounds,
        ),
{
    let n: u64 = b.len() as u64;
    if n < 12 || cursor > n - 12 {
        return Err(PcfError::OutOfBounds);
    }
    let left_side_bearing: i16 = match read_i16_be(b, cursor) {
        Ok(v) => v,
        Err(e) => {
            return Err(e);
        },
    };
    let right_side_bearing: i16 = match read_i16_be(b, cursor + 2) {
        Ok(v) => v,
        Err(e) => {
            return Err(e);
        },
    };
    let character_width: i16 = match read_i16_be(b, cursor + 4) {
        Ok(v) => v,
        Err(e) => {
            return Err(e);
        },
    };
    let character_ascent: i16 = match read_i16_be(b, cursor + 6) {
        Ok(v) => v,
        Err(e) => {
            return Err(e);
        },
    };
    let character_descent: i16 = match read_i16_be(b, cursor + 8) {
        Ok(v) => v,
        Err(e) => {
            return Err(e);
        },
    };
    let character_attributes: u16 = match read_u16_be(b, cursor + 10) {
        Ok(v) => v,
        Err(e) => {
            return Err(e);
        },
    };
    Ok(
        (
            UncompressedMetrics {
                left_side_bearing,
                right_side_bearing,
                character_width,
                character_ascent,
                character_descent,
                character_attributes,
            },
            cursor + 12,
        ),
    )
}

/// Decodes one compressed metrics record at `cursor`, removing the
/// `+0x80` bias from each stored byte.
pub fn read_compressed_metrics(b: &[u8], cursor: u64) -> (r: Result<CompressedMetrics, PcfError>)
    ensures
        cursor + 5 <= b@.len() ==> r == Ok::<CompressedMetrics, PcfError>(
            spec_compressed_at(b@, cursor as int),
        ),
        cursor + 5 > b@.len() ==> r == Err::<CompressedMetrics, PcfError>(PcfError::OutOfBounds),
{
    let n: u64 = b.len() as u64;
    if n < 5 || cursor > n - 5 {
        return Err(PcfError::OutOfBounds);
    }
    let b0: u8 = match read_u8_at(b, cursor) {
        Ok(v) => v,
        Err(e) => {
            return Err(e);
        },
    };
    let b1: u8 = match read_u8_at(b, cursor + 1) {
        Ok(v) => v,
        Err(e) => {
            return Err(e);
        },
    };
    let b2: u8 = match read_u8_at(b, cursor + 2) {
        Ok(v) => v,
        Err(e) => {
            return Err(e);
        },
    };
    let b3: u8 = match read_u8_at(b, cursor + 3) {
        Ok(v) => v,
        Err(e) => {
            return Err(e);
        },
    };
    let b4: u8 = match read_u8_at(b, cursor + 4) {
        Ok(v) => v,
        Err(e) => {
            return Err(e);
        },
    };
    Ok(
        CompressedMetrics {
            left_side_bearing: b0 as i16 - 0x80,
            right_side_bearing: b1 as i16 - 0x80,
            character_width: b2 as i16 - 0x80,
            character_ascent: b3 as i16 - 0x80,
            character_descent: b4 as i16 - 0x80,
            character_attributes: 0,
        },
    )
}

} // verus!
