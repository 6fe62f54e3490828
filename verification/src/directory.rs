//! The file header and the table directory.
//!
//! A PCF file opens with a little-endian magic word and a table count,
//! followed by one 16-byte record per sub-table: type bitmask, format,
//! size and offset, all little-endian. Sub-tables are looked up by type
//! bitmask; when a type occurs twice, the later record wins.
use vstd::prelude::*;

use crate::error::PcfError;
use crate::reader::{le32_at, read_i32_le, read_u32_le, signed32};

verus! {

/// The magic word: the bytes `1fcp` read as a little-endian 32-bit value.
pub const PCF_MAGIC: u32 = 1885562369;

/// Table-type bitmask of the properties sub-table.
pub const PCF_PROPERTIES: i32 = 1;

/// Table-type bitmask of the accelerators sub-table.
pub const PCF_ACCELERATORS: i32 = 2;

/// Table-type bitmask of the metrics sub-table.
pub const PCF_METRICS: i32 = 4;

/// Table-type bitmask of the bitmaps sub-table.
pub const PCF_BITMAPS: i32 = 8;

/// Table-type bitmask of the ink-metrics sub-table.
pub const PCF_INK_METRICS: i32 = 16;

/// Table-type bitmask of the BDF-encodings sub-table.
pub const PCF_BDF_ENCODINGS: i32 = 32;

/// Table-type bitmask of the scalable-widths sub-table.
pub const PCF_SWIDTHS: i32 = 64;

/// Table-type bitmask of the glyph-names sub-table.
pub const PCF_GLYPH_NAMES: i32 = 128;

/// Table-type bitmask of the BDF-accelerators sub-table.
pub const PCF_BDF_ACCELERATORS: i32 = 256;

/// One record of the table directory: where a sub-table lives and in
/// which on-disk variant.
#[derive(Clone, Copy, Debug, PartialEq, Eq, Structural)]
pub struct Table {
    pub format: i32,
    pub size: i32,
    pub offset: u32,
}

/// The magic word of the buffer, as an unsigned value.
pub open spec fn spec_magic(s: Seq<u8>) -> int {
    le32_at(s, 0)
}

/// The table count of the buffer.
pub open spec fn spec_table_count(s: Seq<u8>) -> int {
    signed32(le32_at(s, 4))
}

/// The signed offset field of directory record `k`, before it is checked
/// to be non-negative.
pub open spec fn spec_table_offset_raw(s: Seq<u8>, k: int) -> int {
    signed32(le32_at(s, 8 + 16 * k + 12))
}

/// Directory record `k` as a type-bitmask/descriptor pair.
pub open spec fn spec_table_at(s: Seq<u8>, k: int) -> (i32, Table) {
    (
        signed32(le32_at(s, 8 + 16 * k)) as i32,
        Table {
            format: signed32(le32_at(s, 8 + 16 * k + 4)) as i32,
            size: signed32(le32_at(s, 8 + 16 * k + 8)) as i32,
            offset: spec_table_offset_raw(s, k) as u32,
        },
    )
}

/// How many records the directory holds: the table count, or none when
/// the count is negative.
pub open spec fn spec_dir_len(s: Seq<u8>) -> int {
    if spec_table_count(s) < 0 {
        0
    } else {
        spec_table_count(s)
    }
}

/// The whole table directory of the buffer as a sequence of
/// type-bitmask/descriptor pairs.
pub open spec fn spec_tables(s: Seq<u8>) -> Seq<(i32, Table)> {
    Seq::new(spec_dir_len(s) as nat, |k: int| spec_table_at(s, k))
}

/// The buffer opens with the right magic word and room for every
/// directory record, and no record carries a negative offset.
pub open spec fn dir_ok(s: Seq<u8>) -> bool {
    &&& s.len() >= 8
    &&& spec_magic(s) == PCF_MAGIC
    &&& 8 + 16 * spec_dir_len(s) <= s.len()
    &&& forall|k: int| 0 <= k < spec_dir_len(s) ==> spec_table_offset_raw(s, k) >= 0
}

/// Which error the directory parse reports when `dir_ok` fails.
pub open spec fn dir_err(s: Seq<u8>) -> PcfError {
    if s.len() < 4 {
        PcfError::OutOfBounds
    } else if spec_magic(s) != PCF_MAGIC {
        PcfError::InvalidHeader
    } else {
        PcfError::OutOfBounds
    }
}

/// The magic word of the buffer, read but not validated.
pub fn read_header(b: &[u8]) -> (r: Result<i32, PcfError>)
    ensures
        4 <= b@.len() ==> r == Ok::<i32, PcfError>(signed32(spec_magic(b@)) as i32),
        4 > b@.len() ==> r == Err::<i32, PcfError>(PcfError::OutOfBounds),
{
    read_i32_le(b, 0)
}

/// The table count of the buffer.
pub fn read_table_count(b: &[u8]) -> (r: Result<i32, PcfError>)
    ensures
        8 <= b@.len() ==> r == Ok::<i32, PcfError>(spec_table_count(b@) as i32),
        8 > b@.len() ==> r == Err::<i32, PcfError>(PcfError::OutOfBounds),
{
    read_i32_le(b, 4)
}

/// Parses the table directory: validates the magic word, then reads one
/// 16-byte record per table. A negative table count yields an empty
/// directory, as reading no records at all would.
#[verifier::rlimit(30)]
pub fn read_tables(b: &[u8]) -> (r: Result<Vec<(i32, Table)>, PcfError>)
    ensures
        dir_ok(b@) ==> {
            &&& r is Ok
            &&& r->Ok_0@.len() == spec_dir_len(b@)
            &&& forall|k: int| 0 <= k < spec_dir_len(b@) ==> r->Ok_0@[k] == spec_table_at(b@, k)
        },
        !dir_ok(b@) ==> r == Err::<Vec<(i32, Table)>, PcfError>(dir_err(b@)),
{
    let magic: u32 = match read_u32_le(b, 0) {
        Ok(m) => m,
        Err(e) => {
            return Err(e);
        },
    };
    proof {
        assert(0 <= spec_magic(b@) < 0x1_0000_0000);
    }
    if magic != PCF_MAGIC {
        return Err(PcfError::InvalidHeader);
    }
    let count: i32 = match read_table_count(b) {
        Ok(c) => c,
        Err(e) => {
            return Err(e);
        },
    };
    let mut tables: Vec<(i32, Table)> = Vec::new();
    if count < 0 {
        return Ok(tables);
    }
    let n: u64 = b.len() as u64;
    if 16 * (count as u64) > n - 8 {
        proof {
            assert(spec_dir_len(b@) == count);
            assert(8 + 16 * spec_dir_len(b@) > b@.len());
            assert(!dir_ok(b@));
            assert(dir_err(b@) == PcfError::OutOfBounds);
        }
        return Err(PcfError::OutOfBounds);
    }
    let mut k: u32 = 0;
    while k < count as u32
        invariant
            0 <= count,
            k <= count as u32,
            spec_magic(b@) == PCF_MAGIC,
            count == spec_table_count(b@),
            8 + 16 * count <= b@.len(),
            tables@.len() == k,
            forall|j: int| 0 <= j < k ==> spec_table_offset_raw(b@, j) >= 0,
            forall|j: int| 0 <= j < k ==> tables@[j] == spec_table_at(b@, j),
        decreases count as u32 - k,
    {
        let cursor: u64 = 8 + 16 * (k as u64);
        let ttype: i32 = match read_i32_le(b, cursor) {
            Ok(v) => v,
            Err(e) => {
                return Err(e);
            },
        };
        let format: i32 = match read_i32_le(b, cursor + 4) {
            Ok(v) => v,
            Err(e) => {
                return Err(e);
            },
        };
        let size: i32 = match read_i32_le(b, cursor + 8) {
            Ok(v) => v,
            Err(e) => {
                return Err(e);
            },
        };
        let offset_raw: i32 = match read_i32_le(b, cursor + 12) {
            Ok(v) => v,
            Err(e) => {
                return Err(e);
            },
        };
        if offset_raw < 0 {
            proof {
                assert(spec_table_offset_raw(b@, k as int) < 0);
                assert(!dir_ok(b@));
            }
            return Err(PcfError::OutOfBounds);
        }
        tables.push((ttype, Table { format, size, offset: offset_raw as u32 }));
        k = k + 1;
    }
    Ok(tables)
}

/// The descriptor of the sub-table with type bitmask `t`: the last
/// directory record of that type, as a map insert would leave it.
pub open spec fn spec_find_table(ts: Seq<(i32, Table)>, t: i32) -> Option<Table>
    decreases ts.len(),
{
    if ts.len() == 0 {
        None
    } else if ts.last().0 == t {
        Some(ts.last().1)
    } else {
        spec_find_table(ts.drop_last(), t)
    }
}

/// Looks a sub-table up by its type bitmask.
pub fn find_table(tables: &Vec<(i32, Table)>, t: i32) -> (r: Option<Table>)
    ensures
        r == spec_find_table(tables@, t),
{
    let mut k: usize = tables.len();
    proof {
        assert(tables@.take(k as int) =~= tables@);
    }
    while k > 0
        invariant
            k <= tables@.len(),
            spec_find_table(tables@, t) == spec_find_table(tables@.take(k as int), t),
        decreases k,
    {
        k = k - 1;
        let entry: (i32, Table) = tables[k];
        proof {
            assert(tables@.take(k + 1).last() == tables@[k as int]);
            assert(tables@.take(k + 1).drop_last() =~= tables@.take(k as int));
        }
        if entry.0 == t {
            return Some(entry.1);
        }
    }
    proof {
        assert(tables@.take(0).len() == 0);
    }
    None
}

} // verus!
