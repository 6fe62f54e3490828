//! Glyph assembly: from the encoding, metrics and bitmaps sub-tables to
//! finished [`Glyph`] records.
//!
//! Whole-font assembly walks every code point in `0..=0xFFFF`, resolves
//! its glyph index, decodes the compressed metrics at that index, looks
//! the glyph's bitmap offset up, and unpacks the bit-packed, row-padded
//! bitmap into one byte per pixel.
use vstd::prelude::*;

use crate::encoding::{glyph_index_for, glyph_index_ok, spec_glyph_index, Encoding};
use crate::error::PcfError;
use crate::geometry::{BoundingBox, Coord};
use crate::glyph::Glyph;
use crate::metrics::{read_compressed_metrics, spec_compressed_at, CompressedMetrics};
use crate::pcf::Metadata;

verus! {

/// Every encoding-table entry that code points below `n` select lies
/// inside the buffer.
pub open spec fn indices_ok(s: Seq<u8>, e: Encoding, ioff: int, n: int) -> bool {
    forall|cp: int| 0 <= cp < n ==> glyph_index_ok(s, e, ioff, cp)
}

/// The code points below `n` that have a glyph, in ascending order,
/// each paired with its glyph index.
pub open spec fn spec_indices(s: Seq<u8>, e: Encoding, ioff: int, n: nat) -> Seq<(i32, u16)>
    decreases n,
{
    if n == 0 {
        Seq::empty()
    } else {
        let prev = spec_indices(s, e, ioff, (n - 1) as nat);
        match spec_glyph_index(s, e, ioff, n - 1) {
            Some(gi) => prev.push(((n - 1) as i32, gi)),
            None => prev,
        }
    }
}

/// The index list is strictly ascending in its code points, which all
/// lie below `n`.
pub proof fn lemma_spec_indices_sorted(s: Seq<u8>, e: Encoding, ioff: int, n: nat)
    requires
        n <= 65536,
    ensures
        forall|k: int|
            0 <= k < spec_indices(s, e, ioff, n).len() ==> 0 <= (
            #[trigger] spec_indices(s, e, ioff, n)[k]).0 < n,
        forall|j: int, k: int|
            0 <= j < k < spec_indices(s, e, ioff, n).len() ==> spec_indices(s, e, ioff, n)[j].0
                < spec_indices(s, e, ioff, n)[k].0,
    decreases n,
{
    if n > 0 {
        lemma_spec_indices_sorted(s, e, ioff, (n - 1) as nat);
        let prev = spec_indices(s, e, ioff, (n - 1) as nat);
        let cur = spec_indices(s, e, ioff, n);
        match spec_glyph_index(s, e, ioff, n - 1) {
            Some(gi) => {
                assert(cur == prev.push((((n - 1) as i32), gi)));
                assert forall|k: int| 0 <= k < cur.len() implies 0 <= (#[trigger] cur[k]).0
                    < n by {
                    if k < prev.len() {
                        assert(cur[k] == prev[k]);
                    } else {
                        assert(cur[k] == (((n - 1) as i32), gi));
                    }
                }
                assert forall|j: int, k: int| 0 <= j < k < cur.len() implies cur[j].0
                    < cur[k].0 by {
                    assert(cur[j] == prev[j]);
                    if k < prev.len() {
                        assert(cur[k] == prev[k]);
                    } else {
                        assert(cur[k].0 == n - 1);
                        assert(prev[j].0 < n - 1);
                    }
                }
            },
            None => {},
        }
    }
}

/// Scans all code points in `0..=0xFFFF` and collects those the
/// encoding table maps to a glyph, with their glyph indices, in
/// ascending code-point order.
pub fn load_glyph_indices(b: &[u8], e: &Encoding, meta: &Metadata) -> (r: Result<
    Vec<(i32, u16)>,
    PcfError,
>)
    ensures
        indices_ok(b@, *e, meta.indices_offset as int, 65536) ==> {
            &&& r is Ok
            &&& r->Ok_0@ == spec_indices(b@, *e, meta.indices_offset as int, 65536)
        },
        !indices_ok(b@, *e, meta.indices_offset as int, 65536) ==> r == Err::<
            Vec<(i32, u16)>,
            PcfError,
        >(PcfError::OutOfBounds),
{
    let mut out: Vec<(i32, u16)> = Vec::new();
    let mut cp: i32 = 0;
    while cp < 65536
        invariant
            0 <= cp <= 65536,
            forall|c: int| 0 <= c < cp ==> glyph_index_ok(b@, *e, meta.indices_offset as int, c),
            out@ == spec_indices(b@, *e, meta.indices_offset as int, cp as nat),
        decreases 65536 - cp,
    {
        match glyph_index_for(b, e, meta.indices_offset, cp) {
            Ok(Some(gi)) => {
                out.push((cp, gi));
            },
            Ok(None) => {},
            Err(er) => {
                proof {
                    assert(!glyph_index_ok(b@, *e, meta.indices_offset as int, cp as int));
                }
                return Err(er);
            },
        }
        cp = cp + 1;
    }
    Ok(out)
}

/// Resolves each of the given code points to its glyph index, `None`
/// for a code point the font has no glyph for.
pub fn load_indices(b: &[u8], e: &Encoding, meta: &Metadata, code_points: &Vec<i32>) -> (r: Result<
    Vec<Option<u16>>,
    PcfError,
>)
    requires
        forall|k: int| 0 <= k < code_points@.len() ==> 0 <= #[trigger] code_points@[k] <= 0xFFFF,
    ensures
        (forall|k: int|
            0 <= k < code_points@.len() ==> glyph_index_ok(
                b@,
                *e,
                meta.indices_offset as int,
                #[trigger] code_points@[k] as int,
            )) ==> {
            &&& r is Ok
            &&& r->Ok_0@.len() == code_points@.len()
            &&& forall|k: int|
                0 <= k < code_points@.len() ==> #[trigger] r->Ok_0@[k] == spec_glyph_index(
                    b@,
                    *e,
                    meta.indices_offset as int,
                    code_points@[k] as int,
                )
        },
        !(forall|k: int|
            0 <= k < code_points@.len() ==> glyph_index_ok(
                b@,
                *e,
                meta.indices_offset as int,
                #[trigger] code_points@[k] as int,
            )) ==> r == Err::<Vec<Option<u16>>, PcfError>(PcfError::OutOfBounds),
{
    let mut out: Vec<Option<u16>> = Vec::new();
    let mut k: usize = 0;
    while k < code_points.len()
        invariant
            k <= code_points@.len(),
            out@.len() == k,
            forall|j: int|
                0 <= j < code_points@.len() ==> 0 <= #[trigger] code_points@[j] <= 0xFFFF,
            forall|j: int|
                0 <= j < k ==> glyph_index_ok(
                    b@,
                    *e,
                    meta.indices_offset as int,
                    #[trigger] code_points@[j] as int,
                ),
            forall|j: int|
                0 <= j < k ==> #[trigger] out@[j] == spec_glyph_index(
                    b@,
                    *e,
                    meta.indices_offset as int,
                    code_points@[j] as int,
                ),
        decreases code_points@.len() - k,
    {
        let cp: i32 = code_points[k];
        match glyph_index_for(b, e, meta.indices_offset, cp) {
            Ok(v) => {
                out.push(v);
            },
            Err(er) => {
                proof {
                    assert(!glyph_index_ok(b@, *e, meta.indices_offset as int, cp as int));
                }
                return Err(er);
            },
        }
        k = k + 1;
    }
    Ok(out)
}

/// Every metrics record the index list points at lies inside the
/// buffer.
pub open spec fn metrics_ok(s: Seq<u8>, fmo: int, ms: int, lst: Seq<(i32, u16)>) -> bool {
    forall|k: int| 0 <= k < lst.len() ==> fmo + ms * (#[trigger] lst[k]).1 + 5 <= s.len()
}

/// The compressed metrics of each indexed glyph, keyed like the index
/// list.
pub open spec fn spec_metrics_list(s: Seq<u8>, fmo: int, ms: int, lst: Seq<(i32, u16)>) -> Seq<
    (i32, CompressedMetrics),
> {
    Seq::new(lst.len(), |k: int| (lst[k].0, spec_compressed_at(s, fmo + ms * lst[k].1)))
}

/// Decodes the compressed metrics of every indexed glyph: glyph `i`'s
/// record starts `metrics_size * i` bytes after the first metric.
pub fn load_all_metrics(b: &[u8], meta: &Metadata, indices: &Vec<(i32, u16)>) -> (r: Result<
    Vec<(i32, CompressedMetrics)>,
    PcfError,
>)
    ensures
        metrics_ok(b@, meta.first_metric_offset as int, meta.metrics_size as int, indices@)
            ==> {
            &&& r is Ok
            &&& r->Ok_0@ == spec_metrics_list(
                b@,
                meta.first_metric_offset as int,
                meta.metrics_size as int,
                indices@,
            )
        },
        !metrics_ok(b@, meta.first_metric_offset as int, meta.metrics_size as int, indices@)
            ==> r == Err::<Vec<(i32, CompressedMetrics)>, PcfError>(PcfError::OutOfBounds),
{
    let ghost spec_list = spec_metrics_list(
        b@,
        meta.first_metric_offset as int,
        meta.metrics_size as int,
        indices@,
    );
    let n: u64 = b.len() as u64;
    let mut out: Vec<(i32, CompressedMetrics)> = Vec::new();
    let mut k: usize = 0;
    while k < indices.len()
        invariant
            k <= indices@.len(),
            n == b@.len(),
            spec_list == spec_metrics_list(
                b@,
                meta.first_metric_offset as int,
                meta.metrics_size as int,
                indices@,
            ),
            out@.len() == k,
            forall|j: int| 0 <= j < k ==> out@[j] == spec_list[j],
            forall|j: int|
                0 <= j < k ==> meta.first_metric_offset + meta.metrics_size * (
                #[trigger] indices@[j]).1 + 5 <= b@.len(),
        decreases indices@.len() - k,
    {
        let entry: (i32, u16) = indices[k];
        let cursor: u64 = match meta.metrics_size.checked_mul(entry.1 as u64) {
            Some(p) => match meta.first_metric_offset.checked_add(p) {
                Some(c) => c,
                None => {
                    proof {
                        assert(n <= u64::MAX);
                        assert(!metrics_ok(
                            b@,
                            meta.first_metric_offset as int,
                            meta.metrics_size as int,
                            indices@,
                        ));
                    }
                    return Err(PcfError::OutOfBounds);
                },
            },
            None => {
                proof {
                    assert(n <= u64::MAX);
                    assert(meta.metrics_size * indices@[k as int].1 > u64::MAX);
                    assert(!metrics_ok(
                        b@,
                        meta.first_metric_offset as int,
                        meta.metrics_size as int,
                        indices@,
                    ));
                }
                return Err(PcfError::OutOfBounds);
            },
        };
        let m: CompressedMetrics = match read_compressed_metrics(b, cursor) {
            Ok(m) => m,
            Err(er) => {
                proof {
                    assert(!metrics_ok(
                        b@,
                        meta.first_metric_offset as int,
                        meta.metrics_size as int,
                        indices@,
                    ));
                }
                return Err(er);
            },
        };
        out.push((entry.0, m));
        k = k + 1;
    }
    proof {
        assert(out@ =~= spec_list);
    }
    Ok(out)
}

/// Relies on `char::from_u32` of core: a code point converts to a
/// `char` exactly when it is not a surrogate and does not exceed
/// `0x10FFFF`, and the resulting `char` has that code point.
pub assume_specification[ char::from_u32 ](v: u32) -> (r: Option<char>)
    ensures
        r == (if v < 0xD800 || (0xE000 <= v && v <= 0x10FFFF) {
            Some(v as char)
        } else {
            None::<char>
        }),
;

/// The character a glyph's code point stands for, when the code point
/// is a valid Unicode scalar value.
pub open spec fn spec_char_of(cp: i32) -> Option<char> {
    if 0 <= cp && (cp < 0xD800 || (0xE000 <= cp && cp <= 0x10FFFF)) {
        Some(cp as char)
    } else {
        None
    }
}

/// The character of `cp`, as `char::from_u32` of the non-negative code
/// points gives it.
fn char_of(cp: i32) -> (r: Option<char>)
    ensures
        r == spec_char_of(cp),
{
    if cp < 0 {
        None
    } else {
        char::from_u32(cp as u32)
    }
}

/// A vector of `n` zero bytes.
fn zero_vec(n: usize) -> (r: Vec<u8>)
    ensures
        r@.len() == n,
        forall|i: int| 0 <= i < n ==> r@[i] == 0u8,
{
    let mut v: Vec<u8> = Vec::new();
    let mut i: usize = 0;
    while i < n
        invariant
            i <= n,
            v@.len() == i,
            forall|j: int| 0 <= j < i ==> v@[j] == 0u8,
        decreases n - i,
    {
        v.push(0);
        i = i + 1;
    }
    v
}

/// A glyph's pixel width: the span between its side bearings.
pub open spec fn glyph_width(m: CompressedMetrics) -> int {
    m.right_side_bearing - m.left_side_bearing
}

/// A glyph's pixel height: ascent plus descent.
pub open spec fn glyph_height(m: CompressedMetrics) -> int {
    m.character_ascent + m.character_descent
}

/// Every metrics record yields a non-negative glyph width and height.
pub open spec fn geometry_ok(lst: Seq<(i32, CompressedMetrics)>) -> bool {
    forall|k: int|
        0 <= k < lst.len() ==> glyph_width((#[trigger] lst[k]).1) >= 0 && glyph_height(lst[k].1)
            >= 0
}

/// The bounding box a metrics record gives its glyph: the pixel extent,
/// offset by the left bearing and the negated descent.
pub open spec fn spec_glyph_bbox(m: CompressedMetrics) -> BoundingBox {
    BoundingBox {
        size: Coord { x: glyph_width(m) as i32, y: glyph_height(m) as i32 },
        offset: Coord {
            x: m.left_side_bearing as i32,
            y: (-(m.character_descent as int)) as i32,
        },
    }
}

/// Every field of glyph `g` except the bitmap's content is what code
/// point `cp` and metrics record `m` determine.
pub open spec fn glyph_shape_matches(g: Glyph, cp: i32, m: CompressedMetrics) -> bool {
    &&& g.code_point == cp
    &&& g.encoding == spec_char_of(cp)
    &&& g.bounding_box == spec_glyph_bbox(m)
    &&& g.shift_x == m.character_width as int
    &&& g.shift_y == 0
    &&& g.tile_index == 0
    &&& g.bitmap@.len() == glyph_width(m) * glyph_height(m)
}

/// Builds one glyph per metrics record, each with an all-zero bitmap of
/// `width * height` bytes; a negative width or height is a decode
/// failure.
pub fn create_glyphs(all_metrics: &Vec<(i32, CompressedMetrics)>) -> (r: Result<
    Vec<Glyph>,
    PcfError,
>)
    requires
        forall|k: int| 0 <= k < all_metrics@.len() ==> (#[trigger] all_metrics@[k]).1.wf(),
    ensures
        geometry_ok(all_metrics@) ==> {
            &&& r is Ok
            &&& r->Ok_0@.len() == all_metrics@.len()
            &&& forall|k: int|
                0 <= k < all_metrics@.len() ==> glyph_shape_matches(
                    #[trigger] r->Ok_0@[k],
                    all_metrics@[k].0,
                    all_metrics@[k].1,
                )
            &&& forall|k: int, i: int|
                0 <= k < all_metrics@.len() && 0 <= i < r->Ok_0@[k].bitmap@.len() ==> (
                #[trigger] r->Ok_0@[k].bitmap@[i]) == 0u8
        },
        !geometry_ok(all_metrics@) ==> r == Err::<Vec<Glyph>, PcfError>(
            PcfError::InvalidGeometry,
        ),
{
    let mut out: Vec<Glyph> = Vec::new();
    let mut k: usize = 0;
    while k < all_metrics.len()
        invariant
            k <= all_metrics@.len(),
            forall|j: int| 0 <= j < all_metrics@.len() ==> (#[trigger] all_metrics@[j]).1.wf(),
            out@.len() == k,
            forall|j: int|
                0 <= j < k ==> glyph_width((#[trigger] all_metrics@[j]).1) >= 0 && glyph_height(
                    all_metrics@[j].1,
                ) >= 0,
            forall|j: int|
                0 <= j < k ==> glyph_shape_matches(
                    #[trigger] out@[j],
                    all_metrics@[j].0,
                    all_metrics@[j].1,
                ),
            forall|j: int, i: int|
                0 <= j < k && 0 <= i < out@[j].bitmap@.len() ==> (#[trigger] out@[j].bitmap@[i])
                    == 0u8,
        decreases all_metrics@.len() - k,
    {
        let entry: (i32, CompressedMetrics) = all_metrics[k];
        let m: CompressedMetrics = entry.1;
        proof {
            assert(all_metrics@[k as int].1.wf());
        }
        let width: i32 = m.right_side_bearing as i32 - m.left_side_bearing as i32;
        let height: i32 = m.character_ascent as i32 + m.character_descent as i32;
        if width < 0 || height < 0 {
            proof {
                assert(!geometry_ok(all_metrics@));
            }
            return Err(PcfError::InvalidGeometry);
        }
        proof {
            assert(0 <= width * height <= 65536) by (nonlinear_arith)
                requires
                    0 <= width <= 255,
                    0 <= height <= 255,
            ;
        }
        let len: usize = (width * height) as usize;
        let bitmap: Vec<u8> = zero_vec(len);
        let encoding: Option<char> = char_of(entry.0);
        let glyph = Glyph {
            code_point: entry.0,
            encoding,
            bitmap,
            bounding_box: BoundingBox {
                size: Coord::new(width, height),
                offset: Coord::new(m.left_side_bearing as i32, -(m.character_descent as i32)),
            },
            shift_x: m.character_width as i32,
            shift_y: 0,
            tile_index: 0,
        };
        out.push(glyph);
        k = k + 1;
    }
    Ok(out)
}

/// Every bitmap-offset entry the index list points at lies inside the
/// buffer.
pub open spec fn offsets_ok(s: Seq<u8>, boo: int, lst: Seq<(i32, u16)>) -> bool {
    forall|k: int| 0 <= k < lst.len() ==> boo + 4 * (#[trigger] lst[k]).1 + 4 <= s.len()
}

/// The bitmap offset of each indexed glyph, keyed like the index list.
pub open spec fn spec_offsets_list(s: Seq<u8>, boo: int, lst: Seq<(i32, u16)>) -> Seq<
    (i32, u32),
> {
    Seq::new(
        lst.len(),
        |k: int| (lst[k].0, crate::reader::be32_at(s, boo + 4 * lst[k].1) as u32),
    )
}

/// Reads the bitmap offset of every indexed glyph: one big-endian
/// 32-bit value per glyph index in the offset array.
pub fn load_bitmap_offsets(b: &[u8], meta: &Metadata, indices: &Vec<(i32, u16)>) -> (r: Result<
    Vec<(i32, u32)>,
    PcfError,
>)
    ensures
        offsets_ok(b@, meta.bitmap_offset_offsets as int, indices@) ==> {
            &&& r is Ok
            &&& r->Ok_0@ == spec_offsets_list(b@, meta.bitmap_offset_offsets as int, indices@)
        },
        !offsets_ok(b@, meta.bitmap_offset_offsets as int, indices@) ==> r == Err::<
            Vec<(i32, u32)>,
            PcfError,
        >(PcfError::OutOfBounds),
{
    let ghost spec_list = spec_offsets_list(b@, meta.bitmap_offset_offsets as int, indices@);
    let n: u64 = b.len() as u64;
    let mut out: Vec<(i32, u32)> = Vec::new();
    let mut k: usize = 0;
    while k < indices.len()
        invariant
            k <= indices@.len(),
            n == b@.len(),
            spec_list == spec_offsets_list(b@, meta.bitmap_offset_offsets as int, indices@),
            out@.len() == k,
            forall|j: int| 0 <= j < k ==> out@[j] == spec_list[j],
            forall|j: int|
                0 <= j < k ==> meta.bitmap_offset_offsets + 4 * (#[trigger] indices@[j]).1 + 4
                    <= b@.len(),
        decreases indices@.len() - k,
    {
        let entry: (i32, u16) = indices[k];
        let cursor: u64 = match meta.bitmap_offset_offsets.checked_add(4 * (entry.1 as u64)) {
            Some(c) => c,
            None => {
                proof {
                    assert(n <= u64::MAX);
                    assert(!offsets_ok(b@, meta.bitmap_offset_offsets as int, indices@));
                }
                return Err(PcfError::OutOfBounds);
            },
        };
        let v: u32 = match crate::reader::read_u32_be(b, cursor) {
            Ok(v) => v,
            Err(er) => {
                proof {
                    assert(!offsets_ok(b@, meta.bitmap_offset_offsets as int, indices@));
                }
                return Err(er);
            },
        };
        out.push((entry.0, v));
        k = k + 1;
    }
    proof {
        assert(out@ =~= spec_list);
    }
    Ok(out)
}

/// Row-major decomposition: position `y * w + x` of a row-major grid
/// lies in row `y` and column `x`.
proof fn lemma_rowmajor(w: int, y: int, x: int)
    by (nonlinear_arith)
    requires
        w > 0,
        0 <= x < w,
        0 <= y,
    ensures
        (y * w + x) / w == y,
        (y * w + x) % w == x,
{
}

/// The byte a column selects lies inside the row's 32-bit-padded
/// stride.
proof fn lemma_byte_in_row(w: int, x: int)
    by (nonlinear_arith)
    requires
        0 <= x < w,
    ensures
        0 <= x / 8 < 4 * ((w + 31) / 32),
{
}

/// The stride of a row of `w` pixels padded to 32-bit words.
pub open spec fn spec_row_stride(w: int) -> int {
    4 * ((w + 31) / 32)
}

/// Whether bit `k` of a byte is set, counting the most significant bit
/// as bit zero.
pub open spec fn bit_set(byte: u8, k: u8) -> bool {
    byte & (128u8 >> k) != 0
}

/// The output byte (0 or 1) of pixel `i` of a row-major `w`-wide glyph
/// whose packed bitmap starts at `base`.
pub open spec fn pixel_byte(s: Seq<u8>, base: int, w: int, i: int) -> u8 {
    if bit_set(s[base + spec_row_stride(w) * (i / w) + (i % w) / 8], ((i % w) % 8) as u8) {
        1u8
    } else {
        0u8
    }
}

/// The unpacked bitmap `bm` holds one byte per pixel of the packed
/// `w` by `h` glyph bitmap at `base`: row-major, `1` for a set bit.
pub open spec fn bitmap_filled(bm: Seq<u8>, s: Seq<u8>, base: int, w: int, h: int) -> bool {
    &&& bm.len() == w * h
    &&& forall|i: int| 0 <= i < bm.len() ==> #[trigger] bm[i] == pixel_byte(s, base, w, i)
}

/// All rows of the packed `w` by `h` bitmap at `base` lie inside the
/// buffer.
pub open spec fn fill_entry_ok(s: Seq<u8>, base: int, w: int, h: int) -> bool {
    h > 0 ==> base + spec_row_stride(w) * h <= s.len()
}

/// Every glyph's packed bitmap rows lie inside the buffer.
pub open spec fn fill_ok(
    s: Seq<u8>,
    fbo: int,
    glyphs: Seq<Glyph>,
    offsets: Seq<(i32, u32)>,
) -> bool {
    forall|k: int|
        0 <= k < glyphs.len() ==> fill_entry_ok(
            s,
            fbo + (#[trigger] offsets[k]).1,
            glyphs[k].bounding_box.size.x as int,
            glyphs[k].bounding_box.size.y as int,
        )
}

/// Two glyphs agree on every field but the bitmap's content.
pub open spec fn glyph_same_shape(a: Glyph, b: Glyph) -> bool {
    &&& a.code_point == b.code_point
    &&& a.encoding == b.encoding
    &&& a.bounding_box == b.bounding_box
    &&& a.shift_x == b.shift_x
    &&& a.shift_y == b.shift_y
    &&& a.tile_index == b.tile_index
}

/// Unpacks every glyph's bitmap: glyph `k`'s packed rows start at the
/// first bitmap offset plus its entry of the offset array; each row is
/// padded to 32-bit words, and the pixel at column `x` is bit
/// `7 - x % 8` of byte `x / 8` of the row.
#[verifier::rlimit(60)]
pub fn fill_glyph_bitmaps(
    b: &[u8],
    meta: &Metadata,
    glyphs: Vec<Glyph>,
    bitmap_offsets: &Vec<(i32, u32)>,
) -> (r: Result<Vec<Glyph>, PcfError>)
    requires
        glyphs@.len() == bitmap_offsets@.len(),
        forall|k: int| 0 <= k < glyphs@.len() ==> (#[trigger] glyphs@[k]).wf(),
        forall|k: int|
            0 <= k < glyphs@.len() ==> (#[trigger] glyphs@[k]).bounding_box.size.x <= 0xFFFF
                && glyphs@[k].bounding_box.size.y <= 0xFFFF,
    ensures
        fill_ok(b@, meta.first_bitmap_offset as int, glyphs@, bitmap_offsets@) ==> {
            &&& r is Ok
            &&& r->Ok_0@.len() == glyphs@.len()
            &&& forall|k: int|
                0 <= k < glyphs@.len() ==> glyph_same_shape(#[trigger] r->Ok_0@[k], glyphs@[k])
            &&& forall|k: int|
                0 <= k < glyphs@.len() ==> bitmap_filled(
                    (#[trigger] r->Ok_0@[k]).bitmap@,
                    b@,
                    meta.first_bitmap_offset + bitmap_offsets@[k].1,
                    glyphs@[k].bounding_box.size.x as int,
                    glyphs@[k].bounding_box.size.y as int,
                )
        },
        !fill_ok(b@, meta.first_bitmap_offset as int, glyphs@, bitmap_offsets@) ==> r == Err::<
            Vec<Glyph>,
            PcfError,
        >(PcfError::OutOfBounds),
{
    let n: u64 = b.len() as u64;
    let mut out: Vec<Glyph> = Vec::new();
    let mut k: usize = 0;
    while k < glyphs.len()
        invariant
            glyphs@.len() == bitmap_offsets@.len(),
            forall|j: int| 0 <= j < glyphs@.len() ==> (#[trigger] glyphs@[j]).wf(),
            forall|j: int|
                0 <= j < glyphs@.len() ==> (#[trigger] glyphs@[j]).bounding_box.size.x <= 0xFFFF
                    && glyphs@[j].bounding_box.size.y <= 0xFFFF,
            n == b@.len(),
            k <= glyphs@.len(),
            out@.len() == k,
            forall|j: int|
                0 <= j < k ==> fill_entry_ok(
                    b@,
                    meta.first_bitmap_offset + (#[trigger] bitmap_offsets@[j]).1,
                    glyphs@[j].bounding_box.size.x as int,
                    glyphs@[j].bounding_box.size.y as int,
                ),
            forall|j: int| 0 <= j < k ==> glyph_same_shape(#[trigger] out@[j], glyphs@[j]),
            forall|j: int|
                0 <= j < k ==> bitmap_filled(
                    (#[trigger] out@[j]).bitmap@,
                    b@,
                    meta.first_bitmap_offset + bitmap_offsets@[j].1,
                    glyphs@[j].bounding_box.size.x as int,
                    glyphs@[j].bounding_box.size.y as int,
                ),
        decreases glyphs@.len() - k,
    {
        let g: &Glyph = &glyphs[k];
        let w: u64 = g.bounding_box.size.x as u64;
        let h: u64 = g.bounding_box.size.y as u64;
        let stride: u64 = 4 * ((w + 31) / 32);
        let mut bm: Vec<u8> = Vec::new();
        if h > 0 {
            let base: u64 = match meta.first_bitmap_offset.checked_add(
                bitmap_offsets[k].1 as u64,
            ) {
                Some(v) => v,
                None => {
                    proof {
                        assert(spec_row_stride(w as int) * h >= 0) by (nonlinear_arith)
                            requires
                                spec_row_stride(w as int) >= 0,
                                h >= 0,
                        ;
                        assert(!fill_entry_ok(
                            b@,
                            meta.first_bitmap_offset + bitmap_offsets@[k as int].1,
                            glyphs@[k as int].bounding_box.size.x as int,
                            glyphs@[k as int].bounding_box.size.y as int,
                        ));
                    }
                    return Err(PcfError::OutOfBounds);
                },
            };
            proof {
                assert(0 <= stride * h <= 8196 * 65535) by (nonlinear_arith)
                    requires
                        0 <= stride <= 8196,
                        0 <= h <= 0xFFFF,
                ;
            }
            let end: u64 = match base.checked_add(stride * h) {
                Some(v) => v,
                None => {
                    proof {
                        assert(!fill_entry_ok(
                            b@,
                            meta.first_bitmap_offset + bitmap_offsets@[k as int].1,
                            glyphs@[k as int].bounding_box.size.x as int,
                            glyphs@[k as int].bounding_box.size.y as int,
                        ));
                    }
                    return Err(PcfError::OutOfBounds);
                },
            };
            if end > n {
                proof {
                    assert(!fill_entry_ok(
                        b@,
                        meta.first_bitmap_offset + bitmap_offsets@[k as int].1,
                        glyphs@[k as int].bounding_box.size.x as int,
                        glyphs@[k as int].bounding_box.size.y as int,
                    ));
                }
                return Err(PcfError::OutOfBounds);
            }
            let mut y: u64 = 0;
            while y < h
                invariant
                    n == b@.len(),
                    0 <= w <= 0xFFFF,
                    0 < h <= 0xFFFF,
                    stride == spec_row_stride(w as int),
                    base + stride * h <= n,
                    y <= h,
                    bm@.len() == y * w,
                    forall|i: int|
                        0 <= i < bm@.len() ==> #[trigger] bm@[i] == pixel_byte(
                            b@,
                            base as int,
                            w as int,
                            i,
                        ),
                decreases h - y,
            {
                let mut x: u64 = 0;
                while x < w
                    invariant
                        n == b@.len(),
                        0 <= w <= 0xFFFF,
                        0 < h <= 0xFFFF,
                        stride == spec_row_stride(w as int),
                        base + stride * h <= n,
                        y < h,
                        x <= w,
                        bm@.len() == y * w + x,
                        forall|i: int|
                            0 <= i < bm@.len() ==> #[trigger] bm@[i] == pixel_byte(
                                b@,
                                base as int,
                                w as int,
                                i,
                            ),
                    decreases w - x,
                {
                    proof {
                        lemma_byte_in_row(w as int, x as int);
                        assert(stride * y + stride <= stride * h) by (nonlinear_arith)
                            requires
                                0 <= stride,
                                y < h,
                        ;
                    }
                    let pos: u64 = base + stride * y + x / 8;
                    let byte: u8 = b[pos as usize];
                    let shift: u8 = (x % 8) as u8;
                    let mask: u8 = 128u8 >> shift;
                    let on: bool = byte & mask != 0;
                    bm.push(
                        if on {
                            1
                        } else {
                            0
                        },
                    );
                    proof {
                        lemma_rowmajor(w as int, y as int, x as int);
                        assert(bit_set(byte, shift) == on);
                        assert(pixel_byte(b@, base as int, w as int, y * w + x) == (
                        if on {
                            1u8
                        } else {
                            0u8
                        }));
                    }
                    x = x + 1;
                }
                proof {
                    assert((y + 1) * w == y * w + w) by (nonlinear_arith);
                }
                y = y + 1;
            }
            proof {
                assert(h * w == w * h) by (nonlinear_arith);
            }
        } else {
            proof {
                assert(w * h == 0) by (nonlinear_arith)
                    requires
                        h == 0,
                ;
            }
        }
        let filled = Glyph {
            code_point: g.code_point,
            encoding: g.encoding,
            bitmap: bm,
            bounding_box: g.bounding_box,
            shift_x: g.shift_x,
            shift_y: g.shift_y,
            tile_index: g.tile_index,
        };
        out.push(filled);
        k = k + 1;
    }
    Ok(out)
}

/// Every bitmap row that the metrics and offset lists imply lies inside
/// the buffer.
pub open spec fn fill_list_ok(
    s: Seq<u8>,
    fbo: int,
    mets: Seq<(i32, CompressedMetrics)>,
    offs: Seq<(i32, u32)>,
) -> bool {
    forall|k: int|
        0 <= k < mets.len() ==> fill_entry_ok(
            s,
            fbo + (#[trigger] offs[k]).1,
            glyph_width(mets[k].1),
            glyph_height(mets[k].1),
        )
}

/// Whole-font glyph assembly succeeds: the metrics are compressed, and
/// every index, metric, offset and bitmap row that the scan touches
/// lies inside the buffer, with no negative glyph geometry.
pub open spec fn glyphs_ok(s: Seq<u8>, e: Encoding, meta: Metadata) -> bool {
    let idx = spec_indices(s, e, meta.indices_offset as int, 65536);
    let mets = spec_metrics_list(
        s,
        meta.first_metric_offset as int,
        meta.metrics_size as int,
        idx,
    );
    let offs = spec_offsets_list(s, meta.bitmap_offset_offsets as int, idx);
    &&& indices_ok(s, e, meta.indices_offset as int, 65536)
    &&& meta.is_metrics_compressed
    &&& metrics_ok(s, meta.first_metric_offset as int, meta.metrics_size as int, idx)
    &&& offsets_ok(s, meta.bitmap_offset_offsets as int, idx)
    &&& geometry_ok(mets)
    &&& fill_list_ok(s, meta.first_bitmap_offset as int, mets, offs)
}

/// Which error whole-font glyph assembly reports when `glyphs_ok`
/// fails, in the order the stages run.
pub open spec fn glyphs_err(s: Seq<u8>, e: Encoding, meta: Metadata) -> PcfError {
    let idx = spec_indices(s, e, meta.indices_offset as int, 65536);
    let mets = spec_metrics_list(
        s,
        meta.first_metric_offset as int,
        meta.metrics_size as int,
        idx,
    );
    if !indices_ok(s, e, meta.indices_offset as int, 65536) {
        PcfError::OutOfBounds
    } else if !meta.is_metrics_compressed {
        PcfError::UnsupportedMetricsForm
    } else if !metrics_ok(s, meta.first_metric_offset as int, meta.metrics_size as int, idx) {
        PcfError::OutOfBounds
    } else if !offsets_ok(s, meta.bitmap_offset_offsets as int, idx) {
        PcfError::OutOfBounds
    } else if !geometry_ok(mets) {
        PcfError::InvalidGeometry
    } else {
        PcfError::OutOfBounds
    }
}

/// The finished glyph list: one glyph per indexed code point, in
/// ascending code-point order, each shaped by its metrics record and
/// filled from its packed bitmap.
pub open spec fn glyph_list_matches(out: Seq<Glyph>, s: Seq<u8>, e: Encoding, meta: Metadata) -> bool {
    let idx = spec_indices(s, e, meta.indices_offset as int, 65536);
    let mets = spec_metrics_list(
        s,
        meta.first_metric_offset as int,
        meta.metrics_size as int,
        idx,
    );
    let offs = spec_offsets_list(s, meta.bitmap_offset_offsets as int, idx);
    &&& out.len() == idx.len()
    &&& forall|k: int|
        0 <= k < out.len() ==> glyph_shape_matches(#[trigger] out[k], idx[k].0, mets[k].1)
    &&& forall|k: int|
        0 <= k < out.len() ==> bitmap_filled(
            (#[trigger] out[k]).bitmap@,
            s,
            meta.first_bitmap_offset + offs[k].1,
            glyph_width(mets[k].1),
            glyph_height(mets[k].1),
        )
}

/// Assembles every glyph of the font: resolves all code points, decodes
/// each indexed glyph's compressed metrics and bitmap offset, creates
/// the glyph records and unpacks their bitmaps.
pub fn load_glyphs(b: &[u8], e: &Encoding, meta: &Metadata) -> (r: Result<Vec<Glyph>, PcfError>)
    ensures
        glyphs_ok(b@, *e, *meta) ==> {
            &&& r is Ok
            &&& glyph_list_matches(r->Ok_0@, b@, *e, *meta)
        },
        !glyphs_ok(b@, *e, *meta) ==> r == Err::<Vec<Glyph>, PcfError>(glyphs_err(b@, *e, *meta)),
{
    let ghost idx = spec_indices(b@, *e, meta.indices_offset as int, 65536);
    let ghost mets = spec_metrics_list(
        b@,
        meta.first_metric_offset as int,
        meta.metrics_size as int,
        idx,
    );
    let ghost offs = spec_offsets_list(b@, meta.bitmap_offset_offsets as int, idx);
    let indices: Vec<(i32, u16)> = match load_glyph_indices(b, e, meta) {
        Ok(v) => v,
        Err(er) => {
            return Err(er);
        },
    };
    if !meta.is_metrics_compressed {
        return Err(PcfError::UnsupportedMetricsForm);
    }
    let all_metrics: Vec<(i32, CompressedMetrics)> = match load_all_metrics(b, meta, &indices) {
        Ok(v) => v,
        Err(er) => {
            return Err(er);
        },
    };
    let bitmap_offsets: Vec<(i32, u32)> = match load_bitmap_offsets(b, meta, &indices) {
        Ok(v) => v,
        Err(er) => {
            return Err(er);
        },
    };
    proof {
        assert forall|k: int| 0 <= k < all_metrics@.len() implies (
        #[trigger] all_metrics@[k]).1.wf() by {
            assert(all_metrics@[k] == mets[k]);
        }
    }
    let glyphs: Vec<Glyph> = match create_glyphs(&all_metrics) {
        Ok(v) => v,
        Err(er) => {
            return Err(er);
        },
    };
    proof {
        assert forall|k: int| 0 <= k < glyphs@.len() implies (#[trigger] glyphs@[k]).wf()
            && glyphs@[k].bounding_box.size.x <= 0xFFFF && glyphs@[k].bounding_box.size.y
            <= 0xFFFF by {
            assert(glyph_shape_matches(glyphs@[k], all_metrics@[k].0, all_metrics@[k].1));
            assert(all_metrics@[k].1.wf());
        }
    }
    match fill_glyph_bitmaps(b, meta, glyphs, &bitmap_offsets) {
        Ok(out) => {
            proof {
                assert forall|k: int| 0 <= k < out@.len() implies glyph_shape_matches(
                    #[trigger] out@[k],
                    idx[k].0,
                    mets[k].1,
                ) by {
                    assert(glyph_same_shape(out@[k], glyphs@[k]));
                    assert(glyph_shape_matches(glyphs@[k], all_metrics@[k].0, all_metrics@[k].1));
                    assert(bitmap_filled(
                        out@[k].bitmap@,
                        b@,
                        meta.first_bitmap_offset + bitmap_offsets@[k].1,
                        glyphs@[k].bounding_box.size.x as int,
                        glyphs@[k].bounding_box.size.y as int,
                    ));
                }
            }
            Ok(out)
        },
        Err(er) => {
            proof {
                if fill_list_ok(b@, meta.first_bitmap_offset as int, mets, offs) {
                    assert forall|k: int| 0 <= k < glyphs@.len() implies fill_entry_ok(
                        b@,
                        meta.first_bitmap_offset + (#[trigger] bitmap_offsets@[k]).1,
                        glyphs@[k].bounding_box.size.x as int,
                        glyphs@[k].bounding_box.size.y as int,
                    ) by {
                        assert(glyph_shape_matches(
                            glyphs@[k],
                            all_metrics@[k].0,
                            all_metrics@[k].1,
                        ));
                        assert(fill_entry_ok(
                            b@,
                            meta.first_bitmap_offset + offs[k].1,
                            glyph_width(mets[k].1),
                            glyph_height(mets[k].1),
                        ));
                    }
                    assert(fill_ok(
                        b@,
                        meta.first_bitmap_offset as int,
                        glyphs@,
                        bitmap_offsets@,
                    ));
                    assert(false);
                }
            }
            Err(er)
        },
    }
}

} // verus!
