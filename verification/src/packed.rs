//! The compact embedded form of a decoded font.
//!
//! A build-time embedding step lays every retained glyph's pixels out
//! contiguously, row-major, in one packed bitstream, most significant
//! bit first within each byte, and keeps per-glyph records of the
//! character, the raster rectangle, the advance width and the bit
//! offset where the glyph's pixels start.
use vstd::prelude::*;

use crate::geometry::BoundingBox;
use crate::glyph::Glyph;
use crate::glyphs::bit_set;

verus! {

/// A rectangle in top-left-origin, Y-down raster coordinates.
#[derive(Clone, Copy, Debug, PartialEq, Eq, Structural)]
pub struct Rect {
    pub x: i32,
    pub y: i32,
    pub width: u32,
    pub height: u32,
}

/// The raster rectangle of a baseline-relative bounding box: the new y
/// origin is `-offset.y - size.y - 1`, converting from Y-up PCF
/// coordinates to a top-left-origin, Y-down raster.
pub open spec fn spec_rect_of(bb: BoundingBox) -> Rect {
    Rect {
        x: bb.offset.x,
        y: (-bb.offset.y - bb.size.y - 1) as i32,
        width: bb.size.x as u32,
        height: bb.size.y as u32,
    }
}

/// Converts a glyph bounding box into its raster rectangle.
pub fn bounding_box_to_rectangle(bb: &BoundingBox) -> (r: Rect)
    requires
        0 <= bb.size.x,
        0 <= bb.size.y,
        i32::MIN <= -bb.offset.y - bb.size.y - 1 <= i32::MAX,
    ensures
        r == spec_rect_of(*bb),
{
    let y: i64 = -(bb.offset.y as i64) - (bb.size.y as i64) - 1;
    Rect { x: bb.offset.x, y: y as i32, width: bb.size.x as u32, height: bb.size.y as u32 }
}

/// One when position `p` of the bit sequence is set, zero otherwise —
/// positions past the end count as padding zeros.
pub open spec fn bitv(bits: Seq<bool>, p: int) -> int {
    if 0 <= p < bits.len() && bits[p] {
        1
    } else {
        0
    }
}

/// The byte that chunk `j` of the bit sequence packs to, most
/// significant bit first.
pub open spec fn spec_chunk_byte(bits: Seq<bool>, j: int) -> int {
    128 * bitv(bits, 8 * j) + 64 * bitv(bits, 8 * j + 1) + 32 * bitv(bits, 8 * j + 2) + 16
        * bitv(bits, 8 * j + 3) + 8 * bitv(bits, 8 * j + 4) + 4 * bitv(bits, 8 * j + 5) + 2
        * bitv(bits, 8 * j + 6) + bitv(bits, 8 * j + 7)
}

/// Bit `base + i` of the sequence, as zero or one.
fn bit_value(bits: &Vec<bool>, base: u64, i: u64) -> (r: u8)
    ensures
        r == bitv(bits@, base + i),
{
    let n: u64 = bits.len() as u64;
    if base <= u64::MAX - i {
        let p: u64 = base + i;
        if p < n && bits[p as usize] {
            1
        } else {
            0
        }
    } else {
        0
    }
}

/// Packs a bit sequence into bytes, eight bits per byte, most
/// significant first; a final incomplete chunk is padded with zeros.
pub fn bits_to_bytes(bits: &Vec<bool>) -> (r: Vec<u8>)
    ensures
        r@.len() == (bits@.len() + 7) / 8,
        forall|j: int| 0 <= j < r@.len() ==> #[trigger] r@[j] == spec_chunk_byte(bits@, j) as u8,
{
    let n: u64 = bits.len() as u64;
    let chunks: u64 = n / 8 + if n % 8 != 0 {
        1
    } else {
        0
    };
    proof {
        assert(chunks == (bits@.len() + 7) / 8);
    }
    let mut out: Vec<u8> = Vec::new();
    let mut j: u64 = 0;
    while j < chunks
        invariant
            n == bits@.len(),
            chunks == (bits@.len() + 7) / 8,
            j <= chunks,
            out@.len() == j,
            forall|i: int| 0 <= i < j ==> #[trigger] out@[i] == spec_chunk_byte(bits@, i) as u8,
        decreases chunks - j,
    {
        let base: u64 = 8 * j;
        let t0: u8 = bit_value(bits, base, 0);
        let t1: u8 = bit_value(bits, base, 1);
        let t2: u8 = bit_value(bits, base, 2);
        let t3: u8 = bit_value(bits, base, 3);
        let t4: u8 = bit_value(bits, base, 4);
        let t5: u8 = bit_value(bits, base, 5);
        let t6: u8 = bit_value(bits, base, 6);
        let t7: u8 = bit_value(bits, base, 7);
        let byte: u8 = 128 * t0 + 64 * t1 + 32 * t2 + 16 * t3 + 8 * t4 + 4 * t5 + 2 * t6 + t7;
        out.push(byte);
        j = j + 1;
    }
    out
}

/// Which bit of a packed byte is which: bit `k` (most significant
/// first) of the byte a chunk of eight zero-or-one terms packs to is
/// set exactly when term `k` is one.
proof fn lemma_chunk_bit(t0: u8, t1: u8, t2: u8, t3: u8, t4: u8, t5: u8, t6: u8, t7: u8, k: u8)
    by (bit_vector)
    requires
        t0 <= 1,
        t1 <= 1,
        t2 <= 1,
        t3 <= 1,
        t4 <= 1,
        t5 <= 1,
        t6 <= 1,
        t7 <= 1,
        k < 8,
    ensures
        (((128 * t0 + 64 * t1 + 32 * t2 + 16 * t3 + 8 * t4 + 4 * t5 + 2 * t6 + t7) as u8) & (
        128u8 >> k) != 0) <==> ((k == 0 && t0 == 1) || (k == 1 && t1 == 1) || (k == 2 && t2 == 1)
            || (k == 3 && t3 == 1) || (k == 4 && t4 == 1) || (k == 5 && t5 == 1) || (k == 6 && t6
            == 1) || (k == 7 && t7 == 1)),
{
}

/// Round trip through the packed bitstream: testing bit `p % 8` of
/// packed byte `p / 8`, most significant bit first, yields bit `p` of
/// the original sequence.
pub proof fn lemma_packed_bit(bits: Seq<bool>, p: int)
    requires
        0 <= p < bits.len(),
    ensures
        bit_set(spec_chunk_byte(bits, p / 8) as u8, (p % 8) as u8) == bits[p],
{
    let j: int = p / 8;
    let k: int = p % 8;
    let t0: u8 = bitv(bits, 8 * j) as u8;
    let t1: u8 = bitv(bits, 8 * j + 1) as u8;
    let t2: u8 = bitv(bits, 8 * j + 2) as u8;
    let t3: u8 = bitv(bits, 8 * j + 3) as u8;
    let t4: u8 = bitv(bits, 8 * j + 4) as u8;
    let t5: u8 = bitv(bits, 8 * j + 5) as u8;
    let t6: u8 = bitv(bits, 8 * j + 6) as u8;
    let t7: u8 = bitv(bits, 8 * j + 7) as u8;
    lemma_chunk_bit(t0, t1, t2, t3, t4, t5, t6, t7, k as u8);
    assert(p == 8 * j + k);
    if k == 0 {
        assert(bits[p] == (t0 == 1));
    } else if k == 1 {
        assert(bits[p] == (t1 == 1));
    } else if k == 2 {
        assert(bits[p] == (t2 == 1));
    } else if k == 3 {
        assert(bits[p] == (t3 == 1));
    } else if k == 4 {
        assert(bits[p] == (t4 == 1));
    } else if k == 5 {
        assert(bits[p] == (t5 == 1));
    } else if k == 6 {
        assert(bits[p] == (t6 == 1));
    } else {
        assert(bits[p] == (t7 == 1));
    }
}

/// One retained glyph of the embedded form: its character, raster
/// rectangle, advance width and the bit offset where its pixels start
/// in the packed bitstream.
#[derive(Clone, Copy, Debug, PartialEq, Eq)]
pub struct PcfGlyph {
    pub character: char,
    pub bounding_box: Rect,
    pub device_width: u32,
    pub start_index: usize,
}

/// The embedded form of a font: the retained glyph records, the packed
/// bitstream they index into, the line height and the replacement
/// glyph's position.
#[derive(Clone, Debug, PartialEq, Eq)]
pub struct PcfFont {
    pub glyphs: Vec<PcfGlyph>,
    pub data: Vec<u8>,
    pub line_height: i32,
    pub replacement_character: usize,
}

/// Whether character `c` falls in one of the inclusive ranges.
pub open spec fn char_in_ranges(ranges: Seq<(char, char)>, c: char) -> bool {
    exists|k: int|
        0 <= k < ranges.len() && ((#[trigger] ranges[k]).0 as u32) <= (c as u32) && (c as u32) <= (
        ranges[k].1 as u32)
}

/// Whether the embedding retains a glyph: it must be mapped from a
/// character, and that character must fall in the requested ranges, if
/// any were given.
pub open spec fn glyph_included(g: Glyph, ranges: Option<Seq<(char, char)>>) -> bool {
    match g.encoding {
        Some(c) => match ranges {
            None => true,
            Some(rs) => char_in_ranges(rs, c),
        },
        None => false,
    }
}

/// The retained glyphs, in their original order.
pub open spec fn included_seq(gs: Seq<Glyph>, ranges: Option<Seq<(char, char)>>) -> Seq<Glyph>
    decreases gs.len(),
{
    if gs.len() == 0 {
        Seq::empty()
    } else {
        let prev = included_seq(gs.drop_last(), ranges);
        if glyph_included(gs.last(), ranges) {
            prev.push(gs.last())
        } else {
            prev
        }
    }
}

/// The packed bitstream of the retained glyphs: each glyph's pixels in
/// row-major order, one bit per pixel, glyphs laid out contiguously.
pub open spec fn packed_bits(inc: Seq<Glyph>) -> Seq<bool>
    decreases inc.len(),
{
    if inc.len() == 0 {
        Seq::empty()
    } else {
        packed_bits(inc.drop_last()) + Seq::new(
            inc.last().bitmap@.len(),
            |i: int| inc.last().bitmap@[i] != 0,
        )
    }
}

/// A glyph record carries the character, rectangle, advance and start
/// offset that retained glyph `g` at bit offset `start` determines.
pub open spec fn packed_glyph_matches(p: PcfGlyph, g: Glyph, start: int) -> bool {
    &&& g.encoding == Some(p.character)
    &&& p.bounding_box == spec_rect_of(g.bounding_box)
    &&& p.device_width == g.shift_x
    &&& p.start_index == start
}

/// No packed glyph before index `i` carries character `c`.
pub open spec fn packed_no_char_before(gs: Seq<PcfGlyph>, c: char, i: int) -> bool {
    forall|j: int| 0 <= j < i ==> (#[trigger] gs[j]).character != c
}

/// Some packed glyph carries character `c`.
pub open spec fn packed_has_char(gs: Seq<PcfGlyph>, c: char) -> bool {
    exists|j: int| 0 <= j < gs.len() && (#[trigger] gs[j]).character == c
}

/// Index `i` holds the first packed glyph carrying character `c`.
pub open spec fn packed_is_first_with(gs: Seq<PcfGlyph>, c: char, i: int) -> bool {
    &&& 0 <= i < gs.len()
    &&& gs[i].character == c
    &&& packed_no_char_before(gs, c, i)
}

/// Index `i` is the packed font's replacement glyph: the first glyph
/// of the replacement character, else the first space glyph, else
/// index zero.
pub open spec fn packed_is_replacement(gs: Seq<PcfGlyph>, i: int) -> bool {
    if packed_has_char(gs, crate::pcf::REPLACEMENT_CHARACTER) {
        packed_is_first_with(gs, crate::pcf::REPLACEMENT_CHARACTER, i)
    } else if packed_has_char(gs, crate::pcf::SPACE_CHARACTER) {
        packed_is_first_with(gs, crate::pcf::SPACE_CHARACTER, i)
    } else {
        i == 0
    }
}

/// The embedded form `r` is the packing of the retained glyphs of
/// `gs`: records in order with cumulative start offsets, the packed
/// bitstream byte for byte, and the replacement index.
pub open spec fn pack_matches(r: PcfFont, gs: Seq<Glyph>, ranges: Option<Seq<(char, char)>>, line_height: i32) -> bool {
    let inc = included_seq(gs, ranges);
    &&& r.glyphs@.len() == inc.len()
    &&& forall|k: int|
        0 <= k < inc.len() ==> packed_glyph_matches(
            #[trigger] r.glyphs@[k],
            inc[k],
            packed_bits(inc.take(k)).len() as int,
        )
    &&& r.data@.len() == (packed_bits(inc).len() + 7) / 8
    &&& forall|j: int|
        0 <= j < r.data@.len() ==> #[trigger] r.data@[j] == spec_chunk_byte(
            packed_bits(inc),
            j,
        ) as u8
    &&& packed_is_replacement(r.glyphs@, r.replacement_character as int)
    &&& r.line_height == line_height
}

/// Whether character `c` falls in one of the inclusive ranges.
fn char_in_ranges_exec(ranges: &Vec<(char, char)>, c: char) -> (r: bool)
    ensures
        r == char_in_ranges(ranges@, c),
{
    let mut k: usize = 0;
    while k < ranges.len()
        invariant
            k <= ranges@.len(),
            forall|j: int|
                0 <= j < k ==> !(((#[trigger] ranges@[j]).0 as u32) <= (c as u32) && (c as u32)
                    <= (ranges@[j].1 as u32)),
        decreases ranges@.len() - k,
    {
        let range: (char, char) = ranges[k];
        if (range.0 as u32) <= (c as u32) && (c as u32) <= (range.1 as u32) {
            return true;
        }
        k = k + 1;
    }
    false
}

/// The index of the first packed glyph carrying character `c`, if any.
fn packed_find_first(glyphs: &Vec<PcfGlyph>, c: char) -> (r: Option<usize>)
    ensures
        r matches Some(i) ==> packed_is_first_with(glyphs@, c, i as int),
        r is None ==> !packed_has_char(glyphs@, c),
{
    let mut i: usize = 0;
    while i < glyphs.len()
        invariant
            i <= glyphs@.len(),
            packed_no_char_before(glyphs@, c, i as int),
        decreases glyphs@.len() - i,
    {
        if glyphs[i].character == c {
            return Some(i);
        }
        i = i + 1;
    }
    None
}

/// Pushing onto a sequence grows it by one and keeps every earlier
/// position; stated as a lemma so a large proof context can apply it by
/// name.
proof fn lemma_seq_push<A>(s: Seq<A>, x: A, j: int)
    requires
        0 <= j <= s.len(),
    ensures
        s.push(x).len() == s.len() + 1,
        s.push(x)[j] == (if j < s.len() {
            s[j]
        } else {
            x
        }),
{
}

/// Packs a decoded font for embedding: walks the glyph table in order,
/// keeps the glyphs that carry a character inside the requested ranges
/// (all of them when no ranges are given), records each with its raster
/// rectangle, advance and cumulative bit offset, and packs all their
/// pixels into one bitstream.
pub fn pack_font(font: &crate::pcf::PcfFont, ranges: Option<&Vec<(char, char)>>) -> (r: PcfFont)
    requires
        font.wf(),
        forall|k: int| 0 <= k < font.glyphs@.len() ==> 0 <= (#[trigger] font.glyphs@[k]).shift_x,
        forall|k: int|
            0 <= k < font.glyphs@.len() ==> i32::MIN <= -(
            #[trigger] font.glyphs@[k]).bounding_box.offset.y
                - font.glyphs@[k].bounding_box.size.y - 1 <= i32::MAX,
    ensures
        pack_matches(
            r,
            font.glyphs@,
            match ranges {
                Some(rv) => Some(rv@),
                None => None,
            },
            font.line_height,
        ),
{
    let ghost rs: Option<Seq<(char, char)>> = match ranges {
        Some(rv) => Some(rv@),
        None => None,
    };
    let mut out_glyphs: Vec<PcfGlyph> = Vec::new();
    let mut bits: Vec<bool> = Vec::new();
    let mut k: usize = 0;
    while k < font.glyphs.len()
        invariant
            font.wf(),
            forall|j: int|
                0 <= j < font.glyphs@.len() ==> 0 <= (#[trigger] font.glyphs@[j]).shift_x,
            forall|j: int|
                0 <= j < font.glyphs@.len() ==> i32::MIN <= -(
                #[trigger] font.glyphs@[j]).bounding_box.offset.y
                    - font.glyphs@[j].bounding_box.size.y - 1 <= i32::MAX,
            rs == (match ranges {
                Some(rv) => Some(rv@),
                None => None,
            }),
            k <= font.glyphs@.len(),
            out_glyphs@.len() == included_seq(font.glyphs@.take(k as int), rs).len(),
            forall|j: int|
                0 <= j < out_glyphs@.len() ==> packed_glyph_matches(
                    #[trigger] out_glyphs@[j],
                    included_seq(font.glyphs@.take(k as int), rs)[j],
                    packed_bits(included_seq(font.glyphs@.take(k as int), rs).take(j)).len() as int,
                ),
            bits@ == packed_bits(included_seq(font.glyphs@.take(k as int), rs)),
        decreases font.glyphs@.len() - k,
    {
        let ghost prev_inc = included_seq(font.glyphs@.take(k as int), rs);
        proof {
            assert(font.glyphs@.take(k + 1).drop_last() =~= font.glyphs@.take(k as int));
            assert(font.glyphs@.take(k + 1).last() == font.glyphs@[k as int]);
        }
        let g: &Glyph = &font.glyphs[k];
        let included: bool = match g.encoding {
            Some(c) => match ranges {
                None => true,
                Some(rv) => char_in_ranges_exec(rv, c),
            },
            None => false,
        };
        proof {
            assert(included == glyph_included(font.glyphs@[k as int], rs));
        }
        if included {
            let c: char = match g.encoding {
                Some(c) => c,
                None => ' ',
            };
            proof {
                assert(font.glyphs@[k as int].wf());
            }
            let rect: Rect = bounding_box_to_rectangle(&g.bounding_box);
            let start: usize = bits.len();
            let ghost bits_before = bits@;
            let mut i: usize = 0;
            while i < g.bitmap.len()
                invariant
                    i <= g.bitmap@.len(),
                    bits@ == bits_before + Seq::new(i as nat, |t: int| g.bitmap@[t] != 0),
                    out_glyphs@.len() == prev_inc.len(),
                    forall|j: int|
                        0 <= j < out_glyphs@.len() ==> packed_glyph_matches(
                            #[trigger] out_glyphs@[j],
                            prev_inc[j],
                            packed_bits(prev_inc.take(j)).len() as int,
                        ),
                decreases g.bitmap@.len() - i,
            {
                let bit: bool = g.bitmap[i] != 0;
                bits.push(bit);
                proof {
                    assert(bits@ =~= bits_before + Seq::new(
                        (i + 1) as nat,
                        |t: int| g.bitmap@[t] != 0,
                    ));
                }
                i = i + 1;
            }
            proof {
                assert(out_glyphs@.len() == prev_inc.len());
            }
            let ghost pre_push = out_glyphs@;
            let record = PcfGlyph {
                character: c,
                bounding_box: rect,
                device_width: g.shift_x as u32,
                start_index: start,
            };
            out_glyphs.push(record);
            proof {
                assert(out_glyphs@ == pre_push.push(record));
                assert(pre_push.len() == prev_inc.len());
                lemma_seq_push(pre_push, record, 0);
                assert(out_glyphs@.len() == prev_inc.len() + 1);
                let inc_next = included_seq(font.glyphs@.take(k + 1), rs);
                assert(inc_next == prev_inc.push(font.glyphs@[k as int]));
                lemma_seq_push(prev_inc, font.glyphs@[k as int], 0);
                assert(inc_next.drop_last() =~= prev_inc);
                assert(packed_bits(inc_next.drop_last()) == packed_bits(prev_inc));
                assert(inc_next.last() == font.glyphs@[k as int]);
                assert(packed_bits(inc_next) == packed_bits(prev_inc) + Seq::new(
                    font.glyphs@[k as int].bitmap@.len(),
                    |t: int| font.glyphs@[k as int].bitmap@[t] != 0,
                ));
                assert(bits_before == packed_bits(prev_inc));
                assert(bits@ =~= packed_bits(inc_next));
                assert forall|j: int| 0 <= j < out_glyphs@.len() implies packed_glyph_matches(
                    #[trigger] out_glyphs@[j],
                    inc_next[j],
                    packed_bits(inc_next.take(j)).len() as int,
                ) by {
                    lemma_seq_push(pre_push, record, j);
                    lemma_seq_push(prev_inc, font.glyphs@[k as int], j);
                    if j < prev_inc.len() {
                        assert(out_glyphs@[j] == pre_push[j]);
                        assert(packed_glyph_matches(
                            pre_push[j],
                            prev_inc[j],
                            packed_bits(prev_inc.take(j)).len() as int,
                        ));
                        assert(inc_next[j] == prev_inc[j]);
                        assert(inc_next.take(j) =~= prev_inc.take(j));
                        assert(packed_bits(inc_next.take(j)) == packed_bits(prev_inc.take(j)));
                    } else {
                        assert(j == prev_inc.len());
                        assert(out_glyphs@[j] == record);
                        assert(inc_next[j] == font.glyphs@[k as int]);
                        assert(inc_next.take(j) =~= prev_inc);
                        assert(glyph_included(font.glyphs@[k as int], rs));
                        assert(font.glyphs@[k as int].encoding == Some(c));
                        assert(record.bounding_box == spec_rect_of(
                            font.glyphs@[k as int].bounding_box,
                        ));
                        assert(0 <= font.glyphs@[k as int].shift_x);
                        assert(record.device_width == font.glyphs@[k as int].shift_x);
                        assert(bits_before == packed_bits(prev_inc));
                        assert(record.start_index == packed_bits(prev_inc).len());
                        assert(packed_bits(inc_next.take(j)).len() == packed_bits(
                            prev_inc,
                        ).len());
                    }
                }
            }
        } else {
            proof {
                assert(included_seq(font.glyphs@.take(k + 1), rs) == prev_inc);
            }
        }
        k = k + 1;
    }
    proof {
        assert(font.glyphs@.take(font.glyphs@.len() as int) =~= font.glyphs@);
    }
    let data: Vec<u8> = bits_to_bytes(&bits);
    let replacement_character: usize = match packed_find_first(
        &out_glyphs,
        crate::pcf::REPLACEMENT_CHARACTER,
    ) {
        Some(i) => i,
        None => match packed_find_first(&out_glyphs, crate::pcf::SPACE_CHARACTER) {
            Some(i) => i,
            None => 0,
        },
    };
    PcfFont { glyphs: out_glyphs, data, line_height: font.line_height, replacement_character }
}

impl PcfFont {
    /// Looks the packed glyph for character `c` up: the first record
    /// carrying `c`, and the replacement glyph when no record does.
    pub fn get_glyph(&self, c: char) -> (r: &PcfGlyph)
        requires
            self.glyphs@.len() > 0,
            self.replacement_character < self.glyphs@.len(),
        ensures
            packed_has_char(self.glyphs@, c) ==> exists|i: int|
                0 <= i < self.glyphs@.len() && packed_is_first_with(self.glyphs@, c, i) && *r
                    == self.glyphs@[i],
            !packed_has_char(self.glyphs@, c) ==> *r == self.glyphs@[
                self.replacement_character as int],
    {
        match packed_find_first(&self.glyphs, c) {
            Some(i) => &self.glyphs[i],
            None => &self.glyphs[self.replacement_character],
        }
    }

    /// Tests one pixel of a packed glyph: bit `start_index + y * width
    /// + x` of the bitstream, most significant bit first within each
    /// byte.
    pub fn pixel(&self, g: &PcfGlyph, x: u32, y: u32) -> (r: bool)
        requires
            x < g.bounding_box.width,
            y < g.bounding_box.height,
            g.start_index + y * g.bounding_box.width + x < self.data@.len() * 8,
            self.data@.len() * 8 <= u64::MAX,
        ensures
            r == bit_set(
                self.data@[(g.start_index + y * g.bounding_box.width + x) / 8],
                ((g.start_index + y * g.bounding_box.width + x) % 8) as u8,
            ),
    {
        let dn: usize = self.data.len();
        proof {
            assert(self.data@.len() == dn);
        }
        let p: u64 = g.start_index as u64 + (y as u64) * (g.bounding_box.width as u64)
            + x as u64;
        proof {
            assert(p == g.start_index + y * g.bounding_box.width + x);
            assert(8 * (p as int / 8) <= p < self.data@.len() * 8);
            assert(p / 8 < self.data@.len());
        }
        let byte: u8 = self.data[(p / 8) as usize];
        let mask: u8 = 128u8 >> ((p % 8) as u8);
        byte & mask != 0
    }
}

} // verus!
