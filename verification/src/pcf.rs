//! The decoded font aggregate and the offsets that glyph assembly uses.
use vstd::prelude::*;

use crate::accel::{
    accel_err, accel_ok, get_bounding_box, read_accelerators, spec_accel_table,
    spec_accelerators, spec_bounding_box, Accelerators,
};
use crate::bitmap::{bitmap_err, bitmap_ok, read_bitmap, spec_bitmap, Bitmap};
use crate::directory::{
    dir_err, dir_ok, find_table, read_header, read_table_count, read_tables, spec_dir_len,
    spec_find_table, spec_magic, spec_table_count, spec_tables, Table, PCF_BDF_ENCODINGS,
    PCF_BITMAPS, PCF_MAGIC, PCF_METRICS,
};
use crate::encoding::{enc_err, enc_ok, read_encoding, spec_encoding, Encoding};
use crate::error::PcfError;
use crate::geometry::BoundingBox;
use crate::glyph::Glyph;
use crate::glyphs::{
    glyph_list_matches, glyphs_err, glyphs_ok, lemma_spec_indices_sorted, load_glyphs,
    spec_char_of, spec_indices, spec_metrics_list,
};
use crate::reader::signed32;

verus! {

/// Format-word bit: the metrics table stores compressed records.
pub const PCF_COMPRESSED_METRICS: i32 = 256;

/// The offsets that glyph assembly starts from, all derived from the
/// table directory and the bitmaps header.
#[derive(Clone, Copy, Debug, PartialEq, Eq, Structural)]
pub struct Metadata {
    pub indices_offset: u64,
    pub bitmap_offset_offsets: u64,
    pub first_bitmap_offset: u64,
    pub metrics_compressed_raw: i32,
    pub is_metrics_compressed: bool,
    pub first_metric_offset: u64,
    pub metrics_size: u64,
}

/// The three sub-tables the metadata is derived from are all present.
pub open spec fn metadata_ok(ts: Seq<(i32, Table)>) -> bool {
    &&& spec_find_table(ts, PCF_BDF_ENCODINGS) is Some
    &&& spec_find_table(ts, PCF_BITMAPS) is Some
    &&& spec_find_table(ts, PCF_METRICS) is Some
}

/// The metadata that a directory and a glyph count determine: where the
/// encoding indices, the bitmap offset array and the first bitmap live,
/// and in which form and at which stride the metrics are stored.
pub open spec fn spec_metadata(ts: Seq<(i32, Table)>, glyph_count: int) -> Metadata {
    let enc = spec_find_table(ts, PCF_BDF_ENCODINGS)->Some_0;
    let bm = spec_find_table(ts, PCF_BITMAPS)->Some_0;
    let met = spec_find_table(ts, PCF_METRICS)->Some_0;
    let compressed = met.format & PCF_COMPRESSED_METRICS != 0;
    Metadata {
        indices_offset: (enc.offset + 14) as u64,
        bitmap_offset_offsets: (bm.offset + 8) as u64,
        first_bitmap_offset: (bm.offset + 4 * (6 + glyph_count)) as u64,
        metrics_compressed_raw: met.format & PCF_COMPRESSED_METRICS,
        is_metrics_compressed: compressed,
        first_metric_offset: if compressed {
            (met.offset + 6) as u64
        } else {
            (met.offset + 8) as u64
        },
        metrics_size: if compressed {
            5
        } else {
            12
        },
    }
}

/// Derives the assembly offsets from the table directory and the
/// decoded bitmaps header.
pub fn load_metadata(tables: &Vec<(i32, Table)>, bitmap: &Bitmap) -> (r: Result<
    Metadata,
    PcfError,
>)
    requires
        bitmap.glyph_count >= 0,
    ensures
        metadata_ok(tables@) ==> r == Ok::<Metadata, PcfError>(
            spec_metadata(tables@, bitmap.glyph_count as int),
        ),
        !metadata_ok(tables@) ==> r == Err::<Metadata, PcfError>(PcfError::MissingTable),
{
    let enc: Table = match find_table(tables, PCF_BDF_ENCODINGS) {
        Some(t) => t,
        None => {
            return Err(PcfError::MissingTable);
        },
    };
    let bm: Table = match find_table(tables, PCF_BITMAPS) {
        Some(t) => t,
        None => {
            return Err(PcfError::MissingTable);
        },
    };
    let met: Table = match find_table(tables, PCF_METRICS) {
        Some(t) => t,
        None => {
            return Err(PcfError::MissingTable);
        },
    };
    let metrics_compressed_raw: i32 = met.format & PCF_COMPRESSED_METRICS;
    let is_metrics_compressed: bool = metrics_compressed_raw != 0;
    let first_metric_offset: u64 = met.offset as u64 + if is_metrics_compressed {
        6
    } else {
        8
    };
    Ok(
        Metadata {
            indices_offset: enc.offset as u64 + 14,
            bitmap_offset_offsets: bm.offset as u64 + 8,
            first_bitmap_offset: bm.offset as u64 + 4 * (6 + bitmap.glyph_count as u64),
            metrics_compressed_raw,
            is_metrics_compressed,
            first_metric_offset,
            metrics_size: if is_metrics_compressed {
                5
            } else {
                12
            },
        },
    )
}

/// The fallback character: the Unicode replacement character.
pub const REPLACEMENT_CHARACTER: char = '\u{FFFD}';

/// The space character, the second-choice fallback glyph.
pub const SPACE_CHARACTER: char = ' ';

/// No glyph before index `i` is mapped from character `c`.
pub open spec fn no_char_before(gs: Seq<Glyph>, c: char, i: int) -> bool {
    forall|j: int| 0 <= j < i ==> (#[trigger] gs[j]).encoding != Some(c)
}

/// Some glyph is mapped from character `c`.
pub open spec fn has_char(gs: Seq<Glyph>, c: char) -> bool {
    exists|j: int| 0 <= j < gs.len() && (#[trigger] gs[j]).encoding == Some(c)
}

/// Index `i` holds the first glyph mapped from character `c`.
pub open spec fn is_first_with(gs: Seq<Glyph>, c: char, i: int) -> bool {
    &&& 0 <= i < gs.len()
    &&& gs[i].encoding == Some(c)
    &&& no_char_before(gs, c, i)
}

/// Index `i` is the designated replacement glyph: the first glyph
/// mapped from the Unicode replacement character, else the first glyph
/// mapped from the space character, else index zero.
pub open spec fn is_replacement_index(gs: Seq<Glyph>, i: int) -> bool {
    if has_char(gs, REPLACEMENT_CHARACTER) {
        is_first_with(gs, REPLACEMENT_CHARACTER, i)
    } else if has_char(gs, SPACE_CHARACTER) {
        is_first_with(gs, SPACE_CHARACTER, i)
    } else {
        i == 0
    }
}

/// The index of the first glyph mapped from character `c`, if any.
fn find_first_with(glyphs: &Vec<Glyph>, c: char) -> (r: Option<usize>)
    ensures
        r matches Some(i) ==> is_first_with(glyphs@, c, i as int),
        r is None ==> !has_char(glyphs@, c),
{
    let mut i: usize = 0;
    while i < glyphs.len()
        invariant
            i <= glyphs@.len(),
            no_char_before(glyphs@, c, i as int),
        decreases glyphs@.len() - i,
    {
        let enc: Option<char> = glyphs[i].encoding;
        match enc {
            Some(gc) => {
                if gc == c {
                    return Some(i);
                }
            },
            None => {},
        }
        i = i + 1;
    }
    None
}

/// The encoding parameters the buffer's own directory leads to.
pub open spec fn spec_font_encoding(s: Seq<u8>) -> Encoding {
    spec_encoding(s, spec_find_table(spec_tables(s), PCF_BDF_ENCODINGS)->Some_0.offset as int)
}

/// The bitmaps record the buffer's own directory leads to.
pub open spec fn spec_font_bitmap(s: Seq<u8>) -> Bitmap {
    spec_bitmap(s, spec_find_table(spec_tables(s), PCF_BITMAPS)->Some_0.offset as int)
}

/// The assembly metadata the buffer's own directory leads to.
pub open spec fn spec_font_metadata(s: Seq<u8>) -> Metadata {
    spec_metadata(spec_tables(s), spec_font_bitmap(s).glyph_count as int)
}

/// The whole decode pipeline succeeds on buffer `s`: the directory,
/// accelerators, encoding and bitmaps decode, the metadata's tables are
/// present, and every glyph assembles.
pub open spec fn spec_new_ok(s: Seq<u8>) -> bool {
    let ts = spec_tables(s);
    &&& dir_ok(s)
    &&& spec_accel_table(ts) is Some
    &&& accel_ok(s, spec_accel_table(ts)->Some_0.offset as int)
    &&& spec_find_table(ts, PCF_BDF_ENCODINGS) is Some
    &&& enc_ok(s, spec_find_table(ts, PCF_BDF_ENCODINGS)->Some_0.offset as int)
    &&& spec_find_table(ts, PCF_BITMAPS) is Some
    &&& bitmap_ok(s, spec_find_table(ts, PCF_BITMAPS)->Some_0.offset as int)
    &&& metadata_ok(ts)
    &&& glyphs_ok(s, spec_font_encoding(s), spec_font_metadata(s))
}

/// Which error the decode reports when `spec_new_ok` fails, in the
/// order the pipeline runs its stages.
pub open spec fn spec_new_err(s: Seq<u8>) -> PcfError {
    let ts = spec_tables(s);
    if !dir_ok(s) {
        dir_err(s)
    } else if spec_accel_table(ts) is None {
        PcfError::MissingTable
    } else if !accel_ok(s, spec_accel_table(ts)->Some_0.offset as int) {
        accel_err(s, spec_accel_table(ts)->Some_0.offset as int)
    } else if spec_find_table(ts, PCF_BDF_ENCODINGS) is None {
        PcfError::MissingTable
    } else if !enc_ok(s, spec_find_table(ts, PCF_BDF_ENCODINGS)->Some_0.offset as int) {
        enc_err(s, spec_find_table(ts, PCF_BDF_ENCODINGS)->Some_0.offset as int)
    } else if spec_find_table(ts, PCF_BITMAPS) is None {
        PcfError::MissingTable
    } else if !bitmap_ok(s, spec_find_table(ts, PCF_BITMAPS)->Some_0.offset as int) {
        bitmap_err(s, spec_find_table(ts, PCF_BITMAPS)->Some_0.offset as int)
    } else if !metadata_ok(ts) {
        PcfError::MissingTable
    } else {
        glyphs_err(s, spec_font_encoding(s), spec_font_metadata(s))
    }
}

/// The top-level decoded font: the sub-table records the decode went
/// through, the finished glyph table in ascending code-point order, the
/// designated replacement glyph and the line height.
#[derive(Clone, Debug, PartialEq, Eq)]
pub struct PcfFont {
    pub header: i32,
    pub table_count: i32,
    pub tables: Vec<(i32, Table)>,
    pub accelerators: Accelerators,
    pub encoding: Encoding,
    pub bitmap: Bitmap,
    pub bounding_box: BoundingBox,
    pub metadata: Metadata,
    pub glyphs: Vec<Glyph>,
    pub replacement_character: usize,
    pub line_height: i32,
}

/// Every field of font `f` is what buffer `s` determines.
pub open spec fn font_matches(f: PcfFont, s: Seq<u8>) -> bool {
    let ts = spec_tables(s);
    &&& f.header == signed32(spec_magic(s))
    &&& f.table_count == spec_table_count(s)
    &&& f.tables@ == ts
    &&& f.accelerators == spec_accelerators(s, spec_accel_table(ts)->Some_0.offset as int)
    &&& f.encoding == spec_font_encoding(s)
    &&& f.bitmap == spec_font_bitmap(s)
    &&& f.bounding_box == spec_bounding_box(f.accelerators)
    &&& f.metadata == spec_font_metadata(s)
    &&& glyph_list_matches(f.glyphs@, s, spec_font_encoding(s), spec_font_metadata(s))
    &&& is_replacement_index(f.glyphs@, f.replacement_character as int)
    &&& f.line_height == f.bounding_box.size.y
}

impl PcfFont {
    /// The glyph table is well formed: every glyph's bitmap covers its
    /// bounding box, the replacement index points at a glyph, and no two
    /// glyphs are mapped from the same character.
    pub open spec fn wf(self) -> bool {
        &&& forall|k: int| 0 <= k < self.glyphs@.len() ==> (#[trigger] self.glyphs@[k]).wf()
        &&& self.glyphs@.len() > 0 ==> self.replacement_character < self.glyphs@.len()
        &&& forall|j: int, k: int|
            0 <= j < k < self.glyphs@.len() && (#[trigger] self.glyphs@[j]).encoding is Some
                ==> self.glyphs@[j].encoding != (#[trigger] self.glyphs@[k]).encoding
    }

    /// Decodes a PCF byte buffer into a font: validates the magic word,
    /// parses the table directory, decodes the accelerators, encoding
    /// and bitmaps headers, derives the bounding box and the assembly
    /// metadata, and assembles every glyph. Returns the first failure
    /// the pipeline meets; no partial font.
    pub fn new(font: &[u8]) -> (r: Result<PcfFont, PcfError>)
        ensures
            spec_new_ok(font@) ==> {
                &&& r is Ok
                &&& font_matches(r->Ok_0, font@)
                &&& r->Ok_0.wf()
            },
            !spec_new_ok(font@) ==> r == Err::<PcfFont, PcfError>(spec_new_err(font@)),
    {
        let header: i32 = match read_header(font) {
            Ok(v) => v,
            Err(e) => {
                return Err(e);
            },
        };
        if header != PCF_MAGIC as i32 {
            return Err(PcfError::InvalidHeader);
        }
        let table_count: i32 = match read_table_count(font) {
            Ok(v) => v,
            Err(e) => {
                return Err(e);
            },
        };
        let tables: Vec<(i32, Table)> = match read_tables(font) {
            Ok(v) => v,
            Err(e) => {
                return Err(e);
            },
        };
        proof {
            assert(tables@ =~= spec_tables(font@));
        }
        let accelerators: Accelerators = match read_accelerators(font, &tables) {
            Ok(v) => v,
            Err(e) => {
                return Err(e);
            },
        };
        let encoding: Encoding = match read_encoding(font, &tables) {
            Ok(v) => v,
            Err(e) => {
                return Err(e);
            },
        };
        let bitmap: Bitmap = match read_bitmap(font, &tables) {
            Ok(v) => v,
            Err(e) => {
                return Err(e);
            },
        };
        let bounding_box: BoundingBox = get_bounding_box(&accelerators);
        let metadata: Metadata = match load_metadata(&tables, &bitmap) {
            Ok(v) => v,
            Err(e) => {
                return Err(e);
            },
        };
        let glyphs: Vec<Glyph> = match load_glyphs(font, &encoding, &metadata) {
            Ok(v) => v,
            Err(e) => {
                return Err(e);
            },
        };
        let replacement_character: usize = match find_first_with(&glyphs, REPLACEMENT_CHARACTER) {
            Some(i) => i,
            None => match find_first_with(&glyphs, SPACE_CHARACTER) {
                Some(i) => i,
                None => 0,
            },
        };
        let font_value = PcfFont {
            header,
            table_count,
            tables,
            accelerators,
            encoding,
            bitmap,
            bounding_box,
            metadata,
            glyphs,
            replacement_character,
            line_height: bounding_box.size.y,
        };
        proof {
            lemma_glyph_list_wf(font_value.glyphs@, font@);
        }
        Ok(font_value)
    }

    /// The magic word the decode validated.
    pub fn header(&self) -> (r: i32)
        ensures
            r == self.header,
    {
        self.header
    }

    /// How many sub-table records the directory announced.
    pub fn table_count(&self) -> (r: i32)
        ensures
            r == self.table_count,
    {
        self.table_count
    }

    /// The parsed table directory.
    pub fn tables(&self) -> (r: &Vec<(i32, Table)>)
        ensures
            r@ == self.tables@,
    {
        &self.tables
    }

    /// The format word of the bitmaps sub-table.
    pub fn bitmap_format(&self) -> (r: i32)
        requires
            spec_find_table(self.tables@, PCF_BITMAPS) is Some,
        ensures
            r == spec_find_table(self.tables@, PCF_BITMAPS)->Some_0.format,
    {
        match find_table(&self.tables, PCF_BITMAPS) {
            Some(t) => t.format,
            None => 0,
        }
    }

    /// Looks the glyph for character `c` up: the glyph mapped from `c`
    /// when the font has one — never a substitute — and the designated
    /// replacement glyph otherwise; a missing character is no error.
    pub fn get_glyph(&self, c: char) -> (r: &Glyph)
        requires
            self.wf(),
            self.glyphs@.len() > 0,
        ensures
            forall|i: int|
                0 <= i < self.glyphs@.len() && (#[trigger] self.glyphs@[i]).encoding == Some(c)
                    ==> *r == self.glyphs@[i],
            !has_char(self.glyphs@, c) ==> *r == self.glyphs@[self.replacement_character as int],
    {
        match find_first_with(&self.glyphs, c) {
            Some(i) => {
                proof {
                    assert forall|j: int|
                        0 <= j < self.glyphs@.len() && (#[trigger] self.glyphs@[j]).encoding
                            == Some(c) implies self.glyphs@[j] == self.glyphs@[i as int] by {
                        if j < i as int {
                            assert(self.glyphs@[j].encoding != Some(c));
                        } else if j > i as int {
                            assert(self.glyphs@[i as int].encoding is Some);
                            assert(self.glyphs@[i as int].encoding != self.glyphs@[j].encoding);
                        }
                    }
                }
                &self.glyphs[i]
            },
            None => &self.glyphs[self.replacement_character],
        }
    }
}

/// The glyph list a successful decode produces is well formed: every
/// bitmap covers its bounding box, and the ascending code points map to
/// pairwise distinct characters.
proof fn lemma_glyph_list_wf(gs: Seq<Glyph>, s: Seq<u8>)
    requires
        glyph_list_matches(gs, s, spec_font_encoding(s), spec_font_metadata(s)),
        glyphs_ok(s, spec_font_encoding(s), spec_font_metadata(s)),
    ensures
        forall|k: int| 0 <= k < gs.len() ==> (#[trigger] gs[k]).wf(),
        forall|j: int, k: int|
            0 <= j < k < gs.len() && (#[trigger] gs[j]).encoding is Some ==> gs[j].encoding != (
            #[trigger] gs[k]).encoding,
{
    let e = spec_font_encoding(s);
    let meta = spec_font_metadata(s);
    let idx = spec_indices(s, e, meta.indices_offset as int, 65536);
    let mets = spec_metrics_list(s, meta.first_metric_offset as int, meta.metrics_size as int, idx);
    lemma_spec_indices_sorted(s, e, meta.indices_offset as int, 65536);
    assert forall|k: int| 0 <= k < gs.len() implies (#[trigger] gs[k]).wf() by {
        assert(crate::glyphs::glyph_shape_matches(gs[k], idx[k].0, mets[k].1));
        assert(mets[k].1 == crate::metrics::spec_compressed_at(
            s,
            meta.first_metric_offset + meta.metrics_size * idx[k].1,
        ));
        assert(mets[k].1.wf());
        assert(crate::glyphs::glyph_width(mets[k].1) >= 0 && crate::glyphs::glyph_height(
            mets[k].1,
        ) >= 0);
        assert(crate::glyphs::bitmap_filled(
            gs[k].bitmap@,
            s,
            meta.first_bitmap_offset + crate::glyphs::spec_offsets_list(
                s,
                meta.bitmap_offset_offsets as int,
                idx,
            )[k].1,
            crate::glyphs::glyph_width(mets[k].1),
            crate::glyphs::glyph_height(mets[k].1),
        ));
    }
    assert forall|j: int, k: int|
        0 <= j < k < gs.len() && (#[trigger] gs[j]).encoding is Some implies gs[j].encoding != (
        #[trigger] gs[k]).encoding by {
        assert(crate::glyphs::glyph_shape_matches(gs[j], idx[j].0, mets[j].1));
        assert(crate::glyphs::glyph_shape_matches(gs[k], idx[k].0, mets[k].1));
        assert(0 <= idx[j].0 < 65536);
        assert(0 <= idx[k].0 < 65536);
        assert(idx[j].0 < idx[k].0);
        assert(gs[j].encoding == spec_char_of(idx[j].0));
        assert(gs[k].encoding == spec_char_of(idx[k].0));
        if gs[j].encoding == gs[k].encoding {
            let a: i32 = idx[j].0;
            let b: i32 = idx[k].0;
            assert(spec_char_of(a) is Some);
            assert((a as char) == (b as char));
            assert(a as char as u32 == a as u32);
            assert(b as char as u32 == b as u32);
            assert(false);
        }
    }
}

/// Decoding is deterministic: two fonts decoded from the same byte
/// buffer agree field for field and bit for bit in every glyph bitmap.
pub proof fn lemma_decode_deterministic(s: Seq<u8>, f1: PcfFont, f2: PcfFont)
    requires
        font_matches(f1, s),
        font_matches(f2, s),
    ensures
        f1.header == f2.header,
        f1.table_count == f2.table_count,
        f1.tables@ == f2.tables@,
        f1.accelerators == f2.accelerators,
        f1.encoding == f2.encoding,
        f1.bitmap == f2.bitmap,
        f1.bounding_box == f2.bounding_box,
        f1.metadata == f2.metadata,
        f1.glyphs@.len() == f2.glyphs@.len(),
        forall|k: int|
            0 <= k < f1.glyphs@.len() ==> crate::glyphs::glyph_same_shape(
                #[trigger] f1.glyphs@[k],
                f2.glyphs@[k],
            ) && f1.glyphs@[k].bitmap@ == f2.glyphs@[k].bitmap@,
        f1.replacement_character == f2.replacement_character,
        f1.line_height == f2.line_height,
{
    let e = spec_font_encoding(s);
    let meta = spec_font_metadata(s);
    let idx = spec_indices(s, e, meta.indices_offset as int, 65536);
    let mets = spec_metrics_list(s, meta.first_metric_offset as int, meta.metrics_size as int, idx);
    let offs = crate::glyphs::spec_offsets_list(s, meta.bitmap_offset_offsets as int, idx);
    assert forall|k: int|
        0 <= k < f1.glyphs@.len() implies crate::glyphs::glyph_same_shape(
        #[trigger] f1.glyphs@[k],
        f2.glyphs@[k],
    ) && f1.glyphs@[k].bitmap@ == f2.glyphs@[k].bitmap@ by {
        assert(crate::glyphs::glyph_shape_matches(f1.glyphs@[k], idx[k].0, mets[k].1));
        assert(crate::glyphs::glyph_shape_matches(f2.glyphs@[k], idx[k].0, mets[k].1));
        assert(crate::glyphs::bitmap_filled(
            f1.glyphs@[k].bitmap@,
            s,
            meta.first_bitmap_offset + offs[k].1,
            crate::glyphs::glyph_width(mets[k].1),
            crate::glyphs::glyph_height(mets[k].1),
        ));
        assert(crate::glyphs::bitmap_filled(
            f2.glyphs@[k].bitmap@,
            s,
            meta.first_bitmap_offset + offs[k].1,
            crate::glyphs::glyph_width(mets[k].1),
            crate::glyphs::glyph_height(mets[k].1),
        ));
        assert(f1.glyphs@[k].bitmap@ =~= f2.glyphs@[k].bitmap@);
    }
    assert(f1.glyphs@.len() == f2.glyphs@.len());
    assert forall|j: int|
        0 <= j < f1.glyphs@.len() implies (#[trigger] f1.glyphs@[j]).encoding == f2.glyphs@[
        j].encoding by {
        assert(crate::glyphs::glyph_same_shape(f1.glyphs@[j], f2.glyphs@[j]));
    }
    assert(has_char(f1.glyphs@, REPLACEMENT_CHARACTER) == has_char(
        f2.glyphs@,
        REPLACEMENT_CHARACTER,
    )) by {
        lemma_has_char_same(f1.glyphs@, f2.glyphs@, REPLACEMENT_CHARACTER);
    }
    assert(has_char(f1.glyphs@, SPACE_CHARACTER) == has_char(f2.glyphs@, SPACE_CHARACTER)) by {
        lemma_has_char_same(f1.glyphs@, f2.glyphs@, SPACE_CHARACTER);
    }
    lemma_replacement_unique(f1.glyphs@, f2.glyphs@, f1.replacement_character as int, f2.replacement_character as int);
}

/// Two glyph lists with the same encodings agree on which characters
/// they hold.
proof fn lemma_has_char_same(g1: Seq<Glyph>, g2: Seq<Glyph>, c: char)
    requires
        g1.len() == g2.len(),
        forall|j: int| 0 <= j < g1.len() ==> (#[trigger] g1[j]).encoding == g2[j].encoding,
    ensures
        has_char(g1, c) == has_char(g2, c),
{
    if has_char(g1, c) {
        let j = choose|j: int| 0 <= j < g1.len() && (#[trigger] g1[j]).encoding == Some(c);
        assert(g2[j].encoding == Some(c));
    }
    if has_char(g2, c) {
        let j = choose|j: int| 0 <= j < g2.len() && (#[trigger] g2[j]).encoding == Some(c);
        assert(g1[j].encoding == Some(c));
    }
}

/// The replacement index of a glyph list is unique, and equal across
/// two lists with the same encodings.
proof fn lemma_replacement_unique(g1: Seq<Glyph>, g2: Seq<Glyph>, i1: int, i2: int)
    requires
        g1.len() == g2.len(),
        forall|j: int| 0 <= j < g1.len() ==> (#[trigger] g1[j]).encoding == g2[j].encoding,
        is_replacement_index(g1, i1),
        is_replacement_index(g2, i2),
    ensures
        i1 == i2,
{
    lemma_has_char_same(g1, g2, REPLACEMENT_CHARACTER);
    lemma_has_char_same(g1, g2, SPACE_CHARACTER);
    if has_char(g1, REPLACEMENT_CHARACTER) {
        assert(is_first_with(g1, REPLACEMENT_CHARACTER, i1));
        assert(is_first_with(g2, REPLACEMENT_CHARACTER, i2));
        assert(g1[i2].encoding == Some(REPLACEMENT_CHARACTER));
        if i1 < i2 {
            assert(g2[i1].encoding != Some(REPLACEMENT_CHARACTER));
            assert(false);
        }
        if i2 < i1 {
            assert(g1[i2].encoding != Some(REPLACEMENT_CHARACTER));
            assert(false);
        }
    } else if has_char(g1, SPACE_CHARACTER) {
        assert(is_first_with(g1, SPACE_CHARACTER, i1));
        assert(is_first_with(g2, SPACE_CHARACTER, i2));
        assert(g1[i2].encoding == Some(SPACE_CHARACTER));
        if i1 < i2 {
            assert(g2[i1].encoding != Some(SPACE_CHARACTER));
            assert(false);
        }
        if i2 < i1 {
            assert(g1[i2].encoding != Some(SPACE_CHARACTER));
            assert(false);
        }
    }
}

} // verus!
