//! Tests against a reference font buffer: an in-memory PCF image whose
//! directory, accelerators, encoding, metrics and bitmaps carry the
//! reference values the decoder is checked against.
use pcf_parser::accel::Accelerators;
use pcf_parser::bitmap::Bitmap;
use pcf_parser::directory::Table;
use pcf_parser::encoding::Encoding;
use pcf_parser::geometry::{BoundingBox, Coord};
use pcf_parser::glyph::Glyph;
use pcf_parser::glyphs;
use pcf_parser::metrics::{CompressedMetrics, UncompressedMetrics};
use pcf_parser::pcf::{Metadata, PcfFont};

fn put_u32_le(b: &mut Vec<u8>, off: usize, v: u32) {
    b[off] = (v & 0xFF) as u8;
    b[off + 1] = ((v >> 8) & 0xFF) as u8;
    b[off + 2] = ((v >> 16) & 0xFF) as u8;
    b[off + 3] = ((v >> 24) & 0xFF) as u8;
}

fn put_i32_le(b: &mut Vec<u8>, off: usize, v: i32) {
    put_u32_le(b, off, v as u32);
}

fn put_u32_be(b: &mut Vec<u8>, off: usize, v: u32) {
    b[off] = ((v >> 24) & 0xFF) as u8;
    b[off + 1] = ((v >> 16) & 0xFF) as u8;
    b[off + 2] = ((v >> 8) & 0xFF) as u8;
    b[off + 3] = (v & 0xFF) as u8;
}

fn put_i32_be(b: &mut Vec<u8>, off: usize, v: i32) {
    put_u32_be(b, off, v as u32);
}

fn put_u16_be(b: &mut Vec<u8>, off: usize, v: u16) {
    b[off] = (v >> 8) as u8;
    b[off + 1] = (v & 0xFF) as u8;
}

fn put_i16_be(b: &mut Vec<u8>, off: usize, v: i16) {
    put_u16_be(b, off, v as u16);
}

/// Builds the reference font image: four glyphs (space, A, J, W) under
/// the directory, accelerator, encoding and bitmap values of the
/// reference font.
fn reference_font() -> Vec<u8> {
    let mut b: Vec<u8> = vec![0u8; 6996];
    put_u32_le(&mut b, 0, 1885562369);
    put_i32_le(&mut b, 4, 8);
    let dir: [(i32, i32, i32, i32); 8] = [
        (1, 14, 1264, 136),
        (2, 14, 100, 1400),
        (4, 270, 492, 1500),
        (8, 14, 3400, 1992),
        (32, 14, 268, 5392),
        (64, 14, 396, 5660),
        (128, 14, 840, 6056),
        (256, 14, 100, 6896),
    ];
    for (k, rec) in dir.iter().enumerate() {
        let base: usize = 8 + 16 * k;
        put_i32_le(&mut b, base, rec.0);
        put_i32_le(&mut b, base + 4, rec.1);
        put_i32_le(&mut b, base + 8, rec.2);
        put_i32_le(&mut b, base + 12, rec.3);
    }
    // metrics table (type 4) at 1500: compressed records at 1506 + 5 * index
    put_i32_le(&mut b, 1500, 270);
    let space_metrics: [u8; 5] = [0x80, 0x80, 0x84, 0x80, 0x80];
    let a_metrics: [u8; 5] = [0x80, 0x87, 0x88, 0x89, 0x80];
    let j_metrics: [u8; 5] = [0x7F, 0x82, 0x83, 0x89, 0x82];
    let w_metrics: [u8; 5] = [0x80, 0x8B, 0x8B, 0x89, 0x80];
    for i in 0..5 {
        b[1506 + 5 * 1 + i] = space_metrics[i];
        b[1506 + 5 * 35 + i] = a_metrics[i];
        b[1506 + 5 * 44 + i] = j_metrics[i];
        b[1506 + 5 * 57 + i] = w_metrics[i];
    }
    // bitmaps table (type 8) at 1992
    put_i32_le(&mut b, 1992, 14);
    put_i32_be(&mut b, 1996, 97);
    put_u32_be(&mut b, 2000 + 4 * 35, 960);
    put_u32_be(&mut b, 2000 + 4 * 44, 1284);
    put_u32_be(&mut b, 2000 + 4 * 57, 1768);
    put_i32_be(&mut b, 2396, 2988);
    // glyph bitmaps: first bitmap offset is 2404, rows padded to 4 bytes
    let a_rows: [u8; 9] = [0x10, 0x18, 0x28, 0x24, 0x24, 0x7C, 0x42, 0x42, 0x82];
    for y in 0..9 {
        b[2404 + 960 + 4 * y] = a_rows[y];
    }
    for y in 0..10 {
        b[2404 + 1284 + 4 * y] = 0x20;
    }
    b[2404 + 1284 + 4 * 10] = 0xC0;
    let w_rows: [(u8, u8); 9] = [
        (0x84, 0x20),
        (0x44, 0x60),
        (0x4A, 0x40),
        (0x4A, 0x40),
        (0x4A, 0x40),
        (0x31, 0x40),
        (0x31, 0x80),
        (0x31, 0x80),
        (0x31, 0x80),
    ];
    for y in 0..9 {
        b[2404 + 1768 + 4 * y] = w_rows[y].0;
        b[2404 + 1768 + 4 * y + 1] = w_rows[y].1;
    }
    // encoding table (type 32) at 5392: indices at 5406
    put_i32_le(&mut b, 5392, 14);
    put_i16_be(&mut b, 5396, 0);
    put_i16_be(&mut b, 5398, 126);
    put_i16_be(&mut b, 5400, 0);
    put_i16_be(&mut b, 5402, 0);
    put_i16_be(&mut b, 5404, 1);
    for cp in 0..127 {
        put_u16_be(&mut b, 5406 + 2 * cp, 0xFFFF);
    }
    put_u16_be(&mut b, 5406 + 2 * 32, 1);
    put_u16_be(&mut b, 5406 + 2 * 65, 35);
    put_u16_be(&mut b, 5406 + 2 * 74, 44);
    put_u16_be(&mut b, 5406 + 2 * 87, 57);
    // BDF accelerators (type 256) at 6896
    put_i32_le(&mut b, 6896, 14);
    put_i32_be(&mut b, 6908, 10);
    put_i32_be(&mut b, 6912, 2);
    put_i32_be(&mut b, 6916, 1);
    put_i16_be(&mut b, 6920, -1);
    put_i16_be(&mut b, 6922, 1);
    put_i16_be(&mut b, 6924, 0);
    put_i16_be(&mut b, 6926, -1);
    put_i16_be(&mut b, 6928, -7);
    put_u16_be(&mut b, 6930, 0);
    put_i16_be(&mut b, 6932, 3);
    put_i16_be(&mut b, 6934, 11);
    put_i16_be(&mut b, 6936, 11);
    put_i16_be(&mut b, 6938, 9);
    put_i16_be(&mut b, 6940, 3);
    put_u16_be(&mut b, 6942, 0);
    b
}

fn glyph_for(pcf: &PcfFont, cp: i32) -> Glyph {
    pcf.glyphs
        .iter()
        .find(|g| g.code_point == cp)
        .expect("glyph not found")
        .clone()
}

fn index_for(indices: &Vec<(i32, u16)>, cp: i32) -> u16 {
    indices.iter().find(|e| e.0 == cp).expect("index not found").1
}

const UPPERCASE_A: i32 = 65;
const UPPERCASE_J: i32 = 74;
const UPPERCASE_W: i32 = 87;

#[test]
fn lib_it_parses_header() {
    let font = reference_font();
    let pcf = PcfFont::new(&font[..]).unwrap();
    assert_eq!(1885562369, pcf.header());
}

#[test]
fn lib_it_parses_table_count() {
    let font = reference_font();
    let pcf = PcfFont::new(&font[..]).unwrap();
    assert_eq!(8, pcf.table_count());
}

fn expected_tables() -> Vec<(i32, Table)> {
    vec![
        (1, Table { format: 14, size: 1264, offset: 136 }),
        (2, Table { format: 14, size: 100, offset: 1400 }),
        (4, Table { format: 270, size: 492, offset: 1500 }),
        (8, Table { format: 14, size: 3400, offset: 1992 }),
        (32, Table { format: 14, size: 268, offset: 5392 }),
        (64, Table { format: 14, size: 396, offset: 5660 }),
        (128, Table { format: 14, size: 840, offset: 6056 }),
        (256, Table { format: 14, size: 100, offset: 6896 }),
    ]
}

#[test]
fn lib_it_parses_tables() {
    let font = reference_font();
    let pcf = PcfFont::new(&font[..]).unwrap();
    assert_eq!(expected_tables(), *pcf.tables());
}

fn expected_accelerators() -> Accelerators {
    Accelerators {
        no_overlap: 0,
        constant_metrics: 0,
        terminal_font: 0,
        constant_width: 0,
        ink_inside: 0,
        ink_metrics: 0,
        draw_direction: 0,
        padding: 0,
        font_ascent: 10,
        font_descent: 2,
        max_overlap: 1,
        minbounds: UncompressedMetrics {
            left_side_bearing: -1,
            right_side_bearing: 1,
            character_width: 0,
            character_ascent: -1,
            character_descent: -7,
            character_attributes: 0,
        },
        maxbounds: UncompressedMetrics {
            left_side_bearing: 3,
            right_side_bearing: 11,
            character_width: 11,
            character_ascent: 9,
            character_descent: 3,
            character_attributes: 0,
        },
        ink_minbounds: UncompressedMetrics {
            left_side_bearing: -1,
            right_side_bearing: 1,
            character_width: 0,
            character_ascent: -1,
            character_descent: -7,
            character_attributes: 0,
        },
        ink_maxbounds: UncompressedMetrics {
            left_side_bearing: 3,
            right_side_bearing: 11,
            character_width: 11,
            character_ascent: 9,
            character_descent: 3,
            character_attributes: 0,
        },
    }
}

#[test]
fn lib_it_parses_accelerators_correctly() {
    let font = reference_font();
    let pcf = PcfFont::new(&font[..]).unwrap();
    assert_eq!(expected_accelerators(), pcf.accelerators);
}

#[test]
fn lib_it_parses_encoding_correctly() {
    let encoding = Encoding {
        min_byte2: 0,
        max_byte2: 126,
        min_byte1: 0,
        max_byte1: 0,
        default_char: 1,
    };

    let font = reference_font();
    let pcf = PcfFont::new(&font[..]).unwrap();
    assert_eq!(encoding, pcf.encoding);
}

#[test]
fn lib_it_parses_bitmap_correctly() {
    let bitmap = Bitmap { glyph_count: 97, bitmap_sizes: 2988 };

    let font = reference_font();
    let pcf = PcfFont::new(&font[..]).unwrap();
    assert_eq!(bitmap, pcf.bitmap);
}

#[test]
fn lib_it_has_a_bounding_box() {
    let bounding_box = BoundingBox { size: Coord::new(12, 12), offset: Coord::new(-1, -3) };

    let font = reference_font();
    let pcf = PcfFont::new(&font[..]).unwrap();
    assert_eq!(bounding_box, pcf.bounding_box);
}

#[test]
fn lib_it_loads_metadata() {
    let metadata = Metadata {
        indices_offset: 5406,
        bitmap_offset_offsets: 2000,
        first_bitmap_offset: 2404,
        metrics_compressed_raw: 256,
        is_metrics_compressed: true,
        first_metric_offset: 1506,
        metrics_size: 5,
    };

    let font = reference_font();
    let pcf = PcfFont::new(&font[..]).unwrap();

    assert_eq!(metadata, pcf.metadata);
}

#[test]
fn it_loads_indices_for_uppercase_a() {
    let font = reference_font();
    let pcf = PcfFont::new(&font[..]).unwrap();
    let indices = glyphs::load_glyph_indices(&font[..], &pcf.encoding, &pcf.metadata).unwrap();
    assert_eq!(35, index_for(&indices, UPPERCASE_A));
}

#[test]
fn it_loads_indices_for_uppercase_j() {
    let font = reference_font();
    let pcf = PcfFont::new(&font[..]).unwrap();
    let indices = glyphs::load_glyph_indices(&font[..], &pcf.encoding, &pcf.metadata).unwrap();
    assert_eq!(44, index_for(&indices, UPPERCASE_J));
}

#[test]
fn it_loads_indices_for_uppercase_w() {
    let font = reference_font();
    let pcf = PcfFont::new(&font[..]).unwrap();
    let indices = glyphs::load_glyph_indices(&font[..], &pcf.encoding, &pcf.metadata).unwrap();
    assert_eq!(57, index_for(&indices, UPPERCASE_W));
}

fn metrics_for(list: &Vec<(i32, CompressedMetrics)>, cp: i32) -> CompressedMetrics {
    list.iter().find(|e| e.0 == cp).expect("metrics not found").1
}

#[test]
fn it_loads_all_metrics_for_uppercase_a() {
    let font = reference_font();
    let pcf = PcfFont::new(&font[..]).unwrap();
    let indices = glyphs::load_glyph_indices(&font[..], &pcf.encoding, &pcf.metadata).unwrap();
    let compressed_metrics = CompressedMetrics {
        left_side_bearing: 0,
        right_side_bearing: 7,
        character_width: 8,
        character_ascent: 9,
        character_descent: 0,
        character_attributes: 0,
    };

    let all = glyphs::load_all_metrics(&font[..], &pcf.metadata, &indices).unwrap();
    assert_eq!(compressed_metrics, metrics_for(&all, UPPERCASE_A));
}

#[test]
fn it_loads_all_metrics_for_uppercase_j() {
    let font = reference_font();
    let pcf = PcfFont::new(&font[..]).unwrap();
    let indices = glyphs::load_glyph_indices(&font[..], &pcf.encoding, &pcf.metadata).unwrap();
    let compressed_metrics = CompressedMetrics {
        left_side_bearing: -1,
        right_side_bearing: 2,
        character_width: 3,
        character_ascent: 9,
        character_descent: 2,
        character_attributes: 0,
    };

    let all = glyphs::load_all_metrics(&font[..], &pcf.metadata, &indices).unwrap();
    assert_eq!(compressed_metrics, metrics_for(&all, UPPERCASE_J));
}

#[test]
fn it_loads_all_metrics_for_uppercase_w() {
    let font = reference_font();
    let pcf = PcfFont::new(&font[..]).unwrap();
    let indices = glyphs::load_glyph_indices(&font[..], &pcf.encoding, &pcf.metadata).unwrap();
    let compressed_metrics = CompressedMetrics {
        left_side_bearing: 0,
        right_side_bearing: 11,
        character_width: 11,
        character_ascent: 9,
        character_descent: 0,
        character_attributes: 0,
    };

    let all = glyphs::load_all_metrics(&font[..], &pcf.metadata, &indices).unwrap();
    assert_eq!(compressed_metrics, metrics_for(&all, UPPERCASE_W));
}

fn offset_for(list: &Vec<(i32, u32)>, cp: i32) -> u32 {
    list.iter().find(|e| e.0 == cp).expect("offset not found").1
}

#[test]
fn it_loads_bitmap_offsets_for_uppercase_a() {
    let font = reference_font();
    let pcf = PcfFont::new(&font[..]).unwrap();
    let indices = glyphs::load_glyph_indices(&font[..], &pcf.encoding, &pcf.metadata).unwrap();

    let offsets = glyphs::load_bitmap_offsets(&font[..], &pcf.metadata, &indices).unwrap();
    assert_eq!(960, offset_for(&offsets, UPPERCASE_A));
}

#[test]
fn it_loads_bitmap_offsets_for_uppercase_j() {
    let font = reference_font();
    let pcf = PcfFont::new(&font[..]).unwrap();
    let indices = glyphs::load_glyph_indices(&font[..], &pcf.encoding, &pcf.metadata).unwrap();

    let offsets = glyphs::load_bitmap_offsets(&font[..], &pcf.metadata, &indices).unwrap();
    assert_eq!(1284, offset_for(&offsets, UPPERCASE_J));
}

#[test]
fn it_loads_bitmap_offsets_for_uppercase_w() {
    let font = reference_font();
    let pcf = PcfFont::new(&font[..]).unwrap();
    let indices = glyphs::load_glyph_indices(&font[..], &pcf.encoding, &pcf.metadata).unwrap();

    let offsets = glyphs::load_bitmap_offsets(&font[..], &pcf.metadata, &indices).unwrap();
    assert_eq!(1768, offset_for(&offsets, UPPERCASE_W));
}

fn expected_uppercase_a() -> Glyph {
    Glyph {
        code_point: UPPERCASE_A,
        encoding: Some('A'),
        bitmap: vec![
            0, 0, 0, 1, 0, 0, 0,
            0, 0, 0, 1, 1, 0, 0,
            0, 0, 1, 0, 1, 0, 0,
            0, 0, 1, 0, 0, 1, 0,
            0, 0, 1, 0, 0, 1, 0,
            0, 1, 1, 1, 1, 1, 0,
            0, 1, 0, 0, 0, 0, 1,
            0, 1, 0, 0, 0, 0, 1,
            1, 0, 0, 0, 0, 0, 1,
        ],
        bounding_box: BoundingBox { size: Coord::new(7, 9), offset: Coord::new(0, 0) },
        shift_x: 8,
        shift_y: 0,
        tile_index: 0,
    }
}

#[test]
fn lib_it_has_an_uppercase_a() {
    let font = reference_font();
    let pcf = PcfFont::new(&font[..]).unwrap();
    assert_eq!(expected_uppercase_a(), glyph_for(&pcf, UPPERCASE_A));
}

#[test]
fn it_has_an_uppercase_j() {
    let font = reference_font();
    let pcf = PcfFont::new(&font[..]).unwrap();
    let expected = Glyph {
        code_point: UPPERCASE_J,
        encoding: Some('J'),
        bitmap: vec![
            0, 0, 1,
            0, 0, 1,
            0, 0, 1,
            0, 0, 1,
            0, 0, 1,
            0, 0, 1,
            0, 0, 1,
            0, 0, 1,
            0, 0, 1,
            0, 0, 1,
            1, 1, 0,
        ],
        bounding_box: BoundingBox {
            size: Coord { x: 3, y: 11 },
            offset: Coord { x: -1, y: -2 },
        },
        shift_x: 3,
        shift_y: 0,
        tile_index: 0,
    };
    assert_eq!(expected, glyph_for(&pcf, UPPERCASE_J));
}

#[test]
fn it_has_an_uppercase_w() {
    let font = reference_font();
    let pcf = PcfFont::new(&font[..]).unwrap();
    let expected = Glyph {
        code_point: UPPERCASE_W,
        encoding: Some('W'),
        bitmap: vec![
            1, 0, 0, 0, 0, 1, 0, 0, 0, 0, 1,
            0, 1, 0, 0, 0, 1, 0, 0, 0, 1, 1,
            0, 1, 0, 0, 1, 0, 1, 0, 0, 1, 0,
            0, 1, 0, 0, 1, 0, 1, 0, 0, 1, 0,
            0, 1, 0, 0, 1, 0, 1, 0, 0, 1, 0,
            0, 0, 1, 1, 0, 0, 0, 1, 0, 1, 0,
            0, 0, 1, 1, 0, 0, 0, 1, 1, 0, 0,
            0, 0, 1, 1, 0, 0, 0, 1, 1, 0, 0,
            0, 0, 1, 1, 0, 0, 0, 1, 1, 0, 0,
        ],
        bounding_box: BoundingBox {
            size: Coord { x: 11, y: 9 },
            offset: Coord { x: 0, y: 0 },
        },
        shift_x: 11,
        shift_y: 0,
        tile_index: 0,
    };
    assert_eq!(expected, glyph_for(&pcf, UPPERCASE_W));
}

#[test]
fn pcf_it_parses_header() {
    let font = reference_font();
    let pcf = PcfFont::new(&font[..]).unwrap();
    assert_eq!(1885562369, pcf.header());
}

#[test]
fn pcf_it_parses_table_count() {
    let font = reference_font();
    let pcf = PcfFont::new(&font[..]).unwrap();
    assert_eq!(8, pcf.table_count());
}

#[test]
fn pcf_it_parses_tables() {
    let font = reference_font();
    let pcf = PcfFont::new(&font[..]).unwrap();
    assert_eq!(expected_tables(), *pcf.tables());
}

#[test]
fn pcf_it_parses_accelerators_correctly() {
    let font = reference_font();
    let pcf = PcfFont::new(&font[..]).unwrap();
    assert_eq!(expected_accelerators(), pcf.accelerators);
}

#[test]
fn pcf_it_parses_encoding_correctly() {
    let encoding = Encoding {
        min_byte2: 0,
        max_byte2: 126,
        min_byte1: 0,
        max_byte1: 0,
        default_char: 1,
    };

    let font = reference_font();
    let pcf = PcfFont::new(&font[..]).unwrap();
    assert_eq!(encoding, pcf.encoding);
}

#[test]
fn pcf_it_parses_bitmap_correctly() {
    let bitmap = Bitmap { glyph_count: 97, bitmap_sizes: 2988 };

    let font = reference_font();
    let pcf = PcfFont::new(&font[..]).unwrap();
    assert_eq!(bitmap, pcf.bitmap);
}

#[test]
fn pcf_it_parses_bitmap_format() {
    let font = reference_font();
    let pcf = PcfFont::new(&font[..]).unwrap();
    assert_eq!(0xE, pcf.bitmap_format());
}

#[test]
fn pcf_it_has_a_bounding_box() {
    let bounding_box = BoundingBox { size: Coord::new(12, 12), offset: Coord::new(-1, -3) };

    let font = reference_font();
    let pcf = PcfFont::new(&font[..]).unwrap();
    assert_eq!(bounding_box, pcf.bounding_box);
}

#[test]
fn pcf_it_loads_metadata() {
    let metadata = Metadata {
        indices_offset: 5406,
        bitmap_offset_offsets: 2000,
        first_bitmap_offset: 2404,
        metrics_compressed_raw: 256,
        is_metrics_compressed: true,
        first_metric_offset: 1506,
        metrics_size: 5,
    };

    let font = reference_font();
    let pcf = PcfFont::new(&font[..]).unwrap();

    assert_eq!(metadata, pcf.metadata);
}

#[test]
fn it_loads_indices() {
    let font = reference_font();
    let pcf = PcfFont::new(&font[..]).unwrap();
    let code_points: Vec<i32> = vec![65];
    let indices = glyphs::load_indices(&font[..], &pcf.encoding, &pcf.metadata, &code_points)
        .unwrap();
    assert_eq!(vec![Some(35)], indices);
}

#[test]
fn it_loads_all_metrics() {
    let font = reference_font();
    let pcf = PcfFont::new(&font[..]).unwrap();
    let pairs: Vec<(i32, u16)> = vec![(65, 35)];
    let compressed_metrics = CompressedMetrics {
        left_side_bearing: 0,
        right_side_bearing: 7,
        character_width: 8,
        character_ascent: 9,
        character_descent: 0,
        character_attributes: 0,
    };

    let all = glyphs::load_all_metrics(&font[..], &pcf.metadata, &pairs).unwrap();
    assert_eq!(vec![(65, compressed_metrics)], all);
}

#[test]
fn it_loads_bitmap_offsets() {
    let font = reference_font();
    let pcf = PcfFont::new(&font[..]).unwrap();
    let pairs: Vec<(i32, u16)> = vec![(65, 35)];

    let offsets = glyphs::load_bitmap_offsets(&font[..], &pcf.metadata, &pairs).unwrap();
    assert_eq!(vec![(65, 960)], offsets);
}

#[test]
fn pcf_it_has_an_uppercase_a() {
    let font = reference_font();
    let pcf = PcfFont::new(&font[..]).unwrap();
    assert_eq!(expected_uppercase_a(), glyph_for(&pcf, 65));
}

#[test]
fn table_count_matches_directory() {
    let font = reference_font();
    let pcf = PcfFont::new(&font[..]).unwrap();
    assert_eq!(pcf.table_count() as usize, pcf.tables().len());
}

#[test]
fn decoding_is_deterministic() {
    let font = reference_font();
    let first = PcfFont::new(&font[..]).unwrap();
    let second = PcfFont::new(&font[..]).unwrap();
    assert_eq!(first, second);
}

#[test]
fn round_trip_glyph_lookup() {
    let font = reference_font();
    let pcf = PcfFont::new(&font[..]).unwrap();
    assert_eq!(4, pcf.glyphs.len());
    for g in pcf.glyphs.iter() {
        let c = g.encoding.expect("glyph without a character");
        assert_eq!(g, pcf.get_glyph(c));
    }
}

#[test]
fn missing_glyph_falls_back_to_replacement() {
    let font = reference_font();
    let pcf = PcfFont::new(&font[..]).unwrap();
    let replacement = pcf.glyphs[pcf.replacement_character].clone();
    assert_eq!(32, replacement.code_point);
    assert_eq!(&replacement, pcf.get_glyph('z'));
    assert_eq!(&replacement, pcf.get_glyph('\u{100}'));
}

#[test]
fn out_of_range_code_point_is_absent() {
    let font = reference_font();
    let pcf = PcfFont::new(&font[..]).unwrap();
    let high = pcf_parser::encoding::glyph_index_for(
        &font[..],
        &pcf.encoding,
        pcf.metadata.indices_offset,
        300,
    );
    assert_eq!(Ok(None), high);
    let low = pcf_parser::encoding::glyph_index_for(
        &font[..],
        &pcf.encoding,
        pcf.metadata.indices_offset,
        127,
    );
    assert_eq!(Ok(None), low);
}

#[test]
fn replacement_falls_back_to_space() {
    let font = reference_font();
    let pcf = PcfFont::new(&font[..]).unwrap();
    assert_eq!(0, pcf.replacement_character);
    assert_eq!(32, pcf.glyphs[0].code_point);
    assert_eq!(12, pcf.line_height);
}

#[test]
fn pixel_reads_the_bitmap() {
    let font = reference_font();
    let pcf = PcfFont::new(&font[..]).unwrap();
    let a = glyph_for(&pcf, UPPERCASE_A);
    assert!(a.pixel(3, 0));
    assert!(!a.pixel(0, 0));
    assert!(a.pixel(0, 8));
    assert!(a.pixel(6, 8));
}

#[test]
fn rejects_a_bad_magic_word() {
    let mut font = reference_font();
    font[0] = 0x32;
    assert_eq!(Err(pcf_parser::PcfError::InvalidHeader), PcfFont::new(&font[..]));
}

#[test]
fn rejects_a_missing_table() {
    let mut font: Vec<u8> = vec![0u8; 8];
    put_u32_le(&mut font, 0, 1885562369);
    put_i32_le(&mut font, 4, 0);
    assert_eq!(Err(pcf_parser::PcfError::MissingTable), PcfFont::new(&font[..]));
}

#[test]
fn rejects_a_little_endian_accelerator_body() {
    let mut font = reference_font();
    put_i32_le(&mut font, 6896, 10);
    assert_eq!(Err(pcf_parser::PcfError::UnsupportedEndianness), PcfFont::new(&font[..]));
}

#[test]
fn rejects_a_non_default_encoding_format() {
    let mut font = reference_font();
    put_i32_le(&mut font, 5392, 270);
    assert_eq!(Err(pcf_parser::PcfError::UnsupportedFormat), PcfFont::new(&font[..]));
}

#[test]
fn rejects_an_unsupported_padding_class() {
    let mut font = reference_font();
    put_i32_le(&mut font, 1992, 13);
    assert_eq!(Err(pcf_parser::PcfError::UnsupportedPadding), PcfFont::new(&font[..]));
}

#[test]
fn rejects_uncompressed_metrics() {
    let mut font = reference_font();
    put_i32_le(&mut font, 8 + 16 * 2 + 4, 14);
    assert_eq!(Err(pcf_parser::PcfError::UnsupportedMetricsForm), PcfFont::new(&font[..]));
}

#[test]
fn rejects_a_truncated_buffer() {
    let font = reference_font();
    let cut = font[..100].to_vec();
    assert_eq!(Err(pcf_parser::PcfError::OutOfBounds), PcfFont::new(&cut[..]));
}

#[test]
fn rejects_negative_glyph_geometry() {
    let mut font = reference_font();
    font[1506 + 5 * 35] = 0x88;
    assert_eq!(Err(pcf_parser::PcfError::InvalidGeometry), PcfFont::new(&font[..]));
}

#[test]
fn packs_the_whole_font() {
    let font = reference_font();
    let pcf = PcfFont::new(&font[..]).unwrap();
    let packed = pcf_parser::packed::pack_font(&pcf, None);
    let chars: Vec<char> = packed.glyphs.iter().map(|g| g.character).collect();
    assert_eq!(vec![' ', 'A', 'J', 'W'], chars);
    let starts: Vec<usize> = packed.glyphs.iter().map(|g| g.start_index).collect();
    assert_eq!(vec![0, 0, 63, 96], starts);
    assert_eq!(25, packed.data.len());
    assert_eq!(12, packed.line_height);
    assert_eq!(0, packed.replacement_character);
}

#[test]
fn packs_a_raster_rectangle() {
    let font = reference_font();
    let pcf = PcfFont::new(&font[..]).unwrap();
    let packed = pcf_parser::packed::pack_font(&pcf, None);
    let a = packed.get_glyph('A').clone();
    assert_eq!('A', a.character);
    assert_eq!(
        pcf_parser::packed::Rect { x: 0, y: -10, width: 7, height: 9 },
        a.bounding_box
    );
    assert_eq!(8, a.device_width);
    assert_eq!(0, a.start_index);
}

#[test]
fn packed_pixels_match_the_glyph_bitmap() {
    let font = reference_font();
    let pcf = PcfFont::new(&font[..]).unwrap();
    let packed = pcf_parser::packed::pack_font(&pcf, None);
    let a = packed.get_glyph('A').clone();
    assert!(packed.pixel(&a, 3, 0));
    assert!(!packed.pixel(&a, 0, 0));
    assert!(packed.pixel(&a, 0, 8));
    let unpacked = glyph_for(&pcf, UPPERCASE_A);
    for y in 0..9 {
        for x in 0..7 {
            assert_eq!(
                unpacked.pixel(x as usize, y as usize),
                packed.pixel(&a, x, y),
                "pixel ({}, {})",
                x,
                y
            );
        }
    }
}

#[test]
fn packs_a_character_range() {
    let font = reference_font();
    let pcf = PcfFont::new(&font[..]).unwrap();
    let ranges: Vec<(char, char)> = vec![('A', 'B')];
    let packed = pcf_parser::packed::pack_font(&pcf, Some(&ranges));
    assert_eq!(1, packed.glyphs.len());
    assert_eq!('A', packed.glyphs[0].character);
    assert_eq!(0, packed.replacement_character);
}

#[test]
fn lib_it_parses_bitmap_format() {
    let font = reference_font();
    let pcf = PcfFont::new(&font[..]).unwrap();
    assert_eq!(0xE, pcf.bitmap_format());
}

#[test]
fn decodes_separate_ink_bounds() {
    let mut font = reference_font();
    // accelerators format with the ink-bounds bit: two more metric
    // records follow the logical bounds
    put_i32_le(&mut font, 6896, 270);
    put_i16_be(&mut font, 6944, -2);
    put_i16_be(&mut font, 6946, 1);
    put_i16_be(&mut font, 6948, 0);
    put_i16_be(&mut font, 6950, -1);
    put_i16_be(&mut font, 6952, -7);
    put_u16_be(&mut font, 6954, 0);
    put_i16_be(&mut font, 6956, 3);
    put_i16_be(&mut font, 6958, 10);
    put_i16_be(&mut font, 6960, 11);
    put_i16_be(&mut font, 6962, 8);
    put_i16_be(&mut font, 6964, 4);
    put_u16_be(&mut font, 6966, 0);
    let pcf = PcfFont::new(&font[..]).unwrap();
    assert_eq!(-2, pcf.accelerators.ink_minbounds.left_side_bearing);
    assert_eq!(10, pcf.accelerators.ink_maxbounds.right_side_bearing);
    // logical bounds keep the plain values
    assert_eq!(-1, pcf.accelerators.minbounds.left_side_bearing);
    // the bounding box follows the ink bounds
    let bounding_box = BoundingBox { size: Coord::new(12, 12), offset: Coord::new(-2, -4) };
    assert_eq!(bounding_box, pcf.bounding_box);
}

#[test]
fn falls_back_to_the_plain_accelerators_table() {
    let mut font = reference_font();
    // retype the BDF-accelerators record as a plain accelerators record
    put_i32_le(&mut font, 8 + 16 * 7, 2);
    let pcf = PcfFont::new(&font[..]).unwrap();
    assert_eq!(expected_accelerators(), pcf.accelerators);
}

#[test]
fn metadata_for_uncompressed_metrics() {
    let mut font = reference_font();
    // clear the compressed-metrics bit of the metrics table's format
    put_i32_le(&mut font, 8 + 16 * 2 + 4, 14);
    let tables = pcf_parser::directory::read_tables(&font[..]).unwrap();
    let bitmap = pcf_parser::bitmap::read_bitmap(&font[..], &tables).unwrap();
    let metadata = pcf_parser::pcf::load_metadata(&tables, &bitmap).unwrap();
    assert!(!metadata.is_metrics_compressed);
    assert_eq!(0, metadata.metrics_compressed_raw);
    assert_eq!(1508, metadata.first_metric_offset);
    assert_eq!(12, metadata.metrics_size);
}
