//! Tests for the byte readers and the bit-packing used by the embedded
//! form.
use pcf_parser::packed;
use pcf_parser::reader;
use pcf_parser::PcfError;

#[test]
fn test_bits_to_bytes() {
    let f = false;
    let t = true;

    assert_eq!(packed::bits_to_bytes(&vec![f, f, f, f, f, f, f, f]), vec![0x00]);
    assert_eq!(packed::bits_to_bytes(&vec![t, f, f, f, f, f, f, f]), vec![0x80]);
    assert_eq!(packed::bits_to_bytes(&vec![t, f, f, f, f, f, f, t]), vec![0x81]);
}

#[test]
fn test_bits_to_bytes_incomplete_byte() {
    let f = false;
    let t = true;

    assert_eq!(
        packed::bits_to_bytes(&vec![f, f, f, f, f, f, f, f, t]),
        vec![0x00, 0x80]
    );
}

#[test]
fn reads_little_endian_words() {
    let b: Vec<u8> = vec![0x01, 0x66, 0x63, 0x70, 0x08, 0x00, 0x00, 0x00];
    assert_eq!(Ok(1885562369), reader::read_i32_le(&b[..], 0));
    assert_eq!(Ok(8), reader::read_i32_le(&b[..], 4));
    assert_eq!(Ok(1885562369), reader::read_u32_le(&b[..], 0));
}

#[test]
fn reads_negative_little_endian_words() {
    let b: Vec<u8> = vec![0xFF, 0xFF, 0xFF, 0xFF];
    assert_eq!(Ok(-1), reader::read_i32_le(&b[..], 0));
    assert_eq!(Ok(0xFFFFFFFF), reader::read_u32_le(&b[..], 0));
}

#[test]
fn reads_big_endian_words() {
    let b: Vec<u8> = vec![0x00, 0x00, 0x0B, 0xAC, 0xFF, 0xF9];
    assert_eq!(Ok(2988), reader::read_i32_be(&b[..], 0));
    assert_eq!(Ok(0x0BAC), reader::read_u16_be(&b[..], 2));
    assert_eq!(Ok(-7), reader::read_i16_be(&b[..], 4));
    assert_eq!(Ok(0xFFF9), reader::read_u16_be(&b[..], 4));
}

#[test]
fn reads_out_of_bounds_fail() {
    let b: Vec<u8> = vec![0x01, 0x02];
    assert_eq!(Ok(0x02), reader::read_u8_at(&b[..], 1));
    assert_eq!(Err(PcfError::OutOfBounds), reader::read_u8_at(&b[..], 2));
    assert_eq!(Err(PcfError::OutOfBounds), reader::read_u16_be(&b[..], 1));
    assert_eq!(Err(PcfError::OutOfBounds), reader::read_i32_le(&b[..], 0));
}
