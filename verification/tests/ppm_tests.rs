use raytrace::color::pack_rgb;
use raytrace::ppm::{encode_ppm, push_decimal};

fn decimal(n: u64) -> String {
    let mut out = Vec::new();
    push_decimal(&mut out, n);
    String::from_utf8(out).unwrap()
}

#[test]
fn decimal_digits() {
    assert_eq!(decimal(0), "0");
    assert_eq!(decimal(7), "7");
    assert_eq!(decimal(10), "10");
    assert_eq!(decimal(255), "255");
    assert_eq!(decimal(500), "500");
    assert_eq!(decimal(1234567890), "1234567890");
    assert_eq!(decimal(u64::MAX), "18446744073709551615");
}

#[test]
fn push_decimal_appends() {
    let mut out = b"x=".to_vec();
    push_decimal(&mut out, 42);
    assert_eq!(out, b"x=42".to_vec());
}

#[test]
fn encode_two_pixels() {
    let bytes = encode_ppm(&[0x00FF_0000, 0x0000_FF00], 2, 1);
    assert_eq!(String::from_utf8(bytes).unwrap(), "P3\n2 1\n255\n255 0 0\n0 255 0\n");
}

#[test]
fn encode_empty_image_is_header_only() {
    let bytes = encode_ppm(&[], 500, 500);
    assert_eq!(String::from_utf8(bytes).unwrap(), "P3\n500 500\n255\n");
}

#[test]
fn encode_ignores_top_byte() {
    let bytes = encode_ppm(&[0xFF01_0203], 1, 1);
    assert_eq!(String::from_utf8(bytes).unwrap(), "P3\n1 1\n255\n1 2 3\n");
}

#[test]
fn encoded_line_shows_packed_channels() {
    let bytes = encode_ppm(&[pack_rgb(12, 0, 255), pack_rgb(9, 99, 100)], 2, 1);
    assert_eq!(String::from_utf8(bytes).unwrap(), "P3\n2 1\n255\n12 0 255\n9 99 100\n");
}

#[test]
fn encode_writes_buffer_as_given() {
    // The sizes go to the header as they are; the pixels follow one per line.
    let bytes = encode_ppm(&[0, 0, 0], 1, 1);
    assert_eq!(String::from_utf8(bytes).unwrap(), "P3\n1 1\n255\n0 0 0\n0 0 0\n0 0 0\n");
}
