use raytrace::color::{pack_rgb, unpack_rgb};

#[test]
fn pack_places_red_green_blue_bytes() {
    assert_eq!(pack_rgb(255, 128, 1), 0x00FF_8001);
    assert_eq!(pack_rgb(0, 0, 0), 0);
    assert_eq!(pack_rgb(255, 255, 255), 0x00FF_FFFF);
    assert_eq!(pack_rgb(0, 0, 7), 7);
    assert_eq!(pack_rgb(0, 7, 0), 7 << 8);
    assert_eq!(pack_rgb(7, 0, 0), 7 << 16);
}

#[test]
fn unpack_reads_the_three_low_bytes() {
    assert_eq!(unpack_rgb(0x00FF_8001), (255, 128, 1));
    assert_eq!(unpack_rgb(0xAB12_3456), (0x12, 0x34, 0x56));
    assert_eq!(unpack_rgb(0), (0, 0, 0));
}

#[test]
fn unpack_inverts_pack() {
    for &(r, g, b) in &[(0u8, 0u8, 0u8), (1, 2, 3), (255, 0, 255), (17, 200, 99)] {
        assert_eq!(unpack_rgb(pack_rgb(r, g, b)), (r, g, b));
    }
}

#[test]
fn pack_inverts_unpack_below_the_top_byte() {
    for &p in &[0u32, 0x00FF_FFFF, 0x1234_5678, 0xFFFF_FFFF] {
        let (r, g, b) = unpack_rgb(p);
        assert_eq!(pack_rgb(r, g, b), p & 0x00FF_FFFF);
    }
}
