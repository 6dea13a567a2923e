use ascetic_vis::{Color, Rgba};

#[test]
fn rgb8_is_opaque() {
    let c = Color::rgb8(0x12, 0x34, 0x56);
    assert_eq!(c.as_u32(), 0x123456ff);
    assert_eq!(c.as_rgba8(), (0x12, 0x34, 0x56, 0xff));
}

#[test]
fn rgba8_round_trip() {
    let c = Color::rgba8(1, 2, 3, 4);
    assert_eq!(c.as_u32(), 0x01020304);
    assert_eq!(c.as_rgba8(), (1, 2, 3, 4));
}

#[test]
fn rgb32_overlapping_components() {
    // Bits above a byte spill into the neighbour; bits past the top are lost.
    let c = Color::rgb32(0x1ff, 0x100, 0);
    assert_eq!(c.as_u32(), 0xff0000ff | 0x0100_0000);
    assert_eq!(Color::rgb32(0x12, 0x34, 0x56).as_u32(), 0x123456ff);
}

#[test]
fn rgba32_packs_bytes() {
    assert_eq!(Color::rgba32(0xde, 0xad, 0xbe, 0xef).as_u32(), 0xdeadbeef);
}

#[test]
fn black_and_white() {
    assert_eq!(Color::black().as_rgba8(), (0, 0, 0, 255));
    assert_eq!(Color::white().as_rgba8(), (255, 255, 255, 255));
}

#[test]
fn rgba_from_color() {
    let Rgba(r, g, b, a) = Rgba::<u32>::from(Color::rgba8(10, 20, 30, 40));
    assert_eq!((r, g, b, a), (10, 20, 30, 40));
}

#[test]
fn colors_compare_by_value() {
    assert_eq!(Color::rgb8(1, 2, 3), Color::rgba8(1, 2, 3, 255));
    assert_ne!(Color::rgb8(1, 2, 3), Color::rgba8(1, 2, 3, 254));
}
