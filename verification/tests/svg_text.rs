use ascetic_vis::{Color, Fill, Style, WriteSvg, WriteSvgWithName};

fn text_of(bytes: Vec<u8>) -> String {
    String::from_utf8(bytes).unwrap()
}

#[test]
fn color_attribute_with_dashed_name() {
    let mut out = Vec::new();
    Color::rgba8(0x12, 0x34, 0x56, 0x80).write_svg_with_name(&mut out, "stop-color");
    assert_eq!(text_of(out), "stop-color=\"#123456\" stop-opacity=\"0.502\"");
}

#[test]
fn color_attribute_opaque_and_transparent() {
    let mut out = Vec::new();
    Color::white().write_svg_with_name(&mut out, "fill");
    assert_eq!(text_of(out), "fill=\"#ffffff\" fill-opacity=\"1.000\"");

    let mut out = Vec::new();
    Color::rgba8(0, 0, 0, 0).write_svg_with_name(&mut out, "stroke");
    assert_eq!(text_of(out), "stroke=\"#000000\" stroke-opacity=\"0.000\"");
}

#[test]
fn color_attribute_appends() {
    let mut out = b"<rect ".to_vec();
    Color::rgb8(0xab, 0xcd, 0xef).write_svg_with_name(&mut out, "fill");
    assert_eq!(text_of(out), "<rect fill=\"#abcdef\" fill-opacity=\"1.000\"");
}

#[test]
fn opacity_rounds_to_nearest_thousandth() {
    // 1/255 = 0.0039..., 254/255 = 0.99607...
    let mut out = Vec::new();
    Color::rgba8(0, 0, 0, 1).write_svg_with_name(&mut out, "x");
    assert_eq!(text_of(out), "x=\"#000000\" x-opacity=\"0.004\"");
    let mut out = Vec::new();
    Color::rgba8(0, 0, 0, 254).write_svg_with_name(&mut out, "x");
    assert_eq!(text_of(out), "x=\"#000000\" x-opacity=\"0.996\"");
}

#[test]
fn fills_as_attributes() {
    let mut out = Vec::new();
    Fill::Color(Color::rgb8(1, 2, 3)).write_svg(&mut out);
    assert_eq!(text_of(out), "fill=\"#010203\" fill-opacity=\"1.000\"");

    let mut out = Vec::new();
    Fill::Linear("sky".to_string()).write_svg(&mut out);
    assert_eq!(text_of(out), "fill=\"url(#sky)\"");

    let mut out = Vec::new();
    Fill::Radial("sun".to_string()).write_svg(&mut out);
    assert_eq!(text_of(out), "fill=\"url(#sun)\"");
}

#[test]
fn marker_suits_as_attributes() {
    let mut out = Vec::new();
    Style::new().get_markers().write_svg(&mut out);
    assert_eq!(text_of(out), "");

    let style = Style::new()
        .with_named_start_marker("dot")
        .with_named_mid_marker("tick")
        .with_named_end_marker("arrow");
    let mut out = Vec::new();
    style.get_markers().write_svg(&mut out);
    assert_eq!(
        text_of(out),
        " marker-start=\"url(#dot)\" marker-mid=\"url(#tick)\" marker-end=\"url(#arrow)\""
    );

    let mut out = Vec::new();
    Style::new().with_named_end_marker("arrow").get_markers().write_svg(&mut out);
    assert_eq!(text_of(out), " marker-end=\"url(#arrow)\"");
}
