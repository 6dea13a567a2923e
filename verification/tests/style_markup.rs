use ascetic_vis::{Color, Figure, Fill, Piece, Stroke, Style};

fn spell(pieces: &[Piece]) -> String {
    let mut out = String::new();
    for piece in pieces {
        match piece {
            Piece::Bytes(bytes) => out.push_str(std::str::from_utf8(bytes).unwrap()),
            Piece::Figure(Figure::Bits(bits)) => out.push_str(&format!("{}", f64::from_bits(*bits))),
            Piece::Figure(other) => panic!("unexpected figure {:?}", other),
        }
    }
    out
}

#[test]
fn stroke_attributes() {
    let stroke = Stroke::new().with_brush(Color::rgba8(0x10, 0x20, 0x30, 0xff)).with_width(2.5f64.to_bits());
    let mut pieces = Vec::new();
    stroke.write_svg(&mut pieces);
    assert_eq!(spell(&pieces), "stroke=\"#102030\" stroke-opacity=\"1.000\" stroke-width=\"2.5\"");
}

#[test]
fn style_with_stroke_fill_and_markers() {
    let style = Style::new()
        .with_stroke(Stroke::new().with_width(3.0f64.to_bits()))
        .with_fill(Fill::Linear("sky".to_string()))
        .with_named_end_marker("arrow");
    let mut pieces = Vec::new();
    style.write_svg(&mut pieces);
    assert_eq!(
        spell(&pieces),
        "stroke=\"#000000\" stroke-opacity=\"1.000\" stroke-width=\"3\" fill=\"url(#sky)\" marker-end=\"url(#arrow)\""
    );
}

#[test]
fn style_without_fill_fills_nothing() {
    let style = Style::new();
    let mut pieces = Vec::new();
    style.write_svg(&mut pieces);
    assert_eq!(spell(&pieces), "fill=\"none\"");
}
