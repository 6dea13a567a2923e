use ascetic_vis::font::Font;
use ascetic_vis::{Figure, Piece, PreprocessWithStyle, TextLabel, Theme};
use kurbo::{Point, TranslateScale, Vec2};

fn value(figure: &Figure) -> String {
    match figure {
        Figure::Bits(bits) => format!("{}", f64::from_bits(*bits)),
        Figure::X(p) => format!("{}", p.x),
        Figure::Y(p) => format!("{}", p.y),
        Figure::Scaled(ts, bits) => format!("{}", ts.as_tuple().1 * f64::from_bits(*bits)),
        Figure::Across(bits) => format!("{}", 0. + f64::from_bits(*bits) * 100.),
        Figure::Hundredfold(bits) => format!("{}", f64::from_bits(*bits) * 100.),
        Figure::Single(bits) => format!("{}", f32::from_bits(*bits)),
    }
}

fn spell(pieces: &[Piece]) -> String {
    let mut out = String::new();
    for piece in pieces {
        match piece {
            Piece::Bytes(bytes) => out.push_str(std::str::from_utf8(bytes).unwrap()),
            Piece::Figure(figure) => out.push_str(&value(figure)),
        }
    }
    out
}

fn shift_and_double() -> TranslateScale {
    TranslateScale::translate(Vec2::new(10.0, 20.0)) * TranslateScale::scale(2.0)
}

#[test]
fn plain_markup_of_a_bare_label() {
    let label = TextLabel::new().with_text("hi");
    let mut pieces = Vec::new();
    label.write_svg(&mut pieces);
    assert_eq!(spell(&pieces), "  <text x=\"0\" y=\"0\" font-family=\"sans-serif\" font-size=\"12\">hi</text>\n");
}

#[test]
fn plain_markup_of_a_label_with_a_span() {
    let label = TextLabel::new()
        .with_origin(Point::new(1.0, 2.0))
        .with_middle_anchor()
        .with_dx(vec![1.0f64.to_bits(), 2.5f64.to_bits()])
        .with_text("a")
        .with_span(TextLabel::new().with_text("b"));
    let mut pieces = Vec::new();
    label.write_svg(&mut pieces);
    assert_eq!(
        spell(&pieces),
        "  <text x=\"1\" y=\"2\" text-anchor=\"middle\" dx=\"1 2.5\" font-family=\"sans-serif\" font-size=\"12\">a<tspan text-anchor=\"start\" font-family=\"sans-serif\" font-size=\"12\">b</tspan></text>\n"
    );
}

#[test]
fn plain_markup_appends_and_keeps_figures_apart() {
    let label = TextLabel::new().with_end_anchor().with_dy(vec![3.0f64.to_bits()]);
    let mut pieces = vec![Piece::Bytes(b"<g>".to_vec())];
    label.write_svg(&mut pieces);
    assert!(matches!(&pieces[0], Piece::Bytes(b) if b == b"<g>"));
    assert!(matches!(&pieces[1], Piece::Bytes(b) if b == b"  <text x=\""));
    assert!(matches!(&pieces[2], Piece::Figure(Figure::Bits(0))));
    assert_eq!(
        spell(&pieces),
        "<g>  <text x=\"0\" y=\"0\" text-anchor=\"end\" dy=\"3\" font-family=\"sans-serif\" font-size=\"12\"></text>\n"
    );
}

#[test]
fn styled_markup_transforms_places_and_sizes() {
    let label = TextLabel::new()
        .with_origin(Point::new(1.0, 2.0))
        .with_font(Font::new("Fira").with_size(10.0f64.to_bits()))
        .with_text("x")
        .with_span(TextLabel::new().with_origin(Point::new(3.0, 4.0)).with_font(Font::new("Mono")).with_text("y"));
    let theme = Theme::new();
    let mut pieces = Vec::new();
    label.write_svg_with_style(&mut pieces, shift_and_double(), None, &theme);
    assert_eq!(
        spell(&pieces),
        "  <text x=\"12\" y=\"24\" font-family=\"Fira\" font-size=\"20\">x<tspan x=\"16\" y=\"28\" text-anchor=\"start\" font-family=\"Mono\" font-size=\"24\">y</tspan>\n</text>\n"
    );
}

#[test]
fn styled_markup_places_a_root_without_origin_at_the_image_of_zero() {
    let mut label = TextLabel::new().with_text("z");
    let theme = Theme::new();
    label.preprocess_with_style(shift_and_double(), None, &theme).unwrap();
    let mut pieces = Vec::new();
    label.write_svg_with_style(&mut pieces, shift_and_double(), None, &theme);
    assert_eq!(
        spell(&pieces),
        "  <text x=\"10\" y=\"20\" font-family=\"sans-serif\" font-size=\"24\">z</text>\n"
    );
}

#[test]
fn styled_markup_without_a_font_is_the_plain_markup() {
    let label = TextLabel::new().with_origin(Point::new(1.0, 2.0)).with_text("p");
    let theme = Theme::new();
    let mut styled = Vec::new();
    label.write_svg_with_style(&mut styled, shift_and_double(), None, &theme);
    let mut plain = Vec::new();
    label.write_svg(&mut plain);
    assert_eq!(spell(&styled), spell(&plain));
    assert_eq!(spell(&styled), "  <text x=\"1\" y=\"2\" font-family=\"sans-serif\" font-size=\"12\">p</text>\n");
}
