use ascetic_vis::{Color, Figure, GradSpec, GradientStop, Piece, UnitPoint};

fn value(figure: &Figure) -> String {
    match figure {
        Figure::Bits(bits) => format!("{}", f64::from_bits(*bits)),
        Figure::X(p) => format!("{}", p.x),
        Figure::Y(p) => format!("{}", p.y),
        Figure::Scaled(ts, bits) => format!("{}", ts.as_tuple().1 * f64::from_bits(*bits)),
        Figure::Across(bits) => format!("{}", 0. + f64::from_bits(*bits) * 100.),
        Figure::Hundredfold(bits) => format!("{}", f64::from_bits(*bits) * 100.),
        Figure::Single(bits) => format!("{}", f32::from_bits(*bits)),
    }
}

fn spell(pieces: &[Piece]) -> String {
    let mut out = String::new();
    for piece in pieces {
        match piece {
            Piece::Bytes(bytes) => out.push_str(std::str::from_utf8(bytes).unwrap()),
            Piece::Figure(figure) => out.push_str(&value(figure)),
        }
    }
    out
}

#[test]
fn linear_gradient_definition() {
    let g = GradSpec::Linear(
        UnitPoint::new(0.0f64.to_bits(), 0.5f64.to_bits()),
        UnitPoint::new(1.0f64.to_bits(), 0.25f64.to_bits()),
        vec![
            GradientStop { pos_bits: 0.5f32.to_bits(), color: Color::rgba8(255, 0, 0, 255) },
            GradientStop { pos_bits: 1.0f32.to_bits(), color: Color::rgba8(0, 0x80, 0xff, 0) },
        ],
    );
    let mut pieces = Vec::new();
    g.write_svg_with_name(&mut pieces, "g");
    assert_eq!(
        spell(&pieces),
        "    <linearGradient id=\"g\" x1=\"0%\" y1=\"50%\" x2=\"100%\" y2=\"25%\">\n\
         \x20     <stop offset=\"0.5\" stop-color=\"#ff0000\" stop-opacity=\"1.000\"/>\n\
         \x20     <stop offset=\"1\" stop-color=\"#0080ff\" stop-opacity=\"0.000\"/>\n\
         \x20   </linearGradient>\n"
    );
    assert!(matches!(&pieces[3], Piece::Figure(Figure::Across(b)) if *b == 0.0f64.to_bits()));
}

#[test]
fn radial_gradient_definition() {
    let g = GradSpec::Radial(0.5f64.to_bits(), vec![]);
    let mut pieces = Vec::new();
    g.write_svg_with_name(&mut pieces, "r");
    assert_eq!(spell(&pieces), "    <radialGradient id=\"r\" r=\"50%\">\n    </radialGradient>\n");
}
