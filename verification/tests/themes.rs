use ascetic_vis::{Color, Fill, GradSpec, GradientStop, Stroke, Style, StyleId, Theme, UnitPoint};

fn stops() -> Vec<GradientStop> {
    vec![
        GradientStop { pos_bits: 0.0f32.to_bits(), color: Color::black() },
        GradientStop { pos_bits: 1.0f32.to_bits(), color: Color::white() },
    ]
}

#[test]
fn named_styles_are_found_by_name() {
    let theme = Theme::new().with_named_styles(vec![
        ("a".to_string(), Style::new()),
        ("b".to_string(), Style::new().with_stroke(Stroke::new())),
    ]);
    assert_eq!(theme.get("a"), Some(StyleId(0)));
    assert_eq!(theme.get("b"), Some(StyleId(1)));
    assert_eq!(theme.get("c"), None);
    assert!(theme.get_style(Some(StyleId(1))).unwrap().get_stroke().is_some());
    assert!(theme.get_stroke(Some(StyleId(0))).is_none());
    assert!(theme.get_style(Some(StyleId(2))).is_none());
    assert!(theme.get_style(None).is_none());
}

#[test]
fn a_name_given_twice_refers_to_the_later_style() {
    let theme = Theme::new()
        .with_named_styles(vec![("x".to_string(), Style::new())])
        .with_named_styles(vec![
            ("y".to_string(), Style::new()),
            ("x".to_string(), Style::new().with_fill(Fill::Color(Color::black()))),
        ]);
    assert_eq!(theme.get("x"), Some(StyleId(2)));
    assert_eq!(theme.get("y"), Some(StyleId(1)));
    assert!(theme.get_style(theme.get("x")).unwrap().get_fill().is_some());
}

#[test]
fn default_style_and_background() {
    let theme = Theme::new();
    assert!(theme.get_default_style().is_some());
    assert!(theme.get_default_stroke().is_none());
    assert_eq!(theme.get_bg_color(), Color::white());
    let theme = Theme::new()
        .with_default_style(Style::new().with_stroke(Stroke::new()))
        .with_scene_style(Style::new().with_fill(Fill::Color(Color::rgb8(1, 2, 3))));
    assert!(theme.get_default_stroke().is_some());
    assert_eq!(theme.get_bg_color(), Color::rgb8(1, 2, 3));
    // A gradient background is not a color: the background stays white.
    let theme = Theme::new().with_scene_style(Style::new().with_fill(Fill::Linear("g".to_string())));
    assert_eq!(theme.get_bg_color(), Color::white());
}

#[test]
fn gradients_are_found_by_name() {
    let p = UnitPoint::new(0.0f64.to_bits(), 0.0f64.to_bits());
    let q = UnitPoint::new(1.0f64.to_bits(), 1.0f64.to_bits());
    let theme = Theme::new().with_gradients(
        vec![("lin".to_string(), p, q, stops())],
        vec![("rad".to_string(), 0.5f64.to_bits(), stops()), ("lin".to_string(), 0.25f64.to_bits(), stops())],
    );
    // The radial gradient named like the linear one replaces it among the
    // named gradients, but both stay under their own kinds.
    assert!(matches!(theme.get_gradspec("lin"), Some(GradSpec::Radial(r, _)) if *r == 0.25f64.to_bits()));
    assert!(matches!(theme.get_gradspec("rad"), Some(GradSpec::Radial(_, _))));
    assert!(matches!(theme.get_linear_gradient("lin"), Some(GradSpec::Linear(_, _, _))));
    assert!(matches!(theme.get_radial_gradient("lin"), Some(GradSpec::Radial(_, _))));
    assert!(theme.get_gradspec("none").is_none());
    assert_eq!(theme.get_named_gradspecs().len(), 2);
    assert_eq!(theme.get_linear_gradients().len(), 1);
    assert_eq!(theme.get_radial_gradients().len(), 2);
}
