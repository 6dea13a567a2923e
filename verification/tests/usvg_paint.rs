use ascetic_vis::usvg::{UsvgFill, UsvgGradientShape, UsvgPaint, UsvgStop, UsvgStroke};
use ascetic_vis::{
    AsUsvgFill, AsUsvgNodeWithName, AsUsvgNodeWithStyle, AsUsvgStop, AsUsvgStroke, AsUsvgStyle,
    AsUsvgTheme, Color, Crumb, CrumbId, CrumbItem, Fill, GradSpec, GradientStop, Scene, Stroke,
    Style, StyleId, Theme, UnitPoint,
};
use kurbo::{Circle, Line, Rect, Size, TranslateScale};

fn width_bits(w: f64) -> u64 {
    w.to_bits()
}

#[test]
fn opaque_color_fill_has_no_opacity() {
    let f = Fill::Color(Color::rgb8(1, 2, 3)).as_usvg();
    assert_eq!(f, UsvgFill { paint: UsvgPaint::Color(1, 2, 3), alpha: None });
}

#[test]
fn translucent_color_fill_keeps_alpha() {
    let f = Fill::Color(Color::rgba8(1, 2, 3, 0x80)).as_usvg();
    assert_eq!(f, UsvgFill { paint: UsvgPaint::Color(1, 2, 3), alpha: Some(0x80) });
}

#[test]
fn gradient_fills_link_by_name() {
    let f = Fill::Linear("sky".to_string()).as_usvg();
    assert_eq!(f, UsvgFill { paint: UsvgPaint::Link("sky".to_string()), alpha: None });
    let f = Fill::Radial("sun".to_string()).as_usvg();
    assert_eq!(f, UsvgFill { paint: UsvgPaint::Link("sun".to_string()), alpha: None });
}

#[test]
fn stroke_paint_and_width() {
    let s = Stroke::new().with_brush(Color::rgba8(9, 8, 7, 6)).with_width(width_bits(2.5)).as_usvg();
    assert_eq!(s, UsvgStroke { rgb: (9, 8, 7), alpha: Some(6), width_bits: width_bits(2.5) });
    let s = Stroke::new().as_usvg();
    assert_eq!(s, UsvgStroke { rgb: (0, 0, 0), alpha: None, width_bits: width_bits(1.0) });
}

#[test]
fn stop_offset_and_color() {
    let stop = GradientStop { pos_bits: 0.25f32.to_bits(), color: Color::rgba8(4, 5, 6, 255) };
    assert_eq!(
        stop.as_usvg(),
        UsvgStop { offset_bits: 0.25f32.to_bits(), rgb: (4, 5, 6), alpha: None }
    );
}

#[test]
fn style_converts_fill_and_stroke() {
    let style = Style::new().with_fill(Fill::Color(Color::rgb8(1, 1, 1)));
    let (fill, stroke) = style.as_usvg();
    assert_eq!(fill, Some(UsvgFill { paint: UsvgPaint::Color(1, 1, 1), alpha: None }));
    assert_eq!(stroke, None);
}

fn theme_with_styles() -> Theme {
    Theme::new()
        .with_default_style(Style::new().with_stroke(Stroke::new().with_width(width_bits(3.0))))
        .with_named_styles(vec![
            ("plain".to_string(), Style::new()),
            (
                "red".to_string(),
                Style::new()
                    .with_stroke(Stroke::new().with_brush(Color::rgb8(255, 0, 0)))
                    .with_fill(Fill::Color(Color::rgb8(0, 255, 0))),
            ),
        ])
}

#[test]
fn theme_style_and_stroke_lookup() {
    let theme = theme_with_styles();
    let (fill, stroke) = theme.get_style_as_usvg(None);
    assert_eq!((fill, stroke), (None, None));
    let (fill, stroke) = theme.get_style_as_usvg(Some(StyleId(1)));
    assert_eq!(fill, Some(UsvgFill { paint: UsvgPaint::Color(0, 255, 0), alpha: None }));
    assert_eq!(stroke, Some(UsvgStroke { rgb: (255, 0, 0), alpha: None, width_bits: width_bits(1.0) }));

    // A style without a stroke falls back on the default style's stroke.
    assert_eq!(
        theme.get_stroke_as_usvg(Some(StyleId(0))),
        Some(UsvgStroke { rgb: (0, 0, 0), alpha: None, width_bits: width_bits(3.0) })
    );
    assert_eq!(
        theme.get_stroke_as_usvg(Some(StyleId(7))),
        Some(UsvgStroke { rgb: (0, 0, 0), alpha: None, width_bits: width_bits(3.0) })
    );
    assert_eq!(Theme::new().get_stroke_as_usvg(None), None);
}

#[test]
fn background_is_white_by_default() {
    let fill = Theme::new().get_background_as_usvg();
    assert_eq!(fill, UsvgFill { paint: UsvgPaint::Color(255, 255, 255), alpha: None });
    let theme = Theme::new().with_scene_style(Style::new().with_fill(Fill::Color(Color::rgba8(1, 2, 3, 4))));
    assert_eq!(
        theme.get_background_as_usvg(),
        UsvgFill { paint: UsvgPaint::Color(1, 2, 3), alpha: Some(4) }
    );
}

#[test]
fn gradient_definition_under_a_name() {
    let stops = vec![
        GradientStop { pos_bits: 0.0f32.to_bits(), color: Color::rgb8(0, 0, 0) },
        GradientStop { pos_bits: 1.0f32.to_bits(), color: Color::rgba8(255, 255, 255, 0) },
    ];
    let start = UnitPoint::new(0.0f64.to_bits(), 0.5f64.to_bits());
    let end = UnitPoint::new(1.0f64.to_bits(), 0.5f64.to_bits());
    let node = GradSpec::Linear(start, end, stops.clone()).as_usvg_node_with_name("fade");
    assert_eq!(node.id, "fade");
    assert!(matches!(node.shape, UsvgGradientShape::Linear(_, _)));
    assert_eq!(node.stops.len(), 2);
    assert_eq!(node.stops[1], UsvgStop { offset_bits: 1.0f32.to_bits(), rgb: (255, 255, 255), alpha: Some(0) });

    let node = GradSpec::Radial(0.5f64.to_bits(), stops).as_usvg_node_with_name("glow");
    assert_eq!(node.id, "glow");
    assert!(matches!(node.shape, UsvgGradientShape::Radial(r) if r == 0.5f64.to_bits()));
}

#[test]
fn crumbs_give_path_paint() {
    let theme = theme_with_styles();
    let line = Crumb::Line(Line::new((0.0, 0.0), (1.0, 1.0)));
    // Lines are stroked, never filled, even in a filled style.
    let (fill, stroke) = line.as_usvg_node_with_style(Some(StyleId(1)), &theme).unwrap();
    assert_eq!(fill, None);
    assert_eq!(stroke, Some(UsvgStroke { rgb: (255, 0, 0), alpha: None, width_bits: width_bits(1.0) }));

    // Rectangles take the id's own style only.
    let rect = Crumb::Rect(Rect::new(0.0, 0.0, 1.0, 1.0));
    assert_eq!(rect.as_usvg_node_with_style(None, &theme), Some((None, None)));

    // Pins give no node.
    let pin = Crumb::Pin(Circle::new((0.0, 0.0), 1.0));
    assert!(pin.as_usvg_node_with_style(None, &theme).is_none());
}

#[test]
fn scene_paths_in_order_and_missing_crumbs() {
    let theme = theme_with_styles();
    let mut scene = Scene::new(Size::new(10.0, 10.0));
    let a = scene.add_line(Line::new((0.0, 0.0), (1.0, 1.0)));
    let b = scene.add_crumb(Crumb::Pin(Circle::new((0.0, 0.0), 1.0)));
    let ts = TranslateScale::default();
    let items = vec![(1, CrumbItem(a, ts, None)), (1, CrumbItem(b, ts, None))];
    let paths = scene.as_usvg_paths(&items, &theme).unwrap();
    assert_eq!(paths.len(), 1);
    assert_eq!((paths[0].0).0, a);

    let items = vec![(1, CrumbItem(a, ts, None)), (1, CrumbItem(CrumbId(9), ts, None))];
    let err = scene.as_usvg_paths(&items, &theme).unwrap_err();
    assert!(matches!(err.inner, ascetic_vis::error::InnerError::CrumbMissingForId(CrumbId(9))));
}
