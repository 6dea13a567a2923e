use ascetic_vis::error::InnerError;
use ascetic_vis::font::{FontWeight, DEFAULT_SIZE_BITS};
use ascetic_vis::{
    AsCss, Color, Crumb, CrumbId, Fill, Font, GenericFontFamily, Group, GroupId, Marker, Stroke,
    Style, VisError,
};
use kurbo::Line;

#[test]
fn generic_families_as_css() {
    assert_eq!(GenericFontFamily::Serif.as_css(), "serif");
    assert_eq!(GenericFontFamily::SansSerif.as_css(), "sans-serif");
    assert_eq!(GenericFontFamily::Cursive.as_css(), "cursive");
    assert_eq!(GenericFontFamily::Monospace.as_css(), "monospace");
    assert_eq!(GenericFontFamily::Unspecified.as_css(), "");
}

#[test]
fn font_family_names() {
    let f = Font::new("Fira").with_names(vec!["Noto".to_string()]);
    assert_eq!(f.get_family_name(), "Fira");
    assert_eq!(Font::new_serif().get_family_name(), "serif");
    assert_eq!(Font::new_monospace().get_size(), DEFAULT_SIZE_BITS);
    assert_eq!(DEFAULT_SIZE_BITS, 12.0f64.to_bits());
}

#[test]
fn font_weights() {
    assert_eq!(FontWeight::Normal.as_number(), 400);
    assert_eq!(FontWeight::Bold.as_number(), 700);
    assert_eq!(FontWeight::Number(250).as_number(), 250);
    let mut f = Font::new_serif().with_size(3.0f64.to_bits());
    f.set_weight(5000);
    assert_eq!(f.get_size(), 3.0f64.to_bits());
}

#[test]
fn strokes() {
    let s = Stroke::new();
    assert_eq!(*s.get_brush(), Color::black());
    assert_eq!(s.get_width(), 1.0f64.to_bits());
    let mut s = s.with_width(2.0f64.to_bits()).with_brush(Color::white());
    assert_eq!(*s.get_brush(), Color::white());
    *s.get_mut_brush() = Color::rgb8(1, 2, 3);
    assert_eq!(*s.get_brush(), Color::rgb8(1, 2, 3));
    assert_eq!(s.get_width(), 2.0f64.to_bits());
}

#[test]
fn style_parts() {
    let mut style = Style::new()
        .with_named_stroke("outline")
        .with_named_fill("paper")
        .with_fill(Fill::Color(Color::rgb8(1, 1, 1)));
    assert_eq!(style.get_stroke_name(), Some("outline"));
    assert_eq!(style.get_fill_name(), Some("paper"));
    assert_eq!(style.get_fill_color(), Some(&Color::rgb8(1, 1, 1)));
    assert!(style.get_fill_gradient_name().is_none());
    style.set_fill(Fill::Radial("sun".to_string()));
    assert_eq!(style.get_fill_gradient_name(), Some("sun"));
    assert!(style.get_fill_color().is_none());
    style.clear_fill();
    assert!(style.get_fill().is_none());
    style.set_stroke(Stroke::new());
    if let Some(s) = style.get_mut_stroke() {
        s.set_width(5.0f64.to_bits());
    }
    assert_eq!(style.get_stroke().unwrap().get_width(), 5.0f64.to_bits());
    style.clear_stroke();
    assert!(style.get_stroke().is_none());
    assert!(matches!(Fill::default(), Fill::Color(c) if c == Color::white()));
}

#[test]
fn markers() {
    let m = Marker::new(Crumb::Line(Line::new((0.0, 0.0), (1.0, 0.0))))
        .with_size(4.0f64.to_bits(), 3.0f64.to_bits())
        .with_refxy(1.0f64.to_bits(), 2.0f64.to_bits())
        .with_named_style("tip");
    assert_eq!(m.get_width(), 4.0f64.to_bits());
    assert_eq!(m.get_height(), 3.0f64.to_bits());
    assert_eq!(m.get_refx(), 1.0f64.to_bits());
    assert_eq!(m.get_refy(), 2.0f64.to_bits());
    assert_eq!(m.get_orient(), None);
    assert_eq!(m.get_style_name(), Some("tip"));
    assert!(matches!(m.get_crumb(), Crumb::Line(_)));
}

#[test]
fn groups() {
    let mut g = Group::from_crumb_ids(vec![(CrumbId(1), None)]).with_group_id(GroupId(2)).with_name("g");
    g.add_crumb(CrumbId(3), None);
    assert_eq!(g.get_crumb_items().len(), 2);
    assert_eq!(g.get_group_items().len(), 1);
    assert_eq!(g.get_group_items()[0].0, GroupId(2));
    assert_eq!(g.get_name(), Some("g"));
    g.set_name("h");
    assert_eq!(g.get_name(), Some("h"));
}

#[test]
fn errors() {
    let e = VisError::crumb_missing_for_id(CrumbId(3));
    assert!(matches!(e.inner, InnerError::CrumbMissingForId(CrumbId(3))));
    assert!(e.details.is_none());
    let e = VisError::group_missing_for_id(GroupId(1)).with_string("while drawing".to_string());
    assert!(matches!(e.inner, InnerError::GroupMissingForId(GroupId(1))));
    assert_eq!(e.details.as_deref(), Some("while drawing"));
    let e: VisError = InnerError::LayerMissingForId(GroupId(4)).into();
    assert!(matches!(e.inner, InnerError::LayerMissingForId(GroupId(4))));
}
