use ascetic_vis::font::Font;
use ascetic_vis::text::{Anchor, Item};
use ascetic_vis::{Crumb, PreprocessWithStyle, Style, TextLabel, Theme};
use kurbo::{Point, TranslateScale};

#[test]
fn building_a_label() {
    let label = TextLabel::new()
        .with_text("hello")
        .with_origin(Point::new(1.0, 2.0))
        .with_end_anchor()
        .with_dy(vec![3.0f64.to_bits()])
        .with_font_size(20.0f64.to_bits());
    assert!(label.is_root());
    assert_eq!(label.get_origin(), Some(Point::new(1.0, 2.0)));
    assert_eq!(label.get_anchor(), Anchor::End);
    assert_eq!(label.get_dy(), &[3.0f64.to_bits()]);
    assert!(label.get_dx().is_empty());
    assert_eq!(label.get_font_size(), Some(20.0f64.to_bits()));
    assert!(label.get_font().is_none());
    assert!(matches!(&label.get_body()[0], Item::Text(t) if t == "hello"));
}

#[test]
fn spans_are_not_roots() {
    let label = TextLabel::new().with_text("a").with_span(TextLabel::new().with_text("b"));
    assert_eq!(label.get_body().len(), 2);
    assert!(matches!(&label.get_body()[1], Item::Span(s) if !s.is_root()));
}

#[test]
fn font_size_applies_to_an_explicit_font() {
    let label = TextLabel::new().with_font(Font::new("Fira")).with_font_size(30.0f64.to_bits());
    assert_eq!(label.get_font().unwrap().get_size(), 30.0f64.to_bits());
    assert_eq!(label.get_font().unwrap().get_family_name(), "Fira");
}

#[test]
fn preprocessing_settles_fonts_from_the_style() {
    let theme = Theme::new();
    let style = Style::new().with_font(Font::new_serif());
    let mut label = TextLabel::new()
        .with_text("a")
        .with_font_size(14.0f64.to_bits())
        .with_span(TextLabel::new().with_text("b"));
    label.preprocess_with_style(TranslateScale::default(), Some(&style), &theme).unwrap();
    let font = label.get_font().unwrap();
    assert_eq!(font.get_family_name(), "serif");
    assert_eq!(font.get_size(), 14.0f64.to_bits());
    match &label.get_body()[1] {
        Item::Span(span) => {
            let f = span.get_font().unwrap();
            assert_eq!(f.get_family_name(), "serif");
            assert_eq!(f.get_size(), ascetic_vis::font::DEFAULT_SIZE_BITS);
        }
        _ => panic!("expected a span"),
    }
}

#[test]
fn preprocessing_without_a_style_uses_sans_serif() {
    let theme = Theme::new();
    let mut label = TextLabel::new().with_text("a");
    label.preprocess_with_style(TranslateScale::default(), None, &theme).unwrap();
    assert_eq!(label.get_font().unwrap().get_family_name(), "sans-serif");
}

#[test]
fn explicit_fonts_stay() {
    let theme = Theme::new();
    let style = Style::new().with_font(Font::new_monospace());
    let mut crumb = Crumb::Label(TextLabel::new().with_text("a").with_font(Font::new("Fira")));
    crumb.preprocess_with_style(TranslateScale::default(), Some(&style), &theme).unwrap();
    match &crumb {
        Crumb::Label(l) => assert_eq!(l.get_font().unwrap().get_family_name(), "Fira"),
        _ => panic!("expected a label"),
    }
}

#[test]
fn preprocessing_twice_changes_nothing() {
    let theme = Theme::new();
    let style = Style::new().with_font(Font::new_cursive());
    let mut label = TextLabel::new().with_text("a").with_font_size(9.0f64.to_bits());
    label.preprocess_with_style(TranslateScale::default(), Some(&style), &theme).unwrap();
    let once = (label.get_font().unwrap().get_family_name().to_string(), label.get_font().unwrap().get_size());
    label.preprocess_with_style(TranslateScale::default(), Some(&style), &theme).unwrap();
    let twice = (label.get_font().unwrap().get_family_name().to_string(), label.get_font().unwrap().get_size());
    assert_eq!(once, twice);
    assert_eq!(once, ("cursive".to_string(), 9.0f64.to_bits()));
}
