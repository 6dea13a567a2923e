use ascetic_vis::error::InnerError;
use ascetic_vis::{Crumb, CrumbId, CrumbItem, CrumbSet, Scene, TextLabel};
use kurbo::{Line, Size, TranslateScale};

#[test]
fn crumb_sets_look_up_their_crumbs() {
    let mut s = Scene::new(Size::new(10.0, 10.0));
    let a = s.add_line(Line::new((0.0, 0.0), (1.0, 1.0)));
    let b = s.add_crumb(Crumb::Label(TextLabel::new().with_text("x")));
    let ts = TranslateScale::default();
    let set = CrumbSet::from_items(vec![
        (1, CrumbItem(a, ts, None)),
        (2, CrumbItem(CrumbId(7), ts, None)),
        (1, CrumbItem(b, ts, None)),
    ]);
    let found = set.get_crumbs(&s);
    assert_eq!(found.len(), 3);
    assert!(matches!(found[0], Ok((Crumb::Line(_), _, None))));
    assert!(matches!(&found[1], Err(e) if matches!(e.inner, InnerError::CrumbMissingForId(CrumbId(7)))));
    assert!(matches!(found[2], Ok((Crumb::Label(_), _, None))));
}

#[test]
fn label_items_stop_at_a_missing_crumb() {
    let mut s = Scene::new(Size::new(10.0, 10.0));
    let a = s.add_crumb(Crumb::Label(TextLabel::new()));
    let b = s.add_line(Line::new((0.0, 0.0), (1.0, 1.0)));
    let c = s.add_crumb(Crumb::Label(TextLabel::new()));
    let ts = TranslateScale::default();
    let set = CrumbSet::from_items(vec![(1, CrumbItem(a, ts, None)), (1, CrumbItem(b, ts, None)), (1, CrumbItem(c, ts, None))]);
    let (labels, r) = set.label_items(&s);
    assert!(r.is_ok());
    assert_eq!(labels.iter().map(|i| i.0).collect::<Vec<_>>(), vec![a, c]);

    let set = CrumbSet::from_items(vec![(1, CrumbItem(a, ts, None)), (1, CrumbItem(CrumbId(9), ts, None)), (1, CrumbItem(c, ts, None))]);
    let (labels, r) = set.label_items(&s);
    assert_eq!(labels.iter().map(|i| i.0).collect::<Vec<_>>(), vec![a]);
    assert!(matches!(r.unwrap_err().inner, InnerError::CrumbMissingForId(CrumbId(9))));
}
