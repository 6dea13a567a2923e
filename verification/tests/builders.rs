use ascetic_vis::error::InnerError;
use ascetic_vis::text::Item;
use ascetic_vis::{Crumb, CrumbId, Group, GroupId, NodeLabelBuilder, PinBuilder, Scene};
use kurbo::{Circle, Line, Point, Size, Vec2};

fn scene_with_nodes() -> (Scene, GroupId) {
    let mut s = Scene::new(Size::new(100.0, 100.0));
    let g = s.add_grouped_crumbs(vec![
        (Crumb::Circle(Circle::new((10.0, 10.0), 5.0)), None),
        (Crumb::Circle(Circle::new((20.0, 30.0), 5.0)), None),
        (Crumb::Line(Line::new((0.0, 0.0), (1.0, 1.0))), None),
    ]);
    (s, g)
}

fn pin_center(s: &Scene, id: CrumbId) -> Point {
    match s.get_crumb(id) {
        Some(Crumb::Pin(c)) => {
            assert_eq!(c.radius, 35.0);
            c.center
        }
        _ => panic!("expected a pin"),
    }
}

#[test]
fn pins_at_group_indices_with_offsets() {
    let (mut s, g) = scene_with_nodes();
    let mut b = PinBuilder::new()
        .with_name("pins")
        .with_group(g)
        .with_indices(vec![1, 0])
        .unwrap()
        .with_offsets(vec![Vec2::new(1.0, 2.0)])
        .unwrap();
    let pins = b.build(&mut s).unwrap();
    assert_eq!(pins, GroupId(1));
    let group = s.get_group(pins).unwrap();
    assert_eq!(group.get_name(), Some("pins"));
    let items = group.get_crumb_items();
    assert_eq!(items.len(), 2);
    assert_eq!(items[0].0, CrumbId(3));
    assert_eq!(items[1].0, CrumbId(4));
    assert_eq!(pin_center(&s, CrumbId(3)), Point::new(21.0, 32.0));
    assert_eq!(pin_center(&s, CrumbId(4)), Point::new(10.0, 10.0));
}

#[test]
fn pins_by_crumb_ids() {
    let (mut s, _) = scene_with_nodes();
    let mut b = PinBuilder::new().with_crumb_ids(vec![CrumbId(1)]).unwrap();
    // Without a group nothing is resolved, and the pin cannot be placed.
    let e = b.build(&mut s).unwrap_err();
    assert!(matches!(&e.inner, InnerError::BuilderUnresolved(n) if n == "Pin"));
    let mut b = PinBuilder::new().with_group(GroupId(0)).with_crumb_ids(vec![CrumbId(1)]).unwrap();
    let g = b.build(&mut s).unwrap();
    let id = s.get_group(g).unwrap().get_crumb_items()[0].0;
    assert_eq!(pin_center(&s, id), Point::new(20.0, 30.0));
}

#[test]
fn more_entries_than_pins_overflow() {
    let b = PinBuilder::new().with_indices(vec![0]).unwrap();
    let e = b.with_indices(vec![0, 1]).unwrap_err();
    assert!(matches!(&e.inner, InnerError::BuilderOverflow(n, 1) if n == "pins"));
    let b = PinBuilder::new().with_indices(vec![0]).unwrap();
    let e = b.with_offsets(vec![Vec2::new(0.0, 0.0), Vec2::new(0.0, 0.0)]).unwrap_err();
    assert!(matches!(&e.inner, InnerError::BuilderOverflow(n, 1) if n == "pins"));
}

#[test]
fn resolution_errors() {
    let (mut s, g) = scene_with_nodes();
    let mut b = PinBuilder::new().with_group(g).with_indices(vec![0, 9]).unwrap();
    let e = b.build(&mut s).unwrap_err();
    assert!(matches!(e.inner, InnerError::CrumbsOfAGroupOverflow(gid, 9) if gid == g));
    assert_eq!(s.get_group(GroupId(1)).is_none(), true);

    let mut b = PinBuilder::new().with_group(g).with_indices(vec![2]).unwrap();
    let e = b.build(&mut s).unwrap_err();
    assert!(matches!(&e.inner, InnerError::CrumbMismatch(n, Crumb::Line(_), CrumbId(2)) if n == "Circle"));

    let mut b = PinBuilder::new().with_group(GroupId(5)).with_indices(vec![0]).unwrap();
    let e = b.build(&mut s).unwrap_err();
    assert!(matches!(e.inner, InnerError::GroupMissingForId(GroupId(5))));

    let mut t = Scene::new(Size::new(1.0, 1.0));
    let g = t.add_group(Group::from_crumb_ids(vec![(CrumbId(4), None)]));
    let mut b = PinBuilder::new().with_group(g).with_indices(vec![0]).unwrap();
    let e = b.build(&mut t).unwrap_err();
    assert!(matches!(e.inner, InnerError::CrumbMissingForId(CrumbId(4))));
}

#[test]
fn node_labels_with_spans() {
    let (mut s, g) = scene_with_nodes();
    let mut b = NodeLabelBuilder::new(vec!["a", "b"])
        .with_name("names")
        .with_group(g)
        .with_spans(vec!["up", ""], vec!["", "down"])
        .unwrap();
    let labels = b.build(&mut s).unwrap();
    let items = s.get_group(labels).unwrap().get_crumb_items().to_vec();
    assert_eq!(items.len(), 2);
    match s.get_crumb(items[0].0) {
        Some(Crumb::Label(l)) => {
            assert_eq!(l.get_origin(), Some(Point::new(10.0, 10.0)));
            assert_eq!(l.get_font_size(), Some(28.0f64.to_bits()));
            assert_eq!(l.get_body().len(), 2);
            assert!(matches!(&l.get_body()[0], Item::Text(t) if t == "a"));
            match &l.get_body()[1] {
                Item::Span(span) => {
                    assert_eq!(span.get_dy(), &[(-16.0f64).to_bits()]);
                    assert_eq!(span.get_font_size(), Some(22.0f64.to_bits()));
                    assert!(matches!(&span.get_body()[0], Item::Text(t) if t == "up"));
                }
                _ => panic!("expected a span"),
            }
        }
        _ => panic!("expected a label"),
    }
    match s.get_crumb(items[1].0) {
        Some(Crumb::Label(l)) => {
            assert_eq!(l.get_body().len(), 2);
            match &l.get_body()[1] {
                Item::Span(span) => assert_eq!(span.get_dy(), &[12.0f64.to_bits()]),
                _ => panic!("expected a span"),
            }
        }
        _ => panic!("expected a label"),
    }
}

#[test]
fn node_label_overflows() {
    let b = NodeLabelBuilder::new(vec!["a"]);
    let e = b.with_spans(vec!["x", "y"], vec![]).unwrap_err();
    assert!(matches!(&e.inner, InnerError::BuilderOverflow(n, 1) if n == "labels"));
    let b = NodeLabelBuilder::new(vec!["a"]);
    let e = b.with_crumb_ids(vec![CrumbId(0), CrumbId(1)]).unwrap_err();
    assert!(matches!(&e.inner, InnerError::BuilderOverflow(n, 1) if n == "labels"));
}

#[test]
fn node_labels_without_a_group_are_unresolved() {
    let (mut s, _) = scene_with_nodes();
    let mut b = NodeLabelBuilder::new(vec!["a"]);
    let e = b.build(&mut s).unwrap_err();
    assert!(matches!(&e.inner, InnerError::BuilderUnresolved(n) if n == "Label"));
}

#[test]
fn pins_without_offsets_are_moved_by_the_zero_vector() {
    let mut s = Scene::new(Size::new(100.0, 100.0));
    let g = s.add_grouped_crumbs(vec![(Crumb::Circle(Circle::new((-0.0, 3.0), 5.0)), None)]);
    let mut b = PinBuilder::new().with_group(g).with_indices(vec![0]).unwrap();
    let pins = b.build(&mut s).unwrap();
    let id = s.get_group(pins).unwrap().get_crumb_items()[0].0;
    let center = pin_center(&s, id);
    assert_eq!(center, Point::new(0.0, 3.0));
    assert!(center.x.is_sign_positive());
}
