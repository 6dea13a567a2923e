use ascetic_vis::joint::{curve_kind, CurveKind, JointBuilder, JointPlan, JointShape};
use ascetic_vis::{Crumb, GroupId, Scene, Stroke, Style, StyleId, Theme};
use kurbo::{Circle, Line, Size};

#[test]
fn curve_shapes_follow_the_pull_points() {
    assert_eq!(curve_kind(&[]), CurveKind::Straight);
    assert_eq!(curve_kind(&[(1, 2)]), CurveKind::Quad((1, 2)));
    assert_eq!(curve_kind(&[(1, 2), (3, 4), (5, 6)]), CurveKind::Cubic((1, 2), (5, 6)));
}

#[test]
fn joint_ends_are_circles_with_borders() {
    let theme = Theme::new().with_named_styles(vec![(
        "thick".to_string(),
        Style::new().with_stroke(Stroke::new().with_width(4.0f64.to_bits())),
    )]);
    let mut s = Scene::new(Size::new(10.0, 10.0));
    let tails = s.add_grouped_crumbs(vec![(Crumb::Circle(Circle::new((1.0, 1.0), 2.0)), Some(StyleId(0)))]);
    let heads = s.add_grouped_crumbs(vec![
        (Crumb::Pin(Circle::new((5.0, 5.0), 1.0)), None),
        (Crumb::Line(Line::new((0.0, 0.0), (1.0, 1.0))), None),
    ]);
    let ends = s.joint_ends(&theme, (tails, 0), (heads, 0)).unwrap();
    assert_eq!(ends.tail.radius, 2.0);
    assert_eq!(ends.tail_border_bits, 4.0f64.to_bits());
    assert_eq!(ends.head.radius, 1.0);
    assert_eq!(ends.head_border_bits, 0);
    assert!(s.joint_ends(&theme, (tails, 0), (heads, 1)).is_none());
    assert!(s.joint_ends(&theme, (tails, 1), (heads, 0)).is_none());
    assert!(s.joint_ends(&theme, (GroupId(9), 0), (heads, 0)).is_none());
}

#[test]
fn joint_builders_collect_joints() {
    let s = Scene::new(Size::new(10.0, 10.0));
    let b = s
        .join(GroupId(0), GroupId(1))
        .with_lines(None, vec![(0, 0)])
        .with_curves(Some(StyleId(2)), vec![(0, 1, vec![(1, 1)])]);
    assert_eq!(b.get_tail_group(), GroupId(0));
    assert_eq!(b.get_head_group(), GroupId(1));
    assert_eq!(b.get_joints().len(), 2);
    assert_eq!(b.get_joints()[1].0, Some(StyleId(2)));
}

#[test]
fn planning_follows_requests_in_order() {
    let (t, h) = (GroupId(1), GroupId(2));
    let builder = JointBuilder::new(t, h)
        .with_lines(Some(StyleId(0)), vec![(0, 1), (2, 3)])
        .with_arcs(None, vec![(4, 5, 7)])
        .with_curves(Some(StyleId(3)), vec![(6, 7, vec![]), (8, 9, vec![(1, 2), (3, 4)])])
        .with_polylines(None, vec![(1, 1, vec![(5, 6)])]);
    let plan = builder.plan();
    let expected = vec![
        JointPlan { style_id: Some(StyleId(0)), tail: (t, 0), head: (h, 1), shape: JointShape::Line },
        JointPlan { style_id: Some(StyleId(0)), tail: (t, 2), head: (h, 3), shape: JointShape::Line },
        JointPlan { style_id: None, tail: (t, 4), head: (h, 5), shape: JointShape::Arc(7) },
        JointPlan { style_id: Some(StyleId(3)), tail: (t, 6), head: (h, 7), shape: JointShape::Curve(CurveKind::Straight) },
        JointPlan {
            style_id: Some(StyleId(3)),
            tail: (t, 8),
            head: (h, 9),
            shape: JointShape::Curve(CurveKind::Cubic((1, 2), (3, 4))),
        },
        JointPlan { style_id: None, tail: (t, 1), head: (h, 1), shape: JointShape::Polyline(CurveKind::Quad((5, 6))) },
    ];
    assert_eq!(plan, expected);
}

#[test]
fn an_empty_builder_plans_nothing() {
    assert!(JointBuilder::new(GroupId(0), GroupId(0)).plan().is_empty());
}
