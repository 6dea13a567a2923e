use ascetic_vis::error::InnerError;
use ascetic_vis::{Crumb, CrumbId, Group, GroupId, GroupItem, Scene, StyleId};
use kurbo::{Circle, Line, Rect, Size, TranslateScale};

fn scene() -> Scene {
    Scene::new(Size::new(100.0, 100.0))
}

#[test]
fn crumbs_get_sequential_ids() {
    let mut s = scene();
    let a = s.add_line(Line::new((0.0, 0.0), (1.0, 1.0)));
    let b = s.add_rect(Rect::new(0.0, 0.0, 2.0, 2.0));
    let c = s.add_circle(Circle::new((5.0, 5.0), 1.0));
    assert_eq!((a, b, c), (CrumbId(0), CrumbId(1), CrumbId(2)));
    assert!(matches!(s.get_crumb(b), Some(Crumb::Rect(_))));
    assert!(s.get_crumb(CrumbId(3)).is_none());
}

#[test]
fn grouped_lines_get_a_group() {
    let mut s = scene();
    let g = s.add_grouped_lines(vec![
        (Line::new((0.0, 0.0), (1.0, 0.0)), Some(StyleId(1))),
        (Line::new((0.0, 0.0), (0.0, 1.0)), None),
    ]);
    assert_eq!(g, GroupId(0));
    let items = s.get_group(g).unwrap().get_crumb_items();
    assert_eq!(items.len(), 2);
    assert_eq!(items[0].0, CrumbId(0));
    assert_eq!(items[0].2, Some(StyleId(1)));
    assert_eq!(items[1].0, CrumbId(1));
    assert_eq!(items[1].2, None);
}

#[test]
fn named_crumbs_group_is_named() {
    let mut s = scene();
    let g = s.add_named_crumbs("axes", vec![(Crumb::Line(Line::new((0.0, 0.0), (1.0, 0.0))), None)]);
    assert_eq!(s.get_group(g).unwrap().get_name(), Some("axes"));
}

fn layered_scene() -> (Scene, GroupId, GroupId, GroupId) {
    let mut s = scene();
    let l0 = s.add_layer(Group::default());
    let l1 = s.add_layer(Group::default());
    let l2 = s.add_layer(Group::default());
    (s, l0, l1, l2)
}

#[test]
fn layers_stack_by_index_then_order() {
    let (mut s, l0, l1, l2) = layered_scene();
    assert_eq!(s.get_layers(), vec![l0, l1, l2]);
    s.set_z_index(l2, 5).unwrap();
    s.set_z_index(l0, -1).unwrap();
    assert_eq!(s.get_layers(), vec![l2, l1, l0]);
    s.set_z_index(l1, 5).unwrap();
    assert_eq!(s.get_layers(), vec![l1, l2, l0]);
}

#[test]
fn hidden_layers_are_not_visible() {
    let (mut s, l0, l1, l2) = layered_scene();
    s.hide_layer(l1).unwrap();
    assert_eq!(s.get_visible_layers(), vec![l0, l2]);
    assert_eq!(s.get_layers(), vec![l0, l1, l2]);
    s.show_layer(l1).unwrap();
    assert_eq!(s.get_visible_layers(), vec![l0, l1, l2]);
}

#[test]
fn layer_operations_on_missing_layers_fail() {
    let (mut s, _, _, _) = layered_scene();
    let e = s.hide_layer(GroupId(42)).unwrap_err();
    assert!(matches!(e.inner, InnerError::LayerMissingForId(GroupId(42))));
    let e = s.set_z_index(GroupId(42), 1).unwrap_err();
    assert!(matches!(e.inner, InnerError::LayerMissingForId(GroupId(42))));
    let e = s.show_layer(GroupId(42)).unwrap_err();
    assert!(matches!(e.inner, InnerError::LayerMissingForId(GroupId(42))));
}

#[test]
fn all_crumbs_lists_subgroups_first_with_levels() {
    let mut s = scene();
    let c0 = s.add_line(Line::new((0.0, 0.0), (1.0, 0.0)));
    let c1 = s.add_line(Line::new((0.0, 0.0), (0.0, 1.0)));
    let c2 = s.add_circle(Circle::new((1.0, 1.0), 1.0));
    let inner = s.add_group(Group::from_crumb_ids(vec![(c2, None)]));
    let _layer = s.add_layer(Group::from_crumb_ids(vec![(c0, None), (c1, Some(StyleId(3)))]).with_group_id(inner));
    let listed = s.all_crumbs(TranslateScale::default()).unwrap();
    let summary: Vec<(usize, CrumbId, Option<StyleId>)> =
        listed.iter().map(|(level, item)| (*level, item.0, item.2)).collect();
    assert_eq!(summary, vec![(2, c2, None), (1, c0, None), (1, c1, Some(StyleId(3)))]);
}

#[test]
fn all_crumbs_respects_stacking_and_visibility() {
    let mut s = scene();
    let a = s.add_line(Line::new((0.0, 0.0), (1.0, 0.0)));
    let b = s.add_line(Line::new((0.0, 0.0), (0.0, 1.0)));
    let la = s.add_layer(Group::from_crumb_ids(vec![(a, None)]));
    let lb = s.add_layer(Group::from_crumb_ids(vec![(b, None)]));
    s.set_z_index(lb, 1).unwrap();
    // Layers are walked top-down and their crumbs listed from the last group
    // reached back: the top layer's crumbs come last, to be drawn over the
    // others.
    let ids: Vec<CrumbId> = s.all_crumbs(TranslateScale::default()).unwrap().iter().map(|(_, i)| i.0).collect();
    assert_eq!(ids, vec![a, b]);
    s.hide_layer(la).unwrap();
    let ids: Vec<CrumbId> =
        s.all_visible_crumbs(TranslateScale::default()).unwrap().iter().map(|(_, i)| i.0).collect();
    assert_eq!(ids, vec![b]);
}

#[test]
fn missing_groups_stop_the_walk() {
    let mut s = scene();
    let _l = s.add_layer(Group::default().with_group_id(GroupId(7)));
    let e = s.all_crumbs(TranslateScale::default()).unwrap_err();
    assert!(matches!(e.inner, InnerError::GroupMissingForId(GroupId(7))));
    let e = s.all_groups().unwrap_err();
    assert!(matches!(e.inner, InnerError::GroupMissingForId(GroupId(7))));
}

#[test]
fn all_groups_lists_placed_groups_then_layers() {
    let mut s = scene();
    let g0 = s.add_group(Group::default());
    let g1 = s.add_group(Group::default().with_group_id(g0));
    let l = s.add_layer(Group::default().with_group_id(g1));
    let listed = s.all_groups().unwrap();
    assert_eq!(listed, vec![(2, g0), (1, g1), (0, l)]);
}

#[test]
fn all_groups_lists_deeper_levels_first() {
    // A layer places a and b; a places c, c places d; b places e.
    let mut s = scene();
    let d = s.add_group(Group::default());
    let c = s.add_group(Group::default().with_group_id(d));
    let e = s.add_group(Group::default());
    let a = s.add_group(Group::default().with_group_id(c));
    let b = s.add_group(Group::default().with_group_id(e));
    let l = s.add_layer(Group::default().with_group_id(a).with_group_id(b));
    let listed = s.all_groups().unwrap();
    assert_eq!(listed, vec![(3, d), (2, c), (2, e), (1, a), (1, b), (0, l)]);
}

#[test]
fn all_groups_lists_each_level_in_walk_order_across_layers() {
    let mut s = scene();
    let x = s.add_group(Group::default());
    let y = s.add_group(Group::default());
    let l1 = s.add_layer(Group::default().with_group_id(x));
    let l2 = s.add_layer(Group::default().with_group_id(y));
    s.set_z_index(l1, 5).unwrap();
    assert_eq!(s.all_groups().unwrap(), vec![(1, x), (1, y), (0, l1), (0, l2)]);
}

#[test]
fn reusing_a_group_as_a_layer_is_refused() {
    let mut s = scene();
    let g0 = s.add_group(Group::default());
    let l = s.add_layer(Group::default().with_group_id(g0));
    let e = s.add_layer_by_id(g0).unwrap_err();
    assert!(matches!(e.inner, InnerError::GroupReuseAttempt(id) if id == g0));
    let e = s.add_layer_by_id(l).unwrap_err();
    assert!(matches!(e.inner, InnerError::GroupReuseAttempt(id) if id == l));
    let g2 = s.add_group(Group::default());
    s.add_layer_by_id(g2).unwrap();
    assert_eq!(s.get_layers(), vec![l, g2]);
}

#[test]
fn z_index_and_cycle_checks() {
    let (mut s, l0, _, _) = layered_scene();
    assert!(s.z_indices_negatable());
    s.set_z_index(l0, i64::MIN).unwrap();
    assert!(!s.z_indices_negatable());
    assert!(s.groups_acyclic());

    let mut t = scene();
    let g0 = t.add_group(Group::default());
    t.get_group_mut(g0).unwrap().add_crumb(CrumbId(0), None);
    assert!(t.groups_acyclic());
    let g1 = t.add_group(Group::from_group_items(vec![GroupItem(g0, TranslateScale::default())]));
    assert!(t.groups_acyclic());
    let _ = g1;
}

#[test]
fn cycles_of_groups_are_found() {
    // Groups placing each other that no layer reaches make no cycle for
    // the walks.
    let mut s = scene();
    let a = s.add_group(Group::default().with_group_id(GroupId(1)));
    let _b = s.add_group(Group::default().with_group_id(GroupId(0)));
    assert!(s.groups_acyclic());
    let l = s.add_layer(Group::default());
    assert!(s.groups_acyclic());
    assert_eq!(s.all_groups().unwrap(), vec![(0, l)]);
    assert!(s.all_crumbs(TranslateScale::default()).unwrap().is_empty());
    // Once a layer reaches them, they do.
    let _m = s.add_layer(Group::default().with_group_id(a));
    assert!(!s.groups_acyclic());

    let mut t = scene();
    let c = t.add_group(Group::default().with_group_id(GroupId(0)));
    assert!(t.groups_acyclic());
    let _n = t.add_layer(Group::default().with_group_id(c));
    assert!(!t.groups_acyclic());

    // A reference to a group that does not exist is no cycle.
    let mut u = scene();
    let _d = u.add_group(Group::default().with_group_id(GroupId(5)));
    let e = u.add_group(Group::default().with_group_id(GroupId(0)).with_group_id(GroupId(0)));
    let _o = u.add_layer(Group::default().with_group_id(e));
    assert!(u.groups_acyclic());
}

#[test]
fn cycles_below_hidden_layers_do_not_stop_the_visible_walk() {
    let mut s = scene();
    let a = s.add_group(Group::default().with_group_id(GroupId(0)));
    let hidden = s.add_layer(Group::default().with_group_id(a));
    let shown = s.add_layer(Group::default());
    s.hide_layer(hidden).unwrap();
    assert!(!s.groups_acyclic());
    assert!(s.visible_groups_acyclic());
    assert!(s.all_visible_crumbs(TranslateScale::default()).unwrap().is_empty());
    s.show_layer(hidden).unwrap();
    assert!(!s.visible_groups_acyclic());
    let _ = shown;
}

#[test]
fn the_last_stacking_index_set_wins() {
    let (mut s, l0, l1, l2) = layered_scene();
    s.set_z_index(l0, 3).unwrap();
    s.set_z_index(l0, -3).unwrap();
    assert_eq!(s.get_layers(), vec![l1, l2, l0]);
    assert_eq!(s.get_layers(), s.get_layers());
}

#[test]
fn transforms_compose_down_the_walk() {
    let mut s = scene();
    let c = s.add_circle(Circle::new((0.0, 0.0), 1.0));
    let inner = s.add_group(Group::from_crumb_ids(vec![(c, None)]));
    let placement = TranslateScale::translate(kurbo::Vec2::new(10.0, 0.0));
    let _layer = s.add_layer(Group::default().with_group_item(GroupItem(inner, placement)));
    let root = TranslateScale::scale(2.0);
    let listed = s.all_crumbs(root).unwrap();
    assert_eq!(listed.len(), 1);
    let (level, item) = listed[0];
    assert_eq!(level, 2);
    // Placed untransformed in a group placed under `placement`, under the
    // root transform: the crumb is scaled by two and moved by twenty.
    assert_eq!(item.1.as_tuple(), (TranslateScale::scale(1.0) * (root * placement)).as_tuple());
    assert_eq!(item.1.as_tuple(), (kurbo::Vec2::new(20.0, 0.0), 2.0));
    let items = s.get_group(inner).unwrap().get_crumb_items();
    assert_eq!(items[0].1.as_tuple(), (kurbo::Vec2::new(0.0, 0.0), 1.0));
}

#[test]
fn hiding_keeps_the_order_of_the_rest() {
    let (mut s, l0, l1, l2) = layered_scene();
    s.set_z_index(l0, 2).unwrap();
    s.set_z_index(l2, 2).unwrap();
    assert_eq!(s.get_layers(), vec![l0, l2, l1]);
    s.hide_layer(l2).unwrap();
    assert_eq!(s.get_visible_layers(), vec![l0, l1]);
    s.hide_layer(l0).unwrap();
    s.show_layer(l2).unwrap();
    assert_eq!(s.get_visible_layers(), vec![l2, l1]);
}
