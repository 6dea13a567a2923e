//! Joints: lines, polylines, arcs and curves between the circles of two
//! groups.
//!
//! A joint names its two ends by the index of a crumb in the tail group
//! and in the head group.  What is decided here is which circles the ends
//! are, how wide the borders drawn around them are, and which shape a joint
//! with a given number of pull points takes.
use vstd::prelude::*;
use kurbo::Circle;
use crate::crumb::{Crumb, CrumbItem};
use crate::group::GroupId;
use crate::scene::{Scene, SceneView};
use crate::style::StyleId;
use crate::theme::{Theme, ThemeView};

verus! {

/// The joints of one style: each names a tail and a head index, and
/// polylines and curves carry the bit patterns of their pull points
/// relative to the middle of the two ends, arcs that of their radius.
#[derive(Debug)]
pub enum Joints {
    Lines(Vec<(usize, usize)>),
    Polylines(Vec<(usize, usize, Vec<(u64, u64)>)>),
    Arcs(Vec<(usize, usize, u64)>),
    Curves(Vec<(usize, usize, Vec<(u64, u64)>)>),
}

/// Joints to be made between the crumbs of a tail group and a head group.
#[derive(Debug)]
pub struct JointBuilder {
    tail_group: GroupId,
    head_group: GroupId,
    joints: Vec<(Option<StyleId>, Joints)>,
}

impl JointBuilder {
    /// The joints asked for so far, in order, with their styles.
    pub closed spec fn spec_joints(&self) -> Seq<(Option<StyleId>, Joints)> {
        self.joints@
    }

    pub closed spec fn spec_tail_group(&self) -> GroupId {
        self.tail_group
    }

    pub closed spec fn spec_head_group(&self) -> GroupId {
        self.head_group
    }

    /// A builder of no joints between the two groups.
    pub fn new(tail_group: GroupId, head_group: GroupId) -> (b: Self)
        ensures
            b.spec_tail_group() == tail_group,
            b.spec_head_group() == head_group,
            b.spec_joints() == Seq::<(Option<StyleId>, Joints)>::empty(),
    {
        JointBuilder { tail_group, head_group, joints: Vec::new() }
    }

    fn with_joints(self, style_id: Option<StyleId>, joints: Joints) -> (b: Self)
        ensures
            b.spec_tail_group() == self.spec_tail_group(),
            b.spec_head_group() == self.spec_head_group(),
            b.spec_joints() == self.spec_joints().push((style_id, joints)),
    {
        let mut b = self;
        b.joints.push((style_id, joints));
        b
    }

    /// Asks for straight lines in the given style.
    pub fn with_lines(self, style_id: Option<StyleId>, lines: Vec<(usize, usize)>) -> (b: Self)
        ensures
            b.spec_tail_group() == self.spec_tail_group(),
            b.spec_head_group() == self.spec_head_group(),
            b.spec_joints() == self.spec_joints().push((style_id, Joints::Lines(lines))),
    {
        self.with_joints(style_id, Joints::Lines(lines))
    }

    /// Asks for polylines through the given pull points.
    pub fn with_polylines(self, style_id: Option<StyleId>, polylines: Vec<(usize, usize, Vec<(u64, u64)>)>) -> (b: Self)
        ensures
            b.spec_tail_group() == self.spec_tail_group(),
            b.spec_head_group() == self.spec_head_group(),
            b.spec_joints() == self.spec_joints().push((style_id, Joints::Polylines(polylines))),
    {
        self.with_joints(style_id, Joints::Polylines(polylines))
    }

    /// Asks for arcs of the given radii.
    pub fn with_arcs(self, style_id: Option<StyleId>, arcs: Vec<(usize, usize, u64)>) -> (b: Self)
        ensures
            b.spec_tail_group() == self.spec_tail_group(),
            b.spec_head_group() == self.spec_head_group(),
            b.spec_joints() == self.spec_joints().push((style_id, Joints::Arcs(arcs))),
    {
        self.with_joints(style_id, Joints::Arcs(arcs))
    }

    /// Asks for curves pulled by the given points.
    pub fn with_curves(self, style_id: Option<StyleId>, curves: Vec<(usize, usize, Vec<(u64, u64)>)>) -> (b: Self)
        ensures
            b.spec_tail_group() == self.spec_tail_group(),
            b.spec_head_group() == self.spec_head_group(),
            b.spec_joints() == self.spec_joints().push((style_id, Joints::Curves(curves))),
    {
        self.with_joints(style_id, Joints::Curves(curves))
    }

    pub fn get_tail_group(&self) -> (g: GroupId)
        ensures
            g == self.spec_tail_group(),
    {
        self.tail_group
    }

    pub fn get_head_group(&self) -> (g: GroupId)
        ensures
            g == self.spec_head_group(),
    {
        self.head_group
    }

    pub fn get_joints(&self) -> (j: &[(Option<StyleId>, Joints)])
        ensures
            j@ == self.spec_joints(),
    {
        self.joints.as_slice()
    }
}

impl Scene {
    /// A builder of joints from the crumbs of `tail_group` to those of
    /// `head_group`.
    pub fn join(&self, tail_group: GroupId, head_group: GroupId) -> (b: JointBuilder)
        ensures
            b.spec_tail_group() == tail_group,
            b.spec_head_group() == head_group,
            b.spec_joints() == Seq::<(Option<StyleId>, Joints)>::empty(),
    {
        JointBuilder::new(tail_group, head_group)
    }
}

/// The shape a joint takes for its pull points: straight with none, a
/// quadratic curve (or a polyline through one point) with one, and a cubic
/// curve (or a polyline through two points) with more, pulled by the first
/// and the last.
#[derive(Clone, Copy, PartialEq, Eq, Debug)]
pub enum CurveKind {
    Straight,
    Quad((u64, u64)),
    Cubic((u64, u64), (u64, u64)),
}

/// The shape for a list of pull points.
pub open spec fn spec_curve_kind(pull: Seq<(u64, u64)>) -> CurveKind {
    if pull.len() == 0 {
        CurveKind::Straight
    } else if pull.len() == 1 {
        CurveKind::Quad(pull[0])
    } else {
        CurveKind::Cubic(pull[0], pull.last())
    }
}

/// The shape a joint takes for its pull points.
pub fn curve_kind(pull: &[(u64, u64)]) -> (k: CurveKind)
    ensures
        k == spec_curve_kind(pull@),
{
    if pull.len() == 0 {
        CurveKind::Straight
    } else if pull.len() == 1 {
        CurveKind::Quad(pull[0])
    } else {
        CurveKind::Cubic(pull[0], pull[pull.len() - 1])
    }
}

/// The shape one joint is drawn as: a straight line; a polyline through
/// the points its pull points give, or an arc of the radius with the given
/// bit pattern; or a curve pulled by its pull points (a straight line where
/// it has none).
#[derive(Clone, Copy, PartialEq, Eq, Debug)]
pub enum JointShape {
    Line,
    Polyline(CurveKind),
    Arc(u64),
    Curve(CurveKind),
}

/// One joint to be made: its style, its two ends (a group and the index
/// of a crumb in it) and its shape.
#[derive(Clone, Copy, PartialEq, Eq, Debug)]
pub struct JointPlan {
    pub style_id: Option<StyleId>,
    pub tail: (GroupId, usize),
    pub head: (GroupId, usize),
    pub shape: JointShape,
}

/// The joints that one request of a builder asks for, in order.
pub open spec fn request_plan(
    tail_group: GroupId,
    head_group: GroupId,
    style_id: Option<StyleId>,
    joints: Joints,
) -> Seq<JointPlan> {
    match joints {
        Joints::Lines(v) => Seq::new(
            v@.len(),
            |i: int|
                JointPlan {
                    style_id,
                    tail: (tail_group, v@[i].0),
                    head: (head_group, v@[i].1),
                    shape: JointShape::Line,
                },
        ),
        Joints::Polylines(v) => Seq::new(
            v@.len(),
            |i: int|
                JointPlan {
                    style_id,
                    tail: (tail_group, v@[i].0),
                    head: (head_group, v@[i].1),
                    shape: JointShape::Polyline(spec_curve_kind(v@[i].2@)),
                },
        ),
        Joints::Arcs(v) => Seq::new(
            v@.len(),
            |i: int|
                JointPlan {
                    style_id,
                    tail: (tail_group, v@[i].0),
                    head: (head_group, v@[i].1),
                    shape: JointShape::Arc(v@[i].2),
                },
        ),
        Joints::Curves(v) => Seq::new(
            v@.len(),
            |i: int|
                JointPlan {
                    style_id,
                    tail: (tail_group, v@[i].0),
                    head: (head_group, v@[i].1),
                    shape: JointShape::Curve(spec_curve_kind(v@[i].2@)),
                },
        ),
    }
}

/// The joints that a list of requests asks for: those of each request in
/// turn.
pub open spec fn joints_plan(
    tail_group: GroupId,
    head_group: GroupId,
    requests: Seq<(Option<StyleId>, Joints)>,
) -> Seq<JointPlan>
    decreases requests.len(),
{
    if requests.len() == 0 {
        Seq::empty()
    } else {
        joints_plan(tail_group, head_group, requests.drop_last()) + request_plan(
            tail_group,
            head_group,
            requests.last().0,
            requests.last().1,
        )
    }
}

/// The joints one request asks for.
#[verifier::loop_isolation(false)]
fn plan_request(tail_group: GroupId, head_group: GroupId, style_id: Option<StyleId>, joints: &Joints) -> (r: Vec<
    JointPlan,
>)
    ensures
        r@ == request_plan(tail_group, head_group, style_id, *joints),
{
    let mut r: Vec<JointPlan> = Vec::new();
    match joints {
        Joints::Lines(v) => {
            for i in 0..v.len()
                invariant
                    r@ == request_plan(tail_group, head_group, style_id, *joints).subrange(0, i as int),
            {
                let (t, h) = v[i];
                r.push(JointPlan { style_id, tail: (tail_group, t), head: (head_group, h), shape: JointShape::Line });
                assert(r@ =~= request_plan(tail_group, head_group, style_id, *joints).subrange(0, i + 1));
            }
        },
        Joints::Polylines(v) => {
            for i in 0..v.len()
                invariant
                    r@ == request_plan(tail_group, head_group, style_id, *joints).subrange(0, i as int),
            {
                let shape = JointShape::Polyline(curve_kind(v[i].2.as_slice()));
                r.push(JointPlan { style_id, tail: (tail_group, v[i].0), head: (head_group, v[i].1), shape });
                assert(r@ =~= request_plan(tail_group, head_group, style_id, *joints).subrange(0, i + 1));
            }
        },
        Joints::Arcs(v) => {
            for i in 0..v.len()
                invariant
                    r@ == request_plan(tail_group, head_group, style_id, *joints).subrange(0, i as int),
            {
                let (t, h, radius) = v[i];
                r.push(
                    JointPlan { style_id, tail: (tail_group, t), head: (head_group, h), shape: JointShape::Arc(radius) },
                );
                assert(r@ =~= request_plan(tail_group, head_group, style_id, *joints).subrange(0, i + 1));
            }
        },
        Joints::Curves(v) => {
            for i in 0..v.len()
                invariant
                    r@ == request_plan(tail_group, head_group, style_id, *joints).subrange(0, i as int),
            {
                let shape = JointShape::Curve(curve_kind(v[i].2.as_slice()));
                r.push(JointPlan { style_id, tail: (tail_group, v[i].0), head: (head_group, v[i].1), shape });
                assert(r@ =~= request_plan(tail_group, head_group, style_id, *joints).subrange(0, i + 1));
            }
        },
    }
    assert(r@ =~= request_plan(tail_group, head_group, style_id, *joints));
    r
}

impl JointBuilder {
    /// The joints to be made, one for each pair of ends asked for, in the
    /// order of the requests and, within each, of its pairs; each with the
    /// style of its request and the shape its kind and pull points give.
    pub fn plan(&self) -> (r: Vec<JointPlan>)
        ensures
            r@ == joints_plan(self.spec_tail_group(), self.spec_head_group(), self.spec_joints()),
    {
        let mut r: Vec<JointPlan> = Vec::new();
        let mut k: usize = 0;
        while k < self.joints.len()
            invariant
                k <= self.joints@.len(),
                r@ == joints_plan(self.tail_group, self.head_group, self.joints@.subrange(0, k as int)),
            decreases self.joints@.len() - k,
        {
            let mut part = plan_request(self.tail_group, self.head_group, self.joints[k].0, &self.joints[k].1);
            r.append(&mut part);
            proof {
                let js = self.joints@.subrange(0, k + 1);
                assert(js.drop_last() =~= self.joints@.subrange(0, k as int));
                assert(js.last() == self.joints@[k as int]);
            }
            k = k + 1;
        }
        assert(self.joints@.subrange(0, self.joints@.len() as int) =~= self.joints@);
        r
    }
}

/// The bit pattern of the width of the border drawn around a crumb placed
/// with `style_id`: that of the stroke of its style, or zero where there
/// is none.
pub open spec fn border_bits(t: ThemeView, style_id: Option<StyleId>) -> u64 {
    if style_id is Some && style_id.unwrap().0 < t.styles.len() && t.styles[style_id.unwrap().0 as int].stroke
        is Some {
        t.styles[style_id.unwrap().0 as int].stroke.unwrap().width_bits
    } else {
        0
    }
}

/// The circle an end of a joint is (the crumb placed at index `end.1` of
/// group `end.0`, where it is a circle or a pin), with the bit pattern of
/// its border width.
pub open spec fn joint_end(s: SceneView, t: ThemeView, end: (GroupId, usize)) -> Option<(Circle, u64)> {
    if end.0.0 < s.groups.len() && end.1 < s.groups[end.0.0 as int].crumbs.len() {
        let item = s.groups[end.0.0 as int].crumbs[end.1 as int];
        if item.0.0 < s.crumbs.len() {
            match s.crumbs[item.0.0 as int] {
                Crumb::Circle(c) => Some((c, border_bits(t, item.2))),
                Crumb::Pin(c) => Some((c, border_bits(t, item.2))),
                _ => None,
            }
        } else {
            None
        }
    } else {
        None
    }
}

/// The border of a joint end is the stroke width of the style its crumb is
/// placed with, where the theme has that style and it has a stroke, and
/// zero otherwise: in particular a crumb placed in no style has no border,
/// and the theme's default style plays no part, so that joint ends stay as
/// they are when the default style is replaced.
pub proof fn law_joint_end_borders(s: SceneView, t: ThemeView, end: (GroupId, usize), d: crate::style::StyleView)
    ensures
        joint_end(s, t, end) == joint_end(s, ThemeView { default_style: d, ..t }, end),
        joint_end(s, t, end) matches Some((_, w)) ==> {
            let item = s.groups[end.0.0 as int].crumbs[end.1 as int];
            if item.2 is Some && item.2.unwrap().0 < t.styles.len() && t.styles[item.2.unwrap().0 as int].stroke is Some {
                w == t.styles[item.2.unwrap().0 as int].stroke.unwrap().width_bits
            } else {
                w == 0
            }
        },
{
}

/// The two ends of a joint: each a circle with the bit pattern of the
/// width of its border.
#[derive(Debug)]
pub struct JointEnds {
    pub tail: Circle,
    pub tail_border_bits: u64,
    pub head: Circle,
    pub head_border_bits: u64,
}

fn end_of(scene: &Scene, theme: &Theme, end: (GroupId, usize)) -> (r: Option<(Circle, u64)>)
    ensures
        r == joint_end(scene@, theme@, end),
{
    let group = match scene.get_group(end.0) {
        Some(g) => g,
        None => {
            return None;
        },
    };
    let items = group.get_crumb_items();
    if end.1 >= items.len() {
        return None;
    }
    let item: CrumbItem = items[end.1];
    let circle = match scene.get_crumb(item.0) {
        Some(Crumb::Circle(c)) => c.clone(),
        Some(Crumb::Pin(c)) => c.clone(),
        _ => {
            return None;
        },
    };
    let border = match theme.get_stroke(item.2) {
        Some(s) => s.get_width(),
        None => 0,
    };
    Some((circle, border))
}

impl Scene {
    /// The circles at the two ends of a joint, with the widths of their
    /// borders; `None` where either end is not a circle or a pin placed in
    /// its group.
    pub fn joint_ends(&self, theme: &Theme, tail: (GroupId, usize), head: (GroupId, usize)) -> (r: Option<JointEnds>)
        ensures
            r is Some == (joint_end(self@, theme@, tail) is Some && joint_end(self@, theme@, head) is Some),
            r matches Some(ends) ==> {
                &&& joint_end(self@, theme@, tail) == Some((ends.tail, ends.tail_border_bits))
                &&& joint_end(self@, theme@, head) == Some((ends.head, ends.head_border_bits))
            },
    {
        let t = end_of(self, theme, tail);
        let h = end_of(self, theme, head);
        match (t, h) {
            (Some((tail, tail_border_bits)), Some((head, head_border_bits))) => Some(
                JointEnds { tail, tail_border_bits, head, head_border_bits },
            ),
            _ => None,
        }
    }
}

} // verus!
