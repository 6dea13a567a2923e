//! The paint of usvg tree nodes, worked out from fills, strokes, styles and
//! themes.
//!
//! The descriptions here hold plain values; the numbers that a usvg tree
//! keeps as floats (widths, offsets, opacities) are carried as the bit
//! patterns and bytes they come from.
use vstd::prelude::*;
use crate::color::Color;
use crate::style::{
    opt_fill_view, Fill, FillView, Gradient, GradientStop, GradientView, Stroke, StrokeView,
    Style, StyleId, StyleView, UnitPoint,
};
use crate::theme::Theme;
use crate::crumb::{Crumb, CrumbId, CrumbItem};
use crate::error::{InnerError, VisError};
use crate::scene::Scene;

verus! {

/// The alpha byte of a paint that is not fully opaque; `None` stands for
/// full opacity, which a usvg paint has unless told otherwise.
pub open spec fn partial_alpha(a: u8) -> Option<u8> {
    if a == 255 {
        None
    } else {
        Some(a)
    }
}

fn partial_alpha_of(a: u8) -> (r: Option<u8>)
    ensures
        r == partial_alpha(a),
{
    if a == 255 {
        None
    } else {
        Some(a)
    }
}

/// A paint: a plain color, or a link to a gradient defined by name.
#[derive(PartialEq, Eq, Debug)]
pub enum UsvgPaint {
    Color(u8, u8, u8),
    Link(String),
}

/// What a paint is, as contracts see it.
pub enum UsvgPaintView {
    Color(u8, u8, u8),
    Link(Seq<char>),
}

impl View for UsvgPaint {
    type V = UsvgPaintView;

    open spec fn view(&self) -> UsvgPaintView {
        match self {
            UsvgPaint::Color(r, g, b) => UsvgPaintView::Color(*r, *g, *b),
            UsvgPaint::Link(name) => UsvgPaintView::Link(name@),
        }
    }
}

/// The fill of a path node.
#[derive(PartialEq, Eq, Debug)]
pub struct UsvgFill {
    pub paint: UsvgPaint,
    pub alpha: Option<u8>,
}

/// What a fill is, as contracts see it.
pub struct UsvgFillView {
    pub paint: UsvgPaintView,
    pub alpha: Option<u8>,
}

impl View for UsvgFill {
    type V = UsvgFillView;

    open spec fn view(&self) -> UsvgFillView {
        UsvgFillView { paint: self.paint@, alpha: self.alpha }
    }
}

/// The stroke of a path node: a plain color, its alpha where it is not
/// opaque, and the width's bit pattern.
#[derive(Clone, Copy, PartialEq, Eq, Debug)]
pub struct UsvgStroke {
    pub rgb: (u8, u8, u8),
    pub alpha: Option<u8>,
    pub width_bits: u64,
}

/// A stop of a gradient: the offset's bit pattern, a plain color, and its
/// alpha where it is not opaque.
#[derive(Clone, Copy, PartialEq, Eq, Debug)]
pub struct UsvgStop {
    pub offset_bits: u32,
    pub rgb: (u8, u8, u8),
    pub alpha: Option<u8>,
}

/// The shape of a gradient: from one unit point to another, or a circle
/// of the given radius's bit pattern about the middle of the box.
#[derive(Clone, Copy, Debug)]
pub enum UsvgGradientShape {
    Linear(UnitPoint, UnitPoint),
    Radial(u64),
}

/// A gradient definition, in the units of the bounding box of the object
/// it paints, padded beyond its ends.
#[derive(Debug)]
pub struct UsvgGradient {
    pub id: String,
    pub shape: UsvgGradientShape,
    pub stops: Vec<UsvgStop>,
}

/// What a gradient definition is, as contracts see it.
pub struct UsvgGradientView {
    pub id: Seq<char>,
    pub shape: UsvgGradientShape,
    pub stops: Seq<UsvgStop>,
}

impl View for UsvgGradient {
    type V = UsvgGradientView;

    open spec fn view(&self) -> UsvgGradientView {
        UsvgGradientView { id: self.id@, shape: self.shape, stops: self.stops@ }
    }
}

/// The usvg fill of a fill: a color paints itself, a gradient is linked by
/// its name and is opaque.
pub open spec fn spec_fill(f: FillView) -> UsvgFillView {
    match f {
        FillView::Color(c) => {
            let (r, g, b, a) = c.components();
            UsvgFillView { paint: UsvgPaintView::Color(r, g, b), alpha: partial_alpha(a) }
        },
        FillView::Linear(name) => UsvgFillView { paint: UsvgPaintView::Link(name), alpha: None },
        FillView::Radial(name) => UsvgFillView { paint: UsvgPaintView::Link(name), alpha: None },
    }
}

/// The usvg stroke of a stroke: its brush color and its width.
pub open spec fn spec_stroke(s: StrokeView) -> UsvgStroke {
    let (r, g, b, a) = s.brush.components();
    UsvgStroke { rgb: (r, g, b), alpha: partial_alpha(a), width_bits: s.width_bits }
}

/// The usvg stop of a gradient stop.
pub open spec fn spec_stop(s: GradientStop) -> UsvgStop {
    let (r, g, b, a) = s.color.components();
    UsvgStop { offset_bits: s.pos_bits, rgb: (r, g, b), alpha: partial_alpha(a) }
}

/// The usvg fill and stroke of a style, each where the style has one.
pub open spec fn spec_style(s: StyleView) -> (Option<UsvgFillView>, Option<UsvgStroke>) {
    (
        match s.fill {
            Some(f) => Some(spec_fill(f)),
            None => None,
        },
        match s.stroke {
            Some(k) => Some(spec_stroke(k)),
            None => None,
        },
    )
}

/// The views of an optional fill and stroke.
pub open spec fn paint_view(p: (Option<UsvgFill>, Option<UsvgStroke>)) -> (
    Option<UsvgFillView>,
    Option<UsvgStroke>,
) {
    (
        match p.0 {
            Some(f) => Some(f@),
            None => None,
        },
        p.1,
    )
}

/// A fill that converts to a usvg fill.
pub trait AsUsvgFill {
    fn as_usvg(&self) -> UsvgFill;
}

impl AsUsvgFill for Fill {
    fn as_usvg(&self) -> (r: UsvgFill)
        ensures
            r@ == spec_fill(self@),
    {
        match self {
            Fill::Color(color) => {
                let (red, green, blue, alpha) = color.as_rgba8();
                UsvgFill { paint: UsvgPaint::Color(red, green, blue), alpha: partial_alpha_of(alpha) }
            },
            Fill::Linear(name) => UsvgFill { paint: UsvgPaint::Link(name.clone()), alpha: None },
            Fill::Radial(name) => UsvgFill { paint: UsvgPaint::Link(name.clone()), alpha: None },
        }
    }
}

/// A stroke that converts to a usvg stroke.
pub trait AsUsvgStroke {
    fn as_usvg(&self) -> UsvgStroke;
}

impl AsUsvgStroke for Stroke {
    fn as_usvg(&self) -> (r: UsvgStroke)
        ensures
            r == spec_stroke(self@),
    {
        let (red, green, blue, alpha) = self.get_brush().as_rgba8();
        UsvgStroke { rgb: (red, green, blue), alpha: partial_alpha_of(alpha), width_bits: self.get_width() }
    }
}

/// A gradient stop that converts to a usvg stop.
pub trait AsUsvgStop {
    fn as_usvg(&self) -> UsvgStop;
}

impl AsUsvgStop for GradientStop {
    fn as_usvg(&self) -> (r: UsvgStop)
        ensures
            r == spec_stop(*self),
    {
        let (red, green, blue, alpha) = self.color.as_rgba8();
        UsvgStop { offset_bits: self.pos_bits, rgb: (red, green, blue), alpha: partial_alpha_of(alpha) }
    }
}

/// A style that converts to a usvg fill and stroke.
pub trait AsUsvgStyle {
    fn as_usvg(&self) -> (Option<UsvgFill>, Option<UsvgStroke>);
}

impl AsUsvgStyle for Style {
    fn as_usvg(&self) -> (r: (Option<UsvgFill>, Option<UsvgStroke>))
        ensures
            paint_view(r) == spec_style(self@),
    {
        let fill = match self.get_fill() {
            Some(f) => Some(f.as_usvg()),
            None => None,
        };
        let stroke = match self.get_stroke() {
            Some(s) => Some(s.as_usvg()),
            None => None,
        };
        (fill, stroke)
    }
}

/// The usvg stops of a list of gradient stops.
pub open spec fn spec_stops(stops: Seq<GradientStop>) -> Seq<UsvgStop> {
    stops.map_values(|s: GradientStop| spec_stop(s))
}

/// The usvg definition of a gradient under a name.
pub open spec fn spec_gradient(g: GradientView, name: Seq<char>) -> UsvgGradientView {
    match g {
        GradientView::Linear(start, end, stops) => UsvgGradientView {
            id: name,
            shape: UsvgGradientShape::Linear(start, end),
            stops: spec_stops(stops),
        },
        GradientView::Radial(radius_bits, stops) => UsvgGradientView {
            id: name,
            shape: UsvgGradientShape::Radial(radius_bits),
            stops: spec_stops(stops),
        },
    }
}

fn stops_as_usvg(stops: &Vec<GradientStop>) -> (r: Vec<UsvgStop>)
    ensures
        r@ == spec_stops(stops@),
{
    let mut r: Vec<UsvgStop> = Vec::new();
    let mut i: usize = 0;
    while i < stops.len()
        invariant
            i <= stops@.len(),
            r@ == spec_stops(stops@.subrange(0, i as int)),
        decreases stops@.len() - i,
    {
        let stop = stops[i].as_usvg();
        r.push(stop);
        proof {
            assert(stops@.subrange(0, i + 1) == stops@.subrange(0, i as int).push(stops@[i as int]));
        }
        i = i + 1;
    }
    proof {
        assert(stops@.subrange(0, i as int) == stops@);
    }
    r
}

/// A definition that converts to a usvg node under a given name.
pub trait AsUsvgNodeWithName {
    fn as_usvg_node_with_name(&self, name: &str) -> UsvgGradient;
}

impl AsUsvgNodeWithName for Gradient {
    fn as_usvg_node_with_name(&self, name: &str) -> (r: UsvgGradient)
        ensures
            r@ == spec_gradient(self@, name@),
    {
        match self {
            Gradient::Linear(start, end, stops) => UsvgGradient {
                id: name.to_owned(),
                shape: UsvgGradientShape::Linear(*start, *end),
                stops: stops_as_usvg(stops),
            },
            Gradient::Radial(radius_bits, stops) => UsvgGradient {
                id: name.to_owned(),
                shape: UsvgGradientShape::Radial(*radius_bits),
                stops: stops_as_usvg(stops),
            },
        }
    }
}

/// The style a crumb placed with `style_id` is drawn in: its own where the
/// theme has one for the id, else the theme's default style.
pub open spec fn resolved_style(t: crate::theme::ThemeView, style_id: Option<StyleId>) -> StyleView {
    if style_id is Some && style_id.unwrap().0 < t.styles.len() {
        t.styles[style_id.unwrap().0 as int]
    } else {
        t.default_style
    }
}

/// The usvg stroke of a style id: the stroke of its style, else the stroke
/// of the default style, else none.
pub open spec fn theme_stroke(t: crate::theme::ThemeView, style_id: Option<StyleId>) -> Option<UsvgStroke> {
    match resolved_style(t, style_id).stroke {
        Some(k) => Some(spec_stroke(k)),
        None => match t.default_style.stroke {
            Some(k) => Some(spec_stroke(k)),
            None => None,
        },
    }
}

/// The usvg fill and stroke of the style of an id, or neither where the
/// theme has no style for the id.
pub open spec fn theme_style(t: crate::theme::ThemeView, style_id: Option<StyleId>) -> (
    Option<UsvgFillView>,
    Option<UsvgStroke>,
) {
    if style_id is Some && style_id.unwrap().0 < t.styles.len() {
        spec_style(t.styles[style_id.unwrap().0 as int])
    } else {
        (None, None)
    }
}

/// A theme that gives usvg paint for style ids.
pub trait AsUsvgTheme {
    fn get_style_as_usvg(&self, style_id: Option<StyleId>) -> (Option<UsvgFill>, Option<UsvgStroke>);

    fn get_stroke_as_usvg(&self, style_id: Option<StyleId>) -> Option<UsvgStroke>;

    fn get_background_as_usvg(&self) -> UsvgFill;
}

impl AsUsvgTheme for Theme {
    fn get_style_as_usvg(&self, style_id: Option<StyleId>) -> (r: (Option<UsvgFill>, Option<UsvgStroke>))
        ensures
            paint_view(r) == theme_style(self@, style_id),
    {
        match self.get_style(style_id) {
            Some(style) => style.as_usvg(),
            None => (None, None),
        }
    }

    fn get_stroke_as_usvg(&self, style_id: Option<StyleId>) -> (r: Option<UsvgStroke>)
        ensures
            r == theme_stroke(self@, style_id),
    {
        let stroke = match self.get_stroke(style_id) {
            Some(s) => Some(s),
            None => self.get_default_stroke(),
        };
        match stroke {
            Some(s) => Some(s.as_usvg()),
            None => None,
        }
    }

    /// The fill of the background: the theme's background color.
    fn get_background_as_usvg(&self) -> (r: UsvgFill)
        ensures
            r@ == spec_fill(FillView::Color(self.spec_bg_color())),
    {
        Fill::Color(self.get_bg_color()).as_usvg()
    }
}

/// The fill of a style, as a usvg fill.
pub open spec fn style_fill(s: StyleView) -> Option<UsvgFillView> {
    match s.fill {
        Some(f) => Some(spec_fill(f)),
        None => None,
    }
}

/// The paint of the path node that a crumb placed with `style_id` gives,
/// or `None` where it gives no node (pins, and text labels, which have no
/// path).  Lines are stroked but never filled; paths and arcs take the fill
/// of the style they resolve to; both take the stroke of that style or of
/// the default style.  Rectangles and circles take the fill and stroke of
/// the id's own style, and nothing where the theme has none for the id.
pub open spec fn spec_node_paint(c: Crumb, t: crate::theme::ThemeView, style_id: Option<StyleId>) -> Option<
    (Option<UsvgFillView>, Option<UsvgStroke>),
> {
    match c {
        Crumb::Line(_) => Some((None, theme_stroke(t, style_id))),
        Crumb::Arc(_) => Some((style_fill(resolved_style(t, style_id)), theme_stroke(t, style_id))),
        Crumb::Path(_) => Some((style_fill(resolved_style(t, style_id)), theme_stroke(t, style_id))),
        Crumb::Rect(_) => Some(theme_style(t, style_id)),
        Crumb::RoundedRect(_) => Some(theme_style(t, style_id)),
        Crumb::Circle(_) => Some(theme_style(t, style_id)),
        Crumb::Pin(_) => None,
        Crumb::Label(_) => None,
    }
}

/// Rectangles, rounded rectangles and circles are painted alike: the paint
/// of such a crumb placed with a style id does not depend on which of the
/// three shapes it is, and is exactly the fill and the stroke of that style
/// where the theme has it (each converted where the style has one), and
/// neither where it does not.
pub proof fn law_closed_shapes_take_their_style(
    c: kurbo::Circle,
    r: kurbo::Rect,
    rr: kurbo::RoundedRect,
    t: crate::theme::ThemeView,
    style_id: Option<StyleId>,
)
    ensures
        spec_node_paint(Crumb::Circle(c), t, style_id) == spec_node_paint(Crumb::Rect(r), t, style_id),
        spec_node_paint(Crumb::RoundedRect(rr), t, style_id) == spec_node_paint(Crumb::Rect(r), t, style_id),
        spec_node_paint(Crumb::Circle(c), t, style_id) matches Some((fill, stroke)) && ({
            if style_id is Some && style_id.unwrap().0 < t.styles.len() {
                let st = t.styles[style_id.unwrap().0 as int];
                &&& (fill is Some <==> st.fill is Some)
                &&& (stroke is Some <==> st.stroke is Some)
                &&& st.fill matches Some(f) ==> fill == Some(spec_fill(f))
                &&& st.stroke matches Some(k) ==> stroke == Some(spec_stroke(k))
            } else {
                fill is None && stroke is None
            }
        }),
{
}

/// The views of an optional node paint.
pub open spec fn opt_paint_view(p: Option<(Option<UsvgFill>, Option<UsvgStroke>)>) -> Option<
    (Option<UsvgFillView>, Option<UsvgStroke>),
> {
    match p {
        Some(q) => Some(paint_view(q)),
        None => None,
    }
}

/// A crumb that gives the paint of a usvg path node in a theme.
pub trait AsUsvgNodeWithStyle {
    fn as_usvg_node_with_style(&self, style_id: Option<StyleId>, theme: &Theme) -> Option<
        (Option<UsvgFill>, Option<UsvgStroke>),
    >;
}

impl AsUsvgNodeWithStyle for Crumb {
    fn as_usvg_node_with_style(&self, style_id: Option<StyleId>, theme: &Theme) -> (r: Option<
        (Option<UsvgFill>, Option<UsvgStroke>),
    >)
        ensures
            opt_paint_view(r) == spec_node_paint(*self, theme@, style_id),
    {
        match self {
            Crumb::Line(_) => Some((None, theme.get_stroke_as_usvg(style_id))),
            Crumb::Arc(_) | Crumb::Path(_) => {
                let style = match theme.get_style(style_id) {
                    Some(s) => s,
                    None => theme.get_default_style().unwrap(),
                };
                let fill = match style.get_fill() {
                    Some(f) => Some(f.as_usvg()),
                    None => None,
                };
                Some((fill, theme.get_stroke_as_usvg(style_id)))
            },
            Crumb::Rect(_) | Crumb::RoundedRect(_) | Crumb::Circle(_) => Some(
                theme.get_style_as_usvg(style_id),
            ),
            Crumb::Pin(_) | Crumb::Label(_) => None,
        }
    }
}

/// The path nodes of a list of crumb placements, in order: the placement
/// and the paint of each crumb that gives a node; `Err` with the first
/// crumb id that the scene lacks.
pub open spec fn spec_paths(
    s: crate::scene::SceneView,
    t: crate::theme::ThemeView,
    items: Seq<(usize, CrumbItem)>,
) -> Result<Seq<(CrumbItem, (Option<UsvgFillView>, Option<UsvgStroke>))>, CrumbId>
    decreases items.len(),
{
    if items.len() == 0 {
        Ok(Seq::empty())
    } else {
        match spec_paths(s, t, items.drop_last()) {
            Err(id) => Err(id),
            Ok(done) => {
                let item = items.last().1;
                if item.0.0 < s.crumbs.len() {
                    match spec_node_paint(s.crumbs[item.0.0 as int], t, item.2) {
                        Some(p) => Ok(done.push((item, p))),
                        None => Ok(done),
                    }
                } else {
                    Err(item.0)
                }
            },
        }
    }
}

/// The views of a list of path nodes.
pub open spec fn paths_view(v: Seq<(CrumbItem, (Option<UsvgFill>, Option<UsvgStroke>))>) -> Seq<
    (CrumbItem, (Option<UsvgFillView>, Option<UsvgStroke>)),
> {
    v.map_values(|e: (CrumbItem, (Option<UsvgFill>, Option<UsvgStroke>))| (e.0, paint_view(e.1)))
}

impl Scene {
    /// The path nodes of a list of crumb placements (as `all_visible_crumbs`
    /// lists them): for each placement in order whose crumb gives a path
    /// node, the placement and the node's paint.  A placement of a crumb
    /// that the scene lacks stops the work with an error that names it.
    pub fn as_usvg_paths(&self, items: &[(usize, CrumbItem)], theme: &Theme) -> (r: Result<
        Vec<(CrumbItem, (Option<UsvgFill>, Option<UsvgStroke>))>,
        VisError,
    >)
        ensures
            match spec_paths(self@, theme@, items@) {
                Ok(v) => r is Ok && paths_view(r->Ok_0@) == v,
                Err(id) => r is Err && r->Err_0.inner == InnerError::CrumbMissingForId(id) && r->Err_0.details is None,
            },
    {
        let mut out: Vec<(CrumbItem, (Option<UsvgFill>, Option<UsvgStroke>))> = Vec::new();
        let mut i: usize = 0;
        while i < items.len()
            invariant
                i <= items@.len(),
                spec_paths(self@, theme@, items@.subrange(0, i as int)) is Ok,
                paths_view(out@) == spec_paths(self@, theme@, items@.subrange(0, i as int))->Ok_0,
            decreases items@.len() - i,
        {
            let item = items[i].1;
            proof {
                assert(items@.subrange(0, i + 1).drop_last() == items@.subrange(0, i as int));
            }
            match self.get_crumb(item.0) {
                None => {
                    proof {
                        assert(spec_paths(self@, theme@, items@.subrange(0, i + 1)) == Err::<
                            Seq<(CrumbItem, (Option<UsvgFillView>, Option<UsvgStroke>))>,
                            CrumbId,
                        >(item.0));
                        lemma_paths_stop(self@, theme@, items@, i + 1);
                    }
                    return Err(VisError::crumb_missing_for_id(item.0));
                },
                Some(crumb) => {
                    match crumb.as_usvg_node_with_style(item.2, theme) {
                        Some(p) => {
                            out.push((item, p));
                            proof {
                                assert(paths_view(out@) =~= spec_paths(self@, theme@, items@.subrange(0, i + 1))->Ok_0);
                            }
                        },
                        None => {},
                    }
                },
            }
            i = i + 1;
        }
        proof {
            assert(items@.subrange(0, i as int) == items@);
        }
        Ok(out)
    }
}

/// Once the paths of a prefix of the placements fail, the paths of the
/// whole list fail with the same id.
proof fn lemma_paths_stop(
    s: crate::scene::SceneView,
    t: crate::theme::ThemeView,
    items: Seq<(usize, CrumbItem)>,
    k: int,
)
    requires
        0 <= k <= items.len(),
        spec_paths(s, t, items.subrange(0, k)) is Err,
    ensures
        spec_paths(s, t, items) == spec_paths(s, t, items.subrange(0, k)),
    decreases items.len() - k,
{
    if k < items.len() {
        assert(items.subrange(0, k + 1).drop_last() == items.subrange(0, k));
        lemma_paths_stop(s, t, items, k + 1);
    } else {
        assert(items.subrange(0, k) == items);
    }
}

} // verus!
