//! Styles: how a crumb is stroked and filled, which markers decorate its
//! path, and which font its text uses.
use vstd::prelude::*;
use crate::color::Color;
use crate::crumb::Crumb;
use crate::font::{Font, FontView};

verus! {

/// Index of a style registered in a `Theme`.
#[derive(Clone, Copy, PartialEq, Eq, Structural, Hash, Debug)]
pub struct StyleId(pub usize);

/// Index of a marker.
#[derive(Clone, Copy, PartialEq, Eq, Structural, Hash, Debug)]
pub struct MarkerId(pub usize);

/// A stroke: a brush color and a line width.  The width is carried as
/// the bit pattern of an IEEE-754 double.
#[derive(Clone, Copy, PartialEq, Eq, Structural, Debug)]
pub struct Stroke {
    brush: Color,
    width_bits: u64,
}

/// What a stroke is, as contracts see it.
pub struct StrokeView {
    pub brush: Color,
    pub width_bits: u64,
}

impl View for Stroke {
    type V = StrokeView;

    closed spec fn view(&self) -> StrokeView {
        StrokeView { brush: self.brush, width_bits: self.width_bits }
    }
}

/// The bit pattern of the default stroke width, 1.
pub const DEFAULT_WIDTH_BITS: u64 = 0x3ff0_0000_0000_0000u64;

impl Stroke {
    /// A black stroke of width 1.
    pub fn new() -> (s: Self)
        ensures
            s@ == (StrokeView { brush: Color::Rgba32(0xff), width_bits: DEFAULT_WIDTH_BITS }),
    {
        Stroke { brush: Color::black(), width_bits: DEFAULT_WIDTH_BITS }
    }

    pub fn with_brush(self, brush: Color) -> (s: Self)
        ensures
            s@ == (StrokeView { brush, ..self@ }),
    {
        let mut s = self;
        s.set_brush(brush);
        s
    }

    pub fn with_width(self, width_bits: u64) -> (s: Self)
        ensures
            s@ == (StrokeView { width_bits, ..self@ }),
    {
        let mut s = self;
        s.set_width(width_bits);
        s
    }

    pub fn set_brush(&mut self, brush: Color)
        ensures
            final(self)@ == (StrokeView { brush, ..old(self)@ }),
    {
        self.brush = brush;
    }

    pub fn set_width(&mut self, width_bits: u64)
        ensures
            final(self)@ == (StrokeView { width_bits, ..old(self)@ }),
    {
        self.width_bits = width_bits;
    }

    pub fn get_brush(&self) -> (c: &Color)
        ensures
            *c == self@.brush,
    {
        &self.brush
    }

    pub fn get_mut_brush(&mut self) -> (c: &mut Color)
        ensures
            *c == old(self)@.brush,
            final(self)@ == (StrokeView { brush: *final(c), ..old(self)@ }),
    {
        &mut self.brush
    }

    pub fn get_width(&self) -> (width_bits: u64)
        ensures
            width_bits == self@.width_bits,
    {
        self.width_bits
    }
}

impl Default for Stroke {
    fn default() -> (s: Self)
        ensures
            s@ == (StrokeView { brush: Color::Rgba32(0xff), width_bits: DEFAULT_WIDTH_BITS }),
    {
        Stroke::new()
    }
}

/// How an area is painted: a plain color, or a gradient of the theme
/// referred to by name.
#[derive(Debug)]
pub enum Fill {
    Color(Color),
    Linear(String),
    Radial(String),
}

/// What a fill is, as contracts see it.
pub enum FillView {
    Color(Color),
    Linear(Seq<char>),
    Radial(Seq<char>),
}

impl View for Fill {
    type V = FillView;

    open spec fn view(&self) -> FillView {
        match self {
            Fill::Color(c) => FillView::Color(*c),
            Fill::Linear(name) => FillView::Linear(name@),
            Fill::Radial(name) => FillView::Radial(name@),
        }
    }
}

impl Clone for Fill {
    fn clone(&self) -> (f: Fill)
        ensures
            f@ == self@,
    {
        match self {
            Fill::Color(c) => Fill::Color(*c),
            Fill::Linear(name) => Fill::Linear(name.clone()),
            Fill::Radial(name) => Fill::Radial(name.clone()),
        }
    }
}

impl Default for Fill {
    fn default() -> (f: Self)
        ensures
            f@ == FillView::Color(Color::Rgba32(0xffffffff)),
    {
        Fill::Color(Color::white())
    }
}

/// A point given in fractions of a rectangle's width and height, each
/// carried as the bit pattern of an IEEE-754 double.
#[derive(Clone, Copy, PartialEq, Eq, Structural, Debug)]
pub struct UnitPoint {
    pub u_bits: u64,
    pub v_bits: u64,
}

impl UnitPoint {
    pub fn new(u_bits: u64, v_bits: u64) -> (p: UnitPoint)
        ensures
            p == (UnitPoint { u_bits, v_bits }),
    {
        UnitPoint { u_bits, v_bits }
    }
}

/// How content is fitted into a frame.
#[derive(Clone, Copy, PartialEq, Eq, Structural, Debug)]
pub enum ScaleMode {
    Fit,
    Fill,
}

/// A stop of a gradient: a position, carried as the bit pattern of an
/// IEEE-754 single, and a color.  Two stops are equal when their colors
/// and the bit patterns of their positions are.
#[derive(Clone, Copy, PartialEq, Eq, Structural, Hash, Debug)]
pub struct GradientStop {
    pub pos_bits: u32,
    pub color: Color,
}

/// A gradient: linear between two unit points, or radial with a radius
/// (carried as the bit pattern of an IEEE-754 double), each with its stops.
#[derive(Clone, Debug)]
pub enum Gradient {
    Linear(UnitPoint, UnitPoint, Vec<GradientStop>),
    Radial(u64, Vec<GradientStop>),
}

/// What a gradient is, as contracts see it.
pub enum GradientView {
    Linear(UnitPoint, UnitPoint, Seq<GradientStop>),
    Radial(u64, Seq<GradientStop>),
}

impl View for Gradient {
    type V = GradientView;

    open spec fn view(&self) -> GradientView {
        match self {
            Gradient::Linear(a, b, stops) => GradientView::Linear(*a, *b, stops@),
            Gradient::Radial(r, stops) => GradientView::Radial(*r, stops@),
        }
    }
}

/// A marker drawn at the vertices of a path: its size, its reference
/// point and orientation (all carried as bit patterns of IEEE-754
/// doubles), the crumb it draws, and the name of the style it is drawn in.
#[derive(Clone, Debug)]
pub struct Marker {
    width_bits: u64,
    height_bits: u64,
    refx_bits: u64,
    refy_bits: u64,
    orient_bits: Option<u64>,
    crumb: Crumb,
    style_name: Option<String>,
}

/// What a marker is, as contracts see it.
pub struct MarkerView {
    pub width_bits: u64,
    pub height_bits: u64,
    pub refx_bits: u64,
    pub refy_bits: u64,
    pub orient_bits: Option<u64>,
    pub crumb: Crumb,
    pub style_name: Option<Seq<char>>,
}

/// The view of an optional string.
pub open spec fn opt_view(s: Option<String>) -> Option<Seq<char>> {
    match s {
        Some(s) => Some(s@),
        None => None,
    }
}

impl View for Marker {
    type V = MarkerView;

    closed spec fn view(&self) -> MarkerView {
        MarkerView {
            width_bits: self.width_bits,
            height_bits: self.height_bits,
            refx_bits: self.refx_bits,
            refy_bits: self.refy_bits,
            orient_bits: self.orient_bits,
            crumb: self.crumb,
            style_name: opt_view(self.style_name),
        }
    }
}

impl Marker {
    /// A marker drawing `crumb`, of zero size and reference point, oriented
    /// along the path, in no named style.
    pub fn new(crumb: Crumb) -> (m: Self)
        ensures
            m@ == (MarkerView {
                width_bits: 0,
                height_bits: 0,
                refx_bits: 0,
                refy_bits: 0,
                orient_bits: None,
                crumb,
                style_name: None,
            }),
    {
        Marker {
            width_bits: 0,
            height_bits: 0,
            refx_bits: 0,
            refy_bits: 0,
            orient_bits: None,
            crumb,
            style_name: None,
        }
    }

    pub fn with_size(self, width_bits: u64, height_bits: u64) -> (m: Self)
        ensures
            m@ == (MarkerView { width_bits, height_bits, ..self@ }),
    {
        let mut m = self;
        m.width_bits = width_bits;
        m.height_bits = height_bits;
        m
    }

    pub fn with_refxy(self, refx_bits: u64, refy_bits: u64) -> (m: Self)
        ensures
            m@ == (MarkerView { refx_bits, refy_bits, ..self@ }),
    {
        let mut m = self;
        m.refx_bits = refx_bits;
        m.refy_bits = refy_bits;
        m
    }

    pub fn with_named_style(self, name: &str) -> (m: Self)
        ensures
            m@ == (MarkerView { style_name: Some(name@), ..self@ }),
    {
        let mut m = self;
        m.style_name = Some(name.to_owned());
        m
    }

    pub fn get_width(&self) -> (w: u64)
        ensures
            w == self@.width_bits,
    {
        self.width_bits
    }

    pub fn get_height(&self) -> (h: u64)
        ensures
            h == self@.height_bits,
    {
        self.height_bits
    }

    pub fn get_refx(&self) -> (x: u64)
        ensures
            x == self@.refx_bits,
    {
        self.refx_bits
    }

    pub fn get_refy(&self) -> (y: u64)
        ensures
            y == self@.refy_bits,
    {
        self.refy_bits
    }

    pub fn get_orient(&self) -> (o: Option<u64>)
        ensures
            o == self@.orient_bits,
    {
        self.orient_bits
    }

    pub fn get_crumb(&self) -> (c: &Crumb)
        ensures
            *c == self@.crumb,
    {
        &self.crumb
    }

    pub fn get_style_name(&self) -> (n: Option<&str>)
        ensures
            n.is_some() == self@.style_name.is_some(),
            n.is_some() ==> n.unwrap()@ == self@.style_name.unwrap(),
    {
        match &self.style_name {
            Some(name) => Some(name.as_str()),
            None => None,
        }
    }
}

/// The names of the markers drawn at the start, the middle vertices and
/// the end of a path.
#[derive(Default, Debug)]
pub struct MarkerSuit {
    start_name: Option<String>,
    mid_name: Option<String>,
    end_name: Option<String>,
}

/// What a marker suit is, as contracts see it.
pub struct MarkerSuitView {
    pub start_name: Option<Seq<char>>,
    pub mid_name: Option<Seq<char>>,
    pub end_name: Option<Seq<char>>,
}

impl View for MarkerSuit {
    type V = MarkerSuitView;

    closed spec fn view(&self) -> MarkerSuitView {
        MarkerSuitView {
            start_name: opt_view(self.start_name),
            mid_name: opt_view(self.mid_name),
            end_name: opt_view(self.end_name),
        }
    }
}

/// The view of an optional string slice.
pub open spec fn opt_str_view(s: Option<&str>) -> Option<Seq<char>> {
    match s {
        Some(s) => Some(s@),
        None => None,
    }
}

fn opt_as_str(s: &Option<String>) -> (r: Option<&str>)
    ensures
        opt_str_view(r) == opt_view(*s),
{
    match s {
        Some(name) => Some(name.as_str()),
        None => None,
    }
}

fn opt_clone(s: &Option<String>) -> (r: Option<String>)
    ensures
        opt_view(r) == opt_view(*s),
{
    match s {
        Some(name) => Some(name.clone()),
        None => None,
    }
}

impl MarkerSuit {
    /// No markers.
    pub fn new() -> (m: Self)
        ensures
            m@ == (MarkerSuitView { start_name: None, mid_name: None, end_name: None }),
    {
        MarkerSuit { start_name: None, mid_name: None, end_name: None }
    }

    pub fn get_start_name(&self) -> (n: Option<&str>)
        ensures
            opt_str_view(n) == self@.start_name,
    {
        opt_as_str(&self.start_name)
    }

    pub fn get_mid_name(&self) -> (n: Option<&str>)
        ensures
            opt_str_view(n) == self@.mid_name,
    {
        opt_as_str(&self.mid_name)
    }

    pub fn get_end_name(&self) -> (n: Option<&str>)
        ensures
            opt_str_view(n) == self@.end_name,
    {
        opt_as_str(&self.end_name)
    }

}

impl Clone for MarkerSuit {
    fn clone(&self) -> (m: Self)
        ensures
            m@ == self@,
    {
        MarkerSuit {
            start_name: opt_clone(&self.start_name),
            mid_name: opt_clone(&self.mid_name),
            end_name: opt_clone(&self.end_name),
        }
    }
}

/// A style: named references to a theme's stroke and fill, an explicit
/// stroke and fill, markers and a font.
#[derive(Debug)]
pub struct Style {
    stroke_name: Option<String>,
    fill_name: Option<String>,
    stroke: Option<Stroke>,
    fill: Option<Fill>,
    markers: MarkerSuit,
    font: Option<Font>,
}

/// What a style is, as contracts see it.
pub struct StyleView {
    pub stroke_name: Option<Seq<char>>,
    pub fill_name: Option<Seq<char>>,
    pub stroke: Option<StrokeView>,
    pub fill: Option<FillView>,
    pub markers: MarkerSuitView,
    pub font: Option<FontView>,
}

pub open spec fn opt_stroke_view(s: Option<Stroke>) -> Option<StrokeView> {
    match s {
        Some(s) => Some(s@),
        None => None,
    }
}

pub open spec fn opt_fill_view(f: Option<Fill>) -> Option<FillView> {
    match f {
        Some(f) => Some(f@),
        None => None,
    }
}

pub open spec fn opt_font_view(f: Option<Font>) -> Option<FontView> {
    match f {
        Some(f) => Some(f@),
        None => None,
    }
}

impl View for Style {
    type V = StyleView;

    closed spec fn view(&self) -> StyleView {
        StyleView {
            stroke_name: opt_view(self.stroke_name),
            fill_name: opt_view(self.fill_name),
            stroke: opt_stroke_view(self.stroke),
            fill: opt_fill_view(self.fill),
            markers: self.markers@,
            font: opt_font_view(self.font),
        }
    }
}

impl Clone for Style {
    fn clone(&self) -> (s: Self)
        ensures
            s@ == self@,
    {
        Style {
            stroke_name: opt_clone(&self.stroke_name),
            fill_name: opt_clone(&self.fill_name),
            stroke: self.stroke,
            fill: match &self.fill {
                Some(f) => Some(f.clone()),
                None => None,
            },
            markers: self.markers.clone(),
            font: match &self.font {
                Some(f) => Some(f.clone()),
                None => None,
            },
        }
    }
}

impl Default for Style {
    fn default() -> (s: Self)
        ensures
            s@ == Style::spec_empty(),
    {
        Style::new()
    }
}

impl Style {
    /// The style with nothing set.
    pub open spec fn spec_empty() -> StyleView {
        StyleView {
            stroke_name: None,
            fill_name: None,
            stroke: None,
            fill: None,
            markers: MarkerSuitView { start_name: None, mid_name: None, end_name: None },
            font: None,
        }
    }

    pub fn new() -> (s: Self)
        ensures
            s@ == Style::spec_empty(),
    {
        Style {
            stroke_name: None,
            fill_name: None,
            stroke: None,
            fill: None,
            markers: MarkerSuit::new(),
            font: None,
        }
    }

    pub fn with_stroke(self, stroke: Stroke) -> (s: Self)
        ensures
            s@ == (StyleView { stroke: Some(stroke@), ..self@ }),
    {
        let mut s = self;
        s.set_stroke(stroke);
        s
    }

    pub fn with_named_stroke(self, name: &str) -> (s: Self)
        ensures
            s@ == (StyleView { stroke_name: Some(name@), ..self@ }),
    {
        let mut s = self;
        s.stroke_name = Some(name.to_owned());
        s
    }

    pub fn with_fill(self, fill: Fill) -> (s: Self)
        ensures
            s@ == (StyleView { fill: Some(fill@), ..self@ }),
    {
        let mut s = self;
        s.set_fill(fill);
        s
    }

    pub fn with_named_fill(self, name: &str) -> (s: Self)
        ensures
            s@ == (StyleView { fill_name: Some(name@), ..self@ }),
    {
        let mut s = self;
        s.fill_name = Some(name.to_owned());
        s
    }

    pub fn with_named_start_marker(self, name: &str) -> (s: Self)
        ensures
            s@ == (StyleView {
                markers: MarkerSuitView { start_name: Some(name@), ..self@.markers },
                ..self@
            }),
    {
        let mut s = self;
        s.markers.start_name = Some(name.to_owned());
        s
    }

    pub fn with_named_mid_marker(self, name: &str) -> (s: Self)
        ensures
            s@ == (StyleView {
                markers: MarkerSuitView { mid_name: Some(name@), ..self@.markers },
                ..self@
            }),
    {
        let mut s = self;
        s.markers.mid_name = Some(name.to_owned());
        s
    }

    pub fn with_named_end_marker(self, name: &str) -> (s: Self)
        ensures
            s@ == (StyleView {
                markers: MarkerSuitView { end_name: Some(name@), ..self@.markers },
                ..self@
            }),
    {
        let mut s = self;
        s.markers.end_name = Some(name.to_owned());
        s
    }

    pub fn with_font(self, font: Font) -> (s: Self)
        ensures
            s@ == (StyleView { font: Some(font@), ..self@ }),
    {
        let mut s = self;
        s.set_font(font);
        s
    }

    pub fn set_stroke(&mut self, stroke: Stroke)
        ensures
            final(self)@ == (StyleView { stroke: Some(stroke@), ..old(self)@ }),
    {
        self.stroke = Some(stroke);
    }

    pub fn clear_stroke(&mut self)
        ensures
            final(self)@ == (StyleView { stroke: None, ..old(self)@ }),
    {
        self.stroke = None;
    }

    pub fn set_fill(&mut self, fill: Fill)
        ensures
            final(self)@ == (StyleView { fill: Some(fill@), ..old(self)@ }),
    {
        self.fill = Some(fill);
    }

    pub fn clear_fill(&mut self)
        ensures
            final(self)@ == (StyleView { fill: None, ..old(self)@ }),
    {
        self.fill = None;
    }

    pub fn get_stroke(&self) -> (s: Option<&Stroke>)
        ensures
            s.is_some() == self@.stroke.is_some(),
            s.is_some() ==> s.unwrap()@ == self@.stroke.unwrap(),
    {
        match &self.stroke {
            Some(s) => Some(s),
            None => None,
        }
    }

    pub fn get_mut_stroke(&mut self) -> (s: Option<&mut Stroke>)
        ensures
            s.is_some() == old(self)@.stroke.is_some(),
            s matches Some(r) ==> {
                &&& r@ == old(self)@.stroke.unwrap()
                &&& final(self)@ == (StyleView { stroke: Some(final(r)@), ..old(self)@ })
            },
            s.is_none() ==> final(self)@ == old(self)@,
    {
        match &mut self.stroke {
            Some(s) => Some(s),
            None => None,
        }
    }

    pub fn get_fill(&self) -> (f: Option<&Fill>)
        ensures
            f.is_some() == self@.fill.is_some(),
            f.is_some() ==> f.unwrap()@ == self@.fill.unwrap(),
    {
        match &self.fill {
            Some(f) => Some(f),
            None => None,
        }
    }

    pub fn get_mut_fill(&mut self) -> (f: Option<&mut Fill>)
        ensures
            f.is_some() == old(self)@.fill.is_some(),
            f matches Some(r) ==> {
                &&& r@ == old(self)@.fill.unwrap()
                &&& final(self)@ == (StyleView { fill: Some(final(r)@), ..old(self)@ })
            },
            f.is_none() ==> final(self)@ == old(self)@,
    {
        match &mut self.fill {
            Some(f) => Some(f),
            None => None,
        }
    }

    /// The fill color, where the fill is a plain color.
    pub fn get_fill_color(&self) -> (c: Option<&Color>)
        ensures
            c.is_some() == (self@.fill matches Some(FillView::Color(_))),
            c.is_some() ==> self@.fill == Some(FillView::Color(*c.unwrap())),
    {
        match &self.fill {
            Some(Fill::Color(c)) => Some(c),
            _ => None,
        }
    }

    /// The name of the fill gradient, where the fill is a gradient.
    pub fn get_fill_gradient_name(&self) -> (n: Option<&str>)
        ensures
            n.is_some() == (self@.fill matches Some(FillView::Linear(_)) || self@.fill matches Some(
                FillView::Radial(_),
            )),
            n.is_some() ==> (self@.fill == Some(FillView::Linear(n.unwrap()@)) || self@.fill
                == Some(FillView::Radial(n.unwrap()@))),
    {
        match &self.fill {
            Some(Fill::Linear(name)) => Some(name.as_str()),
            Some(Fill::Radial(name)) => Some(name.as_str()),
            _ => None,
        }
    }

    pub fn get_stroke_name(&self) -> (n: Option<&str>)
        ensures
            opt_str_view(n) == self@.stroke_name,
    {
        opt_as_str(&self.stroke_name)
    }

    pub fn get_fill_name(&self) -> (n: Option<&str>)
        ensures
            opt_str_view(n) == self@.fill_name,
    {
        opt_as_str(&self.fill_name)
    }

    pub fn get_markers(&self) -> (m: &MarkerSuit)
        ensures
            m@ == self@.markers,
    {
        &self.markers
    }

    pub fn set_font(&mut self, font: Font)
        ensures
            final(self)@ == (StyleView { font: Some(font@), ..old(self)@ }),
    {
        self.font = Some(font);
    }

    pub fn get_font(&self) -> (f: Option<&Font>)
        ensures
            f.is_some() == self@.font.is_some(),
            f.is_some() ==> f.unwrap()@ == self@.font.unwrap(),
    {
        match &self.font {
            Some(f) => Some(f),
            None => None,
        }
    }
}

} // verus!
