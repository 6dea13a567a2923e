//! Pieces of SVG element markup whose numbers are floating point.
//!
//! The library decides which bytes are written and where each number
//! stands; numbers come out as figures, which a printer spells in
//! decimal, so that no floating-point arithmetic happens here.
use vstd::prelude::*;
use vstd::string::StringSliceAdditionalSpecFns;
use vstd::string::StrSliceExecFns;
use kurbo::{Point, TranslateScale};
use crate::text::Anchor;
use crate::style::{Gradient, GradientStop, GradientView, Stroke, StrokeView, Style, StyleView};
use crate::svg::{color_attr, fill_text, markers_text, WriteSvg, WriteSvgWithName};

verus! {

/// A number in markup, spelled by the printer.
#[derive(Debug)]
pub enum Figure {
    /// The double whose IEEE-754 bit pattern is given.
    Bits(u64),
    /// The abscissa of a point.
    X(Point),
    /// The ordinate of a point.
    Y(Point),
    /// The double with the given bit pattern times the scale factor of a
    /// transform.
    Scaled(TranslateScale, u64),
    /// Where the double with the given bit pattern, a unit coordinate,
    /// falls across a span from 0 to 100: `0 + x * 100`.
    Across(u64),
    /// The double with the given bit pattern times 100.
    Hundredfold(u64),
    /// The single whose IEEE-754 bit pattern is given.
    Single(u32),
}

/// A piece of markup: bytes written as they are, or a figure.
#[derive(Debug)]
pub enum Piece {
    Bytes(Vec<u8>),
    Figure(Figure),
}

/// What a piece is, as contracts see it.
pub enum PieceView {
    Bytes(Seq<u8>),
    Figure(Figure),
}

impl View for Piece {
    type V = PieceView;

    open spec fn view(&self) -> PieceView {
        match self {
            Piece::Bytes(b) => PieceView::Bytes(b@),
            Piece::Figure(f) => PieceView::Figure(*f),
        }
    }
}

/// The views of a run of pieces.
pub open spec fn pieces_view(s: Seq<Piece>) -> Seq<PieceView> {
    Seq::new(s.len(), |i: int| s[i]@)
}

/// The bytes of `s`, as a piece.
pub open spec fn lit(s: &str) -> PieceView {
    PieceView::Bytes(s.spec_bytes())
}

/// A figure, as a piece.
pub open spec fn fig(f: Figure) -> PieceView {
    PieceView::Figure(f)
}

/// The opening of an element: `  <text` for a root, `<tspan` for a span,
/// followed by `x="…" y="…"` where the element is given a place.  A root
/// is always given one.
pub open spec fn element_open(root: bool, place: Option<(Figure, Figure)>) -> Seq<PieceView> {
    match place {
        Some((x, y)) => seq![
            lit(if root { "  <text x=\"" } else { "<tspan x=\"" }),
            fig(x),
            lit("\" y=\""),
            fig(y),
            lit("\""),
        ],
        None => seq![lit("<tspan")],
    }
}

/// The `text-anchor` attribute: left out for a root anchored at its
/// start, where it is the default.
pub open spec fn anchor_attr(root: bool, anchor: Anchor) -> Seq<PieceView> {
    match anchor {
        Anchor::Start => if root {
            Seq::empty()
        } else {
            seq![lit(" text-anchor=\"start\"")]
        },
        Anchor::Middle => seq![lit(" text-anchor=\"middle\"")],
        Anchor::End => seq![lit(" text-anchor=\"end\"")],
    }
}

/// The numbers of `v`, separated by single spaces.
pub open spec fn spaced(v: Seq<u64>) -> Seq<PieceView>
    decreases v.len(),
{
    if v.len() == 0 {
        Seq::empty()
    } else if v.len() == 1 {
        seq![fig(Figure::Bits(v[0]))]
    } else {
        spaced(v.drop_last()) + seq![lit(" "), fig(Figure::Bits(v.last()))]
    }
}

/// A list attribute opened by `open` (such as ` dx="`): nothing for an
/// empty list, else the numbers separated by spaces and a closing quote.
pub open spec fn offsets_attr(open: &str, v: Seq<u64>) -> Seq<PieceView> {
    if v.len() == 0 {
        Seq::empty()
    } else {
        seq![lit(open)] + spaced(v) + seq![lit("\"")]
    }
}

/// The font attributes, which end the opening tag.
pub open spec fn font_attrs(family: Seq<u8>, size: Figure) -> Seq<PieceView> {
    seq![
        lit(" font-family=\""),
        PieceView::Bytes(family),
        lit("\" font-size=\""),
        fig(size),
        lit("\">"),
    ]
}

/// Appends `p`.
pub(crate) fn put_piece(out: &mut Vec<Piece>, p: Piece)
    ensures
        pieces_view(final(out)@) == pieces_view(old(out)@).push(p@),
{
    let ghost v = p@;
    out.push(p);
    proof {
        assert(pieces_view(out@) =~= pieces_view(old(out)@).push(v));
    }
}

/// Appends the bytes of `s`.
pub(crate) fn put_lit(out: &mut Vec<Piece>, s: &str)
    ensures
        pieces_view(final(out)@) == pieces_view(old(out)@).push(lit(s)),
{
    put_piece(out, Piece::Bytes(s.as_bytes_vec()));
}

/// Appends the opening of an element.
pub(crate) fn put_element_open(out: &mut Vec<Piece>, root: bool, place: Option<(Figure, Figure)>)
    ensures
        pieces_view(final(out)@) == pieces_view(old(out)@) + element_open(root, place),
{
    let ghost start = pieces_view(out@);
    match place {
        Some((x, y)) => {
            if root {
                put_lit(out, "  <text x=\"");
            } else {
                put_lit(out, "<tspan x=\"");
            }
            put_piece(out, Piece::Figure(x));
            put_lit(out, "\" y=\"");
            put_piece(out, Piece::Figure(y));
            put_lit(out, "\"");
        },
        None => {
            put_lit(out, "<tspan");
        },
    }
    proof {
        assert(pieces_view(out@) =~= start + element_open(root, place));
    }
}

/// Appends the `text-anchor` attribute, where one is written.
pub(crate) fn put_anchor(out: &mut Vec<Piece>, root: bool, anchor: Anchor)
    ensures
        pieces_view(final(out)@) == pieces_view(old(out)@) + anchor_attr(root, anchor),
{
    let ghost start = pieces_view(out@);
    match anchor {
        Anchor::Start => {
            if !root {
                put_lit(out, " text-anchor=\"start\"");
            }
        },
        Anchor::Middle => put_lit(out, " text-anchor=\"middle\""),
        Anchor::End => put_lit(out, " text-anchor=\"end\""),
    }
    proof {
        assert(pieces_view(out@) =~= start + anchor_attr(root, anchor));
    }
}

proof fn lemma_spaced_step(v: Seq<u64>, i: int)
    requires
        1 <= i < v.len(),
    ensures
        spaced(v.subrange(0, i + 1)) == spaced(v.subrange(0, i)) + seq![lit(" "), fig(Figure::Bits(v[i]))],
{
    let w = v.subrange(0, i + 1);
    assert(w.drop_last() =~= v.subrange(0, i));
    assert(w.last() == v[i]);
}

/// Appends a list attribute opened by `open`, where the list is not empty.
pub(crate) fn put_offsets(out: &mut Vec<Piece>, open: &str, v: &[u64])
    ensures
        pieces_view(final(out)@) == pieces_view(old(out)@) + offsets_attr(open, v@),
{
    let ghost start = pieces_view(out@);
    if v.len() > 0 {
        put_lit(out, open);
        put_piece(out, Piece::Figure(Figure::Bits(v[0])));
        proof {
            assert(spaced(v@.subrange(0, 1)) =~= seq![fig(Figure::Bits(v@[0]))]);
            assert(pieces_view(out@) =~= start + seq![lit(open)] + spaced(v@.subrange(0, 1)));
        }
        let mut i: usize = 1;
        while i < v.len()
            invariant
                1 <= i <= v@.len(),
                pieces_view(out@) == start + seq![lit(open)] + spaced(v@.subrange(0, i as int)),
            decreases v@.len() - i,
        {
            let ghost before = pieces_view(out@);
            put_lit(out, " ");
            put_piece(out, Piece::Figure(Figure::Bits(v[i])));
            proof {
                lemma_spaced_step(v@, i as int);
                assert(pieces_view(out@) =~= before + seq![lit(" "), fig(Figure::Bits(v@[i as int]))]);
            }
            i = i + 1;
        }
        let ghost body = pieces_view(out@);
        put_lit(out, "\"");
        proof {
            assert(v@.subrange(0, v@.len() as int) =~= v@);
            assert(pieces_view(out@) =~= start + offsets_attr(open, v@));
        }
    } else {
        assert(pieces_view(out@) =~= start + offsets_attr(open, v@));
    }
}

/// Appends the font attributes that end an opening tag.
pub(crate) fn put_font_attrs(out: &mut Vec<Piece>, family: &str, size: Figure)
    ensures
        pieces_view(final(out)@) == pieces_view(old(out)@) + font_attrs(family.spec_bytes(), size),
{
    let ghost start = pieces_view(out@);
    put_lit(out, " font-family=\"");
    put_piece(out, Piece::Bytes(family.as_bytes_vec()));
    put_lit(out, "\" font-size=\"");
    put_piece(out, Piece::Figure(size));
    put_lit(out, "\">");
    proof {
        assert(pieces_view(out@) =~= start + font_attrs(family.spec_bytes(), size));
    }
}

/// The markup of a gradient stop: its offset and its color.
pub open spec fn stop_markup(stop: GradientStop) -> Seq<PieceView> {
    seq![
        lit("      <stop offset=\""),
        fig(Figure::Single(stop.pos_bits)),
        lit("\" "),
        PieceView::Bytes(color_attr(stop.color, "stop-color".spec_bytes())),
        lit("/>\n"),
    ]
}

/// The markup of a list of stops: each in turn.
pub open spec fn stops_markup(stops: Seq<GradientStop>) -> Seq<PieceView>
    decreases stops.len(),
{
    if stops.len() == 0 {
        Seq::empty()
    } else {
        stops_markup(stops.drop_last()) + stop_markup(stops.last())
    }
}

/// The definition of a gradient under the name `name`: a linear gradient
/// between its two unit points placed across a square of side 100, or a
/// radial one whose radius is given in hundredths, then its stops.
pub open spec fn gradient_markup(g: GradientView, name: Seq<u8>) -> Seq<PieceView> {
    match g {
        GradientView::Linear(start, end, stops) => seq![
            lit("    <linearGradient id=\""),
            PieceView::Bytes(name),
            lit("\" x1=\""),
            fig(Figure::Across(start.u_bits)),
            lit("%\" y1=\""),
            fig(Figure::Across(start.v_bits)),
            lit("%\" x2=\""),
            fig(Figure::Across(end.u_bits)),
            lit("%\" y2=\""),
            fig(Figure::Across(end.v_bits)),
            lit("%\">\n"),
        ] + stops_markup(stops) + seq![lit("    </linearGradient>\n")],
        GradientView::Radial(radius, stops) => seq![
            lit("    <radialGradient id=\""),
            PieceView::Bytes(name),
            lit("\" r=\""),
            fig(Figure::Hundredfold(radius)),
            lit("%\">\n"),
        ] + stops_markup(stops) + seq![lit("    </radialGradient>\n")],
    }
}

/// Appends the markup of each stop in turn.
fn put_stops(out: &mut Vec<Piece>, stops: &[GradientStop])
    ensures
        pieces_view(final(out)@) == pieces_view(old(out)@) + stops_markup(stops@),
{
    let ghost start = pieces_view(out@);
    let mut i: usize = 0;
    assert(stops@.subrange(0, 0) =~= Seq::<GradientStop>::empty());
    while i < stops.len()
        invariant
            i <= stops@.len(),
            pieces_view(out@) == start + stops_markup(stops@.subrange(0, i as int)),
        decreases stops@.len() - i,
    {
        let ghost before = pieces_view(out@);
        let stop = stops[i];
        put_lit(out, "      <stop offset=\"");
        put_piece(out, Piece::Figure(Figure::Single(stop.pos_bits)));
        put_lit(out, "\" ");
        let mut color: Vec<u8> = Vec::new();
        stop.color.write_svg_with_name(&mut color, "stop-color");
        assert(color@ =~= color_attr(stop.color, "stop-color".spec_bytes()));
        put_piece(out, Piece::Bytes(color));
        put_lit(out, "/>\n");
        proof {
            let w = stops@.subrange(0, i + 1);
            assert(w.drop_last() =~= stops@.subrange(0, i as int));
            assert(w.last() == stop);
            assert(pieces_view(out@) =~= before + stop_markup(stop));
        }
        i = i + 1;
    }
    assert(stops@.subrange(0, stops@.len() as int) =~= stops@);
}

impl Gradient {
    /// Appends the definition of the gradient under the name `name`.
    pub fn write_svg_with_name(&self, svg: &mut Vec<Piece>, name: &str)
        ensures
            pieces_view(final(svg)@) == pieces_view(old(svg)@) + gradient_markup(self@, name.spec_bytes()),
    {
        let ghost start = pieces_view(svg@);
        match self {
            Gradient::Linear(a, b, stops) => {
                put_lit(svg, "    <linearGradient id=\"");
                put_lit(svg, name);
                put_lit(svg, "\" x1=\"");
                put_piece(svg, Piece::Figure(Figure::Across(a.u_bits)));
                put_lit(svg, "%\" y1=\"");
                put_piece(svg, Piece::Figure(Figure::Across(a.v_bits)));
                put_lit(svg, "%\" x2=\"");
                put_piece(svg, Piece::Figure(Figure::Across(b.u_bits)));
                put_lit(svg, "%\" y2=\"");
                put_piece(svg, Piece::Figure(Figure::Across(b.v_bits)));
                put_lit(svg, "%\">\n");
                put_stops(svg, stops.as_slice());
                put_lit(svg, "    </linearGradient>\n");
            },
            Gradient::Radial(r, stops) => {
                put_lit(svg, "    <radialGradient id=\"");
                put_lit(svg, name);
                put_lit(svg, "\" r=\"");
                put_piece(svg, Piece::Figure(Figure::Hundredfold(*r)));
                put_lit(svg, "%\">\n");
                put_stops(svg, stops.as_slice());
                put_lit(svg, "    </radialGradient>\n");
            },
        }
        proof {
            assert(pieces_view(svg@) =~= start + gradient_markup(self@, name.spec_bytes()));
        }
    }
}

/// The attributes of a stroke: its color and opacity, and its width.
pub open spec fn stroke_markup(k: StrokeView) -> Seq<PieceView> {
    seq![
        PieceView::Bytes(color_attr(k.brush, "stroke".spec_bytes())),
        lit(" stroke-width=\""),
        fig(Figure::Bits(k.width_bits)),
        lit("\""),
    ]
}

/// The attributes of a style: those of its stroke, if it has one,
/// followed by a space; its fill, or `fill="none"`; then its markers.
pub open spec fn style_markup(s: StyleView) -> Seq<PieceView> {
    (match s.stroke {
        Some(k) => stroke_markup(k) + seq![lit(" ")],
        None => Seq::empty(),
    }) + seq![
        match s.fill {
            Some(f) => PieceView::Bytes(fill_text(f)),
            None => lit("fill=\"none\""),
        },
    ] + seq![PieceView::Bytes(markers_text(s.markers))]
}

impl Stroke {
    /// Appends the attributes of the stroke.
    pub fn write_svg(&self, svg: &mut Vec<Piece>)
        ensures
            pieces_view(final(svg)@) == pieces_view(old(svg)@) + stroke_markup(self@),
    {
        let ghost start = pieces_view(svg@);
        let mut color: Vec<u8> = Vec::new();
        self.get_brush().write_svg_with_name(&mut color, "stroke");
        assert(color@ =~= color_attr(self@.brush, "stroke".spec_bytes()));
        put_piece(svg, Piece::Bytes(color));
        put_lit(svg, " stroke-width=\"");
        put_piece(svg, Piece::Figure(Figure::Bits(self.get_width())));
        put_lit(svg, "\"");
        proof {
            assert(pieces_view(svg@) =~= start + stroke_markup(self@));
        }
    }
}

impl Style {
    /// Appends the attributes of the style.
    pub fn write_svg(&self, svg: &mut Vec<Piece>)
        ensures
            pieces_view(final(svg)@) == pieces_view(old(svg)@) + style_markup(self@),
    {
        let ghost start = pieces_view(svg@);
        match self.get_stroke() {
            Some(stroke) => {
                stroke.write_svg(svg);
                put_lit(svg, " ");
            },
            None => {},
        }
        let ghost mid = pieces_view(svg@);
        match self.get_fill() {
            Some(fill) => {
                let mut text: Vec<u8> = Vec::new();
                fill.write_svg(&mut text);
                assert(text@ =~= fill_text(self@.fill.unwrap()));
                put_piece(svg, Piece::Bytes(text));
            },
            None => put_lit(svg, "fill=\"none\""),
        }
        let mut markers: Vec<u8> = Vec::new();
        self.get_markers().write_svg(&mut markers);
        assert(markers@ =~= markers_text(self@.markers));
        put_piece(svg, Piece::Bytes(markers));
        proof {
            assert(pieces_view(svg@) =~= start + style_markup(self@));
        }
    }
}

proof fn lemma_stops_markup(stops: Seq<GradientStop>)
    ensures
        stops_markup(stops).len() == 5 * stops.len(),
        forall|j: int| 0 <= j < stops.len() ==> {
            &&& #[trigger] stops_markup(stops)[5 * j] == lit("      <stop offset=\"")
            &&& stops_markup(stops)[5 * j + 1] == fig(Figure::Single(stops[j].pos_bits))
            &&& stops_markup(stops)[5 * j + 2] == lit("\" ")
            &&& stops_markup(stops)[5 * j + 3] == PieceView::Bytes(color_attr(stops[j].color, "stop-color".spec_bytes()))
            &&& stops_markup(stops)[5 * j + 4] == lit("/>\n")
        },
    decreases stops.len(),
{
    if stops.len() > 0 {
        let rest = stops.drop_last();
        lemma_stops_markup(rest);
        let m = stops_markup(stops);
        assert(m == stops_markup(rest) + stop_markup(stops.last()));
        assert forall|j: int| 0 <= j < stops.len() implies {
            &&& #[trigger] m[5 * j] == lit("      <stop offset=\"")
            &&& m[5 * j + 1] == fig(Figure::Single(stops[j].pos_bits))
            &&& m[5 * j + 2] == lit("\" ")
            &&& m[5 * j + 3] == PieceView::Bytes(color_attr(stops[j].color, "stop-color".spec_bytes()))
            &&& m[5 * j + 4] == lit("/>\n")
        } by {
            if j < rest.len() {
                assert(rest[j] == stops[j]);
                assert(stops_markup(rest)[5 * j] == lit("      <stop offset=\""));
            } else {
                assert(j == rest.len());
                assert(stops.last() == stops[j]);
            }
        }
    }
}

/// The stops of a gradient, linear or radial.
pub open spec fn gradient_stops(g: GradientView) -> Seq<GradientStop> {
    match g {
        GradientView::Linear(_, _, stops) => stops,
        GradientView::Radial(_, stops) => stops,
    }
}

/// A gradient's definition writes one `<stop>` element for each of its
/// stops, in order, whatever its kind: after the opening tag (eleven pieces
/// for a linear gradient, five for a radial one) come five pieces per stop,
/// its offset and its color, then the closing tag alone.
pub proof fn law_gradient_writes_every_stop(g: GradientView, name: Seq<u8>)
    ensures
        ({
            let m = gradient_markup(g, name);
            let h: int = if g is Linear { 11 } else { 5 };
            let stops = gradient_stops(g);
            &&& m.len() == h + 5 * stops.len() + 1
            &&& forall|j: int| 0 <= j < stops.len() ==> {
                &&& #[trigger] m[h + 5 * j] == lit("      <stop offset=\"")
                &&& m[h + 5 * j + 1] == fig(Figure::Single(stops[j].pos_bits))
                &&& m[h + 5 * j + 3] == PieceView::Bytes(color_attr(stops[j].color, "stop-color".spec_bytes()))
                &&& m[h + 5 * j + 4] == lit("/>\n")
            }
            &&& m.last() == lit(if g is Linear { "    </linearGradient>\n" } else { "    </radialGradient>\n" })
        }),
{
    let stops = gradient_stops(g);
    lemma_stops_markup(stops);
    let m = gradient_markup(g, name);
    let h: int = if g is Linear { 11 } else { 5 };
    let sm = stops_markup(stops);
    assert forall|j: int| 0 <= j < stops.len() implies {
        &&& #[trigger] m[h + 5 * j] == lit("      <stop offset=\"")
        &&& m[h + 5 * j + 1] == fig(Figure::Single(stops[j].pos_bits))
        &&& m[h + 5 * j + 3] == PieceView::Bytes(color_attr(stops[j].color, "stop-color".spec_bytes()))
        &&& m[h + 5 * j + 4] == lit("/>\n")
    } by {
        assert(sm[5 * j] == lit("      <stop offset=\""));
        assert(m[h + 5 * j] == sm[5 * j]);
        assert(m[h + 5 * j + 1] == sm[5 * j + 1]);
        assert(m[h + 5 * j + 3] == sm[5 * j + 3]);
        assert(m[h + 5 * j + 4] == sm[5 * j + 4]);
    }
}

} // verus!
