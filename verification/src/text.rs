//! Text labels: runs of text and nested spans, with an origin, per-glyph
//! offsets, an anchor and a font.
use vstd::prelude::*;
use kurbo::{Point, TranslateScale};
use crate::error::VisError;
use crate::font::{Font, FontView};
use crate::style::{Style, opt_font_view};
use crate::theme::Theme;
use crate::geometry::{image_of, origin_image, ts_image, ts_origin_image};
use crate::markup::{
    anchor_attr, element_open, font_attrs, lit, offsets_attr, pieces_view, put_anchor, put_element_open,
    put_font_attrs, put_lit, put_offsets, Figure, PieceView, Piece,
};
use vstd::utf8::encode_utf8;

verus! {

/// Where the origin of a label sits along its text.
#[derive(Clone, Copy, PartialEq, Eq, Structural, Debug)]
pub enum Anchor {
    Start,
    Middle,
    End,
}

/// A piece of a label's body: plain text, or a nested span.
#[derive(Debug)]
pub enum Item {
    Text(String),
    Span(TextLabel),
}

/// A text label.  Offsets and the font size are carried as bit patterns
/// of IEEE-754 doubles.  A label with an explicitly set font always has
/// a font.
#[derive(Debug)]
pub struct TextLabel {
    origin: Option<Point>,
    dx: Vec<u64>,
    dy: Vec<u64>,
    anchor: Anchor,
    body: Vec<Item>,
    font: Option<Font>,
    is_root: bool,
    font_is_explicit: bool,
    font_size_bits: Option<u64>,
}

/// What a label is, as contracts see it.
pub struct TextLabelView {
    pub origin: Option<Point>,
    pub dx: Seq<u64>,
    pub dy: Seq<u64>,
    pub anchor: Anchor,
    pub body: Seq<Item>,
    pub font: Option<FontView>,
    pub is_root: bool,
    pub font_is_explicit: bool,
    pub font_size_bits: Option<u64>,
}

impl View for TextLabel {
    type V = TextLabelView;

    closed spec fn view(&self) -> TextLabelView {
        TextLabelView {
            origin: self.origin,
            dx: self.dx@,
            dy: self.dy@,
            anchor: self.anchor,
            body: self.body@,
            font: opt_font_view(self.font),
            is_root: self.is_root,
            font_is_explicit: self.font_is_explicit,
            font_size_bits: self.font_size_bits,
        }
    }
}

/// Whether a body item is the text `t`.
pub open spec fn is_text(i: Item, t: Seq<char>) -> bool {
    i matches Item::Text(s) && s@ == t
}

/// Whether a body item is a span whose label is `span` with its root flag
/// cleared.
pub open spec fn is_span_of(i: Item, span: TextLabelView) -> bool {
    i matches Item::Span(l) && l@ == (TextLabelView { is_root: false, ..span })
}

/// The bit pattern of the default label font size: that of `Font`.
pub open spec fn default_font() -> FontView {
    Font::spec_generic(crate::font::GenericFontFamily::SansSerif)
}

impl TextLabel {
    #[verifier::type_invariant]
    spec fn explicit_font_present(self) -> bool {
        self.font_is_explicit ==> self.font.is_some()
    }

    /// An empty root label at no particular origin, anchored at its start,
    /// with no font.
    pub open spec fn spec_empty() -> TextLabelView {
        TextLabelView {
            origin: None,
            dx: Seq::empty(),
            dy: Seq::empty(),
            anchor: Anchor::Start,
            body: Seq::empty(),
            font: None,
            is_root: true,
            font_is_explicit: false,
            font_size_bits: None,
        }
    }

    pub fn new() -> (l: Self)
        ensures
            l@ == TextLabel::spec_empty(),
    {
        let l = TextLabel {
            origin: None,
            dx: Vec::new(),
            dy: Vec::new(),
            anchor: Anchor::Start,
            body: Vec::new(),
            font: None,
            is_root: true,
            font_is_explicit: false,
            font_size_bits: None,
        };
        assert(l@.dx =~= Seq::<u64>::empty());
        assert(l@.dy =~= Seq::<u64>::empty());
        assert(l@.body =~= Seq::<Item>::empty());
        l
    }

    pub fn with_text(self, body: &str) -> (l: Self)
        ensures
            l@.body.len() == self@.body.len() + 1,
            l@.body.drop_last() == self@.body,
            is_text(l@.body.last(), body@),
            l@ == (TextLabelView { body: l@.body, ..self@ }),
    {
        let mut l = self;
        l.append_text(body);
        l
    }

    pub fn with_span(self, span: Self) -> (l: Self)
        ensures
            l@.body.len() == self@.body.len() + 1,
            l@.body.drop_last() == self@.body,
            is_span_of(l@.body.last(), span@),
            l@ == (TextLabelView { body: l@.body, ..self@ }),
    {
        let mut l = self;
        l.append_span(span);
        l
    }

    pub fn with_origin(self, origin: Point) -> (l: Self)
        ensures
            l@ == (TextLabelView { origin: Some(origin), ..self@ }),
    {
        let mut l = self;
        l.set_origin(origin);
        l
    }

    pub fn with_dx(self, dx: Vec<u64>) -> (l: Self)
        ensures
            l@ == (TextLabelView { dx: dx@, ..self@ }),
    {
        let mut l = self;
        l.set_dx(dx);
        l
    }

    pub fn with_dy(self, dy: Vec<u64>) -> (l: Self)
        ensures
            l@ == (TextLabelView { dy: dy@, ..self@ }),
    {
        let mut l = self;
        l.set_dy(dy);
        l
    }

    pub fn with_middle_anchor(self) -> (l: Self)
        ensures
            l@ == (TextLabelView { anchor: Anchor::Middle, ..self@ }),
    {
        let mut l = self;
        l.set_middle_anchor();
        l
    }

    pub fn with_end_anchor(self) -> (l: Self)
        ensures
            l@ == (TextLabelView { anchor: Anchor::End, ..self@ }),
    {
        let mut l = self;
        l.set_end_anchor();
        l
    }

    pub fn with_font(self, font: Font) -> (l: Self)
        ensures
            l@ == (TextLabelView { font: Some(font@), font_is_explicit: true, ..self@ }),
    {
        let mut l = self;
        l.set_font(font);
        l
    }

    pub fn with_font_size(self, size_bits: u64) -> (l: Self)
        ensures
            l@ == TextLabel::spec_with_font_size(self@, size_bits),
    {
        let mut l = self;
        l.set_font_size(size_bits);
        l
    }

    pub fn append_text(&mut self, body: &str)
        ensures
            final(self)@.body.len() == old(self)@.body.len() + 1,
            final(self)@.body.drop_last() == old(self)@.body,
            is_text(final(self)@.body.last(), body@),
            final(self)@ == (TextLabelView { body: final(self)@.body, ..old(self)@ }),
    {
        proof {
            use_type_invariant(&*self);
        }
        let mut items: Vec<Item> = Vec::new();
        std::mem::swap(&mut items, &mut self.body);
        items.push(Item::Text(body.to_owned()));
        self.body = items;
    }

    pub fn append_span(&mut self, span: Self)
        ensures
            final(self)@.body.len() == old(self)@.body.len() + 1,
            final(self)@.body.drop_last() == old(self)@.body,
            is_span_of(final(self)@.body.last(), span@),
            final(self)@ == (TextLabelView { body: final(self)@.body, ..old(self)@ }),
    {
        proof {
            use_type_invariant(&*self);
        }
        let mut span = span;
        proof {
            use_type_invariant(&span);
        }
        span.is_root = false;
        let mut items: Vec<Item> = Vec::new();
        std::mem::swap(&mut items, &mut self.body);
        items.push(Item::Span(span));
        self.body = items;
    }

    pub fn set_origin(&mut self, origin: Point)
        ensures
            final(self)@ == (TextLabelView { origin: Some(origin), ..old(self)@ }),
    {
        proof {
            use_type_invariant(&*self);
        }
        self.origin = Some(origin);
    }

    pub fn set_dx(&mut self, dx: Vec<u64>)
        ensures
            final(self)@ == (TextLabelView { dx: dx@, ..old(self)@ }),
    {
        proof {
            use_type_invariant(&*self);
        }
        self.dx = dx;
    }

    pub fn set_dy(&mut self, dy: Vec<u64>)
        ensures
            final(self)@ == (TextLabelView { dy: dy@, ..old(self)@ }),
    {
        proof {
            use_type_invariant(&*self);
        }
        self.dy = dy;
    }

    pub fn set_middle_anchor(&mut self)
        ensures
            final(self)@ == (TextLabelView { anchor: Anchor::Middle, ..old(self)@ }),
    {
        proof {
            use_type_invariant(&*self);
        }
        self.anchor = Anchor::Middle;
    }

    pub fn set_end_anchor(&mut self)
        ensures
            final(self)@ == (TextLabelView { anchor: Anchor::End, ..old(self)@ }),
    {
        proof {
            use_type_invariant(&*self);
        }
        self.anchor = Anchor::End;
    }

    pub fn set_font(&mut self, font: Font)
        ensures
            final(self)@ == (TextLabelView { font: Some(font@), font_is_explicit: true, ..old(self)@ }),
    {
        proof {
            use_type_invariant(&*self);
        }
        self.font = Some(font);
        self.font_is_explicit = true;
    }

    /// A label after its font size is set: the size is recorded, and
    /// applied to the font where there is one.
    pub open spec fn spec_with_font_size(l: TextLabelView, size_bits: u64) -> TextLabelView {
        TextLabelView {
            font: match l.font {
                Some(f) => Some(FontView { size_bits, ..f }),
                None => None,
            },
            font_size_bits: Some(size_bits),
            ..l
        }
    }

    pub fn set_font_size(&mut self, size_bits: u64)
        ensures
            final(self)@ == TextLabel::spec_with_font_size(old(self)@, size_bits),
    {
        proof {
            use_type_invariant(&*self);
        }
        let resized = match &self.font {
            Some(font) => {
                let mut f = font.clone();
                f.set_size(size_bits);
                Some(f)
            },
            None => None,
        };
        self.font = resized;
        self.font_size_bits = Some(size_bits);
    }

    pub fn is_root(&self) -> (r: bool)
        ensures
            r == self@.is_root,
    {
        self.is_root
    }

    pub fn get_origin(&self) -> (o: Option<Point>)
        ensures
            o == self@.origin,
    {
        self.origin
    }

    pub fn get_dx(&self) -> (dx: &[u64])
        ensures
            dx@ == self@.dx,
    {
        self.dx.as_slice()
    }

    pub fn get_dy(&self) -> (dy: &[u64])
        ensures
            dy@ == self@.dy,
    {
        self.dy.as_slice()
    }

    pub fn get_anchor(&self) -> (a: Anchor)
        ensures
            a == self@.anchor,
    {
        self.anchor
    }

    pub fn get_body(&self) -> (b: &[Item])
        ensures
            b@ == self@.body,
    {
        self.body.as_slice()
    }

    pub fn get_font(&self) -> (f: Option<&Font>)
        ensures
            f.is_some() == self@.font.is_some(),
            f.is_some() ==> f.unwrap()@ == self@.font.unwrap(),
    {
        match &self.font {
            Some(f) => Some(f),
            None => None,
        }
    }

    /// The font size of a label: that of its font where it has one, else
    /// the size set on it, if any.
    pub open spec fn spec_font_size(l: TextLabelView) -> Option<u64> {
        match l.font {
            Some(f) => Some(f.size_bits),
            None => l.font_size_bits,
        }
    }

    pub fn get_font_size(&self) -> (s: Option<u64>)
        ensures
            s == TextLabel::spec_font_size(self@),
    {
        match &self.font {
            Some(font) => Some(font.get_size()),
            None => self.font_size_bits,
        }
    }

    /// The font a label ends up with once resolved against a style: an
    /// explicit font stays; otherwise the style's font, or the default
    /// sans-serif font, at the label's own size where it has one.
    pub open spec fn spec_resolved_font(l: TextLabelView, style_font: Option<FontView>) -> Option<FontView> {
        if l.font_is_explicit {
            l.font
        } else {
            let f = match style_font {
                Some(f) => f,
                None => default_font(),
            };
            match l.font_size_bits {
                Some(s) => Some(FontView { size_bits: s, ..f }),
                None => Some(f),
            }
        }
    }

    /// Settles the font of the label from `style`, unless it was set
    /// explicitly.
    pub fn resolve_font(&mut self, style: Option<&Style>, theme: &Theme)
        ensures
            final(self)@ == (TextLabelView {
                font: TextLabel::spec_resolved_font(
                    old(self)@,
                    match style {
                        Some(s) => s@.font,
                        None => None,
                    },
                ),
                ..old(self)@
            }),
    {
        proof {
            use_type_invariant(&*self);
        }
        if !self.font_is_explicit {
            let mut font = match style {
                Some(s) => match s.get_font() {
                    Some(f) => f.clone(),
                    None => Font::new_sans_serif(),
                },
                None => Font::new_sans_serif(),
            };
            match self.font_size_bits {
                Some(size) => font.set_size(size),
                None => {},
            }
            self.font = Some(font);
        }
    }
}

/// Settling a font is idempotent: settling the font of a label whose font
/// was already settled against the same style font changes nothing.
pub proof fn law_font_resolution_idempotent(l: TextLabelView, style_font: Option<FontView>)
    ensures
        TextLabel::spec_resolved_font(
            TextLabelView { font: TextLabel::spec_resolved_font(l, style_font), ..l },
            style_font,
        ) == TextLabel::spec_resolved_font(l, style_font),
{
}

/// Whether `after` is `before` with its font resolved against
/// `style_font`, and each of its spans too; its text is unchanged.
pub closed spec fn fonts_resolved(before: TextLabel, after: TextLabel, style_font: Option<FontView>) -> bool
    decreases before,
{
    &&& after@ == (TextLabelView {
        font: TextLabel::spec_resolved_font(before@, style_font),
        body: after@.body,
        ..before@
    })
    &&& body_resolved(before.body@, after.body@, style_font)
}

/// Whether the items of `after` are those of `before`, one for one, with
/// the fonts of their spans resolved against `style_font`.
pub closed spec fn body_resolved(before: Seq<Item>, after: Seq<Item>, style_font: Option<FontView>) -> bool
    decreases before,
{
    &&& after.len() == before.len()
    &&& before.len() > 0 ==> {
        &&& item_resolved(before.last(), after.last(), style_font)
        &&& body_resolved(before.drop_last(), after.drop_last(), style_font)
    }
}

/// Whether body item `after` is `before` with the fonts of its spans
/// resolved against `style_font`.
pub closed spec fn item_resolved(before: Item, after: Item, style_font: Option<FontView>) -> bool
    decreases before,
{
    match before {
        Item::Text(t) => after matches Item::Text(u) && u@ == t@,
        Item::Span(b) => after matches Item::Span(a) && fonts_resolved(b, a, style_font),
    }
}

/// The style font that labels placed with `style` resolve against: that
/// of the style, or of the theme's default style where there is none.
pub open spec fn placed_style_font(style: Option<&Style>, theme: crate::theme::ThemeView) -> Option<FontView> {
    match style {
        Some(s) => s@.font,
        None => theme.default_style.font,
    }
}

proof fn lemma_body_resolved(before: Seq<Item>, after: Seq<Item>, f: Option<FontView>)
    requires
        after.len() == before.len(),
        forall|j: int| 0 <= j < before.len() ==> #[trigger] item_resolved(before[j], after[j], f),
    ensures
        body_resolved(before, after, f),
    decreases before.len(),
{
    if before.len() > 0 {
        let b = before.drop_last();
        let a = after.drop_last();
        assert forall|j: int| 0 <= j < b.len() implies #[trigger] item_resolved(b[j], a[j], f) by {
            assert(item_resolved(before[j], after[j], f));
        }
        lemma_body_resolved(b, a, f);
        assert(item_resolved(before[before.len() - 1], after[before.len() - 1], f));
    }
}

impl TextLabel {
    /// Settles the font of the label and of each of its spans from
    /// `style`.
    fn resolve_fonts(&mut self, style: &Style, theme: &Theme)
        ensures
            fonts_resolved(*old(self), *final(self), style@.font),
        decreases *old(self),
    {
        let ghost before: TextLabel = *self;
        self.resolve_font(Some(style), theme);
        proof {
            use_type_invariant(&*self);
        }
        let ghost resolved: TextLabel = *self;
        let mut body: Vec<Item> = Vec::new();
        std::mem::swap(&mut body, &mut self.body);
        let ghost orig = body@;
        assert(orig == before.body@);
        let mut i: usize = 0;
        while i < body.len()
            invariant
                before == *old(self),
                orig == before.body@,
                body@.len() == orig.len(),
                i <= orig.len(),
                forall|j: int| i <= j < orig.len() ==> body@[j] == orig[j],
                forall|j: int| 0 <= j < i ==> #[trigger] item_resolved(orig[j], body@[j], style@.font),
            decreases orig.len() - i,
        {
            proof {
                assert(decreases_to!(before => before.body));
                assert(decreases_to!(before.body => before.body@));
                assert(decreases_to!(before.body@ => before.body@[i as int]));
            }
            let ghost item = body@[i as int];
            match &mut body[i] {
                Item::Span(span) => {
                    proof {
                        assert(item == before.body@[i as int]);
                        assert(item == Item::Span(*span));
                        assert(decreases_to!(item => *span));
                        assert(decreases_to!(before => *span));
                    }
                    span.resolve_fonts(style, theme);
                },
                Item::Text(_) => {},
            }
            proof {
                assert(item_resolved(orig[i as int], body@[i as int], style@.font));
            }
            i = i + 1;
        }
        proof {
            use_type_invariant(&*self);
        }
        std::mem::swap(&mut body, &mut self.body);
        proof {
            assert(self@ == (TextLabelView { body: self@.body, ..resolved@ }));
            assert(self.body@.len() == before.body@.len());
            assert(forall|j: int| 0 <= j < before.body@.len() ==> #[trigger] item_resolved(before.body@[j], self.body@[j], style@.font));
            lemma_body_resolved(before.body@, self.body@, style@.font);
            assert(self@ == (TextLabelView {
                font: TextLabel::spec_resolved_font(before@, style@.font),
                body: self@.body,
                ..before@
            }));
            assert(fonts_resolved(before, *self, style@.font));
        }
    }
}

/// A value whose text is settled against the style it is placed with
/// before it is drawn.
pub trait PreprocessWithStyle {
    fn preprocess_with_style(&mut self, ts: TranslateScale, style: Option<&Style>, theme: &Theme) -> Result<
        (),
        VisError,
    >;
}

impl PreprocessWithStyle for TextLabel {
    /// Settles the fonts of the label and of its spans from `style`, or
    /// from the theme's default style where there is none.  The transform
    /// plays no part.
    fn preprocess_with_style(&mut self, ts: TranslateScale, style: Option<&Style>, theme: &Theme) -> (r: Result<
        (),
        VisError,
    >)
        ensures
            r is Ok,
            fonts_resolved(*old(self), *final(self), placed_style_font(style, theme@)),
    {
        let resolved = match style {
            Some(s) => s,
            None => theme.get_default_style().unwrap(),
        };
        self.resolve_fonts(resolved, theme);
        Ok(())
    }
}

/// Whether `after` is a copy of `before`: the same label, whose body items
/// are copies of those of `before` in turn.
pub closed spec fn label_copied(before: TextLabel, after: TextLabel) -> bool
    decreases before,
{
    &&& after@ == (TextLabelView { body: after@.body, ..before@ })
    &&& body_copied(before.body@, after.body@)
}

/// Whether the items of `after` are copies of those of `before`, one for
/// one.
pub closed spec fn body_copied(before: Seq<Item>, after: Seq<Item>) -> bool
    decreases before,
{
    &&& after.len() == before.len()
    &&& before.len() > 0 ==> {
        &&& item_copied(before.last(), after.last())
        &&& body_copied(before.drop_last(), after.drop_last())
    }
}

/// Whether body item `after` is a copy of `before`: the same text, or a
/// copy of the same span.
pub closed spec fn item_copied(before: Item, after: Item) -> bool
    decreases before,
{
    match before {
        Item::Text(t) => after matches Item::Text(u) && u@ == t@,
        Item::Span(b) => after matches Item::Span(a) && label_copied(b, a),
    }
}

proof fn lemma_body_copied(before: Seq<Item>, after: Seq<Item>)
    requires
        after.len() == before.len(),
        forall|j: int| 0 <= j < before.len() ==> #[trigger] item_copied(before[j], after[j]),
    ensures
        body_copied(before, after),
    decreases before.len(),
{
    if before.len() > 0 {
        let b = before.drop_last();
        let a = after.drop_last();
        assert forall|j: int| 0 <= j < b.len() implies #[trigger] item_copied(b[j], a[j]) by {
            assert(item_copied(before[j], after[j]));
        }
        lemma_body_copied(b, a);
        assert(item_copied(before[before.len() - 1], after[before.len() - 1]));
    }
}

/// A copy of a label, spans included.
fn copy_label(l: &TextLabel) -> (r: TextLabel)
    ensures
        label_copied(*l, r),
        r@ == (TextLabelView { body: r@.body, ..l@ }),
    decreases l,
{
    proof {
        use_type_invariant(l);
    }
    let mut body: Vec<Item> = Vec::new();
    let mut i: usize = 0;
    while i < l.body.len()
        invariant
            i <= l.body@.len(),
            body@.len() == i,
            forall|j: int| 0 <= j < i ==> #[trigger] item_copied(l.body@[j], body@[j]),
        decreases l.body@.len() - i,
    {
        let item = match &l.body[i] {
            Item::Text(t) => Item::Text(t.clone()),
            Item::Span(span) => {
                assert(decreases_to!(l => l.body));
                assert(decreases_to!(l.body => l.body@));
                assert(decreases_to!(l.body@ => l.body@[i as int]));
                Item::Span(copy_label(span))
            },
        };
        proof {
            assert(item_copied(l.body@[i as int], item));
        }
        body.push(item);
        i += 1;
    }
    proof {
        lemma_body_copied(l.body@, body@);
    }
    let font = match &l.font {
        Some(f) => Some(f.clone()),
        None => None,
    };
    let r = TextLabel {
        origin: l.origin,
        dx: l.dx.clone(),
        dy: l.dy.clone(),
        anchor: l.anchor,
        body,
        font,
        is_root: l.is_root,
        font_is_explicit: l.font_is_explicit,
        font_size_bits: l.font_size_bits,
    };
    proof {
        assert(r@ == (TextLabelView { body: r@.body, ..l@ }));
    }
    r
}

impl Clone for TextLabel {
    /// A copy of the label, its spans copied in turn.
    fn clone(&self) -> (r: Self)
        ensures
            label_copied(*self, r),
            r@ == (TextLabelView { body: r@.body, ..self@ }),
    {
        copy_label(self)
    }
}

impl Default for TextLabel {
    fn default() -> (l: Self)
        ensures
            l@ == TextLabel::spec_empty(),
    {
        TextLabel::new()
    }
}

/// Where the plain markup of a label places it: at its origin; a root
/// without one at zero, a span without one nowhere.
pub open spec fn plain_place(l: TextLabelView) -> Option<(Figure, Figure)> {
    match l.origin {
        Some(p) => Some((Figure::X(p), Figure::Y(p))),
        None => if l.is_root {
            Some((Figure::Bits(0), Figure::Bits(0)))
        } else {
            None
        },
    }
}

/// Where the markup of a label drawn under transform `ts` places it: at
/// the image of its origin; a root without one at the image of the
/// default point, a span without one nowhere.
pub open spec fn styled_place(l: TextLabelView, ts: TranslateScale) -> Option<(Figure, Figure)> {
    match l.origin {
        Some(p) => Some((Figure::X(ts_image(ts, p)), Figure::Y(ts_image(ts, p)))),
        None => if l.is_root {
            Some((Figure::X(ts_origin_image(ts)), Figure::Y(ts_origin_image(ts))))
        } else {
            None
        },
    }
}

/// The opening tag of a label placed at `place` and drawn in a font of
/// the given family and size.
pub open spec fn opening(
    l: TextLabelView,
    place: Option<(Figure, Figure)>,
    family: Seq<char>,
    size: Figure,
) -> Seq<PieceView> {
    element_open(l.is_root, place) + anchor_attr(l.is_root, l.anchor) + offsets_attr(" dx=\"", l.dx)
        + offsets_attr(" dy=\"", l.dy) + font_attrs(encode_utf8(family), size)
}

/// The markup of a label as it stands: placed at its own origin, in the
/// default font, its spans likewise; a span's closing tag ends no line.
pub closed spec fn plain_markup(l: TextLabel) -> Seq<PieceView>
    decreases l,
{
    opening(
        l@,
        plain_place(l@),
        Font::spec_family_name(default_font()),
        Figure::Bits(default_font().size_bits),
    ) + plain_body(l.body@) + seq![lit(if l@.is_root { "</text>\n" } else { "</tspan>" })]
}

/// The markup of a body: its items in order.
pub closed spec fn plain_body(b: Seq<Item>) -> Seq<PieceView>
    decreases b,
{
    if b.len() == 0 {
        Seq::empty()
    } else {
        plain_body(b.drop_last()) + plain_item(b.last())
    }
}

/// The markup of a body item: text as its bytes, a span as its markup.
pub closed spec fn plain_item(i: Item) -> Seq<PieceView>
    decreases i,
{
    match i {
        Item::Text(t) => seq![PieceView::Bytes(encode_utf8(t@))],
        Item::Span(s) => plain_markup(s),
    }
}

/// The markup of a label drawn under transform `ts`: where it has a font,
/// placed at the image of its origin, in that font at its size scaled by
/// `ts`, its spans likewise, each closing tag ending a line; where it has
/// none, its plain markup.
pub closed spec fn styled_markup(l: TextLabel, ts: TranslateScale) -> Seq<PieceView>
    decreases l,
{
    match l@.font {
        Some(f) => opening(
            l@,
            styled_place(l@, ts),
            Font::spec_family_name(f),
            Figure::Scaled(ts, f.size_bits),
        ) + styled_body(l.body@, ts) + seq![lit(if l@.is_root { "</text>\n" } else { "</tspan>\n" })],
        None => plain_markup(l),
    }
}

/// The markup of a body drawn under `ts`: its items in order.
pub closed spec fn styled_body(b: Seq<Item>, ts: TranslateScale) -> Seq<PieceView>
    decreases b,
{
    if b.len() == 0 {
        Seq::empty()
    } else {
        styled_body(b.drop_last(), ts) + styled_item(b.last(), ts)
    }
}

/// The markup of a body item drawn under `ts`.
pub closed spec fn styled_item(i: Item, ts: TranslateScale) -> Seq<PieceView>
    decreases i,
{
    match i {
        Item::Text(t) => seq![PieceView::Bytes(encode_utf8(t@))],
        Item::Span(s) => styled_markup(s, ts),
    }
}

proof fn lemma_plain_body_step(b: Seq<Item>, i: int)
    requires
        0 <= i < b.len(),
    ensures
        plain_body(b.subrange(0, i + 1)) == plain_body(b.subrange(0, i)) + plain_item(b[i]),
{
    let w = b.subrange(0, i + 1);
    assert(w.drop_last() =~= b.subrange(0, i));
    assert(w.last() == b[i]);
}

proof fn lemma_styled_body_step(b: Seq<Item>, i: int, ts: TranslateScale)
    requires
        0 <= i < b.len(),
    ensures
        styled_body(b.subrange(0, i + 1), ts) == styled_body(b.subrange(0, i), ts) + styled_item(b[i], ts),
{
    let w = b.subrange(0, i + 1);
    assert(w.drop_last() =~= b.subrange(0, i));
    assert(w.last() == b[i]);
}

impl TextLabel {
    /// Appends the markup of the label as it stands: placed at its own
    /// origin and set in the default font, its spans likewise.
    pub fn write_svg(&self, svg: &mut Vec<Piece>)
        ensures
            pieces_view(final(svg)@) == pieces_view(old(svg)@) + plain_markup(*self),
        decreases self,
    {
        let ghost start = pieces_view(svg@);
        let place = match self.origin {
            Some(p) => Some((Figure::X(p), Figure::Y(p))),
            None => if self.is_root {
                Some((Figure::Bits(0), Figure::Bits(0)))
            } else {
                None
            },
        };
        put_element_open(svg, self.is_root, place);
        put_anchor(svg, self.is_root, self.anchor);
        put_offsets(svg, " dx=\"", self.dx.as_slice());
        put_offsets(svg, " dy=\"", self.dy.as_slice());
        let font = Font::new_sans_serif();
        put_font_attrs(svg, font.get_family_name(), Figure::Bits(font.get_size()));
        let ghost head = pieces_view(svg@);
        proof {
            assert(head == start + opening(
                self@,
                plain_place(self@),
                Font::spec_family_name(default_font()),
                Figure::Bits(default_font().size_bits),
            ));
            assert(self.body@.subrange(0, 0) =~= Seq::<Item>::empty());
        }
        let mut i: usize = 0;
        while i < self.body.len()
            invariant
                i <= self.body@.len(),
                pieces_view(svg@) == head + plain_body(self.body@.subrange(0, i as int)),
            decreases self.body@.len() - i,
        {
            let ghost before = pieces_view(svg@);
            proof {
                assert(decreases_to!(self => self.body));
                assert(decreases_to!(self.body => self.body@));
                assert(decreases_to!(self.body@ => self.body@[i as int]));
            }
            let ghost item = self.body@[i as int];
            match &self.body[i] {
                Item::Text(t) => {
                    put_lit(svg, t.as_str());
                },
                Item::Span(span) => {
                    proof {
                        assert(item == Item::Span(*span));
                        assert(decreases_to!(item => *span));
                    }
                    span.write_svg(svg);
                },
            }
            proof {
                assert(pieces_view(svg@) == before + plain_item(item));
                lemma_plain_body_step(self.body@, i as int);
            }
            i = i + 1;
        }
        if self.is_root {
            put_lit(svg, "</text>\n");
        } else {
            put_lit(svg, "</tspan>");
        }
        proof {
            assert(self.body@.subrange(0, self.body@.len() as int) =~= self.body@);
            assert(pieces_view(svg@) =~= start + plain_markup(*self));
        }
    }

    /// Appends the markup of the label drawn under transform `ts`: where
    /// the label has a font (as it does once settled against a style), at
    /// the image of its origin, in that font at its size scaled by `ts`,
    /// its spans likewise; where it has none, its plain markup.  The style
    /// and theme play no part beyond what settling the font took from
    /// them.
    pub fn write_svg_with_style(&self, svg: &mut Vec<Piece>, ts: TranslateScale, style: Option<&Style>, theme: &Theme)
        ensures
            pieces_view(final(svg)@) == pieces_view(old(svg)@) + styled_markup(*self, ts),
        decreases self,
    {
        match &self.font {
            None => {
                self.write_svg(svg);
            },
            Some(font) => {
                let ghost start = pieces_view(svg@);
                let place = match self.origin {
                    Some(p) => {
                        let q = image_of(ts, p);
                        Some((Figure::X(q), Figure::Y(q)))
                    },
                    None => if self.is_root {
                        let q = origin_image(ts);
                        Some((Figure::X(q), Figure::Y(q)))
                    } else {
                        None
                    },
                };
                put_element_open(svg, self.is_root, place);
                put_anchor(svg, self.is_root, self.anchor);
                put_offsets(svg, " dx=\"", self.dx.as_slice());
                put_offsets(svg, " dy=\"", self.dy.as_slice());
                put_font_attrs(svg, font.get_family_name(), Figure::Scaled(ts, font.get_size()));
                let ghost head = pieces_view(svg@);
                proof {
                    assert(head == start + opening(
                        self@,
                        styled_place(self@, ts),
                        Font::spec_family_name(font@),
                        Figure::Scaled(ts, font@.size_bits),
                    ));
                    assert(self.body@.subrange(0, 0) =~= Seq::<Item>::empty());
                }
                let mut i: usize = 0;
                while i < self.body.len()
                    invariant
                        i <= self.body@.len(),
                        pieces_view(svg@) == head + styled_body(self.body@.subrange(0, i as int), ts),
                    decreases self.body@.len() - i,
                {
                    let ghost before = pieces_view(svg@);
                    proof {
                        assert(decreases_to!(self => self.body));
                        assert(decreases_to!(self.body => self.body@));
                        assert(decreases_to!(self.body@ => self.body@[i as int]));
                    }
                    let ghost item = self.body@[i as int];
                    match &self.body[i] {
                        Item::Text(t) => {
                            put_lit(svg, t.as_str());
                        },
                        Item::Span(span) => {
                            proof {
                                assert(item == Item::Span(*span));
                                assert(decreases_to!(item => *span));
                            }
                            span.write_svg_with_style(svg, ts, style, theme);
                        },
                    }
                    proof {
                        assert(pieces_view(svg@) == before + styled_item(item, ts));
                        lemma_styled_body_step(self.body@, i as int, ts);
                    }
                    i = i + 1;
                }
                if self.is_root {
                    put_lit(svg, "</text>\n");
                } else {
                    put_lit(svg, "</tspan>\n");
                }
                proof {
                    assert(self.body@.subrange(0, self.body@.len() as int) =~= self.body@);
                    assert(pieces_view(svg@) =~= start + styled_markup(*self, ts));
                }
            },
        }
    }
}

/// What `fonts_resolved` says: the label's font is settled against
/// `style_font`, everything else but its body is kept, and its body is
/// settled item by item.
pub proof fn lemma_fonts_resolved(before: TextLabel, after: TextLabel, style_font: Option<FontView>)
    ensures
        fonts_resolved(before, after, style_font) == ({
            &&& after@ == (TextLabelView {
                font: TextLabel::spec_resolved_font(before@, style_font),
                body: after@.body,
                ..before@
            })
            &&& body_resolved(before@.body, after@.body, style_font)
        }),
{
}

/// What `body_resolved` says: the bodies have the same length, and each
/// item of `after` is the item of `before` at its place, settled.
pub proof fn lemma_body_resolved_items(before: Seq<Item>, after: Seq<Item>, style_font: Option<FontView>)
    ensures
        body_resolved(before, after, style_font) == (after.len() == before.len() && forall|j: int|
            0 <= j < before.len() ==> #[trigger] item_resolved(before[j], after[j], style_font)),
    decreases before.len(),
{
    if before.len() > 0 && after.len() == before.len() {
        lemma_body_resolved_items(before.drop_last(), after.drop_last(), style_font);
        if body_resolved(before, after, style_font) {
            assert forall|j: int| 0 <= j < before.len() implies #[trigger] item_resolved(before[j], after[j], style_font) by {
                if j < before.len() - 1 {
                    assert(before.drop_last()[j] == before[j] && after.drop_last()[j] == after[j]);
                }
            }
        }
        if forall|j: int| 0 <= j < before.len() ==> #[trigger] item_resolved(before[j], after[j], style_font) {
            lemma_body_resolved(before, after, style_font);
        }
    }
}

/// What `item_resolved` says: text stays as it is, and a span is settled.
pub proof fn lemma_item_resolved(before: Item, after: Item, style_font: Option<FontView>)
    ensures
        item_resolved(before, after, style_font) == match before {
            Item::Text(t) => after matches Item::Text(u) && u@ == t@,
            Item::Span(b) => after matches Item::Span(a) && fonts_resolved(b, a, style_font),
        },
{
}

/// What `label_copied` says: everything but the body is kept, and the
/// body is copied item by item.
pub proof fn lemma_label_copied(before: TextLabel, after: TextLabel)
    ensures
        label_copied(before, after) == (after@ == (TextLabelView { body: after@.body, ..before@ }) && body_copied(
            before@.body,
            after@.body,
        )),
{
}

/// What `body_copied` says: the bodies have the same length, and each item
/// of `after` is a copy of the item of `before` at its place.
pub proof fn lemma_body_copied_items(before: Seq<Item>, after: Seq<Item>)
    ensures
        body_copied(before, after) == (after.len() == before.len() && forall|j: int|
            0 <= j < before.len() ==> #[trigger] item_copied(before[j], after[j])),
    decreases before.len(),
{
    if before.len() > 0 && after.len() == before.len() {
        lemma_body_copied_items(before.drop_last(), after.drop_last());
        if body_copied(before, after) {
            assert forall|j: int| 0 <= j < before.len() implies #[trigger] item_copied(before[j], after[j]) by {
                if j < before.len() - 1 {
                    assert(before.drop_last()[j] == before[j] && after.drop_last()[j] == after[j]);
                }
            }
        }
        if forall|j: int| 0 <= j < before.len() ==> #[trigger] item_copied(before[j], after[j]) {
            lemma_body_copied(before, after);
        }
    }
}

/// What `item_copied` says: the same text, or a copy of the same span.
pub proof fn lemma_item_copied(before: Item, after: Item)
    ensures
        item_copied(before, after) == match before {
            Item::Text(t) => after matches Item::Text(u) && u@ == t@,
            Item::Span(b) => after matches Item::Span(a) && label_copied(b, a),
        },
{
}

/// What `plain_markup` is: the opening tag at the label's own place in the
/// default font, the markup of its body, and the closing tag.
pub proof fn lemma_plain_markup(l: TextLabel)
    ensures
        plain_markup(l) == opening(
            l@,
            plain_place(l@),
            Font::spec_family_name(default_font()),
            Figure::Bits(default_font().size_bits),
        ) + plain_body(l@.body) + seq![lit(if l@.is_root { "</text>\n" } else { "</tspan>" })],
{
}

/// What `plain_body` is: the markup of the items in order.
pub proof fn lemma_plain_body(b: Seq<Item>)
    ensures
        plain_body(b) == if b.len() == 0 {
            Seq::empty()
        } else {
            plain_body(b.drop_last()) + plain_item(b.last())
        },
{
}

/// What `plain_item` is: text as its bytes, a span as its plain markup.
pub proof fn lemma_plain_item(i: Item)
    ensures
        plain_item(i) == match i {
            Item::Text(t) => seq![PieceView::Bytes(encode_utf8(t@))],
            Item::Span(s) => plain_markup(s),
        },
{
}

/// What `styled_markup` is: with a font, the opening tag at the image of
/// the label's place in that font scaled by `ts`, the markup of its body
/// and the closing tag ending a line; without one, the plain markup.
pub proof fn lemma_styled_markup(l: TextLabel, ts: TranslateScale)
    ensures
        styled_markup(l, ts) == match l@.font {
            Some(f) => opening(l@, styled_place(l@, ts), Font::spec_family_name(f), Figure::Scaled(ts, f.size_bits))
                + styled_body(l@.body, ts) + seq![lit(if l@.is_root { "</text>\n" } else { "</tspan>\n" })],
            None => plain_markup(l),
        },
{
}

/// What `styled_body` is: the markup of the items in order.
pub proof fn lemma_styled_body(b: Seq<Item>, ts: TranslateScale)
    ensures
        styled_body(b, ts) == if b.len() == 0 {
            Seq::empty()
        } else {
            styled_body(b.drop_last(), ts) + styled_item(b.last(), ts)
        },
{
}

/// What `styled_item` is: text as its bytes, a span as its markup under
/// `ts`.
pub proof fn lemma_styled_item(i: Item, ts: TranslateScale)
    ensures
        styled_item(i, ts) == match i {
            Item::Text(t) => seq![PieceView::Bytes(encode_utf8(t@))],
            Item::Span(s) => styled_markup(s, ts),
        },
{
}

/// A label without a font is written the same with a transform and style
/// as without: the transform plays no part in its markup.
pub proof fn law_fontless_label_ignores_transform(l: TextLabel, ts: TranslateScale)
    requires
        l@.font is None,
    ensures
        styled_markup(l, ts) == plain_markup(l),
{
}

} // verus!
