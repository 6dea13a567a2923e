//! SVG attribute text for colors, fills and marker suits.
//!
//! Each writer appends bytes to a buffer; what it appends is stated by a
//! spec function over the value's view, so a whole document can be read
//! off the contracts.
use vstd::prelude::*;
use vstd::utf8::encode_utf8;
use vstd::string::StringSliceAdditionalSpecFns;
use crate::color::Color;
use crate::style::{opt_str_view, Fill, FillView, MarkerSuit, MarkerSuitView};

verus! {

/// The ASCII code of `-`.
pub const DASH: u8 = 45;

/// The lower-case hexadecimal digit for `d`, which is below 16.
pub open spec fn hex_digit(d: int) -> u8 {
    if d < 10 {
        (48 + d) as u8
    } else {
        (87 + d) as u8
    }
}

/// `v`, below `0x1000000`, as six lower-case hexadecimal digits.
pub open spec fn hex6(v: int) -> Seq<u8> {
    seq![
        hex_digit((v / 0x100000) % 16),
        hex_digit((v / 0x10000) % 16),
        hex_digit((v / 0x1000) % 16),
        hex_digit((v / 0x100) % 16),
        hex_digit((v / 0x10) % 16),
        hex_digit(v % 16),
    ]
}

/// The opacity of alpha byte `a` in thousandths, rounded to the nearest.
pub open spec fn opacity_millis(a: int) -> int {
    (2000 * a + 255) / 510
}

/// The decimal digit for `d`, which is below 10.
pub open spec fn dec_digit(d: int) -> u8 {
    (48 + d) as u8
}

/// `m`, at most 1000 thousandths, as a decimal number with three places.
pub open spec fn three_places(m: int) -> Seq<u8> {
    seq![dec_digit(m / 1000), '.' as u8, dec_digit((m / 100) % 10), dec_digit((m / 10) % 10), dec_digit(m % 10)]
}

/// What comes before the first `-` of `s`, or all of `s` where it has none.
pub open spec fn stem(s: Seq<u8>) -> Seq<u8>
    decreases s.len(),
{
    if s.len() == 0 {
        s
    } else if s[0] == DASH {
        Seq::empty()
    } else {
        seq![s[0]] + stem(s.drop_first())
    }
}

/// `name="#rrggbb" stem-opacity="a.aaa"` for a color and an attribute name.
pub open spec fn color_attr(color: Color, name: Seq<u8>) -> Seq<u8> {
    let (_r, _g, _b, a) = color.components();
    name + seq!['=' as u8, '"' as u8, '#' as u8] + hex6((color.spec_u32() / 256) as int) + seq!['"' as u8, ' ' as u8] + stem(name)
        + seq!['-' as u8, 'o' as u8, 'p' as u8, 'a' as u8, 'c' as u8, 'i' as u8, 't' as u8, 'y' as u8, '=' as u8, '"' as u8] + three_places(
        opacity_millis(a as int),
    ) + seq!['"' as u8]
}

/// The opacity written for an alpha byte is the byte's share of 255 in
/// thousandths, rounded to the nearest thousandth, and lies in `0..=1000`.
pub proof fn law_opacity_is_nearest(a: u8)
    ensures
        0 <= opacity_millis(a as int) <= 1000,
        -255 <= 2 * (1000 * a - 255 * opacity_millis(a as int)) <= 255,
{
}

/// The value of a lower-case hexadecimal digit.
pub open spec fn hex_value(c: u8) -> int {
    if c <= 57 {
        c - 48
    } else {
        c - 87
    }
}

/// The number that six hexadecimal digits spell.
pub open spec fn parse_hex6(s: Seq<u8>) -> int {
    hex_value(s[0]) * 0x100000 + hex_value(s[1]) * 0x10000 + hex_value(s[2]) * 0x1000 + hex_value(s[3]) * 0x100
        + hex_value(s[4]) * 0x10 + hex_value(s[5])
}

/// The six digits written for a color spell its red, green and blue bytes
/// back: each is a lower-case hexadecimal digit, and together they read as
/// the number written.
pub proof fn law_hex6_spells(v: u32)
    requires
        v < 0x1000000,
    ensures
        hex6(v as int).len() == 6,
        forall|k: int| 0 <= k < 6 ==> {
            let c = #[trigger] hex6(v as int)[k];
            (48 <= c <= 57) || (97 <= c <= 102)
        },
        parse_hex6(hex6(v as int)) == v,
{
    assert(v == ((v / 0x100000) % 16) * 0x100000 + ((v / 0x10000) % 16) * 0x10000 + ((v / 0x1000) % 16)
        * 0x1000 + ((v / 0x100) % 16) * 0x100 + ((v / 0x10) % 16) * 0x10 + v % 16) by (bit_vector)
        requires
            v < 0x1000000,
    ;
}

/// Appends `bytes` to `out`.
fn put(out: &mut Vec<u8>, bytes: &[u8])
    ensures
        final(out)@ == old(out)@ + bytes@,
{
    let ghost start = out@;
    let mut i: usize = 0;
    while i < bytes.len()
        invariant
            i <= bytes@.len(),
            out@ == start + bytes@.subrange(0, i as int),
        decreases bytes@.len() - i,
    {
        out.push(bytes[i]);
        proof {
            assert(bytes@.subrange(0, i + 1) == bytes@.subrange(0, i as int).push(bytes@[i as int]));
        }
        i = i + 1;
    }
    proof {
        assert(bytes@.subrange(0, i as int) == bytes@);
    }
}

/// The hexadecimal digit of `d`, below 16.
fn hex_digit_of(d: u32) -> (c: u8)
    requires
        d < 16,
    ensures
        c == hex_digit(d as int),
{
    if d < 10 {
        (48 + d) as u8
    } else {
        (87 + d) as u8
    }
}

proof fn lemma_stem_prefix(s: Seq<u8>, i: int)
    requires
        0 <= i <= s.len(),
        forall|j: int| 0 <= j < i ==> s[j] != DASH,
        i == s.len() || s[i] == DASH,
    ensures
        stem(s) == s.subrange(0, i),
    decreases i,
{
    if i == 0 {
        if s.len() > 0 {
            assert(s[0] == DASH);
        }
        assert(s.subrange(0, 0) =~= Seq::<u8>::empty());
    } else {
        lemma_stem_prefix(s.drop_first(), i - 1);
        assert(s.subrange(0, i) =~= seq![s[0]] + s.drop_first().subrange(0, i - 1));
    }
}

/// Appends `v`, below `0x1000000`, as six hexadecimal digits.
fn put_hex6(out: &mut Vec<u8>, v: u32)
    requires
        v < 0x1000000,
    ensures
        final(out)@ == old(out)@ + hex6(v as int),
{
    proof {
        assert((v >> 20u32) & 15u32 == (v / 0x100000) % 16) by (bit_vector);
        assert((v >> 16u32) & 15u32 == (v / 0x10000) % 16) by (bit_vector);
        assert((v >> 12u32) & 15u32 == (v / 0x1000) % 16) by (bit_vector);
        assert((v >> 8u32) & 15u32 == (v / 0x100) % 16) by (bit_vector);
        assert((v >> 4u32) & 15u32 == (v / 0x10) % 16) by (bit_vector);
        assert(v & 15u32 == v % 16) by (bit_vector);
    }
    out.push(hex_digit_of((v >> 20u32) & 15u32));
    out.push(hex_digit_of((v >> 16u32) & 15u32));
    out.push(hex_digit_of((v >> 12u32) & 15u32));
    out.push(hex_digit_of((v >> 8u32) & 15u32));
    out.push(hex_digit_of((v >> 4u32) & 15u32));
    out.push(hex_digit_of(v & 15u32));
    proof {
        assert(out@ =~= old(out)@ + hex6(v as int));
    }
}

/// Appends `m`, at most 1000, as a number of thousandths with three places.
fn put_three_places(out: &mut Vec<u8>, m: u32)
    requires
        m <= 1000,
    ensures
        final(out)@ == old(out)@ + three_places(m as int),
{
    out.push((48 + m / 1000) as u8);
    out.push('.' as u8);
    out.push((48 + (m / 100) % 10) as u8);
    out.push((48 + (m / 10) % 10) as u8);
    out.push((48 + m % 10) as u8);
    proof {
        assert(out@ =~= old(out)@ + three_places(m as int));
    }
}

/// Appends what comes before the first `-` of `name`.
fn put_stem(out: &mut Vec<u8>, name: &[u8])
    ensures
        final(out)@ == old(out)@ + stem(name@),
{
    let mut k: usize = 0;
    while k < name.len() && name[k] != DASH
        invariant
            k <= name@.len(),
            forall|j: int| 0 <= j < k ==> name@[j] != DASH,
        decreases name@.len() - k,
    {
        k = k + 1;
    }
    proof {
        lemma_stem_prefix(name@, k as int);
    }
    let ghost start = out@;
    let mut i: usize = 0;
    while i < k
        invariant
            i <= k <= name@.len(),
            out@ == start + name@.subrange(0, i as int),
        decreases k - i,
    {
        out.push(name[i]);
        proof {
            assert(name@.subrange(0, i + 1) == name@.subrange(0, i as int).push(name@[i as int]));
        }
        i = i + 1;
    }
}

/// Appends the attribute text of `color` under the attribute name `name`.
fn put_color_attr(color: &Color, out: &mut Vec<u8>, name: &[u8])
    ensures
        final(out)@ == old(out)@ + color_attr(*color, name@),
{
    let rgba = color.as_u32();
    proof {
        assert(rgba >> 8u32 == rgba / 256) by (bit_vector);
        assert(rgba & 0xffu32 == rgba % 256) by (bit_vector);
    }
    let rgb = rgba >> 8u32;
    let alpha = rgba & 0xffu32;
    let millis: u32 = (2000 * alpha + 255) / 510;
    let ghost s0 = out@;
    put(out, name);
    out.push('=' as u8);
    out.push('"' as u8);
    out.push('#' as u8);
    let ghost s1 = out@;
    put_hex6(out, rgb);
    out.push('"' as u8);
    out.push(' ' as u8);
    let ghost s2 = out@;
    put_stem(out, name);
    let ghost s3 = out@;
    let opacity: Vec<u8> = vec!['-' as u8, 'o' as u8, 'p' as u8, 'a' as u8, 'c' as u8, 'i' as u8, 't' as u8, 'y' as u8, '=' as u8, '"' as u8];
    put(out, opacity.as_slice());
    let ghost s4 = out@;
    put_three_places(out, millis);
    out.push('"' as u8);
    proof {
        assert(s1 =~= s0 + name@ + seq!['=' as u8, '"' as u8, '#' as u8]);
        assert(s3 =~= s1 + hex6(rgb as int) + seq!['"' as u8, ' ' as u8] + stem(name@));
        assert(s4 =~= s3 + seq!['-' as u8, 'o' as u8, 'p' as u8, 'a' as u8, 'c' as u8, 'i' as u8, 't' as u8, 'y' as u8, '=' as u8, '"' as u8]);
        assert(color.components().3 as int == alpha as int);
        assert(out@ =~= s0 + color_attr(*color, name@));
    }
}

/// `attr="url(#name)"`: a reference to the definition named `name`.
pub open spec fn url_ref(attr: Seq<u8>, name: Seq<u8>) -> Seq<u8> {
    attr + seq!['=' as u8, '"' as u8, 'u' as u8, 'r' as u8, 'l' as u8, '(' as u8, '#' as u8] + name + seq![')' as u8, '"' as u8]
}

/// The attribute name `fill`.
pub open spec fn fill_word() -> Seq<u8> {
    seq!['f' as u8, 'i' as u8, 'l' as u8, 'l' as u8]
}

/// Appends `attr="url(#name)"`.
fn put_url_ref(out: &mut Vec<u8>, attr: &[u8], name: &str)
    ensures
        final(out)@ == old(out)@ + url_ref(attr@, name.spec_bytes()),
{
    let ghost s0 = out@;
    put(out, attr);
    let open: Vec<u8> = vec!['=' as u8, '"' as u8, 'u' as u8, 'r' as u8, 'l' as u8, '(' as u8, '#' as u8];
    put(out, open.as_slice());
    put(out, name.as_bytes());
    out.push(')' as u8);
    out.push('"' as u8);
    proof {
        assert(out@ =~= s0 + url_ref(attr@, name.spec_bytes()));
    }
}

/// The attribute names of the three markers of a suit.
pub open spec fn marker_start_word() -> Seq<u8> {
    seq!['m' as u8, 'a' as u8, 'r' as u8, 'k' as u8, 'e' as u8, 'r' as u8, '-' as u8, 's' as u8, 't' as u8, 'a' as u8, 'r' as u8, 't' as u8]
}

pub open spec fn marker_mid_word() -> Seq<u8> {
    seq!['m' as u8, 'a' as u8, 'r' as u8, 'k' as u8, 'e' as u8, 'r' as u8, '-' as u8, 'm' as u8, 'i' as u8, 'd' as u8]
}

pub open spec fn marker_end_word() -> Seq<u8> {
    seq!['m' as u8, 'a' as u8, 'r' as u8, 'k' as u8, 'e' as u8, 'r' as u8, '-' as u8, 'e' as u8, 'n' as u8, 'd' as u8]
}

/// ` attr="url(#name)"` where a marker is named, nothing where none is.
pub open spec fn marker_ref(attr: Seq<u8>, name: Option<Seq<char>>) -> Seq<u8> {
    match name {
        Some(n) => seq![' ' as u8] + url_ref(attr, encode_utf8(n)),
        None => Seq::empty(),
    }
}

/// A value that writes itself as SVG attribute text.
pub trait WriteSvg {
    /// The text that `write_svg` appends.
    spec fn svg_text(&self) -> Seq<u8>;

    /// Appends the value's SVG attribute text to `svg`.
    fn write_svg(&self, svg: &mut Vec<u8>)
        ensures
            final(svg)@ == old(svg)@ + self.svg_text(),
    ;
}

/// A value that writes itself as the SVG attribute named by the caller.
pub trait WriteSvgWithName {
    /// The text that `write_svg_with_name` appends for an attribute name.
    spec fn svg_text_with_name(&self, name: Seq<u8>) -> Seq<u8>;

    /// Appends the value's SVG text under the attribute name `name`.
    fn write_svg_with_name(&self, svg: &mut Vec<u8>, name: &str)
        ensures
            final(svg)@ == old(svg)@ + self.svg_text_with_name(name.spec_bytes()),
    ;
}

impl WriteSvgWithName for Color {
    open spec fn svg_text_with_name(&self, name: Seq<u8>) -> Seq<u8> {
        color_attr(*self, name)
    }

    fn write_svg_with_name(&self, svg: &mut Vec<u8>, name: &str) {
        put_color_attr(self, svg, name.as_bytes());
    }
}

/// The attribute text of a fill: a color fill gives its color and
/// opacity; a gradient fill refers to the gradient by name.
pub open spec fn fill_text(f: FillView) -> Seq<u8> {
    match f {
        FillView::Color(c) => color_attr(c, fill_word()),
        FillView::Linear(name) => url_ref(fill_word(), encode_utf8(name)),
        FillView::Radial(name) => url_ref(fill_word(), encode_utf8(name)),
    }
}

impl WriteSvg for Fill {
    open spec fn svg_text(&self) -> Seq<u8> {
        fill_text(self@)
    }

    fn write_svg(&self, svg: &mut Vec<u8>) {
        let word: Vec<u8> = vec!['f' as u8, 'i' as u8, 'l' as u8, 'l' as u8];
        match self {
            Fill::Color(color) => put_color_attr(color, svg, word.as_slice()),
            Fill::Linear(name) => put_url_ref(svg, word.as_slice(), name.as_str()),
            Fill::Radial(name) => put_url_ref(svg, word.as_slice(), name.as_str()),
        }
    }
}

/// Appends ` attr="url(#name)"` where there is a name.
fn put_marker_ref(out: &mut Vec<u8>, attr: &[u8], name: Option<&str>)
    ensures
        final(out)@ == old(out)@ + marker_ref(attr@, opt_str_view(name)),
{
    match name {
        Some(n) => {
            let ghost s0 = out@;
            out.push(' ' as u8);
            put_url_ref(out, attr, n);
            proof {
                assert(out@ =~= s0 + marker_ref(attr@, opt_str_view(name)));
            }
        },
        None => {
            assert(out@ =~= old(out)@ + marker_ref(attr@, opt_str_view(name)));
        },
    }
}

/// The attribute text of a marker suit: one attribute for each marker
/// that the suit names, in the order start, mid, end.
pub open spec fn markers_text(m: MarkerSuitView) -> Seq<u8> {
    marker_ref(marker_start_word(), m.start_name) + marker_ref(marker_mid_word(), m.mid_name) + marker_ref(
        marker_end_word(),
        m.end_name,
    )
}

impl WriteSvg for MarkerSuit {
    open spec fn svg_text(&self) -> Seq<u8> {
        markers_text(self@)
    }

    fn write_svg(&self, svg: &mut Vec<u8>) {
        let ghost s0 = svg@;
        let start: Vec<u8> = vec!['m' as u8, 'a' as u8, 'r' as u8, 'k' as u8, 'e' as u8, 'r' as u8, '-' as u8, 's' as u8, 't' as u8, 'a' as u8, 'r' as u8, 't' as u8];
        put_marker_ref(svg, start.as_slice(), self.get_start_name());
        let mid: Vec<u8> = vec!['m' as u8, 'a' as u8, 'r' as u8, 'k' as u8, 'e' as u8, 'r' as u8, '-' as u8, 'm' as u8, 'i' as u8, 'd' as u8];
        put_marker_ref(svg, mid.as_slice(), self.get_mid_name());
        let end: Vec<u8> = vec!['m' as u8, 'a' as u8, 'r' as u8, 'k' as u8, 'e' as u8, 'r' as u8, '-' as u8, 'e' as u8, 'n' as u8, 'd' as u8];
        put_marker_ref(svg, end.as_slice(), self.get_end_name());
        proof {
            assert(svg@ =~= s0 + self.svg_text());
        }
    }
}

} // verus!
