//! Fonts: a list of family names with a generic fallback class, a size,
//! a weight and a slant.
use vstd::prelude::*;

verus! {

/// Turns a value into the keyword that CSS (and SVG) use for it.
pub trait AsCss {
    fn as_css(&self) -> &str;
}

/// The generic font families of CSS.
#[derive(Clone, Copy, PartialEq, Eq, Structural, Hash, Debug)]
pub enum GenericFontFamily {
    Serif,
    SansSerif,
    Cursive,
    Monospace,
    Unspecified,
}

impl GenericFontFamily {
    /// The CSS keyword of the family, empty for `Unspecified`.
    pub open spec fn css_name(self) -> Seq<char> {
        match self {
            GenericFontFamily::Serif => "serif"@,
            GenericFontFamily::SansSerif => "sans-serif"@,
            GenericFontFamily::Cursive => "cursive"@,
            GenericFontFamily::Monospace => "monospace"@,
            GenericFontFamily::Unspecified => ""@,
        }
    }
}

impl AsCss for GenericFontFamily {
    fn as_css(&self) -> (r: &str)
        ensures
            r@ == self.css_name(),
    {
        match self {
            GenericFontFamily::Serif => "serif",
            GenericFontFamily::SansSerif => "sans-serif",
            GenericFontFamily::Cursive => "cursive",
            GenericFontFamily::Monospace => "monospace",
            GenericFontFamily::Unspecified => "",
        }
    }
}

/// The weight of a font: the two CSS keywords or a number.
#[derive(Clone, Copy, PartialEq, Eq, Structural, Debug)]
pub enum FontWeight {
    Normal,
    Bold,
    Number(u16),
}

impl FontWeight {
    /// The numeric weight: 400 for normal, 700 for bold.
    pub open spec fn spec_number(self) -> u16 {
        match self {
            FontWeight::Normal => 400,
            FontWeight::Bold => 700,
            FontWeight::Number(v) => v,
        }
    }

    /// The numeric weight: 400 for normal, 700 for bold.
    pub fn as_number(&self) -> (n: u16)
        ensures
            n == self.spec_number(),
    {
        match *self {
            FontWeight::Normal => 400,
            FontWeight::Bold => 700,
            FontWeight::Number(v) => v,
        }
    }
}

/// The slant of a font.
#[derive(Clone, Copy, PartialEq, Eq, Structural, Debug)]
pub enum FontStyle {
    Normal,
    Italic,
    Oblique,
}

/// What a font is, as contracts see it.
pub struct FontView {
    pub names: Seq<Seq<char>>,
    pub class: GenericFontFamily,
    /// The point size, as the bit pattern of an IEEE-754 double.
    pub size_bits: u64,
    pub weight: FontWeight,
    pub style: FontStyle,
}

/// A font: family names in order of preference, a generic class to fall
/// back on, a point size, a weight and a slant.
///
/// The size is carried as the bit pattern of an IEEE-754 double: the
/// library stores and copies it, and only a renderer reads it as a number.
#[derive(Debug)]
pub struct Font {
    names: Vec<String>,
    class: GenericFontFamily,
    size_bits: u64,
    weight: FontWeight,
    style: FontStyle,
}

/// The names of a list of strings.
pub open spec fn names_of(v: Seq<String>) -> Seq<Seq<char>> {
    v.map_values(|s: String| s@)
}

impl View for Font {
    type V = FontView;

    closed spec fn view(&self) -> FontView {
        FontView {
            names: names_of(self.names@),
            class: self.class,
            size_bits: self.size_bits,
            weight: self.weight,
            style: self.style,
        }
    }
}

impl Clone for Font {
    fn clone(&self) -> (r: Self)
        ensures
            r@ == self@,
    {
        proof {
            use_type_invariant(self);
        }
        let names = self.names.clone();
        assert(names@ =~= self.names@);
        Font {
            names,
            class: self.class,
            size_bits: self.size_bits,
            weight: self.weight,
            style: self.style,
        }
    }
}

/// The bit pattern of the default point size, 12.
pub const DEFAULT_SIZE_BITS: u64 = 0x4028_0000_0000_0000u64;

impl Font {
    /// A font always has a family name to give: a name of its own or a
    /// generic class.
    #[verifier::type_invariant]
    spec fn has_family(self) -> bool {
        self.names@.len() > 0 || self.class != GenericFontFamily::Unspecified
    }

    /// A font of the given class with no family names and default size,
    /// weight and slant.
    pub open spec fn spec_generic(class: GenericFontFamily) -> FontView {
        FontView {
            names: Seq::empty(),
            class,
            size_bits: DEFAULT_SIZE_BITS,
            weight: FontWeight::Normal,
            style: FontStyle::Normal,
        }
    }

    /// The family named `name`, default size, weight and slant.
    pub fn new(name: &str) -> (f: Self)
        ensures
            f@ == (FontView { names: seq![name@], ..Font::spec_generic(GenericFontFamily::Unspecified) }),
    {
        let mut names: Vec<String> = Vec::new();
        names.push(name.to_owned());
        let f = Font {
            names,
            class: GenericFontFamily::Unspecified,
            size_bits: DEFAULT_SIZE_BITS,
            weight: FontWeight::Normal,
            style: FontStyle::Normal,
        };
        assert(f@.names =~= seq![name@]);
        f
    }

    fn generic(class: GenericFontFamily) -> (f: Self)
        requires
            class != GenericFontFamily::Unspecified,
        ensures
            f@ == Font::spec_generic(class),
    {
        let f = Font {
            names: Vec::new(),
            class,
            size_bits: DEFAULT_SIZE_BITS,
            weight: FontWeight::Normal,
            style: FontStyle::Normal,
        };
        assert(f@.names =~= Seq::<Seq<char>>::empty());
        f
    }

    pub fn new_serif() -> (f: Self)
        ensures
            f@ == Font::spec_generic(GenericFontFamily::Serif),
    {
        Font::generic(GenericFontFamily::Serif)
    }

    pub fn new_sans_serif() -> (f: Self)
        ensures
            f@ == Font::spec_generic(GenericFontFamily::SansSerif),
    {
        Font::generic(GenericFontFamily::SansSerif)
    }

    pub fn new_cursive() -> (f: Self)
        ensures
            f@ == Font::spec_generic(GenericFontFamily::Cursive),
    {
        Font::generic(GenericFontFamily::Cursive)
    }

    pub fn new_monospace() -> (f: Self)
        ensures
            f@ == Font::spec_generic(GenericFontFamily::Monospace),
    {
        Font::generic(GenericFontFamily::Monospace)
    }

    pub fn with_names(self, names: Vec<String>) -> (f: Self)
        ensures
            f@ == (FontView { names: self@.names + names_of(names@), ..self@ }),
    {
        let mut f = self;
        f.append_names(names);
        f
    }

    pub fn with_size(self, size_bits: u64) -> (f: Self)
        ensures
            f@ == (FontView { size_bits, ..self@ }),
    {
        let mut f = self;
        f.set_size(size_bits);
        f
    }

    pub fn with_weight(self, value: u16) -> (f: Self)
        ensures
            f@ == (FontView { weight: FontWeight::Number(clamp_weight(value)), ..self@ }),
    {
        let mut f = self;
        f.set_weight(value);
        f
    }

    pub fn with_bold_weight(self) -> (f: Self)
        ensures
            f@ == (FontView { weight: FontWeight::Bold, ..self@ }),
    {
        let mut f = self;
        f.set_bold_weight();
        f
    }

    pub fn with_italic_style(self) -> (f: Self)
        ensures
            f@ == (FontView { style: FontStyle::Italic, ..self@ }),
    {
        let mut f = self;
        f.set_italic_style();
        f
    }

    pub fn with_oblique_style(self) -> (f: Self)
        ensures
            f@ == (FontView { style: FontStyle::Oblique, ..self@ }),
    {
        let mut f = self;
        f.set_oblique_style();
        f
    }

    /// Appends family names after those already there.
    pub fn append_names(&mut self, names: Vec<String>)
        ensures
            final(self)@ == (FontView { names: old(self)@.names + names_of(names@), ..old(self)@ }),
    {
        proof {
            use_type_invariant(&*self);
        }
        let mut names = names;
        let ghost added = names@;
        let mut all = self.names.clone();
        assert(all@ =~= self.names@);
        all.append(&mut names);
        self.names = all;
        assert(self@.names =~= old(self)@.names + names_of(added));
    }

    pub fn set_size(&mut self, size_bits: u64)
        ensures
            final(self)@ == (FontView { size_bits, ..old(self)@ }),
    {
        proof {
            use_type_invariant(&*self);
        }
        self.size_bits = size_bits;
    }

    /// Sets a numeric weight, clamped to the range 1 to 1000.
    pub fn set_weight(&mut self, value: u16)
        ensures
            final(self)@ == (FontView { weight: FontWeight::Number(clamp_weight(value)), ..old(self)@ }),
    {
        proof {
            use_type_invariant(&*self);
        }
        let v = if value < 1 {
            1
        } else if value > 1000 {
            1000
        } else {
            value
        };
        self.weight = FontWeight::Number(v);
    }

    pub fn set_bold_weight(&mut self)
        ensures
            final(self)@ == (FontView { weight: FontWeight::Bold, ..old(self)@ }),
    {
        proof {
            use_type_invariant(&*self);
        }
        self.weight = FontWeight::Bold;
    }

    pub fn set_italic_style(&mut self)
        ensures
            final(self)@ == (FontView { style: FontStyle::Italic, ..old(self)@ }),
    {
        proof {
            use_type_invariant(&*self);
        }
        self.style = FontStyle::Italic;
    }

    pub fn set_oblique_style(&mut self)
        ensures
            final(self)@ == (FontView { style: FontStyle::Oblique, ..old(self)@ }),
    {
        proof {
            use_type_invariant(&*self);
        }
        self.style = FontStyle::Oblique;
    }

    /// The family name a renderer asks for: the first name, or the CSS
    /// keyword of the class where there is no name.
    pub open spec fn spec_family_name(f: FontView) -> Seq<char> {
        if f.names.len() > 0 {
            f.names[0]
        } else {
            f.class.css_name()
        }
    }

    /// The family name a renderer asks for: the first name, or the CSS
    /// keyword of the generic class.
    pub fn get_family_name(&self) -> (r: &str)
        ensures
            r@ == Font::spec_family_name(self@),
    {
        proof {
            use_type_invariant(self);
        }
        if self.names.len() > 0 {
            self.names[0].as_str()
        } else {
            self.class.as_css()
        }
    }

    pub fn get_size(&self) -> (size_bits: u64)
        ensures
            size_bits == self@.size_bits,
    {
        self.size_bits
    }
}

/// A weight clamped to the range 1 to 1000.
pub open spec fn clamp_weight(v: u16) -> u16 {
    if v < 1 {
        1
    } else if v > 1000 {
        1000
    } else {
        v
    }
}

} // verus!
