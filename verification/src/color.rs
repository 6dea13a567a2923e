//! Colors packed as `0xRRGGBBAA`.
use vstd::prelude::*;

verus! {

/// A color with red, green, blue and alpha components packed into one
/// `u32`, red in the most significant byte.
#[derive(Clone, Copy, PartialEq, Eq, Structural, Hash, Debug)]
pub enum Color {
    Rgba32(u32),
}

/// The integer that four byte-sized components pack into.
pub open spec fn packed(r: int, g: int, b: int, a: int) -> int {
    r * 0x1000000 + g * 0x10000 + b * 0x100 + a
}

/// The red, green, blue and alpha bytes of a packed value.
pub open spec fn unpacked(v: u32) -> (u8, u8, u8, u8) {
    ((v / 0x1000000) as u8, ((v / 0x10000) % 0x100) as u8, ((v / 0x100) % 0x100) as u8, (v
        % 0x100) as u8)
}

proof fn lemma_pack_bytes(r: u32, g: u32, b: u32, a: u32)
    requires
        r < 256,
        g < 256,
        b < 256,
        a < 256,
    ensures
        ((r << 24u32) | (g << 16u32) | (b << 8u32) | a) == packed(r as int, g as int, b as int, a as int),
{
    assert(((r << 24u32) | (g << 16u32) | (b << 8u32) | a) == r * 0x1000000 + g * 0x10000 + b
        * 0x100 + a) by (bit_vector)
        requires
            r < 256,
            g < 256,
            b < 256,
            a < 256,
    ;
}

proof fn lemma_unpack(v: u32)
    ensures
        (v >> 24u32) & 255u32 == v / 0x1000000,
        (v >> 16u32) & 255u32 == (v / 0x10000) % 0x100,
        (v >> 8u32) & 255u32 == (v / 0x100) % 0x100,
        v & 255u32 == v % 0x100,
        v == packed((v / 0x1000000) as int, ((v / 0x10000) % 0x100) as int, ((v / 0x100) % 0x100) as int, (v % 0x100) as int),
{
    assert((v >> 24u32) & 255u32 == v / 0x1000000) by (bit_vector);
    assert((v >> 16u32) & 255u32 == (v / 0x10000) % 0x100) by (bit_vector);
    assert((v >> 8u32) & 255u32 == (v / 0x100) % 0x100) by (bit_vector);
    assert(v & 255u32 == v % 0x100) by (bit_vector);
    assert(v == (v / 0x1000000) * 0x1000000 + ((v / 0x10000) % 0x100) * 0x10000 + ((v / 0x100)
        % 0x100) * 0x100 + v % 0x100) by (bit_vector);
}

impl Color {
    /// Opaque black.
    pub fn black() -> (c: Color)
        ensures
            c.spec_u32() == 0xffu32,
    {
        Color::Rgba32(0xffu32)
    }

    /// Opaque white.
    pub fn white() -> (c: Color)
        ensures
            c.spec_u32() == 0xffffffffu32,
    {
        Color::Rgba32(0xffffffffu32)
    }

    /// The packed value of the color.
    pub open spec fn spec_u32(self) -> u32 {
        match self {
            Color::Rgba32(rgba) => rgba,
        }
    }

    /// The four components of the color.
    pub open spec fn components(self) -> (u8, u8, u8, u8) {
        unpacked(self.spec_u32())
    }

    /// An opaque color from three byte components.
    pub fn rgb8(r: u8, g: u8, b: u8) -> (c: Self)
        ensures
            c.spec_u32() == packed(r as int, g as int, b as int, 255),
            c.components() == (r, g, b, 255u8),
    {
        proof {
            lemma_pack_bytes(r as u32, g as u32, b as u32, 0xffu32);
            lemma_unpack(((r as u32) << 24u32) | ((g as u32) << 16u32) | ((b as u32) << 8u32)
                | 0xffu32);
        }
        Color::Rgba32(((r as u32) << 24u32) | ((g as u32) << 16u32) | ((b as u32) << 8u32) | 0xffu32)
    }

    /// An opaque color from three components that are shifted into place
    /// and or-ed together as they are, so that bits above a byte overlap
    /// the neighbouring component, and bits shifted past the top are lost.
    pub fn rgb32(r: u32, g: u32, b: u32) -> (c: Self)
        ensures
            c.spec_u32() == ((r << 24u32) | (g << 16u32) | (b << 8u32) | 0xffu32),
            r < 256 && g < 256 && b < 256 ==> c.spec_u32() == packed(
                r as int,
                g as int,
                b as int,
                255,
            ),
    {
        proof {
            if r < 256 && g < 256 && b < 256 {
                lemma_pack_bytes(r, g, b, 0xffu32);
            }
        }
        Color::Rgba32((r << 24u32) | (g << 16u32) | (b << 8u32) | 0xffu32)
    }

    /// A color from four byte components.
    pub fn rgba8(r: u8, g: u8, b: u8, a: u8) -> (c: Self)
        ensures
            c.spec_u32() == packed(r as int, g as int, b as int, a as int),
            c.components() == (r, g, b, a),
    {
        proof {
            lemma_pack_bytes(r as u32, g as u32, b as u32, a as u32);
            lemma_unpack(((r as u32) << 24u32) | ((g as u32) << 16u32) | ((b as u32) << 8u32)
                | (a as u32));
        }
        Color::Rgba32(((r as u32) << 24u32) | ((g as u32) << 16u32) | ((b as u32) << 8u32) | (a as u32))
    }

    /// A color from four components that are shifted into place and or-ed
    /// together as they are (see `rgb32`).
    pub fn rgba32(r: u32, g: u32, b: u32, a: u32) -> (c: Self)
        ensures
            c.spec_u32() == ((r << 24u32) | (g << 16u32) | (b << 8u32) | a),
            r < 256 && g < 256 && b < 256 && a < 256 ==> c.spec_u32() == packed(
                r as int,
                g as int,
                b as int,
                a as int,
            ),
    {
        proof {
            if r < 256 && g < 256 && b < 256 && a < 256 {
                lemma_pack_bytes(r, g, b, a);
            }
        }
        Color::Rgba32((r << 24u32) | (g << 16u32) | (b << 8u32) | a)
    }

    /// The packed value of the color.
    pub fn as_u32(self) -> (v: u32)
        ensures
            v == self.spec_u32(),
    {
        match self {
            Color::Rgba32(rgba) => rgba,
        }
    }

    /// Returns four components, red, green, blue, and alpha, all in
    /// the range [0..255].
    pub fn as_rgba8(self) -> (rgba: (u8, u8, u8, u8))
        ensures
            rgba == self.components(),
            self.spec_u32() == packed(rgba.0 as int, rgba.1 as int, rgba.2 as int, rgba.3 as int),
    {
        match self {
            Color::Rgba32(rgba) => {
                proof {
                    lemma_unpack(rgba);
                }
                (
                    ((rgba >> 24u32) & 255u32) as u8,
                    ((rgba >> 16u32) & 255u32) as u8,
                    ((rgba >> 8u32) & 255u32) as u8,
                    (rgba & 255u32) as u8,
                )
            },
        }
    }
}

/// Splitting a color built from four bytes gives those bytes back.
pub proof fn law_rgba8_components(r: u8, g: u8, b: u8, a: u8, c: Color)
    requires
        c.spec_u32() == packed(r as int, g as int, b as int, a as int),
    ensures
        c.components() == (r, g, b, a),
{
    lemma_unpack(c.spec_u32());
}

/// Every color is the packing of its own components.
pub proof fn law_components_pack(c: Color)
    ensures
        c.spec_u32() == packed(
            c.components().0 as int,
            c.components().1 as int,
            c.components().2 as int,
            c.components().3 as int,
        ),
{
    lemma_unpack(c.spec_u32());
}

/// Four components of one type, red, green, blue and alpha.
pub struct Rgba<T>(pub T, pub T, pub T, pub T);

impl From<Color> for Rgba<u32> {
    /// The four components of the color, each widened to `u32`.
    fn from(color: Color) -> (res: Self)
        ensures
            res == Rgba(
                color.components().0 as u32,
                color.components().1 as u32,
                color.components().2 as u32,
                color.components().3 as u32,
            ),
    {
        proof {
            lemma_unpack(color.spec_u32());
        }
        match color {
            Color::Rgba32(rgba) => Rgba(
                (rgba >> 24u32) & 255u32,
                (rgba >> 16u32) & 255u32,
                (rgba >> 8u32) & 255u32,
                rgba & 255u32,
            ),
        }
    }
}

impl vstd::std_specs::convert::FromSpecImpl<Color> for Rgba<u32> {
    open spec fn obeys_from_spec() -> bool {
        true
    }

    open spec fn from_spec(color: Color) -> Self {
        Rgba(
            color.components().0 as u32,
            color.components().1 as u32,
            color.components().2 as u32,
            color.components().3 as u32,
        )
    }
}

} // verus!
