//! RGBA colours with one byte per channel, and the conversions into them.
use vstd::prelude::*;

verus! {

/// An RGBA colour, one byte per channel.
#[derive(Debug, Clone, PartialEq, Eq, Structural)]
pub struct Color {
    r: u8,
    g: u8,
    b: u8,
    a: u8,
}

impl View for Color {
    /// The channels in the order red, green, blue, alpha.
    type V = (u8, u8, u8, u8);

    closed spec fn view(&self) -> (u8, u8, u8, u8) {
        (self.r, self.g, self.b, self.a)
    }
}

/// The colour whose channels are `rgba`, in that order.
pub closed spec fn color_of(rgba: (u8, u8, u8, u8)) -> Color {
    Color { r: rgba.0, g: rgba.1, b: rgba.2, a: rgba.3 }
}

/// Channel `i` (0 = least significant byte) of a 32-bit word.
pub open spec fn byte_of_u32(x: u32, i: u32) -> u8 {
    ((x >> (8 * i)) & 0xff) as u8
}

/// Channel `i` (0 = least significant byte) of a signed 32-bit word, read with the
/// arithmetic shift of `i32`.
pub open spec fn byte_of_i32(x: i32, i: i32) -> u8 {
    ((x >> (8 * i)) & 0xff) as u8
}

/// Anything that can be read as a colour.
pub trait ToColor {
    /// The colour that this value stands for.
    spec fn as_color(&self) -> Color;

    fn to_color(&self) -> (c: Color)
        ensures
            c == self.as_color(),
    ;
}

impl Color {
    /// The colour that `c` stands for.
    pub fn new<T: ToColor>(c: T) -> (color: Color)
        ensures
            color == c.as_color(),
    {
        c.to_color()
    }

    /// The four channels, red first.
    pub fn channels(&self) -> (rgba: [u8; 4])
        ensures
            rgba@ == seq![self@.0, self@.1, self@.2, self@.3],
    {
        [self.r, self.g, self.b, self.a]
    }
}

impl Default for Color {
    /// Transparent black: every channel zero.
    fn default() -> (c: Color)
        ensures
            c@ == (0u8, 0u8, 0u8, 0u8),
    {
        Color { r: 0, g: 0, b: 0, a: 0 }
    }
}

impl ToColor for Color {
    closed spec fn as_color(&self) -> Color {
        *self
    }

    fn to_color(&self) -> (c: Color) {
        Color { r: self.r, g: self.g, b: self.b, a: self.a }
    }
}

/// A `u32` holds the channels little-endian: red in the lowest byte, alpha in the highest.
impl ToColor for u32 {
    closed spec fn as_color(&self) -> Color {
        Color {
            r: byte_of_u32(*self, 0),
            g: byte_of_u32(*self, 1),
            b: byte_of_u32(*self, 2),
            a: byte_of_u32(*self, 3),
        }
    }

    fn to_color(&self) -> (c: Color) {
        let x: u32 = *self;
        Color {
            r: ((x >> 0u32) & 0xFF) as u8,
            g: ((x >> 8u32) & 0xFF) as u8,
            b: ((x >> 16u32) & 0xFF) as u8,
            a: ((x >> 24u32) & 0xFF) as u8,
        }
    }
}

/// An `i32` holds the channels big-endian: red in the highest byte, alpha in the lowest.
impl ToColor for i32 {
    closed spec fn as_color(&self) -> Color {
        Color {
            r: byte_of_i32(*self, 3),
            g: byte_of_i32(*self, 2),
            b: byte_of_i32(*self, 1),
            a: byte_of_i32(*self, 0),
        }
    }

    fn to_color(&self) -> (c: Color) {
        let x: i32 = *self;
        Color {
            r: ((x >> 24i32) & 0xFF) as u8,
            g: ((x >> 16i32) & 0xFF) as u8,
            b: ((x >> 8i32) & 0xFF) as u8,
            a: ((x >> 0i32) & 0xFF) as u8,
        }
    }
}

/// The channels read from a `u32`, red from the lowest byte.
pub broadcast proof fn lemma_u32_as_color(x: u32)
    ensures
        #[trigger] x.as_color()@ == (byte_of_u32(x, 0), byte_of_u32(x, 1), byte_of_u32(x, 2), byte_of_u32(x, 3)),
{
}

/// The channels read from an `i32`, red from the highest byte.
pub broadcast proof fn lemma_i32_as_color(x: i32)
    ensures
        #[trigger] x.as_color()@ == (byte_of_i32(x, 3), byte_of_i32(x, 2), byte_of_i32(x, 1), byte_of_i32(x, 0)),
{
}

/// A colour read from a colour is the same colour.
pub proof fn lemma_color_to_color_is_identity(c: Color)
    ensures
        c.as_color() == c,
{
}

/// A colour is determined by its four channels.
pub proof fn lemma_color_view_determines(c: Color, d: Color)
    ensures
        c@ == d@ <==> c == d,
        color_of(c@) == c,
{
}

/// The colour read from a `u32` keeps every bit of it: packing its channels back,
/// red lowest, gives the same word.
pub proof fn lemma_u32_color_loses_nothing(x: u32)
    ensures
        ({
            let (r, g, b, a) = x.as_color()@;
            x == (r as u32) | ((g as u32) << 8u32) | ((b as u32) << 16u32) | ((a as u32) << 24u32)
        }),
{
    let c = x.as_color()@;
    assert(c.0 == ((x >> 0u32) & 0xff) as u8);
    assert(c.1 == ((x >> 8u32) & 0xff) as u8);
    assert(c.2 == ((x >> 16u32) & 0xff) as u8);
    assert(c.3 == ((x >> 24u32) & 0xff) as u8);
    assert(x == (((x >> 0u32) & 0xff) as u8 as u32) | ((((x >> 8u32) & 0xff) as u8 as u32) << 8u32)
        | ((((x >> 16u32) & 0xff) as u8 as u32) << 16u32)
        | ((((x >> 24u32) & 0xff) as u8 as u32) << 24u32)) by (bit_vector);
}

/// Reading a word as `i32` gives the channels of the same word read as `u32`, in
/// reverse order: the `i32` form is big-endian where the `u32` form is little-endian.
pub proof fn lemma_i32_color_is_u32_color_reversed(x: i32)
    ensures
        ({
            let (r, g, b, a) = (x as u32).as_color()@;
            x.as_color()@ == (a, b, g, r)
        }),
{
    let y: u32 = x as u32;
    assert(((x >> 24i32) & 0xff) as u8 == ((y >> 24u32) & 0xff) as u8) by (bit_vector)
        requires y == x as u32;
    assert(((x >> 16i32) & 0xff) as u8 == ((y >> 16u32) & 0xff) as u8) by (bit_vector)
        requires y == x as u32;
    assert(((x >> 8i32) & 0xff) as u8 == ((y >> 8u32) & 0xff) as u8) by (bit_vector)
        requires y == x as u32;
    assert(((x >> 0i32) & 0xff) as u8 == ((y >> 0u32) & 0xff) as u8) by (bit_vector)
        requires y == x as u32;
}

} // verus!
