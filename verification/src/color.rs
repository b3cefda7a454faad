//! Colors: three unclamped channels over fixed-point scalars.
use crate::scalar::{add_spec, mul_spec, Scalar, SCALE};
use vstd::prelude::*;

verus! {

/// The mathematical value of a [`Color`]: the numerators of its three
/// channels.
pub struct ColorView {
    pub r: int,
    pub g: int,
    pub b: int,
}

/// The color whose channels are the given numbers of thousandths.
pub open spec fn tint_spec(r: int, g: int, b: int) -> ColorView {
    ColorView { r: r * (SCALE / 1000), g: g * (SCALE / 1000), b: b * (SCALE / 1000) }
}

/// White: every channel at one.
pub open spec fn white_spec() -> ColorView {
    ColorView { r: SCALE as int, g: SCALE as int, b: SCALE as int }
}

/// Grey: every channel at one half.
pub open spec fn grey_spec() -> ColorView {
    ColorView { r: SCALE / 2, g: SCALE / 2, b: SCALE / 2 }
}

/// Black: every channel at zero.
pub open spec fn black_spec() -> ColorView {
    ColorView { r: 0, g: 0, b: 0 }
}

/// The color of a ray that hits nothing.
pub open spec fn background_spec() -> ColorView {
    black_spec()
}

/// The displayable byte of a channel with numerator `c`: the channel is
/// clamped to the range from zero to one, and that range is mapped onto
/// 0 to 255, rounding down.
pub open spec fn channel_byte(c: int) -> int {
    if c > SCALE {
        255
    } else if c < 0 {
        0
    } else {
        (c * 255) / (SCALE as int)
    }
}

impl ColorView {
    /// This color with every channel multiplied by `k`.
    pub open spec fn scale(self, k: int) -> ColorView {
        ColorView { r: mul_spec(k, self.r), g: mul_spec(k, self.g), b: mul_spec(k, self.b) }
    }

    /// The channel-wise sum.
    pub open spec fn plus(self, v: ColorView) -> ColorView {
        ColorView { r: add_spec(self.r, v.r), g: add_spec(self.g, v.g), b: add_spec(self.b, v.b) }
    }

    /// The channel-wise product.
    pub open spec fn times(self, v: ColorView) -> ColorView {
        ColorView { r: mul_spec(self.r, v.r), g: mul_spec(self.g, v.g), b: mul_spec(self.b, v.b) }
    }

    /// The three displayable bytes of this color: red, green, blue.
    pub open spec fn to_triple(self) -> Seq<u8> {
        seq![
            channel_byte(self.r) as u8,
            channel_byte(self.g) as u8,
            channel_byte(self.b) as u8,
        ]
    }
}

/// A color. Channels are not clamped: they may leave the range from zero to
/// one until the color is made displayable.
#[derive(Clone, Copy, Debug, PartialEq, Eq, Structural)]
pub struct Color {
    pub r: Scalar,
    pub g: Scalar,
    pub b: Scalar,
}

impl View for Color {
    type V = ColorView;

    open spec fn view(&self) -> ColorView {
        ColorView { r: self.r@, g: self.g@, b: self.b@ }
    }
}

/// The mathematical value of an optional color.
pub open spec fn color_view(c: Option<Color>) -> Option<ColorView> {
    match c {
        Some(color) => Some(color@),
        None => None,
    }
}

/// The displayable byte of one channel.
fn channel_to_byte(c: Scalar) -> (r: u8)
    ensures
        r == channel_byte(c@),
{
    let raw = c.raw();
    if raw > SCALE {
        255
    } else if raw < 0 {
        0
    } else {
        let scaled: i128 = raw * 255;
        (scaled / SCALE) as u8
    }
}

impl Color {
    /// The color with the given channels.
    pub fn new(r: Scalar, g: Scalar, b: Scalar) -> (c: Color)
        ensures
            c@ == (ColorView { r: r@, g: g@, b: b@ }),
    {
        Color { r, g, b }
    }

    /// The color whose channels are the given numbers of thousandths.
    pub fn from_thousandths(r: i32, g: i32, b: i32) -> (c: Color)
        ensures
            c@ == tint_spec(r as int, g as int, b as int),
    {
        Color {
            r: Scalar::from_thousandths(r),
            g: Scalar::from_thousandths(g),
            b: Scalar::from_thousandths(b),
        }
    }

    /// This color with every channel multiplied by `k`.
    pub fn scale(&self, k: Scalar) -> (c: Color)
        ensures
            c@ == self@.scale(k@),
    {
        Color { r: k.mul(self.r), g: k.mul(self.g), b: k.mul(self.b) }
    }

    /// The channel-wise sum.
    pub fn plus(&self, v: &Color) -> (c: Color)
        ensures
            c@ == self@.plus(v@),
    {
        Color { r: self.r.add(v.r), g: self.g.add(v.g), b: self.b.add(v.b) }
    }

    /// The channel-wise product.
    pub fn times(&self, v: &Color) -> (c: Color)
        ensures
            c@ == self@.times(v@),
    {
        Color { r: self.r.mul(v.r), g: self.g.mul(v.g), b: self.b.mul(v.b) }
    }

    /// The displayable form of this color: each channel clamped to the
    /// range from zero to one and mapped to a byte. A channel above one
    /// gives 255, a channel below zero gives 0.
    pub fn to_triple(&self) -> (t: [u8; 3])
        ensures
            t@ == self@.to_triple(),
    {
        let t = [channel_to_byte(self.r), channel_to_byte(self.g), channel_to_byte(self.b)];
        assert(t@ =~= self@.to_triple());
        t
    }

    /// White.
    pub fn white() -> (c: Color)
        ensures
            c@ == white_spec(),
    {
        Color { r: Scalar::one(), g: Scalar::one(), b: Scalar::one() }
    }

    /// Grey.
    pub fn grey() -> (c: Color)
        ensures
            c@ == grey_spec(),
    {
        let half = Scalar::from_raw(SCALE / 2);
        Color { r: half, g: half, b: half }
    }

    /// Black.
    pub fn black() -> (c: Color)
        ensures
            c@ == black_spec(),
    {
        Color { r: Scalar::zero(), g: Scalar::zero(), b: Scalar::zero() }
    }

    /// The color of a ray that hits nothing: black.
    pub fn background() -> (c: Color)
        ensures
            c@ == background_spec(),
    {
        Color::black()
    }
}

} // verus!
