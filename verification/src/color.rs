use vstd::prelude::*;

verus! {

/// An RGBA color, one byte per channel, in the order red, green, blue, alpha.
///
/// A display grid holds one of these per cell; exporting the grid lays the
/// four channels out as consecutive bytes in this same order.
#[derive(Clone, Copy, PartialEq, Eq, Structural, Debug)]
pub struct Color {
    pub r: u8,
    pub g: u8,
    pub b: u8,
    pub a: u8,
}

impl Color {
    pub open spec fn spec_new(r: u8, g: u8, b: u8, a: u8) -> Color {
        Color { r, g, b, a }
    }

    #[verifier::when_used_as_spec(spec_new)]
    pub fn new(r: u8, g: u8, b: u8, a: u8) -> (c: Color)
        ensures
            c == Color::spec_new(r, g, b, a),
    {
        Color { r, g, b, a }
    }

    /// The opaque background color: all color channels zero.
    pub open spec fn spec_black() -> Color {
        Color { r: 0, g: 0, b: 0, a: 255 }
    }

    #[verifier::when_used_as_spec(spec_black)]
    pub fn black() -> (c: Color)
        ensures
            c == Color::spec_black(),
    {
        Color { r: 0, g: 0, b: 0, a: 255 }
    }

    /// The default fill color for occupied cells: all channels at full value.
    pub open spec fn spec_white() -> Color {
        Color { r: 255, g: 255, b: 255, a: 255 }
    }

    #[verifier::when_used_as_spec(spec_white)]
    pub fn white() -> (c: Color)
        ensures
            c == Color::spec_white(),
    {
        Color { r: 255, g: 255, b: 255, a: 255 }
    }

    pub open spec fn spec_red() -> Color {
        Color { r: 255, g: 0, b: 0, a: 255 }
    }

    #[verifier::when_used_as_spec(spec_red)]
    pub fn red() -> (c: Color)
        ensures
            c == Color::spec_red(),
    {
        Color { r: 255, g: 0, b: 0, a: 255 }
    }

    pub open spec fn spec_green() -> Color {
        Color { r: 0, g: 255, b: 0, a: 255 }
    }

    #[verifier::when_used_as_spec(spec_green)]
    pub fn green() -> (c: Color)
        ensures
            c == Color::spec_green(),
    {
        Color { r: 0, g: 255, b: 0, a: 255 }
    }

    pub open spec fn spec_blue() -> Color {
        Color { r: 0, g: 0, b: 255, a: 255 }
    }

    #[verifier::when_used_as_spec(spec_blue)]
    pub fn blue() -> (c: Color)
        ensures
            c == Color::spec_blue(),
    {
        Color { r: 0, g: 0, b: 255, a: 255 }
    }
}

} // verus!
