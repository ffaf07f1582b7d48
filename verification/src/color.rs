//! RGB colors with an explicit transparency flag.

use vstd::prelude::*;

use crate::error::LitError;

verus! {

/// A color as stored in draw instructions and materials. When
/// `is_transparent` is set the RGB channels are ignored and the color is
/// fully transparent.
#[derive(Debug, Clone, Copy, PartialEq, Eq, Structural)]
pub struct Color {
    pub r: u8,
    pub g: u8,
    pub b: u8,
    pub is_transparent: bool,
}

/// The channel values a color tuple may carry: each of the leading three
/// channels must fit in one byte.
pub open spec fn channels_in_range(arr: Seq<i32>) -> bool {
    forall|i: int| 0 <= i < 3 ==> 0 <= #[trigger] arr[i] <= 255
}

/// What a tuple of numeric channels denotes: three channels are an opaque
/// color, a fourth channel of zero makes it fully transparent whatever the
/// other channels hold, and any other fourth value is ignored as full
/// opacity. Other lengths are rejected.
pub open spec fn spec_color_of(arr: Seq<i32>) -> Option<Color> {
    if arr.len() == 3 || arr.len() == 4 {
        if arr.len() == 4 && arr[3] == 0 {
            Some(Color { r: 0, g: 0, b: 0, is_transparent: true })
        } else if !channels_in_range(arr) {
            None
        } else {
            Some(
                Color {
                    r: arr[0] as u8,
                    g: arr[1] as u8,
                    b: arr[2] as u8,
                    is_transparent: false,
                },
            )
        }
    } else {
        None
    }
}

/// Exactly what `from_arr` returns: the color a channel tuple denotes, or
/// the error that rejects it.
pub open spec fn spec_from_arr(arr: Seq<i32>) -> Result<Color, LitError> {
    if !(arr.len() == 3 || arr.len() == 4) {
        Err(LitError::ImproperColorArity(arr.len() as usize))
    } else if arr.len() == 4 && arr[3] == 0 {
        Ok(Color { r: 0, g: 0, b: 0, is_transparent: true })
    } else if !channels_in_range(arr) {
        Err(LitError::Conversion)
    } else {
        Ok(Color { r: arr[0] as u8, g: arr[1] as u8, b: arr[2] as u8, is_transparent: false })
    }
}

impl Color {
    /// An opaque color from its three channels.
    pub fn new(r: u8, g: u8, b: u8) -> (c: Color)
        ensures
            c == (Color { r, g, b, is_transparent: false }),
    {
        Color { r, g, b, is_transparent: false }
    }

    /// The fully transparent color.
    pub fn transparent() -> (c: Color)
        ensures
            c == (Color { r: 0, g: 0, b: 0, is_transparent: true }),
    {
        Color { r: 0, g: 0, b: 0, is_transparent: true }
    }

    /// Builds a color from a tuple of numeric channels, per `spec_color_of`:
    /// a fourth channel of zero yields the transparent color whatever the
    /// others hold; otherwise a wrong arity or a channel out of byte range
    /// is rejected.
    pub fn from_arr(arr: &Vec<i32>) -> (r: Result<Color, LitError>)
        ensures
            r == spec_from_arr(arr@),
            match r {
                Ok(c) => spec_color_of(arr@) == Some(c),
                Err(_) => spec_color_of(arr@) is None,
            },
    {
        if arr.len() == 3 || arr.len() == 4 {
            if arr.len() == 4 && arr[3] == 0 {
                Ok(Color::transparent())
            } else if arr[0] < 0 || arr[0] > 255 || arr[1] < 0 || arr[1] > 255 || arr[2] < 0
                || arr[2] > 255 {
                Err(LitError::Conversion)
            } else {
                Ok(Color::new(arr[0] as u8, arr[1] as u8, arr[2] as u8))
            }
        } else {
            Err(LitError::ImproperColorArity(arr.len()))
        }
    }
}

} // verus!
