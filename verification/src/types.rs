//! Identifiers, palette colors and the decode error taxonomy shared by the
//! whole crate.

use vstd::prelude::*;

verus! {

/// Process-unique identifier shared by a connection and the entity it spawns.
pub type Identifier = usize;

/// The palette a client understands; sent on the wire as a single byte.
#[derive(Clone, Copy, PartialEq, Eq, Structural, Debug)]
pub enum Color {
    TrueWhite,
    TrueBlack,
    White,
    Black,
    Grid,
    DarkGrid,
    Blue,
    Grey,
    BorderGrey,
    Red,
    Orange,
    Green,
    Yellow,
    TriangleRed,
    PentagonBlue,
    LightGreen,
    TrueRed,
    DarkGrey,
    CohortBlue,
    ChargingCyan,
}

/// The wire code of a color.
pub open spec fn spec_color_code(c: Color) -> u8 {
    match c {
        Color::TrueWhite => 0,
        Color::TrueBlack => 1,
        Color::White => 2,
        Color::Black => 3,
        Color::Grid => 4,
        Color::DarkGrid => 5,
        Color::Blue => 6,
        Color::Grey => 7,
        Color::BorderGrey => 8,
        Color::Red => 9,
        Color::Orange => 10,
        Color::Green => 11,
        Color::Yellow => 12,
        Color::TriangleRed => 13,
        Color::PentagonBlue => 14,
        Color::LightGreen => 15,
        Color::TrueRed => 16,
        Color::DarkGrey => 17,
        Color::CohortBlue => 18,
        Color::ChargingCyan => 19,
    }
}

impl Color {
    /// The byte that stands for this color on the wire.
    pub fn code(&self) -> (r: u8)
        ensures
            r == spec_color_code(*self),
    {
        match self {
            Color::TrueWhite => 0,
            Color::TrueBlack => 1,
            Color::White => 2,
            Color::Black => 3,
            Color::Grid => 4,
            Color::DarkGrid => 5,
            Color::Blue => 6,
            Color::Grey => 7,
            Color::BorderGrey => 8,
            Color::Red => 9,
            Color::Orange => 10,
            Color::Green => 11,
            Color::Yellow => 12,
            Color::TriangleRed => 13,
            Color::PentagonBlue => 14,
            Color::LightGreen => 15,
            Color::TrueRed => 16,
            Color::DarkGrey => 17,
            Color::CohortBlue => 18,
            Color::ChargingCyan => 19,
        }
    }
}

/// Why an inbound byte sequence was rejected.  Any of these terminates the
/// offending connection; none of them may crash the process.
#[derive(Clone, Copy, PartialEq, Eq, Structural, Debug)]
pub enum DecodeError {
    /// The payload is too short for the layout its tag demands.
    Truncated,
    /// A length-prefixed string holds bytes that are not well-formed UTF-8.
    InvalidUtf8,
    /// The leading tag byte names no known packet kind.
    UnknownTag,
    /// A login request carries a type byte that is neither login nor register.
    InvalidLoginType,
}

} // verus!
