use vstd::prelude::*;

verus! {

/// Side of a player. White moves first.
#[derive(Debug, Clone, Copy, Hash, PartialEq, Eq, Structural)]
pub enum Color {
    Black,
    White,
}

/// The other side.
pub open spec fn opposite(c: Color) -> Color {
    match c {
        Color::Black => Color::White,
        Color::White => Color::Black,
    }
}

/// Whether `c` is an upper-case ASCII letter.
pub open spec fn is_ascii_upper(c: char) -> bool {
    'A' <= c <= 'Z'
}

impl Color {
    /// The side of a FEN piece letter: upper case is white, anything else
    /// is black.
    pub fn from_fen_char(c: char) -> (r: Color)
        ensures
            r == (if is_ascii_upper(c) { Color::White } else { Color::Black }),
    {
        if 'A' <= c && c <= 'Z' {
            Color::White
        } else {
            Color::Black
        }
    }

    /// The name of the side ("Black" or "White").
    pub fn variant_name(&self) -> (r: &'static str)
        ensures
            *self == Color::Black ==> r@ == "Black"@,
            *self == Color::White ==> r@ == "White"@,
    {
        match self {
            Color::Black => "Black",
            Color::White => "White",
        }
    }
}

/// White starts the game.
impl Default for Color {
    fn default() -> (r: Color)
        ensures
            r == Color::White,
    {
        Color::White
    }
}

impl core::ops::Not for Color {
    type Output = Color;

    fn not(self) -> (r: Color) {
        if self == Color::White {
            Color::Black
        } else {
            Color::White
        }
    }
}

impl vstd::std_specs::ops::NotSpecImpl for Color {
    open spec fn obeys_not_spec() -> bool {
        true
    }

    open spec fn not_req(self) -> bool {
        true
    }

    open spec fn not_spec(self) -> Color {
        opposite(self)
    }
}

/// The opposite of the opposite color is the color itself, and no color
/// is its own opposite.
pub proof fn lemma_opposite_involutive(c: Color)
    ensures
        opposite(opposite(c)) == c,
        opposite(c) != c,
{
}

} // verus!
