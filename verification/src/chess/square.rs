use vstd::prelude::*;
use super::position::{file_at, file_index, rank_at, rank_index, File, Position, Rank};

verus! {

/// The 64 squares by name, file-major: `A1, A2, .., A8, B1, .., H8`.
#[derive(Debug, Clone, Copy, PartialEq, Eq, Structural)]
pub enum Square {
    A1, A2, A3, A4, A5, A6, A7, A8,
    B1, B2, B3, B4, B5, B6, B7, B8,
    C1, C2, C3, C4, C5, C6, C7, C8,
    D1, D2, D3, D4, D5, D6, D7, D8,
    E1, E2, E3, E4, E5, E6, E7, E8,
    F1, F2, F3, F4, F5, F6, F7, F8,
    G1, G2, G3, G4, G5, G6, G7, G8,
    H1, H2, H3, H4, H5, H6, H7, H8,
}

/// Place of a square in the declaration order (file-major: `file * 8 + rank`).
pub open spec fn square_ordinal(s: Square) -> int {
    match s {
        Square::A1 => 0,
        Square::A2 => 1,
        Square::A3 => 2,
        Square::A4 => 3,
        Square::A5 => 4,
        Square::A6 => 5,
        Square::A7 => 6,
        Square::A8 => 7,
        Square::B1 => 8,
        Square::B2 => 9,
        Square::B3 => 10,
        Square::B4 => 11,
        Square::B5 => 12,
        Square::B6 => 13,
        Square::B7 => 14,
        Square::B8 => 15,
        Square::C1 => 16,
        Square::C2 => 17,
        Square::C3 => 18,
        Square::C4 => 19,
        Square::C5 => 20,
        Square::C6 => 21,
        Square::C7 => 22,
        Square::C8 => 23,
        Square::D1 => 24,
        Square::D2 => 25,
        Square::D3 => 26,
        Square::D4 => 27,
        Square::D5 => 28,
        Square::D6 => 29,
        Square::D7 => 30,
        Square::D8 => 31,
        Square::E1 => 32,
        Square::E2 => 33,
        Square::E3 => 34,
        Square::E4 => 35,
        Square::E5 => 36,
        Square::E6 => 37,
        Square::E7 => 38,
        Square::E8 => 39,
        Square::F1 => 40,
        Square::F2 => 41,
        Square::F3 => 42,
        Square::F4 => 43,
        Square::F5 => 44,
        Square::F6 => 45,
        Square::F7 => 46,
        Square::F8 => 47,
        Square::G1 => 48,
        Square::G2 => 49,
        Square::G3 => 50,
        Square::G4 => 51,
        Square::G5 => 52,
        Square::G6 => 53,
        Square::G7 => 54,
        Square::G8 => 55,
        Square::H1 => 56,
        Square::H2 => 57,
        Square::H3 => 58,
        Square::H4 => 59,
        Square::H5 => 60,
        Square::H6 => 61,
        Square::H7 => 62,
        Square::H8 => 63,
    }
}

impl Square {
    /// The file (column) of the square.
    pub fn file(&self) -> (r: File)
        ensures
            file_index(r) == square_ordinal(*self) / 8,
    {
        match self {
            Square::A1 | Square::A2 | Square::A3 | Square::A4 | Square::A5 | Square::A6 | Square::A7 | Square::A8 => File::A,
            Square::B1 | Square::B2 | Square::B3 | Square::B4 | Square::B5 | Square::B6 | Square::B7 | Square::B8 => File::B,
            Square::C1 | Square::C2 | Square::C3 | Square::C4 | Square::C5 | Square::C6 | Square::C7 | Square::C8 => File::C,
            Square::D1 | Square::D2 | Square::D3 | Square::D4 | Square::D5 | Square::D6 | Square::D7 | Square::D8 => File::D,
            Square::E1 | Square::E2 | Square::E3 | Square::E4 | Square::E5 | Square::E6 | Square::E7 | Square::E8 => File::E,
            Square::F1 | Square::F2 | Square::F3 | Square::F4 | Square::F5 | Square::F6 | Square::F7 | Square::F8 => File::F,
            Square::G1 | Square::G2 | Square::G3 | Square::G4 | Square::G5 | Square::G6 | Square::G7 | Square::G8 => File::G,
            Square::H1 | Square::H2 | Square::H3 | Square::H4 | Square::H5 | Square::H6 | Square::H7 | Square::H8 => File::H,
        }
    }

    /// The rank (row) of the square.
    pub fn rank(&self) -> (r: Rank)
        ensures
            rank_index(r) == square_ordinal(*self) % 8,
    {
        match self {
            Square::A1 | Square::B1 | Square::C1 | Square::D1 | Square::E1 | Square::F1 | Square::G1 | Square::H1 => Rank::One,
            Square::A2 | Square::B2 | Square::C2 | Square::D2 | Square::E2 | Square::F2 | Square::G2 | Square::H2 => Rank::Two,
            Square::A3 | Square::B3 | Square::C3 | Square::D3 | Square::E3 | Square::F3 | Square::G3 | Square::H3 => Rank::Three,
            Square::A4 | Square::B4 | Square::C4 | Square::D4 | Square::E4 | Square::F4 | Square::G4 | Square::H4 => Rank::Four,
            Square::A5 | Square::B5 | Square::C5 | Square::D5 | Square::E5 | Square::F5 | Square::G5 | Square::H5 => Rank::Five,
            Square::A6 | Square::B6 | Square::C6 | Square::D6 | Square::E6 | Square::F6 | Square::G6 | Square::H6 => Rank::Six,
            Square::A7 | Square::B7 | Square::C7 | Square::D7 | Square::E7 | Square::F7 | Square::G7 | Square::H7 => Rank::Seven,
            Square::A8 | Square::B8 | Square::C8 | Square::D8 | Square::E8 | Square::F8 | Square::G8 | Square::H8 => Rank::Eight,
        }
    }

    /// The square at a position.
    pub fn from_position(pos: Position) -> (r: Square)
        ensures
            square_ordinal(r) == file_index(pos.file) * 8 + rank_index(pos.rank),
    {
        match pos.file {
            File::A => match pos.rank {
                Rank::One => Square::A1,
                Rank::Two => Square::A2,
                Rank::Three => Square::A3,
                Rank::Four => Square::A4,
                Rank::Five => Square::A5,
                Rank::Six => Square::A6,
                Rank::Seven => Square::A7,
                Rank::Eight => Square::A8,
            },
            File::B => match pos.rank {
                Rank::One => Square::B1,
                Rank::Two => Square::B2,
                Rank::Three => Square::B3,
                Rank::Four => Square::B4,
                Rank::Five => Square::B5,
                Rank::Six => Square::B6,
                Rank::Seven => Square::B7,
                Rank::Eight => Square::B8,
            },
            File::C => match pos.rank {
                Rank::One => Square::C1,
                Rank::Two => Square::C2,
                Rank::Three => Square::C3,
                Rank::Four => Square::C4,
                Rank::Five => Square::C5,
                Rank::Six => Square::C6,
                Rank::Seven => Square::C7,
                Rank::Eight => Square::C8,
            },
            File::D => match pos.rank {
                Rank::One => Square::D1,
                Rank::Two => Square::D2,
                Rank::Three => Square::D3,
                Rank::Four => Square::D4,
                Rank::Five => Square::D5,
                Rank::Six => Square::D6,
                Rank::Seven => Square::D7,
                Rank::Eight => Square::D8,
            },
            File::E => match pos.rank {
                Rank::One => Square::E1,
                Rank::Two => Square::E2,
                Rank::Three => Square::E3,
                Rank::Four => Square::E4,
                Rank::Five => Square::E5,
                Rank::Six => Square::E6,
                Rank::Seven => Square::E7,
                Rank::Eight => Square::E8,
            },
            File::F => match pos.rank {
                Rank::One => Square::F1,
                Rank::Two => Square::F2,
                Rank::Three => Square::F3,
                Rank::Four => Square::F4,
                Rank::Five => Square::F5,
                Rank::Six => Square::F6,
                Rank::Seven => Square::F7,
                Rank::Eight => Square::F8,
            },
            File::G => match pos.rank {
                Rank::One => Square::G1,
                Rank::Two => Square::G2,
                Rank::Three => Square::G3,
                Rank::Four => Square::G4,
                Rank::Five => Square::G5,
                Rank::Six => Square::G6,
                Rank::Seven => Square::G7,
                Rank::Eight => Square::G8,
            },
            File::H => match pos.rank {
                Rank::One => Square::H1,
                Rank::Two => Square::H2,
                Rank::Three => Square::H3,
                Rank::Four => Square::H4,
                Rank::Five => Square::H5,
                Rank::Six => Square::H6,
                Rank::Seven => Square::H7,
                Rank::Eight => Square::H8,
            },
        }
    }

    /// The position of the square.
    pub fn to_position(&self) -> (r: Position)
        ensures
            r.file == file_at(square_ordinal(*self) / 8),
            r.rank == rank_at(square_ordinal(*self) % 8),
            file_index(r.file) == square_ordinal(*self) / 8,
            rank_index(r.rank) == square_ordinal(*self) % 8,
    {
        let f = self.file();
        let r = self.rank();
        proof {
            super::position::lemma_file_roundtrip(f);
            super::position::lemma_rank_roundtrip(r);
        }
        Position::from_file_rank(f, r)
    }
}

impl From<Position> for Square {
    fn from(pos: Position) -> (r: Square) {
        Square::from_position(pos)
    }
}

impl vstd::std_specs::convert::FromSpecImpl<Position> for Square {
    open spec fn obeys_from_spec() -> bool {
        true
    }

    open spec fn from_spec(pos: Position) -> Square {
        square_at_ordinal(file_index(pos.file) * 8 + rank_index(pos.rank))
    }
}

impl From<Square> for Position {
    fn from(sq: Square) -> (r: Position) {
        sq.to_position()
    }
}

impl vstd::std_specs::convert::FromSpecImpl<Square> for Position {
    open spec fn obeys_from_spec() -> bool {
        true
    }

    open spec fn from_spec(sq: Square) -> Position {
        Position { file: file_at(square_ordinal(sq) / 8), rank: rank_at(square_ordinal(sq) % 8) }
    }
}

/// The square with ordinal `i` (meaningful for `0 <= i < 64`).
pub open spec fn square_at_ordinal(i: int) -> Square {
    if i == 0 {
        Square::A1
    } else if i == 1 {
        Square::A2
    } else if i == 2 {
        Square::A3
    } else if i == 3 {
        Square::A4
    } else if i == 4 {
        Square::A5
    } else if i == 5 {
        Square::A6
    } else if i == 6 {
        Square::A7
    } else if i == 7 {
        Square::A8
    } else if i == 8 {
        Square::B1
    } else if i == 9 {
        Square::B2
    } else if i == 10 {
        Square::B3
    } else if i == 11 {
        Square::B4
    } else if i == 12 {
        Square::B5
    } else if i == 13 {
        Square::B6
    } else if i == 14 {
        Square::B7
    } else if i == 15 {
        Square::B8
    } else if i == 16 {
        Square::C1
    } else if i == 17 {
        Square::C2
    } else if i == 18 {
        Square::C3
    } else if i == 19 {
        Square::C4
    } else if i == 20 {
        Square::C5
    } else if i == 21 {
        Square::C6
    } else if i == 22 {
        Square::C7
    } else if i == 23 {
        Square::C8
    } else if i == 24 {
        Square::D1
    } else if i == 25 {
        Square::D2
    } else if i == 26 {
        Square::D3
    } else if i == 27 {
        Square::D4
    } else if i == 28 {
        Square::D5
    } else if i == 29 {
        Square::D6
    } else if i == 30 {
        Square::D7
    } else if i == 31 {
        Square::D8
    } else if i == 32 {
        Square::E1
    } else if i == 33 {
        Square::E2
    } else if i == 34 {
        Square::E3
    } else if i == 35 {
        Square::E4
    } else if i == 36 {
        Square::E5
    } else if i == 37 {
        Square::E6
    } else if i == 38 {
        Square::E7
    } else if i == 39 {
        Square::E8
    } else if i == 40 {
        Square::F1
    } else if i == 41 {
        Square::F2
    } else if i == 42 {
        Square::F3
    } else if i == 43 {
        Square::F4
    } else if i == 44 {
        Square::F5
    } else if i == 45 {
        Square::F6
    } else if i == 46 {
        Square::F7
    } else if i == 47 {
        Square::F8
    } else if i == 48 {
        Square::G1
    } else if i == 49 {
        Square::G2
    } else if i == 50 {
        Square::G3
    } else if i == 51 {
        Square::G4
    } else if i == 52 {
        Square::G5
    } else if i == 53 {
        Square::G6
    } else if i == 54 {
        Square::G7
    } else if i == 55 {
        Square::G8
    } else if i == 56 {
        Square::H1
    } else if i == 57 {
        Square::H2
    } else if i == 58 {
        Square::H3
    } else if i == 59 {
        Square::H4
    } else if i == 60 {
        Square::H5
    } else if i == 61 {
        Square::H6
    } else if i == 62 {
        Square::H7
    } else {
        Square::H8
    }
}

/// Ordinals and squares are in one-to-one correspondence.
pub proof fn lemma_square_ordinal_bijective(s: Square)
    ensures
        0 <= square_ordinal(s) < 64,
        square_at_ordinal(square_ordinal(s)) == s,
{
}

} // verus!
