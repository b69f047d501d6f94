use vstd::prelude::*;
use crate::text::{push_str, string_from_chars};

verus! {

/// Column of the board, `A` to `H` (the x axis).
#[derive(Debug, Clone, Copy, Hash, PartialEq, Eq, Structural)]
pub enum File {
    A,
    B,
    C,
    D,
    E,
    F,
    G,
    H,
}

/// Row of the board, `One` to `Eight` (the y axis).
#[derive(Debug, Clone, Copy, Hash, PartialEq, Eq, Structural)]
pub enum Rank {
    One,
    Two,
    Three,
    Four,
    Five,
    Six,
    Seven,
    Eight,
}

/// A square of the board given by its file and rank.
#[derive(Debug, Clone, Copy, Hash, PartialEq, Eq, Structural)]
pub struct Position {
    pub file: File,
    pub rank: Rank,
}

/// The index of a file, from 0 (`A`) to 7 (`H`).
pub open spec fn file_index(f: File) -> int {
    match f {
        File::A => 0,
        File::B => 1,
        File::C => 2,
        File::D => 3,
        File::E => 4,
        File::F => 5,
        File::G => 6,
        File::H => 7,
    }
}

/// The file whose index is `i` (meaningful for `0 <= i < 8`).
pub open spec fn file_at(i: int) -> File {
    if i == 0 {
        File::A
    } else if i == 1 {
        File::B
    } else if i == 2 {
        File::C
    } else if i == 3 {
        File::D
    } else if i == 4 {
        File::E
    } else if i == 5 {
        File::F
    } else if i == 6 {
        File::G
    } else {
        File::H
    }
}

/// The index of a rank, from 0 (`One`) to 7 (`Eight`).
pub open spec fn rank_index(r: Rank) -> int {
    match r {
        Rank::One => 0,
        Rank::Two => 1,
        Rank::Three => 2,
        Rank::Four => 3,
        Rank::Five => 4,
        Rank::Six => 5,
        Rank::Seven => 6,
        Rank::Eight => 7,
    }
}

/// The rank whose index is `i` (meaningful for `0 <= i < 8`).
pub open spec fn rank_at(i: int) -> Rank {
    if i == 0 {
        Rank::One
    } else if i == 1 {
        Rank::Two
    } else if i == 2 {
        Rank::Three
    } else if i == 3 {
        Rank::Four
    } else if i == 4 {
        Rank::Five
    } else if i == 5 {
        Rank::Six
    } else if i == 6 {
        Rank::Seven
    } else {
        Rank::Eight
    }
}

/// The position at file index `x` and rank index `y`.
pub open spec fn position_at(x: int, y: int) -> Position {
    Position { file: file_at(x), rank: rank_at(y) }
}

/// Index of a square on a bitboard: eight squares per rank, rank one first.
pub open spec fn square_index(p: Position) -> int {
    rank_index(p.rank) * 8 + file_index(p.file)
}

/// The position whose bitboard index is `i` (meaningful for `0 <= i < 64`).
pub open spec fn position_of_index(i: int) -> Position {
    position_at(i % 8, i / 8)
}

pub proof fn lemma_file_roundtrip(f: File)
    ensures
        0 <= file_index(f) < 8,
        file_at(file_index(f)) == f,
{
}

pub proof fn lemma_rank_roundtrip(r: Rank)
    ensures
        0 <= rank_index(r) < 8,
        rank_at(rank_index(r)) == r,
{
}

pub proof fn lemma_index_roundtrip(i: int)
    requires
        0 <= i < 8,
    ensures
        file_index(file_at(i)) == i,
        rank_index(rank_at(i)) == i,
{
}

/// Positions and bitboard indexes are in one-to-one correspondence.
pub proof fn lemma_square_index_bijective(p: Position, i: int)
    requires
        0 <= i < 64,
    ensures
        0 <= square_index(p) < 64,
        position_of_index(square_index(p)) == p,
        square_index(position_of_index(i)) == i,
{
    lemma_file_roundtrip(p.file);
    lemma_rank_roundtrip(p.rank);
    lemma_index_roundtrip(i % 8);
    lemma_index_roundtrip(i / 8);
}

impl File {
    /// The file with index `i`, or `None` when `i > 7`.
    pub fn from_index(i: u8) -> (r: Option<File>)
        ensures
            i < 8 ==> r == Some(file_at(i as int)),
            i >= 8 ==> r is None,
    {
        match i {
            0 => Some(File::A),
            1 => Some(File::B),
            2 => Some(File::C),
            3 => Some(File::D),
            4 => Some(File::E),
            5 => Some(File::F),
            6 => Some(File::G),
            7 => Some(File::H),
            _ => None,
        }
    }

    pub fn to_index(&self) -> (r: u8)
        ensures
            r == file_index(*self),
            r < 8,
    {
        match self {
            File::A => 0,
            File::B => 1,
            File::C => 2,
            File::D => 3,
            File::E => 4,
            File::F => 5,
            File::G => 6,
            File::H => 7,
        }
    }

    /// The one-letter name of the file ("A" to "H").
    pub fn name(&self) -> (r: &'static str)
        ensures
            r@.len() == 1,
            r@[0] == (('A' as int) + file_index(*self)) as char,
    {
        proof {
            reveal_strlit("A");
            reveal_strlit("B");
            reveal_strlit("C");
            reveal_strlit("D");
            reveal_strlit("E");
            reveal_strlit("F");
            reveal_strlit("G");
            reveal_strlit("H");
        }
        match self {
            File::A => "A",
            File::B => "B",
            File::C => "C",
            File::D => "D",
            File::E => "E",
            File::F => "F",
            File::G => "G",
            File::H => "H",
        }
    }

    /// The name of the file ("A" to "H").
    pub fn to_string(&self) -> (r: String)
        ensures
            r@ == seq![(('A' as int) + file_index(*self)) as char],
    {
        let r = self.name().to_owned();
        assert(r@ =~= seq![(('A' as int) + file_index(*self)) as char]);
        r
    }
}

impl Rank {
    /// The rank with index `i`, or `None` when `i > 7`.
    pub fn from_index(i: u8) -> (r: Option<Rank>)
        ensures
            i < 8 ==> r == Some(rank_at(i as int)),
            i >= 8 ==> r is None,
    {
        match i {
            0 => Some(Rank::One),
            1 => Some(Rank::Two),
            2 => Some(Rank::Three),
            3 => Some(Rank::Four),
            4 => Some(Rank::Five),
            5 => Some(Rank::Six),
            6 => Some(Rank::Seven),
            7 => Some(Rank::Eight),
            _ => None,
        }
    }

    pub fn to_index(&self) -> (r: u8)
        ensures
            r == rank_index(*self),
            r < 8,
    {
        match self {
            Rank::One => 0,
            Rank::Two => 1,
            Rank::Three => 2,
            Rank::Four => 3,
            Rank::Five => 4,
            Rank::Six => 5,
            Rank::Seven => 6,
            Rank::Eight => 7,
        }
    }

    /// The one-digit name of the rank ("1" to "8").
    pub fn name(&self) -> (r: &'static str)
        ensures
            r@.len() == 1,
            r@[0] == (('1' as int) + rank_index(*self)) as char,
    {
        proof {
            reveal_strlit("1");
            reveal_strlit("2");
            reveal_strlit("3");
            reveal_strlit("4");
            reveal_strlit("5");
            reveal_strlit("6");
            reveal_strlit("7");
            reveal_strlit("8");
        }
        match self {
            Rank::One => "1",
            Rank::Two => "2",
            Rank::Three => "3",
            Rank::Four => "4",
            Rank::Five => "5",
            Rank::Six => "6",
            Rank::Seven => "7",
            Rank::Eight => "8",
        }
    }

    /// The name of the rank ("1" to "8").
    pub fn to_string(&self) -> (r: String)
        ensures
            r@ == seq![(('1' as int) + rank_index(*self)) as char],
    {
        let r = self.name().to_owned();
        assert(r@ =~= seq![(('1' as int) + rank_index(*self)) as char]);
        r
    }
}

impl Position {
    /// The name of the square: its file, then its rank ("E4").
    pub fn to_string(&self) -> (r: String)
        ensures
            r@ == seq![(('A' as int) + file_index(self.file)) as char, (('1' as int) + rank_index(self.rank)) as char],
    {
        let mut out: Vec<char> = Vec::new();
        push_str(&mut out, self.file.name());
        push_str(&mut out, self.rank.name());
        let r = string_from_chars(out);
        assert(r@ =~= seq![(('A' as int) + file_index(self.file)) as char, (('1' as int) + rank_index(self.rank)) as char]);
        r
    }

    pub fn from_file_rank(file: File, rank: Rank) -> (r: Position)
        ensures
            r.file == file,
            r.rank == rank,
    {
        Position { file, rank }
    }

    /// The position at file index `x` and rank index `y`, or `None` when
    /// either is off the board.
    pub fn from_index(x: u8, y: u8) -> (r: Option<Position>)
        ensures
            (x < 8 && y < 8) ==> r == Some(position_at(x as int, y as int)),
            !(x < 8 && y < 8) ==> r is None,
    {
        let file = File::from_index(x)?;
        let rank = Rank::from_index(y)?;
        Some(Position { file, rank })
    }

    /// Index of this square on a bitboard (`rank * 8 + file`).
    pub fn to_index(&self) -> (r: u8)
        ensures
            r == square_index(*self),
            r < 64,
    {
        self.rank.to_index() * 8 + self.file.to_index()
    }

    pub fn file(&self) -> (r: File)
        ensures
            r == self.file,
    {
        self.file
    }

    pub fn set_file(&mut self, new_file: File)
        ensures
            final(self).file == new_file,
            final(self).rank == old(self).rank,
    {
        self.file = new_file
    }

    pub fn rank(&self) -> (r: Rank)
        ensures
            r == self.rank,
    {
        self.rank
    }

    pub fn new_rank(&mut self, new_rank: Rank)
        ensures
            final(self).rank == new_rank,
            final(self).file == old(self).file,
    {
        self.rank = new_rank
    }

    /// Moves up by `amnt` ranks, wrapping around the board.
    pub fn move_up(&mut self, amnt: u8)
        requires
            rank_index(old(self).rank) + amnt <= u8::MAX,
        ensures
            final(self).rank == rank_at((rank_index(old(self).rank) + amnt) % 8),
            final(self).file == old(self).file,
    {
        self.rank = self.rank + amnt;
    }

    /// Moves down by `amnt` ranks, wrapping around the board.
    pub fn move_down(&mut self, amnt: u8)
        ensures
            final(self).rank == rank_at((rank_index(old(self).rank) - amnt) % 8),
            final(self).file == old(self).file,
    {
        self.rank = self.rank - amnt;
    }

    /// Moves left by `amnt` files, wrapping around the board.
    pub fn move_left(&mut self, amnt: u8)
        ensures
            final(self).file == file_at((file_index(old(self).file) - amnt) % 8),
            final(self).rank == old(self).rank,
    {
        self.file = self.file - amnt;
    }

    /// Moves right by `amnt` files, wrapping around the board.
    pub fn move_right(&mut self, amnt: u8)
        requires
            file_index(old(self).file) + amnt <= u8::MAX,
        ensures
            final(self).file == file_at((file_index(old(self).file) + amnt) % 8),
            final(self).rank == old(self).rank,
    {
        self.file = self.file + amnt;
    }
}

/// Index reached by adding `rhs` to index `i` on a circle of eight.
pub open spec fn wrap_add(i: int, rhs: int) -> int {
    (i + rhs) % 8
}

/// Index reached by taking `rhs` from index `i` on a circle of eight.
pub open spec fn wrap_sub(i: int, rhs: int) -> int {
    (i - rhs) % 8
}

/// `i - rhs` computed on `u8` with wrapping, then reduced modulo 8, is the
/// same as the mathematical difference modulo 8.
proof fn lemma_wrapping_sub_mod8(i: u8, rhs: u8)
    ensures
        (if i >= rhs { (i - rhs) as int } else { (i - rhs + 256) as int }) % 8 == (i - rhs) % 8,
{
    assert((i - rhs + 256) % 8 == (i - rhs) % 8) by (nonlinear_arith);
}

fn wrapping_sub_mod8(i: u8, rhs: u8) -> (r: u8)
    ensures
        r as int == (i - rhs) % 8,
        r < 8,
{
    proof {
        lemma_wrapping_sub_mod8(i, rhs);
    }
    let d: u8 = if i >= rhs {
        i - rhs
    } else {
        ((i as u16 + 256 - rhs as u16)) as u8
    };
    d % 8
}

impl core::ops::Add<u8> for File {
    type Output = File;

    fn add(self, rhs: u8) -> (r: File) {
        let i: u8 = (self.to_index() + rhs) % 8;
        match File::from_index(i) {
            Some(f) => f,
            None => File::A,
        }
    }
}

impl vstd::std_specs::ops::AddSpecImpl<u8> for File {
    open spec fn obeys_add_spec() -> bool {
        true
    }

    open spec fn add_req(self, rhs: u8) -> bool {
        file_index(self) + rhs <= u8::MAX
    }

    open spec fn add_spec(self, rhs: u8) -> File {
        file_at(wrap_add(file_index(self), rhs as int))
    }
}

impl core::ops::Sub<u8> for File {
    type Output = File;

    fn sub(self, rhs: u8) -> (r: File) {
        let i: u8 = wrapping_sub_mod8(self.to_index(), rhs);
        match File::from_index(i) {
            Some(f) => f,
            None => File::A,
        }
    }
}

impl vstd::std_specs::ops::SubSpecImpl<u8> for File {
    open spec fn obeys_sub_spec() -> bool {
        true
    }

    open spec fn sub_req(self, rhs: u8) -> bool {
        true
    }

    open spec fn sub_spec(self, rhs: u8) -> File {
        file_at(wrap_sub(file_index(self), rhs as int))
    }
}

impl core::ops::Add<u8> for Rank {
    type Output = Rank;

    fn add(self, rhs: u8) -> (r: Rank) {
        let i: u8 = (self.to_index() + rhs) % 8;
        match Rank::from_index(i) {
            Some(r) => r,
            None => Rank::One,
        }
    }
}

impl vstd::std_specs::ops::AddSpecImpl<u8> for Rank {
    open spec fn obeys_add_spec() -> bool {
        true
    }

    open spec fn add_req(self, rhs: u8) -> bool {
        rank_index(self) + rhs <= u8::MAX
    }

    open spec fn add_spec(self, rhs: u8) -> Rank {
        rank_at(wrap_add(rank_index(self), rhs as int))
    }
}

impl core::ops::Sub<u8> for Rank {
    type Output = Rank;

    fn sub(self, rhs: u8) -> (r: Rank) {
        let i: u8 = wrapping_sub_mod8(self.to_index(), rhs);
        match Rank::from_index(i) {
            Some(r) => r,
            None => Rank::One,
        }
    }
}

impl vstd::std_specs::ops::SubSpecImpl<u8> for Rank {
    open spec fn obeys_sub_spec() -> bool {
        true
    }

    open spec fn sub_req(self, rhs: u8) -> bool {
        true
    }

    open spec fn sub_spec(self, rhs: u8) -> Rank {
        rank_at(wrap_sub(rank_index(self), rhs as int))
    }
}

impl From<(File, Rank)> for Position {
    fn from(value: (File, Rank)) -> (r: Position) {
        Position::from_file_rank(value.0, value.1)
    }
}

impl vstd::std_specs::convert::FromSpecImpl<(File, Rank)> for Position {
    open spec fn obeys_from_spec() -> bool {
        true
    }

    open spec fn from_spec(value: (File, Rank)) -> Position {
        Position { file: value.0, rank: value.1 }
    }
}

/// `(i + rhs) % 8` for an index `i` below eight, without overflow for any
/// `rhs`: the sum is formed on `u16`.
fn wrapping_add_mod8(i: u8, rhs: u8) -> (r: u8)
    requires
        i < 8,
    ensures
        r as int == wrap_add(i as int, rhs as int),
        r < 8,
{
    ((i as u16 + rhs as u16) % 8) as u8
}

/// Moves a file `rhs` places forward on a circle of eight, for every `rhs`
/// (the sum of index and `rhs` is not formed on `u8`, so it cannot pass 255).
impl core::ops::AddAssign<u8> for File {
    fn add_assign(&mut self, rhs: u8)
        ensures
            *final(self) == file_at(wrap_add(file_index(*old(self)), rhs as int)),
    {
        let i: u8 = wrapping_add_mod8(self.to_index(), rhs);
        *self = match File::from_index(i) {
            Some(f) => f,
            None => File::A,
        };
    }
}

/// Moves a rank `rhs` places forward on a circle of eight, for every `rhs`.
impl core::ops::AddAssign<u8> for Rank {
    fn add_assign(&mut self, rhs: u8)
        ensures
            *final(self) == rank_at(wrap_add(rank_index(*old(self)), rhs as int)),
    {
        let i: u8 = wrapping_add_mod8(self.to_index(), rhs);
        *self = match Rank::from_index(i) {
            Some(r) => r,
            None => Rank::One,
        };
    }
}

/// Moves a file `rhs` places back on a circle of eight.
impl core::ops::SubAssign<u8> for File {
    fn sub_assign(&mut self, rhs: u8)
        ensures
            *final(self) == file_at(wrap_sub(file_index(*old(self)), rhs as int)),
    {
        *self = *self - rhs
    }
}

/// Moves a rank `rhs` places back on a circle of eight.
impl core::ops::SubAssign<u8> for Rank {
    fn sub_assign(&mut self, rhs: u8)
        ensures
            *final(self) == rank_at(wrap_sub(rank_index(*old(self)), rhs as int)),
    {
        *self = *self - rhs
    }
}

/// Moving a file or a rank forward by some amount and back by the same
/// amount gives back where it started, and moving by eight goes round once.
pub proof fn lemma_wrap_add_sub(i: int, n: int)
    requires
        0 <= i < 8,
        0 <= n,
    ensures
        wrap_sub(wrap_add(i, n), n) == i,
        wrap_add(wrap_sub(i, n), n) == i,
        wrap_add(i, 8) == i,
        0 <= wrap_add(i, n) < 8,
        0 <= wrap_sub(i, n) < 8,
{
    assert(((i + n) % 8 - n) % 8 == i) by (nonlinear_arith)
        requires
            0 <= i < 8,
            0 <= n,
    ;
    assert(((i - n) % 8 + n) % 8 == i) by (nonlinear_arith)
        requires
            0 <= i < 8,
            0 <= n,
    ;
}

} // verus!
