use vstd::prelude::*;
use super::position::{square_index, position_at, Position};
use crate::text::{decimal, digit_char, push_decimal, push_str, string_from_chars};

verus! {

/// Bit `i` of `x`, bit 0 being the least significant.
pub open spec fn bit(x: u64, i: u64) -> bool {
    (x >> i) & 1u64 == 1u64
}

/// The squares (indexes `0..64`) whose bit is set in `x`.
pub open spec fn bits_of(x: u64) -> Set<int> {
    Set::new(|i: int| 0 <= i < 64 && bit(x, i as u64))
}

/// The squares of `s` seen from the other side of the board: index `i`
/// becomes `63 - i`.
pub open spec fn mirror(s: Set<int>) -> Set<int> {
    Set::new(|i: int| 0 <= i < 64 && s.contains(63 - i))
}

/// The cells of the first `n` files of rank `rank` in a drawing of `s`:
/// "X " for a square of `s`, "\u{2022} " for any other.
pub open spec fn cells_text(s: Set<int>, rank: int, n: nat) -> Seq<char>
    decreases n,
{
    if n == 0 {
        Seq::empty()
    } else {
        cells_text(s, rank, (n - 1) as nat) + if s.contains(rank * 8 + n - 1) {
            seq!['X', ' ']
        } else {
            seq!['\u{2022}', ' ']
        }
    }
}

/// The line of rank `rank` in a drawing of `s`: its number, its cells, a
/// line break.
pub open spec fn rank_text(s: Set<int>, rank: int) -> Seq<char> {
    seq![digit_char(rank + 1), ' '] + cells_text(s, rank, 8) + seq!['\n']
}

/// The lines of the ranks from the eighth down to rank `rank` in a drawing
/// of `s`.
pub open spec fn ranks_down_to(s: Set<int>, rank: int) -> Seq<char>
    decreases 8 - rank,
{
    if rank >= 8 {
        Seq::empty()
    } else {
        ranks_down_to(s, rank + 1) + rank_text(s, rank)
    }
}

/// The drawing of the board `x`: its number, then the ranks from the
/// eighth down, then the names of the files.
pub open spec fn board_text(x: u64) -> Seq<char> {
    "BitBoard("@ + decimal(x as nat) + ")\n"@ + ranks_down_to(bits_of(x), 0) + "  A B C D E F G H"@
}

/// A set of squares, one bit per square (bit `rank * 8 + file`).
#[derive(Copy, Clone, Debug, PartialEq, Eq, Structural)]
pub struct BitBoard(pub u64);

impl View for BitBoard {
    type V = Set<int>;

    open spec fn view(&self) -> Set<int> {
        bits_of(self.0)
    }
}

pub proof fn lemma_bit_or_single(x: u64, j: u64, k: u64)
    requires
        j < 64,
        k < 64,
    ensures
        bit(x | (1u64 << j), k) == (k == j || bit(x, k)),
{
    assert(((x | (1u64 << j)) >> k) & 1u64 == 1u64 <==> (k == j || (x >> k) & 1u64 == 1u64))
        by (bit_vector)
        requires
            j < 64,
            k < 64,
    ;
}

pub proof fn lemma_bit_clear_single(x: u64, j: u64, k: u64)
    requires
        j < 64,
        k < 64,
    ensures
        bit(x & !(1u64 << j), k) == (k != j && bit(x, k)),
{
    assert(((x & !(1u64 << j)) >> k) & 1u64 == 1u64 <==> (k != j && (x >> k) & 1u64 == 1u64))
        by (bit_vector)
        requires
            j < 64,
            k < 64,
    ;
}

pub proof fn lemma_bit_ops(x: u64, y: u64, k: u64)
    requires
        k < 64,
    ensures
        bit(x | y, k) == (bit(x, k) || bit(y, k)),
        bit(x & y, k) == (bit(x, k) && bit(y, k)),
        bit(x & !y, k) == (bit(x, k) && !bit(y, k)),
        bit(!x, k) == !bit(x, k),
{
    assert(((x | y) >> k) & 1u64 == 1u64 <==> ((x >> k) & 1u64 == 1u64 || (y >> k) & 1u64 == 1u64))
        by (bit_vector)
        requires
            k < 64,
    ;
    assert(((x & y) >> k) & 1u64 == 1u64 <==> ((x >> k) & 1u64 == 1u64 && (y >> k) & 1u64 == 1u64))
        by (bit_vector)
        requires
            k < 64,
    ;
    assert(((x & !y) >> k) & 1u64 == 1u64 <==> ((x >> k) & 1u64 == 1u64 && !((y >> k) & 1u64 == 1u64)))
        by (bit_vector)
        requires
            k < 64,
    ;
    assert(((!x) >> k) & 1u64 == 1u64 <==> !((x >> k) & 1u64 == 1u64)) by (bit_vector)
        requires
            k < 64,
    ;
}

/// A 64-bit word is determined by its 64 bits.
pub proof fn lemma_bits_extensional(x: u64, y: u64)
    requires
        forall|i: u64| i < 64 ==> bit(x, i) == bit(y, i),
    ensures
        x == y,
{
    assert forall|i: u64| i < 64 implies (x >> i) & 1u64 == (y >> i) & 1u64 by {
        assert(bit(x, i) == bit(y, i));
        assert((x >> i) & 1u64 <= 1u64) by (bit_vector);
        assert((y >> i) & 1u64 <= 1u64) by (bit_vector);
    }
    lemma_bits_extensional_unrolled(x, y);
}

proof fn lemma_bits_extensional_unrolled(x: u64, y: u64)
    requires
        forall|i: u64| i < 64 ==> (x >> i) & 1u64 == (y >> i) & 1u64,
    ensures
        x == y,
{
    assert((x >> 0u64) & 1u64 == (y >> 0u64) & 1u64);
    assert((x >> 1u64) & 1u64 == (y >> 1u64) & 1u64);
    assert((x >> 2u64) & 1u64 == (y >> 2u64) & 1u64);
    assert((x >> 3u64) & 1u64 == (y >> 3u64) & 1u64);
    assert((x >> 4u64) & 1u64 == (y >> 4u64) & 1u64);
    assert((x >> 5u64) & 1u64 == (y >> 5u64) & 1u64);
    assert((x >> 6u64) & 1u64 == (y >> 6u64) & 1u64);
    assert((x >> 7u64) & 1u64 == (y >> 7u64) & 1u64);
    assert((x >> 8u64) & 1u64 == (y >> 8u64) & 1u64);
    assert((x >> 9u64) & 1u64 == (y >> 9u64) & 1u64);
    assert((x >> 10u64) & 1u64 == (y >> 10u64) & 1u64);
    assert((x >> 11u64) & 1u64 == (y >> 11u64) & 1u64);
    assert((x >> 12u64) & 1u64 == (y >> 12u64) & 1u64);
    assert((x >> 13u64) & 1u64 == (y >> 13u64) & 1u64);
    assert((x >> 14u64) & 1u64 == (y >> 14u64) & 1u64);
    assert((x >> 15u64) & 1u64 == (y >> 15u64) & 1u64);
    assert((x >> 16u64) & 1u64 == (y >> 16u64) & 1u64);
    assert((x >> 17u64) & 1u64 == (y >> 17u64) & 1u64);
    assert((x >> 18u64) & 1u64 == (y >> 18u64) & 1u64);
    assert((x >> 19u64) & 1u64 == (y >> 19u64) & 1u64);
    assert((x >> 20u64) & 1u64 == (y >> 20u64) & 1u64);
    assert((x >> 21u64) & 1u64 == (y >> 21u64) & 1u64);
    assert((x >> 22u64) & 1u64 == (y >> 22u64) & 1u64);
    assert((x >> 23u64) & 1u64 == (y >> 23u64) & 1u64);
    assert((x >> 24u64) & 1u64 == (y >> 24u64) & 1u64);
    assert((x >> 25u64) & 1u64 == (y >> 25u64) & 1u64);
    assert((x >> 26u64) & 1u64 == (y >> 26u64) & 1u64);
    assert((x >> 27u64) & 1u64 == (y >> 27u64) & 1u64);
    assert((x >> 28u64) & 1u64 == (y >> 28u64) & 1u64);
    assert((x >> 29u64) & 1u64 == (y >> 29u64) & 1u64);
    assert((x >> 30u64) & 1u64 == (y >> 30u64) & 1u64);
    assert((x >> 31u64) & 1u64 == (y >> 31u64) & 1u64);
    assert((x >> 32u64) & 1u64 == (y >> 32u64) & 1u64);
    assert((x >> 33u64) & 1u64 == (y >> 33u64) & 1u64);
    assert((x >> 34u64) & 1u64 == (y >> 34u64) & 1u64);
    assert((x >> 35u64) & 1u64 == (y >> 35u64) & 1u64);
    assert((x >> 36u64) & 1u64 == (y >> 36u64) & 1u64);
    assert((x >> 37u64) & 1u64 == (y >> 37u64) & 1u64);
    assert((x >> 38u64) & 1u64 == (y >> 38u64) & 1u64);
    assert((x >> 39u64) & 1u64 == (y >> 39u64) & 1u64);
    assert((x >> 40u64) & 1u64 == (y >> 40u64) & 1u64);
    assert((x >> 41u64) & 1u64 == (y >> 41u64) & 1u64);
    assert((x >> 42u64) & 1u64 == (y >> 42u64) & 1u64);
    assert((x >> 43u64) & 1u64 == (y >> 43u64) & 1u64);
    assert((x >> 44u64) & 1u64 == (y >> 44u64) & 1u64);
    assert((x >> 45u64) & 1u64 == (y >> 45u64) & 1u64);
    assert((x >> 46u64) & 1u64 == (y >> 46u64) & 1u64);
    assert((x >> 47u64) & 1u64 == (y >> 47u64) & 1u64);
    assert((x >> 48u64) & 1u64 == (y >> 48u64) & 1u64);
    assert((x >> 49u64) & 1u64 == (y >> 49u64) & 1u64);
    assert((x >> 50u64) & 1u64 == (y >> 50u64) & 1u64);
    assert((x >> 51u64) & 1u64 == (y >> 51u64) & 1u64);
    assert((x >> 52u64) & 1u64 == (y >> 52u64) & 1u64);
    assert((x >> 53u64) & 1u64 == (y >> 53u64) & 1u64);
    assert((x >> 54u64) & 1u64 == (y >> 54u64) & 1u64);
    assert((x >> 55u64) & 1u64 == (y >> 55u64) & 1u64);
    assert((x >> 56u64) & 1u64 == (y >> 56u64) & 1u64);
    assert((x >> 57u64) & 1u64 == (y >> 57u64) & 1u64);
    assert((x >> 58u64) & 1u64 == (y >> 58u64) & 1u64);
    assert((x >> 59u64) & 1u64 == (y >> 59u64) & 1u64);
    assert((x >> 60u64) & 1u64 == (y >> 60u64) & 1u64);
    assert((x >> 61u64) & 1u64 == (y >> 61u64) & 1u64);
    assert((x >> 62u64) & 1u64 == (y >> 62u64) & 1u64);
    assert((x >> 63u64) & 1u64 == (y >> 63u64) & 1u64);
    
    assert(x == y) by (bit_vector)
        requires
            (x >> 0u64) & 1u64 == (y >> 0u64) & 1u64,
            (x >> 1u64) & 1u64 == (y >> 1u64) & 1u64,
            (x >> 2u64) & 1u64 == (y >> 2u64) & 1u64,
            (x >> 3u64) & 1u64 == (y >> 3u64) & 1u64,
            (x >> 4u64) & 1u64 == (y >> 4u64) & 1u64,
            (x >> 5u64) & 1u64 == (y >> 5u64) & 1u64,
            (x >> 6u64) & 1u64 == (y >> 6u64) & 1u64,
            (x >> 7u64) & 1u64 == (y >> 7u64) & 1u64,
            (x >> 8u64) & 1u64 == (y >> 8u64) & 1u64,
            (x >> 9u64) & 1u64 == (y >> 9u64) & 1u64,
            (x >> 10u64) & 1u64 == (y >> 10u64) & 1u64,
            (x >> 11u64) & 1u64 == (y >> 11u64) & 1u64,
            (x >> 12u64) & 1u64 == (y >> 12u64) & 1u64,
            (x >> 13u64) & 1u64 == (y >> 13u64) & 1u64,
            (x >> 14u64) & 1u64 == (y >> 14u64) & 1u64,
            (x >> 15u64) & 1u64 == (y >> 15u64) & 1u64,
            (x >> 16u64) & 1u64 == (y >> 16u64) & 1u64,
            (x >> 17u64) & 1u64 == (y >> 17u64) & 1u64,
            (x >> 18u64) & 1u64 == (y >> 18u64) & 1u64,
            (x >> 19u64) & 1u64 == (y >> 19u64) & 1u64,
            (x >> 20u64) & 1u64 == (y >> 20u64) & 1u64,
            (x >> 21u64) & 1u64 == (y >> 21u64) & 1u64,
            (x >> 22u64) & 1u64 == (y >> 22u64) & 1u64,
            (x >> 23u64) & 1u64 == (y >> 23u64) & 1u64,
            (x >> 24u64) & 1u64 == (y >> 24u64) & 1u64,
            (x >> 25u64) & 1u64 == (y >> 25u64) & 1u64,
            (x >> 26u64) & 1u64 == (y >> 26u64) & 1u64,
            (x >> 27u64) & 1u64 == (y >> 27u64) & 1u64,
            (x >> 28u64) & 1u64 == (y >> 28u64) & 1u64,
            (x >> 29u64) & 1u64 == (y >> 29u64) & 1u64,
            (x >> 30u64) & 1u64 == (y >> 30u64) & 1u64,
            (x >> 31u64) & 1u64 == (y >> 31u64) & 1u64,
            (x >> 32u64) & 1u64 == (y >> 32u64) & 1u64,
            (x >> 33u64) & 1u64 == (y >> 33u64) & 1u64,
            (x >> 34u64) & 1u64 == (y >> 34u64) & 1u64,
            (x >> 35u64) & 1u64 == (y >> 35u64) & 1u64,
            (x >> 36u64) & 1u64 == (y >> 36u64) & 1u64,
            (x >> 37u64) & 1u64 == (y >> 37u64) & 1u64,
            (x >> 38u64) & 1u64 == (y >> 38u64) & 1u64,
            (x >> 39u64) & 1u64 == (y >> 39u64) & 1u64,
            (x >> 40u64) & 1u64 == (y >> 40u64) & 1u64,
            (x >> 41u64) & 1u64 == (y >> 41u64) & 1u64,
            (x >> 42u64) & 1u64 == (y >> 42u64) & 1u64,
            (x >> 43u64) & 1u64 == (y >> 43u64) & 1u64,
            (x >> 44u64) & 1u64 == (y >> 44u64) & 1u64,
            (x >> 45u64) & 1u64 == (y >> 45u64) & 1u64,
            (x >> 46u64) & 1u64 == (y >> 46u64) & 1u64,
            (x >> 47u64) & 1u64 == (y >> 47u64) & 1u64,
            (x >> 48u64) & 1u64 == (y >> 48u64) & 1u64,
            (x >> 49u64) & 1u64 == (y >> 49u64) & 1u64,
            (x >> 50u64) & 1u64 == (y >> 50u64) & 1u64,
            (x >> 51u64) & 1u64 == (y >> 51u64) & 1u64,
            (x >> 52u64) & 1u64 == (y >> 52u64) & 1u64,
            (x >> 53u64) & 1u64 == (y >> 53u64) & 1u64,
            (x >> 54u64) & 1u64 == (y >> 54u64) & 1u64,
            (x >> 55u64) & 1u64 == (y >> 55u64) & 1u64,
            (x >> 56u64) & 1u64 == (y >> 56u64) & 1u64,
            (x >> 57u64) & 1u64 == (y >> 57u64) & 1u64,
            (x >> 58u64) & 1u64 == (y >> 58u64) & 1u64,
            (x >> 59u64) & 1u64 == (y >> 59u64) & 1u64,
            (x >> 60u64) & 1u64 == (y >> 60u64) & 1u64,
            (x >> 61u64) & 1u64 == (y >> 61u64) & 1u64,
            (x >> 62u64) & 1u64 == (y >> 62u64) & 1u64,
            (x >> 63u64) & 1u64 == (y >> 63u64) & 1u64,
    ;
}

/// Two bitboards with the same squares are the same bitboard.
pub proof fn lemma_view_injective(a: BitBoard, b: BitBoard)
    requires
        a@ == b@,
    ensures
        a == b,
{
    assert forall|i: u64| i < 64 implies bit(a.0, i) == bit(b.0, i) by {
        assert(a@.contains(i as int) == b@.contains(i as int));
        assert(a@.contains(i as int) == bit(a.0, i));
        assert(b@.contains(i as int) == bit(b.0, i));
    }
    lemma_bits_extensional(a.0, b.0);
}

/// `x` with the order of its 64 bits reversed.
fn reverse_bits(x: u64) -> (r: u64)
    ensures
        forall|k: u64| k < 64 ==> bit(r, k) == bit(x, (63 - k) as u64),
{
    let mut r: u64 = 0;
    let mut i: u64 = 0;
    assert forall|k: u64| k < 64 implies !bit(0u64, k) by {
        assert((0u64 >> k) & 1u64 == 0u64) by (bit_vector);
    }
    while i < 64
        invariant
            i <= 64,
            forall|k: u64| k < 64 ==> bit(r, k) == (k + i >= 64 && bit(x, (63 - k) as u64)),
        decreases 64 - i,
    {
        let ghost old_r = r;
        if (x >> i) & 1u64 == 1u64 {
            r = r | (1u64 << (63 - i));
            assert forall|k: u64| k < 64 implies bit(r, k) == (k == 63 - i || bit(old_r, k)) by {
                lemma_bit_or_single(old_r, (63 - i) as u64, k);
            }
        }
        i = i + 1;
    }
    r
}

impl BitBoard {
    /// A drawing of the board, eighth rank on top.
    pub fn to_text(&self) -> (r: String)
        ensures
            r@ == board_text(self.0),
    {
        let mut out: Vec<char> = Vec::new();
        push_str(&mut out, "BitBoard(");
        push_decimal(self.0, &mut out);
        push_str(&mut out, ")\n");
        let ghost head = out@;
        let mut rank: u8 = 8;
        while rank > 0
            invariant
                rank <= 8,
                out@ == head + ranks_down_to(self@, rank as int),
            decreases rank,
        {
            rank = rank - 1;
            let ghost before = out@;
            push_decimal((rank + 1) as u64, &mut out);
            out.push(' ');
            let ghost row_start = out@;
            let mut file: u8 = 0;
            while file < 8
                invariant
                    file <= 8,
                    rank < 8,
                    out@ == row_start + cells_text(self@, rank as int, file as nat),
                decreases 8 - file,
            {
                let pos = Position::from_index(file, rank).unwrap();
                if self.read(pos) {
                    out.push('X');
                } else {
                    out.push('\u{2022}');
                }
                out.push(' ');
                proof {
                    assert(square_index(position_at(file as int, rank as int)) == rank * 8 + file);
                    assert(out@ =~= row_start + cells_text(self@, rank as int, (file + 1) as nat));
                }
                file = file + 1;
            }
            out.push('\n');
            proof {
                assert(decimal((rank + 1) as nat) == seq![digit_char(rank + 1)]);
                assert(out@ =~= before + rank_text(self@, rank as int));
            }
        }
        push_str(&mut out, "  A B C D E F G H");
        string_from_chars(out)
    }

    /// Adds the square at `position`.
    pub fn set(&mut self, position: Position)
        ensures
            final(self)@ == old(self)@.insert(square_index(position)),
            final(self).0 == old(self).0 | (1u64 << square_index(position) as u64),
    {
        let index = position.to_index() as u64;
        let b = BitBoard(1u64 << index);
        proof {
            assert forall|k: u64| k < 64 implies bit(self.0 | b.0, k) == (k == index || bit(self.0, k)) by {
                lemma_bit_or_single(self.0, index, k);
            }
        }
        self.add(b);
        assert(self@ =~= old(self)@.insert(index as int));
    }

    /// Removes the square at `position`.
    pub fn unset(&mut self, position: Position)
        ensures
            final(self)@ == old(self)@.remove(square_index(position)),
            final(self).0 == old(self).0 & !(1u64 << square_index(position) as u64),
    {
        let index = position.to_index() as u64;
        let b = BitBoard(1u64 << index);
        proof {
            assert forall|k: u64| k < 64 implies bit(self.0 & !b.0, k) == (k != index && bit(self.0, k)) by {
                lemma_bit_clear_single(self.0, index, k);
            }
        }
        self.sub(b);
        assert(self@ =~= old(self)@.remove(index as int));
    }

    /// Whether the square at `position` is in the set.
    pub fn read(&self, position: Position) -> (r: bool)
        ensures
            r == self@.contains(square_index(position)),
    {
        let index = position.to_index() as u64;
        let mask = BitBoard(1u64 << index);
        let x: u64 = self.0;
        let m: u64 = mask.0;
        proof {
            assert((x & m) != 0 <==> (x >> index) & 1u64 == 1u64) by (bit_vector)
                requires
                    index < 64,
                    m == 1u64 << index,
            ;
        }
        (self.0 & mask.0) != 0
    }

    /// Adds every square of `other`.
    pub fn add(&mut self, other: BitBoard)
        ensures
            final(self)@ == old(self)@.union(other@),
            final(self).0 == old(self).0 | other.0,
    {
        let ghost old_self = *self;
        self.0 = self.0 | other.0;
        assert forall|i: int| 0 <= i < 64 implies self@.contains(i) == (old_self@.contains(i) || other@.contains(i)) by {
            lemma_bit_ops(old_self.0, other.0, i as u64);
        }
        assert(self@ =~= old_self@.union(other@));
    }

    /// Removes every square of `other`.
    pub fn sub(&mut self, other: BitBoard)
        ensures
            final(self)@ == old(self)@.difference(other@),
            final(self).0 == old(self).0 & !other.0,
    {
        let ghost old_self = *self;
        self.0 = self.0 & !other.0;
        assert forall|i: int| 0 <= i < 64 implies self@.contains(i) == (old_self@.contains(i) && !other@.contains(i)) by {
            lemma_bit_ops(old_self.0, other.0, i as u64);
        }
        assert(self@ =~= old_self@.difference(other@));
    }

    /// Turns the board around, to see the other player's perspective:
    /// square `i` becomes square `63 - i`.
    pub fn flip(&mut self)
        ensures
            final(self)@ == mirror(old(self)@),
    {
        let ghost old_self = *self;
        self.0 = reverse_bits(self.0);
        assert(self@ =~= mirror(old_self@));
    }

    /// Whether no square is set.
    pub fn is_empty(&self) -> (r: bool)
        ensures
            r == (self@ == Set::<int>::empty()),
    {
        proof {
            if self.0 != 0 {
                let x = self.0;
                assert(exists|k: u64| k < 64 && bit(x, k)) by {
                    if forall|k: u64| k < 64 ==> !bit(x, k) {
                        assert forall|k: u64| k < 64 implies bit(x, k) == bit(0u64, k) by {
                            assert((0u64 >> k) & 1u64 == 0u64) by (bit_vector);
                        }
                        lemma_bits_extensional(x, 0u64);
                    }
                }
                let k = choose|k: u64| k < 64 && bit(x, k);
                assert(self@.contains(k as int));
            } else {
                assert forall|k: u64| k < 64 implies !bit(0u64, k) by {
                    assert((0u64 >> k) & 1u64 == 0u64) by (bit_vector);
                }
                assert(self@ =~= Set::<int>::empty());
            }
        }
        self.0 == 0
    }
}

/// The empty bitboard.
impl Default for BitBoard {
    fn default() -> (r: BitBoard)
        ensures
            r.0 == 0,
    {
        BitBoard(0)
    }
}

pub proof fn lemma_empty_view()
    ensures
        BitBoard(0)@ == Set::<int>::empty(),
{
    assert forall|k: u64| k < 64 implies !bit(0u64, k) by {
        assert((0u64 >> k) & 1u64 == 0u64) by (bit_vector);
    }
    assert(BitBoard(0)@ =~= Set::<int>::empty());
}

impl From<u64> for BitBoard {
    fn from(v: u64) -> (r: BitBoard) {
        BitBoard(v)
    }
}

impl vstd::std_specs::convert::FromSpecImpl<u64> for BitBoard {
    open spec fn obeys_from_spec() -> bool {
        true
    }

    open spec fn from_spec(v: u64) -> BitBoard {
        BitBoard(v)
    }
}

impl core::ops::BitAnd for BitBoard {
    type Output = BitBoard;

    fn bitand(self, rhs: BitBoard) -> (r: BitBoard) {
        BitBoard(self.0 & rhs.0)
    }
}

impl vstd::std_specs::ops::BitAndSpecImpl for BitBoard {
    open spec fn obeys_bitand_spec() -> bool {
        true
    }

    open spec fn bitand_req(self, rhs: BitBoard) -> bool {
        true
    }

    open spec fn bitand_spec(self, rhs: BitBoard) -> BitBoard {
        BitBoard(self.0 & rhs.0)
    }
}

impl core::ops::BitOr for BitBoard {
    type Output = BitBoard;

    fn bitor(self, rhs: BitBoard) -> (r: BitBoard) {
        BitBoard(self.0 | rhs.0)
    }
}

impl vstd::std_specs::ops::BitOrSpecImpl for BitBoard {
    open spec fn obeys_bitor_spec() -> bool {
        true
    }

    open spec fn bitor_req(self, rhs: BitBoard) -> bool {
        true
    }

    open spec fn bitor_spec(self, rhs: BitBoard) -> BitBoard {
        BitBoard(self.0 | rhs.0)
    }
}

impl core::ops::Not for BitBoard {
    type Output = BitBoard;

    fn not(self) -> (r: BitBoard) {
        BitBoard(!self.0)
    }
}

impl vstd::std_specs::ops::NotSpecImpl for BitBoard {
    open spec fn obeys_not_spec() -> bool {
        true
    }

    open spec fn not_req(self) -> bool {
        true
    }

    open spec fn not_spec(self) -> BitBoard {
        BitBoard(!self.0)
    }
}

/// The squares of `a & b`, `a | b` and `!a`.
pub proof fn lemma_ops_view(a: BitBoard, b: BitBoard)
    ensures
        BitBoard(a.0 & b.0)@ == a@.intersect(b@),
        BitBoard(a.0 | b.0)@ == a@.union(b@),
        BitBoard(!a.0)@ == Set::new(|i: int| 0 <= i < 64 && !a@.contains(i)),
{
    assert forall|i: int| 0 <= i < 64 implies BitBoard(a.0 & b.0)@.contains(i) == (a@.contains(i)
        && b@.contains(i)) && BitBoard(a.0 | b.0)@.contains(i) == (a@.contains(i) || b@.contains(i))
        && BitBoard(!a.0)@.contains(i) == !a@.contains(i) by {
        lemma_bit_ops(a.0, b.0, i as u64);
    }
    assert(BitBoard(a.0 & b.0)@ =~= a@.intersect(b@));
    assert(BitBoard(a.0 | b.0)@ =~= a@.union(b@));
    assert(BitBoard(!a.0)@ =~= Set::new(|i: int| 0 <= i < 64 && !a@.contains(i)));
}

/// Laws of `flip`: turning the board around twice gives back the same
/// bitboard, and a square is in the turned board exactly when its mirror
/// square is in the original.
pub proof fn lemma_flip_involutive(b: BitBoard, c: BitBoard, d: BitBoard)
    requires
        c@ == mirror(b@),
        d@ == mirror(c@),
    ensures
        d == b,
{
    assert(d@ =~= b@);
    lemma_view_injective(d, b);
}

/// Adding a square then reading it finds it, removing it then reading it
/// does not, and adding a square that was not there then removing it gives
/// back the same set.
pub proof fn lemma_set_unset(s: Set<int>, i: int)
    ensures
        s.insert(i).contains(i),
        !s.remove(i).contains(i),
        !s.contains(i) ==> s.insert(i).remove(i) == s,
        s.contains(i) ==> s.remove(i).insert(i) == s,
{
    if !s.contains(i) {
        assert(s.insert(i).remove(i) =~= s);
    } else {
        assert(s.remove(i).insert(i) =~= s);
    }
}

} // verus!
