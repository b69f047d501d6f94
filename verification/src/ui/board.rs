//! The squares of the chess board in the client interface: one button per
//! square, named by its column and row, coloured by the parity of the two.
use vstd::prelude::*;
use crate::text::{decimal, push_decimal, push_str, string_from_chars};
use super::element::Element;
use super::manager::UiManager;

verus! {

/// The identifier of the button of the square in column `column` and row
/// `row`: "board square " followed by the column, "x" and the row.
pub open spec fn board_square_name(column: nat, row: nat) -> Seq<char> {
    "board square "@ + decimal(column) + "x"@ + decimal(row)
}

/// The square registered in place `k`: the board is walked column by
/// column, each from row 0 to row 7. It takes the first of the two colours
/// when its column and row add up to an even number.
pub open spec fn board_square_at(k: int) -> BoardSquare {
    BoardSquare { column: (k / 8) as u8, row: (k % 8) as u8, first_colour: ((k / 8) + (k % 8)) % 2 == 0 }
}

/// The identifiers of the first `n` squares, in the order they are
/// registered.
pub open spec fn board_square_names(n: nat) -> Seq<Seq<char>> {
    Seq::new(n, |k: int| board_square_name((k / 8) as nat, (k % 8) as nat))
}

/// A square of the board: its column and row, from 0 to 7, and whether it
/// takes the first of the two colours.
#[derive(Clone, Copy, Debug, PartialEq, Eq, Structural)]
pub struct BoardSquare {
    pub column: u8,
    pub row: u8,
    pub first_colour: bool,
}

/// The identifier of the button of the square in column `column` and row
/// `row`.
pub fn board_square_id(column: u8, row: u8) -> (r: String)
    ensures
        r@ == board_square_name(column as nat, row as nat),
{
    let mut cs: Vec<char> = Vec::new();
    push_str(&mut cs, "board square ");
    push_decimal(column as u64, &mut cs);
    push_str(&mut cs, "x");
    push_decimal(row as u64, &mut cs);
    assert(cs@ =~= board_square_name(column as nat, row as nat));
    string_from_chars(cs)
}

/// Two squares of the board with the same identifier are the same square.
pub proof fn lemma_board_square_names_differ(c1: nat, r1: nat, c2: nat, r2: nat)
    requires
        c1 < 8,
        r1 < 8,
        c2 < 8,
        r2 < 8,
        board_square_name(c1, r1) == board_square_name(c2, r2),
    ensures
        c1 == c2,
        r1 == r2,
{
    reveal_strlit("board square ");
    reveal_strlit("x");
    let n1 = board_square_name(c1, r1);
    let n2 = board_square_name(c2, r2);
    assert(n1[13] == n2[13]);
    assert(n1[15] == n2[15]);
}

/// The names of the groups `groups`, in order.
pub open spec fn group_names(groups: Seq<(Seq<char>, Seq<Seq<char>>)>) -> Seq<Seq<char>> {
    groups.map_values(|p: (Seq<char>, Seq<Seq<char>>)| p.0)
}

/// The groups `groups` once the elements `added` joined the group "board":
/// at the end of its members where it exists, as a new last group where it
/// does not.
pub open spec fn board_group(
    groups: Seq<(Seq<char>, Seq<Seq<char>>)>,
    added: Seq<Seq<char>>,
) -> Seq<(Seq<char>, Seq<Seq<char>>)> {
    if group_names(groups).contains("board"@) {
        let k = group_names(groups).index_of("board"@);
        groups.update(k, ("board"@, groups[k].1 + added))
    } else {
        groups.push(("board"@, added))
    }
}

/// One more element joining "board" after `added`, as `UiManager::add_element`
/// describes it, gives the groups of `added` and that element.
proof fn lemma_board_group_push(
    start: Seq<(Seq<char>, Seq<Seq<char>>)>,
    added: Seq<Seq<char>>,
    cur: Seq<(Seq<char>, Seq<Seq<char>>)>,
    n: Seq<char>,
    next: Seq<(Seq<char>, Seq<Seq<char>>)>,
)
    requires
        added.len() == 0 ==> cur == start,
        added.len() > 0 ==> cur == board_group(start, added),
        group_names(cur).no_duplicates(),
        group_names(cur).contains("board"@) ==> {
            let k = group_names(cur).index_of("board"@);
            next == cur.update(k, ("board"@, cur[k].1.push(n)))
        },
        !group_names(cur).contains("board"@) ==> next == cur.push(("board"@, seq![n])),
    ensures
        next == board_group(start, added.push(n)),
{
    let b = "board"@;
    let sn = group_names(start);
    let cn = group_names(cur);
    if sn.contains(b) {
        let k = sn.index_of(b);
        assert(sn[k] == b);
        if added.len() > 0 {
            assert(cn =~= sn);
        }
        assert(cn[k] == b);
        assert(cn.contains(b));
        assert(cn.index_of(b) == k) by {
            let j = cn.index_of(b);
            assert(cn[j] == b);
            assert(cn.no_duplicates());
        }
        assert(next =~= board_group(start, added.push(n)));
    } else if added.len() > 0 {
        assert(cn =~= sn.push(b));
        assert(cn[sn.len() as int] == b);
        assert(cn.contains(b));
        let j = cn.index_of(b);
        assert(cn[j] == b);
        if j < sn.len() {
            assert(sn[j] == b);
        }
        assert(j == sn.len());
        assert(next =~= board_group(start, added.push(n)));
    } else {
        assert(cn =~= sn);
        assert(added.push(n) =~= seq![n]);
        assert(next =~= board_group(start, added.push(n)));
    }
}

/// Registers a button for each square of the board in the group "board" of
/// `ui`, column by column, and gives back the squares in that order.
pub fn register_board_squares(ui: &mut UiManager) -> (r: Vec<BoardSquare>)
    requires
        old(ui).wf(),
        forall|k: int| 0 <= k < 64 ==> !old(ui).ids().contains(#[trigger] board_square_names(64)[k]),
    ensures
        final(ui).wf(),
        final(ui).events() == old(ui).events(),
        final(ui).elems().len() == old(ui).elems().len() + 64,
        forall|m: int| 0 <= m < old(ui).elems().len() ==> #[trigger] final(ui).elems()[m] == old(ui).elems()[m],
        forall|k: int|
            0 <= k < 64 ==> {
                let e = #[trigger] final(ui).elems()[old(ui).elems().len() + k];
                &&& e is Button
                &&& e.spec_id() == board_square_names(64)[k]
                &&& e.spec_state()@ == ((false, false), (false, false), (false, false))
            },
        final(ui).groups() == board_group(old(ui).groups(), board_square_names(64)),
        r@ == Seq::new(64, |k: int| board_square_at(k)),
{
    let ghost start = *ui;
    let ghost names = board_square_names(64);
    let mut r: Vec<BoardSquare> = Vec::new();
    let mut k: u8 = 0;
    while k < 64
        invariant
            k <= 64,
            names == board_square_names(64),
            start.wf(),
            forall|m: int| 0 <= m < 64 ==> !start.ids().contains(#[trigger] names[m]),
            ui.wf(),
            ui.events() == start.events(),
            ui.elems().len() == start.elems().len() + k,
            ui.ids() == start.ids() + names.take(k as int),
            forall|m: int| 0 <= m < start.elems().len() ==> #[trigger] ui.elems()[m] == start.elems()[m],
            forall|m: int|
                0 <= m < k ==> {
                    let e = #[trigger] ui.elems()[start.elems().len() + m];
                    &&& e is Button
                    &&& e.spec_id() == names[m]
                    &&& e.spec_state()@ == ((false, false), (false, false), (false, false))
                },
            k == 0 ==> ui.groups() == start.groups(),
            k > 0 ==> ui.groups() == board_group(start.groups(), names.take(k as int)),
            r@ == Seq::new(k as nat, |m: int| board_square_at(m)),
        decreases 64 - k,
    {
        let column: u8 = k / 8;
        let row: u8 = k % 8;
        let id = board_square_id(column, row);
        assert(id@ == names[k as int]);
        assert(!ui.ids().contains(id@)) by {
            if ui.ids().contains(id@) {
                let m = choose|m: int| 0 <= m < ui.ids().len() && ui.ids()[m] == id@;
                if m < start.ids().len() {
                    assert(start.ids()[m] == id@);
                    assert(start.ids().contains(names[k as int]));
                } else {
                    let m2 = m - start.ids().len();
                    assert(names.take(k as int)[m2] == id@);
                    assert(names[m2] == names[k as int]);
                    lemma_board_square_names_differ(
                        (m2 / 8) as nat,
                        (m2 % 8) as nat,
                        (k / 8) as nat,
                        (k % 8) as nat,
                    );
                }
            }
        }
        let ghost before = *ui;
        let ghost added = names.take(k as int);
        let elem = Element::new_button(id);
        let _ = ui.add_element(elem, "board".to_string());
        proof {
            assert(before.names() =~= group_names(before.groups()));
            lemma_board_group_push(start.groups(), added, before.groups(), names[k as int], ui.groups());
            assert(added.push(names[k as int]) =~= names.take(k + 1));
            assert(ui.ids() =~= start.ids() + names.take(k + 1)) by {
                assert(ui.ids() =~= before.ids().push(names[k as int]));
            }
            assert(ui.elems()[start.elems().len() + k] == elem);
        }
        r.push(BoardSquare { column, row, first_colour: (column + row) % 2 == 0 });
        proof {
            assert(r@ =~= Seq::new((k + 1) as nat, |m: int| board_square_at(m)));
        }
        k = k + 1;
    }
    assert(names.take(64) =~= names);
    r
}

} // verus!
