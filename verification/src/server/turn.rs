use vstd::prelude::*;
use crate::chess::board::{Board, Occupant};
use crate::chess::color::opposite;
use crate::chess::position::square_index;
use crate::chess::{ChessMove, Color};
use crate::id::Id;
use crate::message::{ClientMessage, ServerMessage};
use super::game::{info_update, GameView};

verus! {

/// A board seen as the side to move and what stands on each square.
pub open spec fn board_view(b: Board) -> (Color, Seq<Occupant>) {
    (b.active(), b.squares())
}

/// The board `v` accepts `mv`: it is the turn of the move's color, and the
/// moved piece of that color stands on the origin square.
pub open spec fn move_accepted(v: (Color, Seq<Occupant>), mv: ChessMove) -> bool {
    mv.color == v.0 && v.1[square_index(mv.origin)] == Some((mv.color, mv.piece))
}

/// The board `v` once `mv` is played: the origin square emptied, the piece
/// on the target square, the other side to move.
pub open spec fn after_move(v: (Color, Seq<Occupant>), mv: ChessMove) -> (Color, Seq<Occupant>) {
    (
        opposite(v.0),
        v.1.update(square_index(mv.origin), None).update(square_index(mv.target), Some((mv.color, mv.piece))),
    )
}

/// The board `v` after the message `m` of a player: an accepted move is
/// played, anything else leaves it as it is.
pub open spec fn turn_step(v: (Color, Seq<Occupant>), m: ClientMessage) -> (Color, Seq<Occupant>) {
    match m {
        ClientMessage::MakeMove(mv) => if move_accepted(v, mv) {
            after_move(v, mv)
        } else {
            v
        },
        _ => v,
    }
}

/// The board `v` after the messages `msgs`, in order.
pub open spec fn play_moves(v: (Color, Seq<Occupant>), msgs: Seq<ClientMessage>) -> (Color, Seq<Occupant>)
    decreases msgs.len(),
{
    if msgs.len() == 0 {
        v
    } else {
        turn_step(play_moves(v, msgs.drop_last()), msgs.last())
    }
}

/// What a seated player is answered.
pub enum Answer {
    /// The state of the game.
    Info,
    /// The game asked about is not this one.
    WrongGame(Id),
    /// The move cannot be played.
    Rejected(ChessMove),
    /// The player goes back to the lobby.
    Left,
}

/// The answers to the message `m` of a player of the game `id`, on the
/// board `v`.
pub open spec fn answer_to(id: Id, v: (Color, Seq<Occupant>), m: ClientMessage) -> Seq<Answer> {
    match m {
        ClientMessage::GameInfoRequest(g) => if g == id {
            seq![Answer::Info]
        } else {
            seq![Answer::WrongGame(g)]
        },
        ClientMessage::LeaveGameRequest => seq![Answer::Left],
        ClientMessage::MakeMove(mv) => if move_accepted(v, mv) {
            Seq::empty()
        } else {
            seq![Answer::Rejected(mv)]
        },
        _ => Seq::empty(),
    }
}

/// The answers to the messages `msgs`, read in order from the board `v`.
pub open spec fn answers(id: Id, v: (Color, Seq<Occupant>), msgs: Seq<ClientMessage>) -> Seq<Answer>
    decreases msgs.len(),
{
    if msgs.len() == 0 {
        Seq::empty()
    } else {
        answers(id, v, msgs.drop_last()) + answer_to(id, play_moves(v, msgs.drop_last()), msgs.last())
    }
}

/// How many messages of `msgs` a seated player's turn reads: all of them,
/// or up to the first request to leave, that one included.
pub open spec fn turn_length(msgs: Seq<ClientMessage>) -> nat
    decreases msgs.len(),
{
    if msgs.len() == 0 {
        0
    } else if msgs[0] is LeaveGameRequest {
        1
    } else {
        1 + turn_length(msgs.drop_first())
    }
}

/// The messages a seated player's turn reads.
pub open spec fn turn(msgs: Seq<ClientMessage>) -> Seq<ClientMessage> {
    msgs.take(turn_length(msgs) as int)
}

/// The message `m` answers as `a` says, for the game seen as `view`.
pub open spec fn fits(view: GameView, a: Answer, m: ServerMessage) -> bool {
    match a {
        Answer::Info => info_update(m, view),
        Answer::WrongGame(g) => m matches ServerMessage::GameInfoUpdateFail(i, t) && i == g && t@
            == "Wrong game !"@,
        Answer::Rejected(mv) => m == ServerMessage::MoveResponse { chess_move: mv, valid: false },
        Answer::Left => m is GameLeave,
    }
}

/// The messages for a client went from `before` to `after` by the answers
/// `expected` being added, if the client is connected; they stay as they
/// were otherwise.
pub open spec fn answered(
    view: GameView,
    before: Seq<ServerMessage>,
    after: Seq<ServerMessage>,
    expected: Seq<Answer>,
    connected: bool,
) -> bool {
    if connected {
        &&& after.len() == before.len() + expected.len()
        &&& after.take(before.len() as int) == before
        &&& forall|k: int| 0 <= k < expected.len() ==> fits(view, #[trigger] expected[k], after[before.len() + k])
    } else {
        after == before
    }
}

/// Some move of `expected` was rejected.
pub open spec fn has_rejection(expected: Seq<Answer>) -> bool {
    exists|k: int| 0 <= k < expected.len() && #[trigger] expected[k] is Rejected
}

/// Reading `msgs` one more message on, `m`, extends the board and the
/// answers by that message alone.
pub proof fn lemma_turn_push(id: Id, v: (Color, Seq<Occupant>), msgs: Seq<ClientMessage>, m: ClientMessage)
    ensures
        play_moves(v, msgs.push(m)) == turn_step(play_moves(v, msgs), m),
        answers(id, v, msgs.push(m)) == answers(id, v, msgs) + answer_to(id, play_moves(v, msgs), m),
{
    assert(msgs.push(m).drop_last() =~= msgs);
}

/// A turn that has read `k` messages, none of them a request to leave,
/// reads `k` more than the turn of the rest.
pub proof fn lemma_turn_length_skip(msgs: Seq<ClientMessage>, k: int)
    requires
        0 <= k <= msgs.len(),
        forall|j: int| 0 <= j < k ==> !(#[trigger] msgs[j] is LeaveGameRequest),
    ensures
        turn_length(msgs) == k + turn_length(msgs.skip(k)),
    decreases k,
{
    if k > 0 {
        assert forall|j: int| 0 <= j < k - 1 implies !(#[trigger] msgs.drop_first()[j] is LeaveGameRequest) by {
            assert(msgs.drop_first()[j] == msgs[j + 1]);
        }
        lemma_turn_length_skip(msgs.drop_first(), k - 1);
        assert(msgs.drop_first().skip(k - 1) =~= msgs.skip(k));
        assert(!(msgs[0] is LeaveGameRequest));
    } else {
        assert(msgs.skip(0) =~= msgs);
    }
}

/// The answers to the message `m` of a player of the game `id` while the
/// game waits for players: moves are not answered.
pub open spec fn waiting_answer_to(id: Id, m: ClientMessage) -> Seq<Answer> {
    match m {
        ClientMessage::GameInfoRequest(g) => if g == id {
            seq![Answer::Info]
        } else {
            seq![Answer::WrongGame(g)]
        },
        ClientMessage::LeaveGameRequest => seq![Answer::Left],
        _ => Seq::empty(),
    }
}

/// The answers to the messages `msgs` while the game `id` waits.
pub open spec fn waiting_answers(id: Id, msgs: Seq<ClientMessage>) -> Seq<Answer>
    decreases msgs.len(),
{
    if msgs.len() == 0 {
        Seq::empty()
    } else {
        waiting_answers(id, msgs.drop_last()) + waiting_answer_to(id, msgs.last())
    }
}

pub proof fn lemma_waiting_push(id: Id, msgs: Seq<ClientMessage>, m: ClientMessage)
    ensures
        waiting_answers(id, msgs.push(m)) == waiting_answers(id, msgs) + waiting_answer_to(id, m),
{
    assert(msgs.push(m).drop_last() =~= msgs);
}

} // verus!
