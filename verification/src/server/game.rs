use vstd::prelude::*;
use crate::chess::{Board, Color};
use crate::error::GameError;
use crate::game::State;
use crate::id::Id;
use crate::message::{ClientMessage, ServerMessage};
use crate::random::pick;
use crate::text::{push_str, string_from_chars};
use super::player::Player;
use super::turn::{
    answer_to, answered, answers, board_view, fits, has_rejection, lemma_turn_length_skip, lemma_turn_push,
    lemma_waiting_push, play_moves, turn, turn_length, waiting_answer_to, waiting_answers, Answer,
};
use crate::chess::board::{fen_board, Occupant, START_FEN};

verus! {

/// A game hosted by the server: two seats, a stage, and the players that
/// left the game and wait to be taken back to the lobby.
pub struct Game {
    id: Id,
    players: Vec<Option<Player>>,
    state: State,
    lobby: Vec<Player>,
}

/// What a client can be told of a seated player: its id, name and color.
pub type PlayerView = (Id, Seq<char>, Option<Color>);

/// What a client can be told of a game: its id, its stage, and who sits
/// in each seat.
pub type GameView = (Id, State, Option<PlayerView>, Option<PlayerView>);

/// What a client is told of the player in a seat.
pub open spec fn seat_view(s: Option<Player>) -> Option<PlayerView> {
    match s {
        Some(p) => Some((p.spec_id(), p.spec_name(), p.spec_color())),
        None => None,
    }
}

/// The view of the game `g`.
pub open spec fn game_view(g: Game) -> GameView {
    (g.spec_id(), g.spec_state(), seat_view(g.seat(0)), seat_view(g.seat(1)))
}

/// What the image of a seated player shows.
pub open spec fn public_view(s: Option<crate::game::Player>) -> Option<PlayerView> {
    match s {
        Some(p) => Some((p.spec_id(), p.spec_name(), p.spec_color())),
        None => None,
    }
}

/// The view a client gets from the image `s`.
pub open spec fn image_view(s: crate::game::Game) -> GameView {
    (s.spec_id(), s.spec_state(), public_view(s.spec_players()[0]), public_view(s.spec_players()[1]))
}

/// `m` tells a client about the game seen as `view`.
pub open spec fn info_update(m: ServerMessage, view: GameView) -> bool {
    m matches ServerMessage::GameInfoUpdate(i, s) && i == view.0 && image_view(s) == view
}

/// The id of the player in a seat.
pub open spec fn seat_id(s: Option<Player>) -> Option<Id> {
    match s {
        Some(p) => Some(p.spec_id()),
        None => None,
    }
}

/// `q` is `player` after its turn in the game seen as `view`, played from the board
/// `v`: the same player, its turn read and answered.
pub open spec fn served(view: GameView, player: Player, q: Player, v: (Color, Seq<Occupant>)) -> bool {
    &&& same_player(q, player)
    &&& q.inbox() == player.inbox().skip(turn(player.inbox()).len() as int)
    &&& answered(view, player.outbox(), q.outbox(), answers(view.0, v, turn(player.inbox())), player.spec_connected())
}

/// The seat is taken by a player whose connection is open.
pub open spec fn seated_and_connected(s: Option<Player>) -> bool {
    match s {
        Some(p) => p.spec_connected(),
        None => false,
    }
}

/// `q` is `player` after its turn in the game seen as `view` while it waits for
/// players: the same player, its turn read and answered.
pub open spec fn waited(view: GameView, player: Player, q: Player) -> bool {
    &&& same_player(q, player)
    &&& q.inbox() == player.inbox().skip(turn(player.inbox()).len() as int)
    &&& answered(view, player.outbox(), q.outbox(), waiting_answers(view.0, turn(player.inbox())), true)
}

/// After its turn while the game seen as `view` waits, the player `p` has gone back
/// to the lobby, its seat emptied, if its turn ended with a request to
/// leave; it keeps its seat otherwise.
pub open spec fn waiting_outcome(
    view: GameView,
    p: Player,
    seat: Option<Player>,
    before: Seq<Player>,
    after: Seq<Player>,
) -> bool {
    if turn_leaves(p.inbox()) {
        &&& seat is None
        &&& after.len() == before.len() + 1
        &&& after.take(before.len() as int) == before
        &&& waited(view, p, after.last())
    } else {
        &&& seat is Some
        &&& waited(view, p, seat.unwrap())
        &&& after == before
    }
}

/// While the game seen as `view` waits with `s0` and `s1` in its seats,
/// the players waiting to be taken back to the lobby go from `lb` to `la`:
/// the player of seat 0, then that of seat 1, is added when its connection
/// is open and its turn ends with a request to leave.
pub open spec fn waiting_leavers(
    view: GameView,
    s0: Option<Player>,
    s1: Option<Player>,
    lb: Seq<Player>,
    la: Seq<Player>,
) -> bool {
    let n0 = lb.len() as int;
    let l0: int = if seated_and_connected(s0) && turn_leaves(s0.unwrap().inbox()) {
        1
    } else {
        0
    };
    let l1: int = if seated_and_connected(s1) && turn_leaves(s1.unwrap().inbox()) {
        1
    } else {
        0
    };
    &&& la.len() == n0 + l0 + l1
    &&& la.take(n0) == lb
    &&& l0 == 1 ==> waited(view, s0.unwrap(), la[n0])
    &&& l1 == 1 ==> waited(view, s1.unwrap(), la[n0 + l0])
}

/// What becomes of a seat while the game seen as `view` waits: a player whose
/// connection is open keeps it after its turn unless it asked to leave;
/// the seat is empty otherwise.
pub open spec fn waiting_seat_after(view: GameView, before: Option<Player>, after: Option<Player>) -> bool {
    if seated_and_connected(before) && !turn_leaves(before.unwrap().inbox()) {
        &&& after is Some
        &&& waited(view, before.unwrap(), after.unwrap())
    } else {
        after is None
    }
}

/// `q` is `p` after its turn while playing from the board `v`, in the game
/// seen as `view`: its turn read and answered, then, when `retold`, the
/// game sent to it once more.
pub open spec fn played_turn(view: GameView, p: Player, q: Player, v: (Color, Seq<Occupant>), retold: bool) -> bool {
    if retold {
        exists|m: Player| #[trigger] served(view, p, m, v) && told_seat(Some(q), Some(m), view)
    } else {
        served(view, p, q, v)
    }
}

/// What a round of play makes of a game seen as `view`, where `p0` and
/// `p1` sit in seats 0 and 1 on `board`, with the players `lb` waiting to
/// be taken back to the lobby: `p0` plays its turn, then `p1`, the board
/// recording the accepted moves; a player whose turn ends with a request
/// to leave goes to the lobby, its seat emptied; the others keep their
/// seats, and are sent the game once more when a move was rejected.
pub open spec fn play_outcome(
    view: GameView,
    p0: Player,
    p1: Player,
    board: Board,
    lb: Seq<Player>,
    after: Game,
) -> bool {
    let v0 = board_view(board);
    let v1 = play_moves(v0, turn(p0.inbox()));
    let rejected = has_rejection(answers(view.0, v0, turn(p0.inbox()))) || has_rejection(
        answers(view.0, v1, turn(p1.inbox())),
    );
    let n0 = lb.len() as int;
    let l0: int = if turn_leaves(p0.inbox()) {
        1
    } else {
        0
    };
    let l1: int = if turn_leaves(p1.inbox()) {
        1
    } else {
        0
    };
    &&& after.spec_state() matches State::Playing { board: b } && board_view(b) == play_moves(v1, turn(p1.inbox()))
    &&& after.leavers().len() == n0 + l0 + l1
    &&& after.leavers().take(n0) == lb
    &&& turn_leaves(p0.inbox()) ==> after.seat(0) is None && served(view, p0, after.leavers()[n0], v0)
    &&& !turn_leaves(p0.inbox()) ==> (after.seat(0) matches Some(q) && played_turn(view, p0, q, v0, rejected))
    &&& turn_leaves(p1.inbox()) ==> after.seat(1) is None && served(view, p1, after.leavers()[n0 + l0], v1)
    &&& !turn_leaves(p1.inbox()) ==> (after.seat(1) matches Some(q) && played_turn(view, p1, q, v1, rejected))
}

/// The first empty seat of `g`, or 2 when both are taken.
pub open spec fn first_empty(g: Game) -> int {
    if g.seat(0) is None {
        0
    } else if g.seat(1) is None {
        1
    } else {
        2
    }
}

/// `after` is the player `before` once given a color and, if its
/// connection is open, sent the game seen as `view`.
pub open spec fn colored_seat(view: GameView, before: Option<Player>, after: Option<Player>) -> bool {
    match (after, before) {
        (None, None) => true,
        (Some(q), Some(p)) => {
            &&& q.spec_id() == p.spec_id()
            &&& q.spec_name() == p.spec_name()
            &&& q.spec_connected() == p.spec_connected()
            &&& q.spec_color() is Some
            &&& q.inbox() == p.inbox()
            &&& if p.spec_connected() {
                &&& q.outbox().len() == p.outbox().len() + 1
                &&& q.outbox().take(p.outbox().len() as int) == p.outbox()
                &&& info_update(q.outbox().last(), view)
            } else {
                q.outbox() == p.outbox()
            }
        },
        _ => false,
    }
}

/// The messages `after` are `before` followed by one telling of each game
/// view of `views`, in order.
pub open spec fn told_all(before: Seq<ServerMessage>, after: Seq<ServerMessage>, views: Seq<GameView>) -> bool {
    &&& after.len() == before.len() + views.len()
    &&& after.take(before.len() as int) == before
    &&& forall|k: int| 0 <= k < views.len() ==> info_update(#[trigger] after[before.len() + k], views[k])
}

/// What the start of a game makes of the player in a seat: the same
/// player, given a color if `colored`, and, if its connection is open, sent
/// the game as it was (`image`) when colored, then told of the stage
/// `PlayerDisconnected` when a seat was empty (`gap`), then of the new
/// game `last`.
pub open spec fn started_seat(
    image: GameView,
    before: Option<Player>,
    after: Option<Player>,
    colored: bool,
    gap: bool,
    last: GameView,
) -> bool {
    let pd: GameView = (last.0, State::PlayerDisconnected, last.2, last.3);
    let views = (if colored {
        seq![image]
    } else {
        Seq::empty()
    }) + (if gap {
        seq![pd]
    } else {
        Seq::empty()
    }) + seq![last];
    match (after, before) {
        (None, None) => true,
        (Some(q), Some(p)) => {
            &&& q.spec_id() == p.spec_id()
            &&& q.spec_name() == p.spec_name()
            &&& q.spec_connected() == p.spec_connected()
            &&& q.inbox() == p.inbox()
            &&& if colored {
                q.spec_color() is Some
            } else {
                q.spec_color() == p.spec_color()
            }
            &&& if p.spec_connected() {
                told_all(p.outbox(), q.outbox(), views)
            } else {
                q.outbox() == p.outbox()
            }
        },
        _ => false,
    }
}

/// A player sits in the seat and its connection is closed.
pub open spec fn gone(s: Option<Player>) -> bool {
    s matches Some(p) && !p.spec_connected()
}

/// The seat once the game's seated players whose connection closed left:
/// a connected player keeps it, told that the stage became
/// `PlayerDisconnected` and then of the game `last`; it is emptied
/// otherwise.
pub open spec fn dropped_seat(before: Option<Player>, after: Option<Player>, last: GameView) -> bool {
    if seated_and_connected(before) {
        &&& after matches Some(q) && same_player(q, before.unwrap()) && q.inbox() == before.unwrap().inbox()
            && told_all(before.unwrap().outbox(), q.outbox(), seq![(last.0, State::PlayerDisconnected, last.2, last.3), last])
    } else {
        after is None
    }
}

/// What a round of play makes of a game seen as `view` where `p0` sits
/// alone, in seat 0, on `board`, with the players `lb` waiting to be taken
/// back to the lobby: `p0` plays its turn and goes to the lobby if it ends
/// with a request to leave; otherwise it is told that the stage became
/// `PlayerDisconnected`, then sent the game once more if a move of its was
/// rejected.
pub open spec fn lone_outcome(view: GameView, p0: Player, board: Board, lb: Seq<Player>, after: Game) -> bool {
    let v0 = board_view(board);
    let rejected = has_rejection(answers(view.0, v0, turn(p0.inbox())));
    &&& after.spec_state() is PlayerDisconnected
    &&& after.seat(1) is None
    &&& if turn_leaves(p0.inbox()) {
        &&& after.seat(0) is None
        &&& after.leavers().len() == lb.len() + 1
        &&& after.leavers().take(lb.len() as int) == lb
        &&& served(view, p0, after.leavers()[lb.len() as int], v0)
    } else {
        &&& after.leavers() == lb
        &&& after.seat(0) matches Some(q) && exists|m: Player, t: Player|
            #[trigger] served(view, p0, m, v0) && #[trigger] told_seat(Some(t), Some(m), game_view(after)) && if rejected {
                told_seat(Some(q), Some(t), view)
            } else {
                q == t
            }
    }
}

/// What one update makes of the game `before`: the seated players whose
/// connection closed leave; then, if none did, the stage advances as
/// `stage_step` says; otherwise the game waits again.
pub open spec fn game_step(before: Game, after: Game) -> bool {
    &&& only_leaving(after, before)
    &&& all_seated_connected(before) ==> stage_step(before, after)
    &&& !all_seated_connected(before) ==> {
        &&& after.spec_state() is Waiting
        &&& after.leavers() == before.leavers()
        &&& forall|i: int| 0 <= i < 2 ==> dropped_seat(#[trigger] before.seat(i), after.seat(i), game_view(after))
    }
}

/// What advancing the stage of `before` makes of it, its seated players
/// being connected: after a disconnection the game waits again, its
/// players told; while waiting, each player's messages are read and
/// answered, and a player asking to leave goes to the lobby; at the start,
/// the players get their colors and play begins on a new board; while
/// playing, each player plays its turn (`play_outcome`), and when a seat
/// is empty the stage becomes `PlayerDisconnected` (`lone_outcome`); an
/// ended game stays as it is.
pub open spec fn stage_step(before: Game, after: Game) -> bool {
    let view = game_view(before);
    match before.spec_state() {
        State::PlayerDisconnected => {
            &&& after.spec_state() is Waiting
            &&& after.leavers() == before.leavers()
            &&& forall|i: int| 0 <= i < 2 ==> told_seat(#[trigger] after.seat(i), before.seat(i), game_view(after))
        },
        State::Waiting => {
            &&& after.spec_state() is Waiting
            &&& forall|i: int| 0 <= i < 2 ==> waiting_seat_after(view, before.seat(i), #[trigger] after.seat(i))
            &&& waiting_leavers(view, before.seat(0), before.seat(1), before.leavers(), after.leavers())
        },
        State::GameStart => {
            &&& after.leavers() == before.leavers()
            &&& after.spec_state() matches State::Playing { board: b } && fen_board(START_FEN@) == Some(board_view(b))
            &&& distinct_colors(after)
            &&& forall|j: int|
                0 <= j < 2 ==> started_seat(
                    view,
                    #[trigger] before.seat(j),
                    after.seat(j),
                    j < first_empty(before),
                    first_empty(before) < 2,
                    game_view(after),
                )
        },
        State::Playing { board } => if before.seat(0) is None {
            &&& after.spec_state() is PlayerDisconnected
            &&& after.seat(0) is None
            &&& after.leavers() == before.leavers()
            &&& told_seat(after.seat(1), before.seat(1), game_view(after))
        } else if before.seat(1) is None {
            lone_outcome(view, before.seat(0).unwrap(), board, before.leavers(), after)
        } else {
            play_outcome(view, before.seat(0).unwrap(), before.seat(1).unwrap(), board, before.leavers(), after)
        },
        State::GameEnd { .. } => {
            &&& after.spec_state() == before.spec_state()
            &&& after.seat(0) == before.seat(0)
            &&& after.seat(1) == before.seat(1)
            &&& after.leavers() == before.leavers()
        },
    }
}

/// `s` is what a client is told about the game `g`: its id, its stage and
/// who sits in each seat, with their names and colors.
pub open spec fn shows(s: crate::game::Game, g: Game) -> bool {
    image_view(s) == game_view(g)
}

/// `after` is `before` once `np` took its first free seat: the other seat
/// keeps its player (who is only told of the start when both seats are
/// now taken); `np` keeps its messages and is told the game it joined; the
/// game starts when both seats are taken.
pub open spec fn joined(before: Game, after: Game, np: Player) -> bool {
    let k: int = if before.seat(0) is None {
        0
    } else {
        1
    };
    &&& seat_id(after.seat(1 - k)) == seat_id(before.seat(1 - k))
    &&& !after.spec_full() ==> after.seat(1 - k) == before.seat(1 - k)
    &&& after.seat(k) matches Some(p) && same_player(p, np) && p.inbox() == np.inbox()
        && p.outbox().take(np.outbox().len() as int) == np.outbox()
        && (p.outbox()[np.outbox().len() as int] matches ServerMessage::GameJoin(s) && shows(s, before))
        && p.outbox().len() == np.outbox().len() + (if after.spec_full() {
        2int
    } else {
        1int
    }) && (after.spec_full() ==> info_update(p.outbox().last(), game_view(after)))
    &&& after.spec_full() ==> after.spec_state() is GameStart && told_seat(
        after.seat(1 - k),
        before.seat(1 - k),
        game_view(after),
    )
    &&& !after.spec_full() ==> after.spec_state() == before.spec_state()
}

/// The player in a seat was told of a change of stage of the game, which
/// it now sees as `view`, if its connection is open; it is the same player
/// otherwise.
pub open spec fn told_seat(after: Option<Player>, before: Option<Player>, view: GameView) -> bool {
    match (after, before) {
        (None, None) => true,
        (Some(p), Some(q)) => {
            &&& same_player(p, q)
            &&& p.inbox() == q.inbox()
            &&& p.outbox().len() == q.outbox().len() + (if q.spec_connected() {
                1int
            } else {
                0int
            })
            &&& p.outbox().subrange(0, q.outbox().len() as int) == q.outbox()
            &&& q.spec_connected() ==> info_update(p.outbox()[q.outbox().len() as int], view)
        },
        _ => false,
    }
}

/// What asking `before` to seat `np` makes of it: `np` takes a seat when
/// one is free and its connection is open; the game is unchanged otherwise.
pub open spec fn connect_outcome(before: Game, after: Game, np: Player) -> bool {
    &&& after.spec_id() == before.spec_id()
    &&& after.leavers() == before.leavers()
    &&& if !before.spec_full() && np.spec_connected() {
        joined(before, after, np)
    } else {
        &&& after.seat(0) == before.seat(0)
        &&& after.seat(1) == before.seat(1)
        &&& after.spec_state() == before.spec_state()
    }
}

/// Every player seated in `g` has an open connection.
pub open spec fn all_seated_connected(g: Game) -> bool {
    forall|i: int| 0 <= i < 2 ==> (#[trigger] g.seat(i) matches Some(p) ==> p.spec_connected())
}

/// The turn of the messages `msgs` ends with a request to leave.
pub open spec fn turn_leaves(msgs: Seq<ClientMessage>) -> bool {
    turn(msgs).len() > 0 && turn(msgs).last() is LeaveGameRequest
}

/// The same player, whatever its messages.
pub open spec fn same_player(p: Player, q: Player) -> bool {
    &&& p.spec_id() == q.spec_id()
    &&& p.spec_name() == q.spec_name()
    &&& p.spec_color() == q.spec_color()
    &&& p.spec_connected() == q.spec_connected()
}

proof fn lemma_answered_step(
    view: GameView,
    start: Seq<ServerMessage>,
    mid: Seq<ServerMessage>,
    end: Seq<ServerMessage>,
    done: Seq<Answer>,
    more: Seq<Answer>,
    connected: bool,
)
    requires
        answered(view, start, mid, done, connected),
        connected ==> (more.len() == 0 && end == mid) || (more.len() == 1 && end == mid.push(end.last())
            && fits(view, more[0], end.last())),
        !connected ==> end == mid,
    ensures
        answered(view, start, end, done + more, connected),
{
    if connected {
        if more.len() == 1 {
            assert(end.take(start.len() as int) =~= mid.take(start.len() as int));
            assert forall|k: int| 0 <= k < (done + more).len() implies fits(view, #[trigger] (done + more)[k], end[start.len() + k]) by {
                if k < done.len() {
                    assert(end[start.len() + k] == mid[start.len() + k]);
                }
            }
        } else {
            assert(done + more =~= done);
        }
    }
}

proof fn lemma_rejection_concat(a: Seq<Answer>, b: Seq<Answer>)
    ensures
        has_rejection(a + b) == (has_rejection(a) || has_rejection(b)),
{
    if has_rejection(a) {
        let k = choose|k: int| 0 <= k < a.len() && #[trigger] a[k] is Rejected;
        assert((a + b)[k] is Rejected);
    }
    if has_rejection(b) {
        let k = choose|k: int| 0 <= k < b.len() && #[trigger] b[k] is Rejected;
        assert((a + b)[a.len() + k] is Rejected);
    }
    if has_rejection(a + b) {
        let k = choose|k: int| 0 <= k < (a + b).len() && #[trigger] (a + b)[k] is Rejected;
        if k < a.len() {
            assert(a[k] is Rejected);
        } else {
            assert(b[k - a.len()] is Rejected);
        }
    }
}

/// A copy of a stage.
pub fn clone_state(s: &State) -> (r: State)
    ensures
        r == *s,
{
    match s {
        State::PlayerDisconnected => State::PlayerDisconnected,
        State::Waiting => State::Waiting,
        State::GameStart => State::GameStart,
        State::Playing { board } => State::Playing { board: *board },
        State::GameEnd { winner } => State::GameEnd { winner: *winner },
    }
}

/// A board on which moves can be played.
pub open spec fn stage_ok(s: State) -> bool {
    s matches State::Playing { board } ==> board.wf()
}

impl Game {
    pub closed spec fn spec_id(&self) -> Id {
        self.id
    }

    pub closed spec fn spec_state(&self) -> State {
        self.state
    }

    /// The player in seat `i` (0 or 1), if any.
    pub closed spec fn seat(&self, i: int) -> Option<Player> {
        self.players@[i]
    }

    /// The players that left the game for the lobby, in the order they left.
    pub closed spec fn leavers(&self) -> Seq<Player> {
        self.lobby@
    }

    /// Two seats, and a playable board while playing.
    pub closed spec fn wf(&self) -> bool {
        &&& self.players@.len() == 2
        &&& stage_ok(self.state)
    }

    pub open spec fn spec_active(&self) -> bool {
        self.seat(0) is Some || self.seat(1) is Some
    }

    pub open spec fn spec_full(&self) -> bool {
        self.seat(0) is Some && self.seat(1) is Some
    }

    /// An empty game waiting for players.
    pub fn new(id: Id) -> (r: Game)
        ensures
            r.wf(),
            r.spec_id() == id,
            r.seat(0) is None,
            r.seat(1) is None,
            r.spec_state() is Waiting,
            r.leavers() == Seq::<Player>::empty(),
    {
        let mut players: Vec<Option<Player>> = Vec::new();
        players.push(None);
        players.push(None);
        Game { id, players, state: State::Waiting, lobby: Vec::new() }
    }

    pub fn id(&self) -> (r: Id)
        ensures
            r == self.spec_id(),
    {
        self.id
    }

    /// Whether a seat is taken.
    pub fn is_active(&self) -> (r: bool)
        requires
            self.wf(),
        ensures
            r == self.spec_active(),
    {
        self.players[0].is_some() || self.players[1].is_some()
    }

    /// Whether both seats are taken.
    pub fn is_full(&self) -> (r: bool)
        requires
            self.wf(),
        ensures
            r == self.spec_full(),
    {
        !(self.players[0].is_none() || self.players[1].is_none())
    }

    /// The stage of the game.
    pub fn state(&self) -> (r: &State)
        ensures
            *r == self.spec_state(),
    {
        &self.state
    }

    /// The id of the player in seat `i`.
    pub fn seat_player_id(&self, i: usize) -> (r: Option<Id>)
        requires
            self.wf(),
            i < 2,
        ensures
            r == seat_id(self.seat(i as int)),
    {
        match &self.players[i] {
            Some(p) => Some(p.id()),
            None => None,
        }
    }

    /// Mutable access to the player in seat `i`, if there is one, for the
    /// network side to deliver and collect its messages.
    pub fn seat_player_mut(&mut self, i: usize) -> (r: Option<&mut Player>)
        requires
            old(self).wf(),
            i < 2,
        ensures
            old(self).seat(i as int) is None ==> r is None && final(self).seat(i as int) is None,
            old(self).seat(i as int) matches Some(p) ==> (r matches Some(q) && *q == p && final(self).seat(
                i as int,
            ) == Some(*final(q))),
            final(self).seat(1 - i) == old(self).seat(1 - i),
            final(self).spec_id() == old(self).spec_id(),
            final(self).spec_state() == old(self).spec_state(),
            final(self).leavers() == old(self).leavers(),
            final(self).wf(),
    {
        match &mut self.players[i] {
            Some(p) => Some(p),
            None => None,
        }
    }

    /// Takes the players that left for the lobby.
    pub fn take_leavers(&mut self) -> (r: Vec<Player>)
        ensures
            r@ == old(self).leavers(),
            final(self).leavers() == Seq::<Player>::empty(),
            final(self).spec_id() == old(self).spec_id(),
            final(self).spec_state() == old(self).spec_state(),
            final(self).seat(0) == old(self).seat(0),
            final(self).seat(1) == old(self).seat(1),
            old(self).wf() ==> final(self).wf(),
    {
        let mut out: Vec<Player> = Vec::new();
        out.append(&mut self.lobby);
        out
    }

    /// What a client is told about this game.
    pub fn snapshot(&self) -> (r: crate::game::Game)
        requires
            self.wf(),
        ensures
            shows(r, *self),
    {
        let a = match &self.players[0] {
            Some(p) => Some(p.to_public()),
            None => None,
        };
        let b = match &self.players[1] {
            Some(p) => Some(p.to_public()),
            None => None,
        };
        crate::game::Game::new(self.id, [a, b], clone_state(&self.state))
    }

    /// Takes the player out of seat `i`, leaving it empty.
    fn take_seat(&mut self, i: usize) -> (r: Option<Player>)
        requires
            old(self).wf(),
            i < 2,
        ensures
            r == old(self).seat(i as int),
            final(self).seat(i as int) is None,
            final(self).seat(1 - i) == old(self).seat(1 - i),
            final(self).wf(),
            final(self).spec_id() == old(self).spec_id(),
            final(self).spec_state() == old(self).spec_state(),
            final(self).leavers() == old(self).leavers(),
    {
        let mut slot: Option<Player> = None;
        self.players.set_and_swap(i, &mut slot);
        slot
    }

    /// Puts `p` in seat `i`.
    fn put_seat(&mut self, i: usize, p: Option<Player>)
        requires
            old(self).wf(),
            i < 2,
        ensures
            final(self).seat(i as int) == p,
            final(self).seat(1 - i) == old(self).seat(1 - i),
            final(self).wf(),
            final(self).spec_id() == old(self).spec_id(),
            final(self).spec_state() == old(self).spec_state(),
            final(self).leavers() == old(self).leavers(),
    {
        self.players.set(i, p);
    }

    /// Seats a new player in the first free seat and tells it the game it
    /// joined. `SessionIsFull` when both seats are taken,
    /// `FailledToAcceptPlayer` when the player cannot be told (its
    /// connection is closed); the player is then dropped. The game starts
    /// when the second seat is taken.
    pub fn connect_player(&mut self, new_player: Player) -> (r: Result<(), GameError>)
        requires
            old(self).wf(),
        ensures
            final(self).wf(),
            old(self).spec_full() ==> r == Err::<(), GameError>(GameError::SessionIsFull),
            !old(self).spec_full() && !new_player.spec_connected() ==> r == Err::<(), GameError>(
                GameError::FailledToAcceptPlayer,
            ),
            !old(self).spec_full() && new_player.spec_connected() ==> r is Ok,
            connect_outcome(*old(self), *final(self), new_player),
    {
        if self.is_full() {
            return Err(GameError::SessionIsFull);
        }
        let mut new_player = new_player;
        let ghost np = new_player;
        let image = self.snapshot();
        match new_player.send(ServerMessage::GameJoin(image)) {
            Ok(()) => {},
            Err(_) => {
                return Err(GameError::FailledToAcceptPlayer);
            },
        }
        let ghost seated_p = new_player;
        assert(seated_p.outbox().take(np.outbox().len() as int) =~= np.outbox());
        if self.players[0].is_none() {
            self.put_seat(0, Some(new_player));
        } else {
            self.put_seat(1, Some(new_player));
        }
        let ghost k: int = if old(self).seat(0) is None {
            0
        } else {
            1
        };
        assert(self.seat(k) == Some(seated_p));
        assert(seated_p.outbox()[np.outbox().len() as int] is GameJoin);
        if self.is_full() {
            let ghost before = *self;
            self.set_state(State::GameStart);
            proof {
                let p = self.seat(k).unwrap();
                let idx = np.outbox().len() as int;
                assert(p.outbox().subrange(0, seated_p.outbox().len() as int) == seated_p.outbox());
                assert(p.outbox()[idx] == p.outbox().subrange(0, seated_p.outbox().len() as int)[idx]);
                assert(p.outbox().take(np.outbox().len() as int) =~= seated_p.outbox().take(np.outbox().len() as int));
            }
        }
        Ok(())
    }

    /// Sets the stage and tells every seated player.
    fn set_state(&mut self, new_state: State)
        requires
            old(self).wf(),
            stage_ok(new_state),
        ensures
            final(self).wf(),
            final(self).spec_state() == new_state,
            final(self).spec_id() == old(self).spec_id(),
            final(self).leavers() == old(self).leavers(),
            forall|i: int| 0 <= i < 2 ==> #[trigger] seat_id(final(self).seat(i)) == seat_id(old(self).seat(i)),
            forall|i: int|
                0 <= i < 2 ==> told_seat(#[trigger] final(self).seat(i), old(self).seat(i), game_view(*final(self))),
    {
        self.state = new_state;
        let image = self.snapshot();
        let mut i: usize = 0;
        while i < 2
            invariant
                self.wf(),
                self.spec_state() == new_state,
                self.spec_id() == old(self).spec_id(),
                self.leavers() == old(self).leavers(),
                i <= 2,
                forall|j: int|
                    i <= j < 2 ==> #[trigger] self.seat(j) == old(self).seat(j),
                forall|j: int|
                    0 <= j < i ==> told_seat(#[trigger] self.seat(j), old(self).seat(j), image_view(image)),
                image_view(image) == (old(self).spec_id(), new_state, seat_view(old(self).seat(0)), seat_view(old(self).seat(1))),
            decreases 2 - i,
        {
            let seat = self.take_seat(i);
            match seat {
                Some(mut p) => {
                    let ghost q = p;
                    let _ = p.send(ServerMessage::GameInfoUpdate(self.id, image.duplicate()));
                    assert(p.outbox().subrange(0, q.outbox().len() as int) =~= q.outbox());
                    self.put_seat(i, Some(p));
                },
                None => {
                    self.put_seat(i, None);
                },
            }
            i = i + 1;
        }
    }
}


/// The two seated players, if there are two, have different colors.
pub open spec fn distinct_colors(g: Game) -> bool {
    match (g.seat(0), g.seat(1)) {
        (Some(p), Some(q)) => p.spec_color() != q.spec_color(),
        _ => true,
    }
}

/// Every player now seated was seated there before.
pub open spec fn no_newcomer(after: Game, before: Game) -> bool {
    forall|i: int|
        0 <= i < 2 ==> (#[trigger] seat_id(after.seat(i)) is Some ==> seat_id(after.seat(i))
            == seat_id(before.seat(i)))
}

/// The players who left for the lobby since `before` were seated in it.
pub open spec fn leavers_grow(after: Game, before: Game) -> bool {
    &&& before.leavers().len() <= after.leavers().len()
    &&& after.leavers().subrange(0, before.leavers().len() as int) == before.leavers()
    &&& forall|j: int|
        before.leavers().len() <= j < after.leavers().len() ==> (Some(
            #[trigger] after.leavers()[j].spec_id(),
        ) == seat_id(before.seat(0)) || Some(after.leavers()[j].spec_id()) == seat_id(
            before.seat(1),
        ))
}

/// `after` comes from `before` by players leaving their seats for the lobby
/// or for good, and by messages being read and sent.
pub open spec fn only_leaving(after: Game, before: Game) -> bool {
    &&& after.spec_id() == before.spec_id()
    &&& no_newcomer(after, before)
    &&& leavers_grow(after, before)
}

/// What a stage becomes after one update of its game (players that are
/// still connected at the start of the update).
pub open spec fn next_stage(before: State, after: State) -> bool {
    match before {
        State::PlayerDisconnected => after is Waiting,
        State::Waiting => after is Waiting,
        State::GameStart => after is Playing,
        State::Playing { .. } => after is Playing || after is PlayerDisconnected,
        State::GameEnd { .. } => after == before,
    }
}

pub proof fn lemma_only_leaving_refl(g: Game)
    ensures
        only_leaving(g, g),
{
    assert(g.leavers().subrange(0, g.leavers().len() as int) =~= g.leavers());
}

pub proof fn lemma_only_leaving_trans(a: Game, b: Game, c: Game)
    requires
        only_leaving(a, b),
        only_leaving(b, c),
    ensures
        only_leaving(a, c),
{
    assert(a.leavers().subrange(0, c.leavers().len() as int) =~= a.leavers().subrange(
        0,
        b.leavers().len() as int,
    ).subrange(0, c.leavers().len() as int));
    assert forall|j: int|
        c.leavers().len() <= j < a.leavers().len() implies (Some(
        #[trigger] a.leavers()[j].spec_id(),
    ) == seat_id(c.seat(0)) || Some(a.leavers()[j].spec_id()) == seat_id(c.seat(1))) by {
        if j < b.leavers().len() {
            assert(a.leavers()[j] == a.leavers().subrange(0, b.leavers().len() as int)[j]);
            assert(b.leavers()[j] == a.leavers()[j]);
        } else {
            assert(seat_id(b.seat(0)) is Some ==> seat_id(b.seat(0)) == seat_id(c.seat(0)));
            assert(seat_id(b.seat(1)) is Some ==> seat_id(b.seat(1)) == seat_id(c.seat(1)));
        }
    }
    assert forall|i: int|
        0 <= i < 2 && #[trigger] seat_id(a.seat(i)) is Some implies seat_id(a.seat(i)) == seat_id(
        c.seat(i),
    ) by {
        assert(seat_id(b.seat(i)) is Some);
    }
}

/// Same seated players and same leavers.
pub proof fn lemma_same_seats(a: Game, b: Game)
    requires
        a.spec_id() == b.spec_id(),
        forall|i: int| 0 <= i < 2 ==> #[trigger] seat_id(a.seat(i)) == seat_id(b.seat(i)),
        a.leavers() == b.leavers(),
    ensures
        only_leaving(a, b),
{
    assert(a.leavers().subrange(0, b.leavers().len() as int) =~= b.leavers());
}

impl Game {
    /// Sends the game's players whose connection closed out of their seats;
    /// if any, the stage becomes `PlayerDisconnected`.
    fn clean_players(&mut self)
        requires
            old(self).wf(),
        ensures
            final(self).wf(),
            final(self).spec_id() == old(self).spec_id(),
            final(self).leavers() == old(self).leavers(),
            forall|i: int|
                0 <= i < 2 ==> seat_id(#[trigger] final(self).seat(i)) == match old(self).seat(i) {
                    Some(p) => if p.spec_connected() {
                        Some(p.spec_id())
                    } else {
                        None
                    },
                    None => None,
                },
            (exists|i: int|
                0 <= i < 2 && (#[trigger] old(self).seat(i) matches Some(p) && !p.spec_connected()))
                ==> final(self).spec_state() is PlayerDisconnected,
            !(exists|i: int|
                0 <= i < 2 && (#[trigger] old(self).seat(i) matches Some(p) && !p.spec_connected()))
                ==> final(self).spec_state() == old(self).spec_state() && final(self).seat(0)
                == old(self).seat(0) && final(self).seat(1) == old(self).seat(1),
            (exists|i: int|
                0 <= i < 2 && (#[trigger] old(self).seat(i) matches Some(p) && !p.spec_connected()))
                ==> forall|i: int|
                0 <= i < 2 ==> seated_and_connected(#[trigger] old(self).seat(i)) ==> told_seat(
                    final(self).seat(i),
                    old(self).seat(i),
                    game_view(*final(self)),
                ),
    {
        let mut index: usize = 0;
        let ghost mut any = false;
        while index < 2
            invariant
                self.wf(),
                index <= 2,
                self.spec_id() == old(self).spec_id(),
                self.leavers() == old(self).leavers(),
                forall|j: int|
                    index <= j < 2 ==> (#[trigger] seat_id(self.seat(j)) == seat_id(old(self).seat(j))
                        && match (self.seat(j), old(self).seat(j)) {
                        (Some(p), Some(q)) => p.spec_connected() == q.spec_connected(),
                        _ => true,
                    }),
                forall|j: int|
                    0 <= j < index ==> seat_id(#[trigger] self.seat(j)) == match old(self).seat(j) {
                        Some(p) => if p.spec_connected() {
                            Some(p.spec_id())
                        } else {
                            None
                        },
                        None => None,
                    },
                any == (exists|j: int|
                    0 <= j < index && (#[trigger] old(self).seat(j) matches Some(p)
                        && !p.spec_connected())),
                any ==> self.spec_state() is PlayerDisconnected,
                !any ==> self.spec_state() == old(self).spec_state() && self.seat(0) == old(self).seat(0)
                    && self.seat(1) == old(self).seat(1),
                seated_and_connected(old(self).seat(0)) ==> (if index > 1 && gone(old(self).seat(1)) {
                    told_seat(self.seat(0), old(self).seat(0), game_view(*self))
                } else {
                    self.seat(0) == old(self).seat(0)
                }),
                seated_and_connected(old(self).seat(1)) ==> (if index > 0 && gone(old(self).seat(0)) {
                    told_seat(self.seat(1), old(self).seat(1), game_view(*self))
                } else {
                    self.seat(1) == old(self).seat(1)
                }),
            decreases 2 - index,
        {
            let disconnected = match &self.players[index] {
                Some(p) => !p.is_connected(),
                None => false,
            };
            let ghost before = *self;
            if disconnected {
                let _ = self.take_seat(index);
                self.set_state(State::PlayerDisconnected);
                proof {
                    any = true;
                    assert(old(self).seat(index as int) matches Some(p) && !p.spec_connected());
                }
            }
            proof {
                if !disconnected {
                    assert(self.seat(0) == before.seat(0));
                    assert(self.seat(1) == before.seat(1));
                }
                assert forall|j: int| index + 1 <= j < 2 implies (#[trigger] seat_id(self.seat(j)) == seat_id(old(self).seat(j))
                        && match (self.seat(j), old(self).seat(j)) {
                        (Some(p), Some(q)) => p.spec_connected() == q.spec_connected(),
                        _ => true,
                    }) by {
                    assert(seat_id(before.seat(j)) == seat_id(old(self).seat(j)));
                }
            }
            index = index + 1;
        }
    }

    /// One update of the game: players whose connection closed leave their
    /// seats, then the stage advances and the players' messages are
    /// answered.
    pub fn update(&mut self)
        requires
            old(self).wf(),
        ensures
            final(self).wf(),
            game_step(*old(self), *final(self)),
    {
        let ghost before = *self;
        self.clean_players();
        let ghost mid = *self;
        proof {
            assert forall|i: int|
                0 <= i < 2 && #[trigger] seat_id(mid.seat(i)) is Some implies seat_id(mid.seat(i))
                == seat_id(before.seat(i)) by {}
            assert(mid.leavers().subrange(0, before.leavers().len() as int) =~= before.leavers());
            assert(only_leaving(mid, before));
        }
        self.update_state();
        proof {
            lemma_only_leaving_trans(*self, mid, before);
            if !all_seated_connected(before) {
                assert(exists|i: int| 0 <= i < 2 && (#[trigger] before.seat(i) matches Some(p) && !p.spec_connected()));
                assert forall|i: int| 0 <= i < 2 implies (#[trigger] mid.seat(i) matches Some(p) ==> p.spec_connected()) by {
                    if seated_and_connected(before.seat(i)) {
                        assert(told_seat(mid.seat(i), before.seat(i), game_view(mid)));
                    }
                }
                assert(all_seated_connected(mid));
                assert forall|i: int| 0 <= i < 2 implies dropped_seat(#[trigger] before.seat(i), self.seat(i), game_view(*self)) by {
                    assert(told_seat(self.seat(i), mid.seat(i), game_view(*self)));
                    lemma_dropped(before.seat(i), mid.seat(i), self.seat(i), game_view(mid), game_view(*self));
                }
            }
        }
    }

    /// Advances the stage of the game and answers its players.
    fn update_state(&mut self)
        requires
            old(self).wf(),
        ensures
            final(self).wf(),
            only_leaving(*final(self), *old(self)),
            next_stage(old(self).spec_state(), final(self).spec_state()),
            all_seated_connected(*old(self)) ==> stage_step(*old(self), *final(self)),
    {
        let image = self.snapshot();
        match &self.state {
            State::PlayerDisconnected => {
                self.set_state(State::Waiting);
                proof {
                    lemma_same_seats(*self, *old(self));
                }
            },
            State::Waiting => {
                self.serve_waiting_seat(0, &image);
                let ghost mid = *self;
                self.serve_waiting_seat(1, &image);
                proof {
                    lemma_only_leaving_trans(*self, mid, *old(self));
                    let n0 = old(self).leavers().len() as int;
                    let l0: int = if seated_and_connected(old(self).seat(0)) && turn_leaves(old(self).seat(0).unwrap().inbox()) {
                        1
                    } else {
                        0
                    };
                    assert(mid.leavers().len() == n0 + l0);
                    assert(mid.leavers().take(n0) == old(self).leavers());
                    assert(self.leavers().take(n0 + l0) == mid.leavers());
                    assert(self.leavers().take(n0) =~= mid.leavers().take(n0));
                    if l0 == 1 {
                        assert(self.leavers()[n0] == self.leavers().take(n0 + l0)[n0]);
                        assert(mid.leavers()[n0] == mid.leavers().last());
                    }
                    if seated_and_connected(old(self).seat(1)) && turn_leaves(old(self).seat(1).unwrap().inbox()) {
                        assert(self.leavers()[n0 + l0] == self.leavers().last());
                    }
                    assert(waiting_seat_after(game_view(*old(self)), old(self).seat(0), mid.seat(0)));
                    assert(waiting_seat_after(game_view(*old(self)), old(self).seat(0), self.seat(0)));
                    assert(waiting_seat_after(game_view(*old(self)), old(self).seat(1), self.seat(1)));
                }
            },
            State::GameStart => {
                self.start_game(&image);
                proof {
                    lemma_same_seats(*self, *old(self));
                }
            },
            State::Playing { board } => {
                let b = *board;
                self.play(b, &image);
            },
            State::GameEnd { .. } => {
                proof {
                    lemma_only_leaving_refl(*self);
                }
            },
        }
    }

    /// While waiting: answers the messages of the player in seat `i`; a
    /// player whose connection closed is dropped, a player who asks to
    /// leave goes back to the lobby.
    fn serve_waiting_seat(&mut self, i: usize, image: &crate::game::Game)
        requires
            old(self).wf(),
            i < 2,
            image.spec_id() == old(self).spec_id(),
        ensures
            final(self).wf(),
            final(self).spec_state() == old(self).spec_state(),
            final(self).seat(1 - i) == old(self).seat(1 - i),
            only_leaving(*final(self), *old(self)),
            !seated_and_connected(old(self).seat(i as int)) ==> final(self).seat(i as int) is None
                && final(self).leavers() == old(self).leavers(),
            seated_and_connected(old(self).seat(i as int)) ==> waiting_outcome(
                image_view(*image),
                old(self).seat(i as int).unwrap(),
                final(self).seat(i as int),
                old(self).leavers(),
                final(self).leavers(),
            ),
    {
        let cur = self.take_seat(i);
        let mut p = match cur {
            None => {
                self.put_seat(i, None);
                proof {
                    lemma_same_seats(*self, *old(self));
                }
                return;
            },
            Some(p) => p,
        };
        let ghost pid = p.spec_id();
        if !p.is_connected() {
            self.put_seat(i, None);
            proof {
                assert(self.leavers().subrange(0, old(self).leavers().len() as int) =~= old(self).leavers());
            }
            return;
        }
        let ghost player = p;
        let ghost id = self.id;
        let ghost inbox = p.inbox();
        let ghost mut k: int = 0;
        proof {
            assert(inbox.take(0) =~= Seq::<ClientMessage>::empty());
            assert(inbox.skip(0) =~= inbox);
            assert(p.outbox().take(p.outbox().len() as int) =~= p.outbox());
        }
        loop
            invariant
                self.wf(),
                self.spec_id() == old(self).spec_id(),
                self.spec_state() == old(self).spec_state(),
                self.seat(i as int) is None,
                self.seat(1 - i) == old(self).seat(1 - i),
                self.leavers() == old(self).leavers(),
                p.spec_id() == pid,
                seat_id(old(self).seat(i as int)) == Some(pid),
                i < 2,
                old(self).seat(i as int) == Some(player),
                player.spec_connected(),
                id == old(self).spec_id(),
                image.spec_id() == id,
                inbox == player.inbox(),
                0 <= k <= inbox.len(),
                forall|j: int| 0 <= j < k ==> !(#[trigger] inbox[j] is LeaveGameRequest),
                p.inbox() == inbox.skip(k),
                same_player(p, player),
                answered(image_view(*image), player.outbox(), p.outbox(), waiting_answers(id, inbox.take(k)), true),
            ensures
                turn(inbox) == inbox.take(k),
                !turn_leaves(inbox),
                p.inbox() == inbox.skip(k),
            decreases p.inbox().len(),
        {
            let ghost before = p;
            let ghost done = waiting_answers(id, inbox.take(k));
            let msg = match p.try_recv() {
                Ok(m) => m,
                Err(_) => {
                    proof {
                        lemma_turn_length_skip(inbox, k);
                        assert(inbox.skip(k).len() == 0);
                        assert(turn(inbox) =~= inbox.take(k));
                        if k > 0 {
                            assert(turn(inbox).last() == inbox[k - 1]);
                        }
                    }
                    break;
                },
            };
            proof {
                assert(msg == inbox[k]);
                assert(inbox.take(k + 1) =~= inbox.take(k).push(msg));
                lemma_waiting_push(id, inbox.take(k), msg);
                assert(p.inbox() =~= inbox.skip(k + 1));
            }
            match msg {
                ClientMessage::GameInfoRequest(game_id) => {
                    if game_id == self.id {
                        if p.send(ServerMessage::GameInfoUpdate(self.id, image.duplicate())).is_err() {
                            proof {
                                assert(self.leavers().subrange(0, old(self).leavers().len() as int) =~= old(self).leavers());
                            }
                            return;
                        }
                    } else {
                        let mut cs: Vec<char> = Vec::new();
                        push_str(&mut cs, "Wrong game !");
                        if p.send(ServerMessage::GameInfoUpdateFail(game_id, string_from_chars(cs))).is_err() {
                            proof {
                                assert(self.leavers().subrange(0, old(self).leavers().len() as int) =~= old(self).leavers());
                            }
                            return;
                        }
                    }
                },
                ClientMessage::LeaveGameRequest => {
                    let _ = p.send(ServerMessage::GameLeave);
                    proof {
                        lemma_answered_step(image_view(*image), player.outbox(), before.outbox(), p.outbox(), done,
                            waiting_answer_to(id, msg), true);
                        lemma_turn_length_skip(inbox, k);
                        assert(turn_length(inbox.skip(k)) == 1);
                        assert(turn(inbox) =~= inbox.take(k + 1));
                    }
                    self.lobby.push(p);
                    proof {
                        assert(self.leavers().subrange(0, old(self).leavers().len() as int) =~= old(self).leavers());
                        assert(self.leavers().take(old(self).leavers().len() as int) =~= old(self).leavers());
                        assert(self.leavers()[old(self).leavers().len() as int].spec_id() == pid);
                    }
                    return;
                },
                _ => {},
            }
            proof {
                lemma_answered_step(image_view(*image), player.outbox(), before.outbox(), p.outbox(), done,
                    waiting_answer_to(id, msg), true);
                k = k + 1;
            }
        }
        self.put_seat(i, Some(p));
        proof {
            assert(self.leavers().subrange(0, old(self).leavers().len() as int) =~= old(self).leavers());
        }
    }

    /// Starts the game: every seated player gets a color at random (two
    /// players get different colors) and is told, then play begins on a new
    /// board. An empty seat is reported as `PlayerDisconnected`, which the
    /// start of play then replaces.
    fn start_game(&mut self, image: &crate::game::Game)
        requires
            old(self).wf(),
            image.spec_id() == old(self).spec_id(),
        ensures
            final(self).wf(),
            final(self).spec_id() == old(self).spec_id(),
            final(self).leavers() == old(self).leavers(),
            forall|j: int| 0 <= j < 2 ==> #[trigger] seat_id(final(self).seat(j)) == seat_id(old(self).seat(j)),
            final(self).spec_state() matches State::Playing { board: b } && fen_board(START_FEN@) == Some(
                board_view(b),
            ),
            final(self).seat(0) matches Some(p) ==> p.spec_color() is Some,
            (final(self).seat(0) is Some && final(self).seat(1) is Some) ==> (final(self).seat(1) matches Some(q) && q.spec_color() is Some),
            distinct_colors(*final(self)),
            forall|j: int|
                0 <= j < 2 ==> started_seat(
                    image_view(*image),
                    #[trigger] old(self).seat(j),
                    final(self).seat(j),
                    j < first_empty(*old(self)),
                    first_empty(*old(self)) < 2,
                    game_view(*final(self)),
                ),
    {
        let ghost k = first_empty(*self);
        let mut all_colors: Vec<Color> = Vec::new();
        all_colors.push(Color::Black);
        all_colors.push(Color::White);
        let mut i: usize = 0;
        let mut stop = false;
        while i < 2 && !stop
            invariant
                self.wf(),
                i <= 2,
                self.spec_id() == old(self).spec_id(),
                self.leavers() == old(self).leavers(),
                self.spec_state() == old(self).spec_state(),
                image.spec_id() == old(self).spec_id(),
                k == first_empty(*old(self)),
                forall|j: int| 0 <= j < 2 ==> #[trigger] seat_id(self.seat(j)) == seat_id(old(self).seat(j)),
                forall|j: int| 0 <= j < i ==> (#[trigger] self.seat(j) matches Some(p) ==> p.spec_color() is Some),
                forall|j: int| 0 <= j < i ==> colored_seat(image_view(*image), #[trigger] old(self).seat(j), self.seat(j)),
                forall|j: int| i <= j < 2 ==> #[trigger] self.seat(j) == old(self).seat(j),
                !stop ==> i <= k,
                stop ==> i == k,
                stop ==> i < 2 && self.seat(i as int) is None,
                !stop && i == 0 ==> all_colors@ == seq![Color::Black, Color::White],
                !stop && i == 1 ==> (self.seat(0) matches Some(p) && p.spec_color() is Some && all_colors@ == seq![crate::chess::color::opposite(p.spec_color().unwrap())]),
                stop && i == 1 ==> (self.seat(0) matches Some(p) && p.spec_color() is Some),
                !stop && i == 2 ==> distinct_colors(*self),
            decreases 2 - i, (if stop { 0int } else { 1int }),
        {
            let ghost before = *self;
            let seat = self.take_seat(i);
            match seat {
                None => {
                    self.put_seat(i, None);
                    stop = true;
                },
                Some(mut p) => {
                    let ghost q = p;
                    let color = pick(all_colors.as_slice());
                    let k2 = position_of(&all_colors, color);
                    let ghost before_colors = all_colors@;
                    all_colors.remove(k2);
                    proof {
                        if i == 0 {
                            assert(all_colors@ =~= seq![crate::chess::color::opposite(color)]);
                        } else {
                            assert(color == before_colors[0]);
                        }
                    }
                    p.set_color(color);
                    let _ = p.send(ServerMessage::GameInfoUpdate(self.id, image.duplicate()));
                    self.put_seat(i, Some(p));
                    proof {
                        assert(p.outbox().take(q.outbox().len() as int) =~= q.outbox());
                        assert(colored_seat(image_view(*image), old(self).seat(i as int), self.seat(i as int)));
                    }
                    assert(seat_id(self.seat(i as int)) == seat_id(before.seat(i as int)));
                    i = i + 1;
                },
            }
        }
        proof {
            assert(stop ==> i == k);
            assert(!stop ==> i == 2 && k == 2);
        }
        let ghost colored = *self;
        let ghost pd: GameView = (self.id, State::PlayerDisconnected, seat_view(self.seat(0)), seat_view(self.seat(1)));
        if stop {
            self.set_state(State::PlayerDisconnected);
        }
        let ghost told = *self;
        let ghost before = *self;
        self.set_state(State::Playing { board: Board::default() });
        proof {
            assert(forall|j: int| 0 <= j < 2 ==> #[trigger] seat_id(self.seat(j)) == seat_id(before.seat(j)));
            assert forall|j: int| 0 <= j < 2 implies started_seat(
                image_view(*image),
                #[trigger] old(self).seat(j),
                self.seat(j),
                j < k,
                k < 2,
                game_view(*self),
            ) by {
                if stop {
                    assert(game_view(told) == pd);
                }
                lemma_started(
                    image_view(*image),
                    old(self).seat(j),
                    colored.seat(j),
                    told.seat(j),
                    self.seat(j),
                    j < k,
                    stop,
                    pd,
                    game_view(*self),
                );
            }
        }
    }

    /// While playing: answers the messages of `p`, who sat in a seat of
    /// this game. `None` when `p` left for the lobby.
    fn serve_player(
        &mut self,
        player: Player,
        board: &mut Board,
        image: &crate::game::Game,
        broad_update: &mut bool,
    ) -> (r: Option<Player>)
        requires
            old(self).wf(),
            old(board).wf(),
            image.spec_id() == old(self).spec_id(),
        ensures
            final(self).wf(),
            final(board).wf(),
            final(self).spec_id() == old(self).spec_id(),
            final(self).spec_state() == old(self).spec_state(),
            final(self).seat(0) == old(self).seat(0),
            final(self).seat(1) == old(self).seat(1),
            board_view(*final(board)) == play_moves(board_view(*old(board)), turn(player.inbox())),
            r is None <==> (turn(player.inbox()).len() > 0 && turn(player.inbox()).last() is LeaveGameRequest),
            r matches Some(q) ==> served(image_view(*image), player, q, board_view(*old(board))),
            r is Some ==> final(self).leavers() == old(self).leavers(),
            r is None ==> final(self).leavers().len() == old(self).leavers().len() + 1
                && final(self).leavers().subrange(0, old(self).leavers().len() as int) == old(self).leavers()
                && served(image_view(*image), player, final(self).leavers().last(), board_view(*old(board))),
            *final(broad_update) == (*old(broad_update) || (player.spec_connected() && has_rejection(
                answers(old(self).spec_id(), board_view(*old(board)), turn(player.inbox())),
            ))),
    {
        let ghost pid = player.spec_id();
        let ghost id = self.id;
        let ghost v0 = board_view(*board);
        let ghost inbox = player.inbox();
        let ghost mut k: int = 0;
        let mut p = player;
        proof {
            assert(inbox.take(0) =~= Seq::<ClientMessage>::empty());
            assert(inbox.skip(0) =~= inbox);
            assert(p.outbox().take(p.outbox().len() as int) =~= p.outbox());
        }
        loop
            invariant
                self.wf(),
                board.wf(),
                *self == *old(self),
                id == old(self).spec_id(),
                image.spec_id() == id,
                v0 == board_view(*old(board)),
                inbox == player.inbox(),
                0 <= k <= inbox.len(),
                forall|j: int| 0 <= j < k ==> !(#[trigger] inbox[j] is LeaveGameRequest),
                p.inbox() == inbox.skip(k),
                same_player(p, player),
                board_view(*board) == play_moves(v0, inbox.take(k)),
                answered(image_view(*image), player.outbox(), p.outbox(), answers(id, v0, inbox.take(k)), player.spec_connected()),
                *broad_update == (*old(broad_update) || (player.spec_connected() && has_rejection(
                    answers(id, v0, inbox.take(k)),
                ))),
            ensures
                turn(inbox) == inbox.take(k),
                !(turn(inbox).len() > 0 && turn(inbox).last() is LeaveGameRequest),
                p.inbox() == inbox.skip(k),
            decreases p.inbox().len(),
        {
            let ghost before = p;
            let ghost v = board_view(*board);
            let ghost done = answers(id, v0, inbox.take(k));
            let msg = match p.try_recv() {
                Ok(m) => m,
                Err(_) => {
                    proof {
                        lemma_turn_length_skip(inbox, k);
                        assert(inbox.skip(k).len() == 0);
                        assert(turn(inbox) =~= inbox.take(k));
                        if k > 0 {
                            assert(turn(inbox).last() == inbox[k - 1]);
                        }
                    }
                    break;
                },
            };
            proof {
                assert(msg == inbox[k]);
                assert(inbox.take(k + 1) =~= inbox.take(k).push(msg));
                lemma_turn_push(id, v0, inbox.take(k), msg);
                assert(p.inbox() =~= inbox.skip(k + 1));
            }
            match msg {
                ClientMessage::GameInfoRequest(game_id) => {
                    if game_id != self.id {
                        let mut cs: Vec<char> = Vec::new();
                        push_str(&mut cs, "Wrong game !");
                        let _ = p.send(ServerMessage::GameInfoUpdateFail(game_id, string_from_chars(cs)));
                    } else {
                        let _ = p.send(ServerMessage::GameInfoUpdate(self.id, image.duplicate()));
                    }
                },
                ClientMessage::LeaveGameRequest => {
                    let _ = p.send(ServerMessage::GameLeave);
                    proof {
                        lemma_answered_step(image_view(*image), player.outbox(), before.outbox(), p.outbox(), done,
                            answer_to(id, v, msg), player.spec_connected());
                        lemma_turn_length_skip(inbox, k);
                        assert(turn_length(inbox.skip(k)) == 1);
                        assert(turn(inbox) =~= inbox.take(k + 1));
                        assert(!has_rejection(answer_to(id, v, msg)));
                        lemma_rejection_concat(done, answer_to(id, v, msg));
                    }
                    self.lobby.push(p);
                    assert(self.leavers() == old(self).leavers().push(p));
                    assert(self.leavers().subrange(0, old(self).leavers().len() as int) =~= old(self).leavers());
                    return None;
                },
                ClientMessage::MakeMove(chess_move) => {
                    if board.make_move(&chess_move).is_err() {
                        if p.send(ServerMessage::MoveResponse { chess_move, valid: false }).is_ok() {
                            *broad_update = true;
                        }
                    }
                },
                _ => {},
            }
            proof {
                lemma_answered_step(image_view(*image), player.outbox(), before.outbox(), p.outbox(), done,
                    answer_to(id, v, msg), player.spec_connected());
                lemma_rejection_concat(done, answer_to(id, v, msg));
                k = k + 1;
            }
        }
        Some(p)
    }

    /// While playing: plays the messages of both players on `board`. A
    /// player asking to leave goes back to the lobby; a move that cannot be
    /// played is answered with `MoveResponse { valid: false }`, after which
    /// the game is sent to both players. An empty seat makes the stage
    /// `PlayerDisconnected`.
    fn play(&mut self, board: Board, image: &crate::game::Game)
        requires
            old(self).wf(),
            board.wf(),
            image.spec_id() == old(self).spec_id(),
        ensures
            final(self).wf(),
            only_leaving(*final(self), *old(self)),
            final(self).spec_state() is Playing || final(self).spec_state() is PlayerDisconnected,
            old(self).seat(0) is None || old(self).seat(1) is None ==> final(self).spec_state() is PlayerDisconnected,
            final(self).spec_state() matches State::Playing { board: b } ==> (old(self).seat(0) matches Some(p0)
                && old(self).seat(1) matches Some(p1) && board_view(b) == play_moves(
                play_moves(board_view(board), turn(p0.inbox())),
                turn(p1.inbox()),
            )),
            seated_and_connected(old(self).seat(0)) && seated_and_connected(old(self).seat(1))
                ==> final(self).spec_state() is Playing,
            seated_and_connected(old(self).seat(0)) && seated_and_connected(old(self).seat(1)) ==> play_outcome(
                image_view(*image),
                old(self).seat(0).unwrap(),
                old(self).seat(1).unwrap(),
                board,
                old(self).leavers(),
                *final(self),
            ),
            old(self).seat(0) is None ==> final(self).spec_state() is PlayerDisconnected && final(self).seat(0) is None
                && final(self).leavers() == old(self).leavers() && told_seat(
                final(self).seat(1),
                old(self).seat(1),
                game_view(*final(self)),
            ),
            seated_and_connected(old(self).seat(0)) && old(self).seat(1) is None ==> lone_outcome(
                image_view(*image),
                old(self).seat(0).unwrap(),
                board,
                old(self).leavers(),
                *final(self),
            ),
    {
        let ghost v = board_view(board);
        let ghost c0 = seated_and_connected(self.seat(0));
        let ghost s0 = self.seat(0);
        let ghost s1 = self.seat(1);
        let ghost view = image_view(*image);
        let ghost both = seated_and_connected(s0) && seated_and_connected(s1);
        let ghost lb = self.leavers();
        let ghost n0 = lb.len() as int;
        let ghost p0 = s0.unwrap();
        let ghost p1 = s1.unwrap();
        let ghost v1 = play_moves(v, turn(p0.inbox()));
        let ghost l0: int = if turn_leaves(p0.inbox()) {
            1
        } else {
            0
        };
        let ghost rej0 = has_rejection(answers(view.0, v, turn(p0.inbox())));
        let ghost rej1 = has_rejection(answers(view.0, v1, turn(p1.inbox())));
        let mut board = board;
        let mut broad_update = false;
        let mut missing = false;
        let mut i: usize = 0;
        proof {
            lemma_only_leaving_refl(*self);
        }
        while i < 2
            invariant_except_break
                i == 0 ==> board_view(board) == v,
                i == 1 ==> (s0 matches Some(p0) && board_view(board) == play_moves(v, turn(p0.inbox()))),
                i == 2 ==> (s0 matches Some(p0) && s1 matches Some(p1) && board_view(board) == play_moves(
                    play_moves(v, turn(p0.inbox())),
                    turn(p1.inbox()),
                )),
                !missing,
            invariant
                self.wf(),
                board.wf(),
                i <= 2,
                image.spec_id() == old(self).spec_id(),
                view == image_view(*image),
                self.spec_state() == old(self).spec_state(),
                only_leaving(*self, *old(self)),
                s0 == old(self).seat(0),
                s1 == old(self).seat(1),
                lb == old(self).leavers(),
                n0 == lb.len(),
                both == (seated_and_connected(s0) && seated_and_connected(s1)),
                p0 == s0.unwrap(),
                p1 == s1.unwrap(),
                v1 == play_moves(v, turn(p0.inbox())),
                l0 == (if turn_leaves(p0.inbox()) {
                    1int
                } else {
                    0int
                }),
                rej0 == has_rejection(answers(view.0, v, turn(p0.inbox()))),
                rej1 == has_rejection(answers(view.0, v1, turn(p1.inbox()))),
                i <= 1 ==> self.seat(1) == s1,
                i == 0 ==> self.seat(0) == s0,
                i == 0 ==> self.leavers() == lb,
                i == 0 ==> !broad_update,
                forall|j: int| 0 <= j < 2 ==> (#[trigger] self.seat(j) matches Some(q) ==> (old(self).seat(j) matches Some(pj)
                    && same_player(q, pj))),
                c0 == seated_and_connected(s0),
                c0 && i >= 1 ==> (turn_leaves(p0.inbox()) ==> self.seat(0) is None && served(view, p0, self.leavers()[n0], v)),
                c0 && i >= 1 ==> (!turn_leaves(p0.inbox()) ==> (self.seat(0) matches Some(q) && served(view, p0, q, v))),
                c0 && i == 1 ==> self.leavers().len() == n0 + l0 && broad_update == rej0,
                both && i == 2 ==> (turn_leaves(p1.inbox()) ==> self.seat(1) is None && served(view, p1, self.leavers()[n0 + l0], v1)),
                both && i == 2 ==> (!turn_leaves(p1.inbox()) ==> (self.seat(1) matches Some(q) && served(view, p1, q, v1))),
                both && i == 2 ==> self.leavers().len() == n0 + l0 + (if turn_leaves(p1.inbox()) {
                    1int
                } else {
                    0int
                }) && broad_update == (rej0 || rej1),
            ensures
                missing ==> (s0 is None || s1 is None),
                !missing ==> (s0 matches Some(p0) && s1 matches Some(p1) && board_view(board) == play_moves(
                    play_moves(v, turn(p0.inbox())),
                    turn(p1.inbox()),
                )),
                self.wf(),
                board.wf(),
                self.spec_state() == old(self).spec_state(),
                only_leaving(*self, *old(self)),
                forall|j: int| 0 <= j < 2 ==> (#[trigger] self.seat(j) matches Some(q) ==> (old(self).seat(j) matches Some(pj)
                    && same_player(q, pj))),
                both ==> !missing,
                both ==> (turn_leaves(p0.inbox()) ==> self.seat(0) is None && served(view, p0, self.leavers()[n0], v)),
                both ==> (!turn_leaves(p0.inbox()) ==> (self.seat(0) matches Some(q) && served(view, p0, q, v))),
                both ==> (turn_leaves(p1.inbox()) ==> self.seat(1) is None && served(view, p1, self.leavers()[n0 + l0], v1)),
                both ==> (!turn_leaves(p1.inbox()) ==> (self.seat(1) matches Some(q) && served(view, p1, q, v1))),
                both ==> self.leavers().len() == n0 + l0 + (if turn_leaves(p1.inbox()) {
                    1int
                } else {
                    0int
                }) && broad_update == (rej0 || rej1),
                s0 is None ==> self.seat(0) is None && self.seat(1) == s1 && self.leavers() == lb && !broad_update,
                c0 && s1 is None ==> self.seat(1) is None && self.leavers().len() == n0 + l0 && broad_update == rej0,
                c0 && s1 is None ==> (turn_leaves(p0.inbox()) ==> self.seat(0) is None && served(view, p0, self.leavers()[n0], v)),
                c0 && s1 is None ==> (!turn_leaves(p0.inbox()) ==> (self.seat(0) matches Some(q) && served(view, p0, q, v))),
            decreases 2 - i,
        {
            let ghost before = *self;
            let seat = self.take_seat(i);
            let p = match seat {
                None => {
                    self.put_seat(i, None);
                    proof {
                        lemma_same_seats(*self, before);
                        lemma_only_leaving_trans(*self, before, *old(self));
                    }
                    missing = true;
                    break;
                },
                Some(p) => p,
            };
            let ghost pid = p.spec_id();
            let ghost taken = *self;
            let ghost bu = broad_update;
            let stay = self.serve_player(p, &mut board, image, &mut broad_update);
            match stay {
                Some(q) => {
                    self.put_seat(i, Some(q));
                    proof {
                        assert(seat_id(self.seat(i as int)) == seat_id(before.seat(i as int)));
                        lemma_same_seats(*self, before);
                    }
                },
                None => {
                    proof {
                        assert(self.leavers().subrange(0, before.leavers().len() as int) =~= before.leavers());
                        assert(self.leavers()[before.leavers().len() as int].spec_id() == pid);
                        assert(seat_id(before.seat(i as int)) == Some(pid));
                        assert(only_leaving(*self, before));
                    }
                },
            }
            proof {
                lemma_only_leaving_trans(*self, before, *old(self));
                if c0 && i == 1 {
                    if turn_leaves(p0.inbox()) {
                        assert(self.leavers()[n0] == before.leavers()[n0]);
                    }
                }
            }
            i = i + 1;
        }
        let ghost before = *self;
        if missing {
            self.set_state(State::PlayerDisconnected);
        } else {
            self.state = State::Playing { board };
            assert(self.seat(0) == before.seat(0));
        }
        proof {
            lemma_same_seats(*self, before);
            lemma_only_leaving_trans(*self, before, *old(self));
        }
        let ghost pre = *self;
        if broad_update {
            let ghost played = self.spec_state();
            let mut j: usize = 0;
            while j < 2
                invariant
                    self.wf(),
                    j <= 2,
                    only_leaving(*self, *old(self)),
                    self.spec_state() == played,
                    played == pre.spec_state(),
                    played is Playing || played is PlayerDisconnected,
                    self.leavers() == pre.leavers(),
                    self.spec_id() == pre.spec_id(),
                    image.spec_id() == old(self).spec_id(),
                    view == image_view(*image),
                    both == (seated_and_connected(old(self).seat(0)) && seated_and_connected(old(self).seat(1))),
                    c0 == seated_and_connected(old(self).seat(0)),
                    old(self).seat(0) is Some,
                    forall|k: int| 0 <= k < 2 ==> (#[trigger] self.seat(k) matches Some(q) ==> (old(self).seat(k) matches Some(pj)
                        && same_player(q, pj))),
                    forall|k: int| j <= k < 2 ==> #[trigger] self.seat(k) == pre.seat(k),
                    forall|k: int| 0 <= k < j ==> (#[trigger] pre.seat(k) matches Some(m) && m.spec_connected())
                        ==> told_seat(self.seat(k), pre.seat(k), view),
                    forall|k: int| 0 <= k < j ==> #[trigger] pre.seat(k) is None ==> self.seat(k) is None,
                decreases 2 - j,
            {
                let ghost before = *self;
                let seat = self.take_seat(j);
                match seat {
                    None => {
                        self.put_seat(j, None);
                    },
                    Some(mut p) => {
                        let ghost sent_to = p;
                        proof {
                            assert(before.seat(j as int) == Some(sent_to));
                            assert(old(self).seat(j as int) matches Some(pj) && same_player(sent_to, pj));
                            if both {
                                assert(j == 0 || j == 1);
                                assert(seated_and_connected(old(self).seat(j as int)));
                                assert(sent_to.spec_connected());
                            }
                            if c0 && j == 0 {
                                assert(sent_to.spec_connected());
                            }
                        }
                        let r = p.send(ServerMessage::GameInfoUpdate(self.id, image.duplicate()));
                        self.put_seat(j, Some(p));
                        if r.is_err() {
                            proof {
                                lemma_same_seats(*self, before);
                                lemma_only_leaving_trans(*self, before, *old(self));
                                assert(before.seat(j as int) == Some(sent_to));
                                assert(!sent_to.spec_connected());
                            }
                            let ghost b2 = *self;
                            self.set_state(State::PlayerDisconnected);
                            proof {
                                lemma_same_seats(*self, b2);
                                lemma_only_leaving_trans(*self, b2, *old(self));
                                assert(!both);
                                assert(!(c0 && old(self).seat(1) is None));
                            }
                            return;
                        }
                        proof {
                            assert(same_player(p, sent_to));
                            assert(p.outbox().subrange(0, sent_to.outbox().len() as int) =~= sent_to.outbox());
                            assert(told_seat(Some(p), Some(sent_to), view));
                        }
                    },
                }
                proof {
                    lemma_same_seats(*self, before);
                    lemma_only_leaving_trans(*self, before, *old(self));
                }
                j = j + 1;
            }
            proof {
                if both {
                    lemma_played_retold(view, p0, pre.seat(0), self.seat(0), v);
                    lemma_played_retold(view, p1, pre.seat(1), self.seat(1), v1);
                    assert(self.leavers().take(n0) =~= lb);
                }
                if c0 && s1 is None {
                    assert(game_view(*self) == game_view(pre)) by {
                        assert(seat_id(self.seat(0)) == seat_id(pre.seat(0)));
                        assert(seat_id(self.seat(1)) == seat_id(pre.seat(1)));
                    }
                    lemma_lone(view, p0, v, rej0, before.seat(0), pre.seat(0), self.seat(0), game_view(pre));
                    assert(self.leavers().take(n0) =~= lb);
                }
            }
        } else {
            proof {
                if both {
                    assert(self.leavers().take(n0) =~= lb);
                }
                if c0 && s1 is None {
                    lemma_lone(view, p0, v, rej0, before.seat(0), pre.seat(0), self.seat(0), game_view(pre));
                    assert(self.leavers().take(n0) =~= lb);
                }
            }
        }
    }
}

/// The player alone in a game, once it played its turn, was told that
/// the stage became `PlayerDisconnected` and, on a rejected move, was sent
/// the game once more, is what `lone_outcome` says of seat 0.
proof fn lemma_lone(
    view: GameView,
    p0: Player,
    v0: (Color, Seq<Occupant>),
    rejected: bool,
    played: Option<Player>,
    told: Option<Player>,
    fin: Option<Player>,
    last: GameView,
)
    requires
        p0.spec_connected(),
        !turn_leaves(p0.inbox()) ==> (played matches Some(m) && served(view, p0, m, v0)),
        turn_leaves(p0.inbox()) ==> played is None,
        told_seat(told, played, last),
        rejected ==> (told matches Some(t) && t.spec_connected() ==> told_seat(fin, told, view)),
        rejected ==> (told is None ==> fin is None),
        !rejected ==> fin == told,
    ensures
        !turn_leaves(p0.inbox()) ==> (fin matches Some(q) && exists|m: Player, t: Player|
            #[trigger] served(view, p0, m, v0) && #[trigger] told_seat(Some(t), Some(m), last) && if rejected {
                told_seat(Some(q), Some(t), view)
            } else {
                q == t
            }),
        turn_leaves(p0.inbox()) ==> fin is None,
{
    if !turn_leaves(p0.inbox()) {
        let m = played.unwrap();
        let t = told.unwrap();
        let q = fin.unwrap();
        assert(served(view, p0, m, v0) && told_seat(Some(t), Some(m), last));
    }
}

/// A player served while playing and then sent the game once more has
/// played its turn, retold.
proof fn lemma_played_retold(
    view: GameView,
    p: Player,
    pre: Option<Player>,
    after: Option<Player>,
    v: (Color, Seq<Occupant>),
)
    requires
        pre matches Some(m) ==> served(view, p, m, v) && m.spec_connected() && told_seat(after, pre, view),
        pre is None ==> after is None,
    ensures
        after matches Some(q) ==> played_turn(view, p, q, v, true),
        pre is None ==> after is None,
        pre is Some ==> after is Some,
{
    if let Some(m) = pre {
        let q = after.unwrap();
        assert(served(view, p, m, v) && told_seat(Some(q), Some(m), view));
    }
}

/// The steps of the start of a game, seat by seat, make what
/// `started_seat` says.
proof fn lemma_started(
    image: GameView,
    s: Option<Player>,
    colored: Option<Player>,
    told: Option<Player>,
    after: Option<Player>,
    was_colored: bool,
    gap: bool,
    pd: GameView,
    last: GameView,
)
    requires
        was_colored ==> colored_seat(image, s, colored),
        !was_colored ==> colored == s,
        gap ==> told_seat(told, colored, pd),
        !gap ==> told == colored,
        told_seat(after, told, last),
        pd == (last.0, State::PlayerDisconnected, last.2, last.3),
    ensures
        started_seat(image, s, after, was_colored, gap, last),
{
    if let (Some(q), Some(p)) = (after, s) {
        let c = colored.unwrap();
        let t = told.unwrap();
        let views = (if was_colored {
            seq![image]
        } else {
            Seq::<GameView>::empty()
        }) + (if gap {
            seq![pd]
        } else {
            Seq::<GameView>::empty()
        }) + seq![last];
        if p.spec_connected() {
            let n = p.outbox().len() as int;
            let a: int = if was_colored { 1 } else { 0 };
            let b: int = if gap { 1 } else { 0 };
            assert(c.outbox().len() == n + a);
            assert(c.outbox().take(n) == p.outbox());
            assert(t.outbox().len() == n + a + b);
            assert(q.outbox().len() == n + a + b + 1);
            assert(views.len() == a + b + 1);
            assert(t.outbox().subrange(0, c.outbox().len() as int) == c.outbox());
            assert(q.outbox().subrange(0, t.outbox().len() as int) == t.outbox());
            assert(q.outbox().take(n) =~= p.outbox()) by {
                assert(q.outbox().take(n) =~= t.outbox().take(n));
                assert(t.outbox().take(n) =~= c.outbox().take(n));
            }
            assert forall|k: int| 0 <= k < views.len() implies info_update(#[trigger] q.outbox()[n + k], views[k]) by {
                if was_colored && k == 0 {
                    assert(q.outbox()[n] == t.outbox()[n]);
                    assert(t.outbox()[n] == c.outbox()[n]);
                    assert(c.outbox()[n] == c.outbox().last());
                } else if gap && k == a {
                    assert(q.outbox()[n + a] == t.outbox()[n + a]);
                    assert(views[k] == pd);
                } else {
                    assert(k == a + b);
                    assert(views[k] == last);
                }
            }
        } else {
            assert(c.outbox() == p.outbox());
            assert(t.outbox() =~= t.outbox().subrange(0, c.outbox().len() as int));
            assert(q.outbox() =~= q.outbox().subrange(0, t.outbox().len() as int));
        }
    }
}

/// A seat emptied of a disconnected player, or whose player was told twice,
/// is what `dropped_seat` says.
proof fn lemma_dropped(s: Option<Player>, m: Option<Player>, q: Option<Player>, pd: GameView, last: GameView)
    requires
        seated_and_connected(s) ==> told_seat(m, s, pd),
        !seated_and_connected(s) ==> m is None,
        told_seat(q, m, last),
        pd == (last.0, State::PlayerDisconnected, last.2, last.3),
    ensures
        dropped_seat(s, q, last),
{
    if seated_and_connected(s) {
        let p = s.unwrap();
        let x = m.unwrap();
        let y = q.unwrap();
        let n = p.outbox().len() as int;
        let views = seq![pd, last];
        assert(y.outbox().subrange(0, x.outbox().len() as int) == x.outbox());
        assert(x.outbox().subrange(0, n) == p.outbox());
        assert(y.outbox().take(n) =~= p.outbox()) by {
            assert(y.outbox().take(n) =~= x.outbox().take(n));
        }
        assert forall|k: int| 0 <= k < views.len() implies info_update(#[trigger] y.outbox()[n + k], views[k]) by {
            if k == 0 {
                assert(y.outbox()[n] == x.outbox()[n]);
            }
        }
    }
}

/// The place of `c` in `v`.
fn position_of(v: &Vec<Color>, c: Color) -> (k: usize)
    requires
        v@.contains(c),
    ensures
        k < v.len(),
        v@[k as int] == c,
{
    let mut k: usize = 0;
    while k < v.len()
        invariant
            k <= v.len(),
            v@.contains(c),
            forall|j: int| 0 <= j < k ==> v@[j] != c,
        decreases v.len() - k,
    {
        if v[k] == c {
            return k;
        }
        k = k + 1;
    }
    assert(false);
    0
}

} // verus!
