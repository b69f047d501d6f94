use vstd::prelude::*;
use crate::id::Id;
use crate::message::{ClientMessage, ServerMessage};
use super::game::{connect_outcome, joined, public_view, same_player, seat_id, shows, Game};
use super::player::Player;

verus! {

/// Some game of `games` has the id `id`.
pub open spec fn hosts(games: Seq<Game>, id: Id) -> bool {
    exists|j: int| #![trigger games[j]] 0 <= j < games.len() && games[j].spec_id() == id
}

/// Some game of `games` has the id `id` and a free seat.
pub open spec fn open_seat(games: Seq<Game>, id: Id) -> bool {
    exists|j: int| #![trigger games[j]] 0 <= j < games.len() && games[j].spec_id() == id && !games[j].spec_full()
}

/// The message `m` takes its sender out of the lobby: a request to join a
/// game with a free seat, or to create a game.
pub open spec fn enters_game(games: Seq<Game>, m: ClientMessage) -> bool {
    match m {
        ClientMessage::GameJoinRequest(id) => open_seat(games, id),
        ClientMessage::GameCreateRequest => true,
        _ => false,
    }
}

/// The lobby reads no further message of a player after `m`: `m` takes the
/// player into a game, or asks about a game that is not hosted.
pub open spec fn ends_visit(games: Seq<Game>, m: ClientMessage) -> bool {
    ||| enters_game(games, m)
    ||| (m matches ClientMessage::GameInfoRequest(id) && !hosts(games, id))
}

/// How many messages of `msgs` the lobby reads in one pass: all of them,
/// or up to the first one after which it reads no further, that one
/// included.
pub open spec fn visit_length(games: Seq<Game>, msgs: Seq<ClientMessage>) -> nat
    decreases msgs.len(),
{
    if msgs.len() == 0 {
        0
    } else if ends_visit(games, msgs[0]) {
        1
    } else {
        1 + visit_length(games, msgs.drop_first())
    }
}

/// The messages the lobby reads in one pass.
pub open spec fn visit(games: Seq<Game>, msgs: Seq<ClientMessage>) -> Seq<ClientMessage> {
    msgs.take(visit_length(games, msgs) as int)
}

/// What a player of the lobby is answered.
pub enum LobbyAnswer {
    /// The list of the hosted games.
    GameList,
    /// The game to join is not hosted.
    NoSuchGame,
    /// The game to join has no free seat.
    GameFull,
    /// The state of the game `id`.
    Info(Id),
    /// The game `id` asked about is not hosted.
    NoInfo(Id),
}

/// The answers to the message `m` of a player of the lobby.
pub open spec fn lobby_answer(games: Seq<Game>, m: ClientMessage) -> Seq<LobbyAnswer> {
    match m {
        ClientMessage::RequestGames => seq![LobbyAnswer::GameList],
        ClientMessage::GameJoinRequest(id) => if !hosts(games, id) {
            seq![LobbyAnswer::NoSuchGame]
        } else if !open_seat(games, id) {
            seq![LobbyAnswer::GameFull]
        } else {
            Seq::empty()
        },
        ClientMessage::GameInfoRequest(id) => if hosts(games, id) {
            seq![LobbyAnswer::Info(id)]
        } else {
            seq![LobbyAnswer::NoInfo(id)]
        },
        _ => Seq::empty(),
    }
}

/// The answers to the messages `msgs`, in order.
pub open spec fn lobby_answers(games: Seq<Game>, msgs: Seq<ClientMessage>) -> Seq<LobbyAnswer>
    decreases msgs.len(),
{
    if msgs.len() == 0 {
        Seq::empty()
    } else {
        lobby_answers(games, msgs.drop_last()) + lobby_answer(games, msgs.last())
    }
}

/// The message `m` answers as `a` says, the lobby hosting `games`.
pub open spec fn lobby_fits(games: Seq<Game>, a: LobbyAnswer, m: ServerMessage) -> bool {
    match a {
        LobbyAnswer::GameList => m matches ServerMessage::Games(list) && list@.len() == games.len() && forall|j: int|
            0 <= j < games.len() ==> shows(#[trigger] list@[j], games[j]),
        LobbyAnswer::NoSuchGame => m matches ServerMessage::GameJoinFaill(t) && t@
            == "Could not find the requested game"@,
        LobbyAnswer::GameFull => m matches ServerMessage::GameJoinFaill(t) && t@
            == "Could not connect to game {game_id}: This game is full"@,
        LobbyAnswer::Info(id) => m matches ServerMessage::GameInfoUpdate(i, s) && i == id && exists|j: int|
            #![trigger games[j]]
            0 <= j < games.len() && games[j].spec_id() == id && shows(s, games[j]),
        LobbyAnswer::NoInfo(id) => m matches ServerMessage::GameInfoUpdateFail(i, t) && i == id && t@
            == "Could not fetch active game with the give id"@,
    }
}

/// The messages for a client went from `before` to `after` by the answers
/// `expected` being added, if the client is connected; they stay as they
/// were otherwise.
pub open spec fn lobby_answered(
    games: Seq<Game>,
    before: Seq<ServerMessage>,
    after: Seq<ServerMessage>,
    expected: Seq<LobbyAnswer>,
    connected: bool,
) -> bool {
    if connected {
        &&& after.len() == before.len() + expected.len()
        &&& after.take(before.len() as int) == before
        &&& forall|k: int| 0 <= k < expected.len() ==> lobby_fits(games, #[trigger] expected[k], after[before.len() + k])
    } else {
        after == before
    }
}

/// A new game `g` with the id `id`, where `q` took the first seat and was
/// told the game it joined, as it was before: empty and waiting.
pub open spec fn fresh_game(g: Game, id: nat, q: Player) -> bool {
    &&& g.spec_id().value() == id
    &&& g.leavers() == Seq::<Player>::empty()
    &&& g.seat(1) is None
    &&& g.spec_state() is Waiting
    &&& g.seat(0) matches Some(x) && same_player(x, q) && x.inbox() == q.inbox() && x.outbox().len()
        == q.outbox().len() + 1 && x.outbox().take(q.outbox().len() as int) == q.outbox()
        && (x.outbox().last() matches ServerMessage::GameJoin(s) && s.spec_id() == g.spec_id() && s.spec_state()
        is Waiting && public_view(s.spec_players()[0]) is None && public_view(s.spec_players()[1]) is None)
}

/// The games `g1` and next game id `n1` once `q` asked, by `m`, to go
/// into a game, from the games `g0` and next id `n0`. A join puts `q` in
/// the game asked for; a creation opens a game with the next id, kept only
/// if `q` could take its seat, unless no id is left.
pub open spec fn entered(g0: Seq<Game>, n0: nat, q: Player, m: ClientMessage, g1: Seq<Game>, n1: nat) -> bool {
    match m {
        ClientMessage::GameJoinRequest(id) => {
            &&& n1 == n0
            &&& g1.len() == g0.len()
            &&& exists|k: int|
                #![trigger g0[k]]
                0 <= k < g0.len() && g0[k].spec_id() == id && connect_outcome(g0[k], g1[k], q) && forall|j: int|
                    0 <= j < g0.len() && j != k ==> #[trigger] g1[j] == g0[j]
        },
        ClientMessage::GameCreateRequest => if n0 < u64::MAX {
            &&& n1 == n0 + 1
            &&& if q.spec_connected() {
                &&& g1.len() == g0.len() + 1
                &&& g1.take(g0.len() as int) == g0
                &&& fresh_game(g1.last(), n0, q)
            } else {
                g1 == g0
            }
        } else {
            n1 == n0 && g1 == g0
        },
        _ => false,
    }
}

/// What one pass of the lobby over the player `p` does, from the games
/// `g0` and next game id `n0`: its messages are read up to the first one
/// after which the lobby reads no further, and answered. If the last one
/// read asks to go into a game (`stay` is `None`), the player, its answers
/// sent, goes there as `entered` says (it is dropped when it cannot take a
/// seat); otherwise it stays (`stay` holds it) and the games are
/// unchanged.
pub open spec fn lobby_served(g0: Seq<Game>, n0: nat, p: Player, g1: Seq<Game>, n1: nat, stay: Option<Player>) -> bool {
    let read = visit(g0, p.inbox());
    let rest = p.inbox().skip(read.len() as int);
    if read.len() > 0 && enters_game(g0, read.last()) {
        &&& stay is None
        &&& exists|q: Player|
            same_player(q, p) && q.inbox() == rest && lobby_answered(
                g0,
                p.outbox(),
                q.outbox(),
                lobby_answers(g0, read.drop_last()),
                p.spec_connected(),
            ) && #[trigger] entered(g0, n0, q, read.last(), g1, n1)
    } else {
        &&& stay matches Some(q) && same_player(q, p) && q.inbox() == rest && lobby_answered(
            g0,
            p.outbox(),
            q.outbox(),
            lobby_answers(g0, read),
            p.spec_connected(),
        )
        &&& g1 == g0
        &&& n1 == n0
    }
}

/// `s` without its element at `i`, the last element taking its place.
pub open spec fn swap_removed(s: Seq<Player>, i: int) -> Seq<Player> {
    if i == s.len() - 1 {
        s.drop_last()
    } else {
        s.drop_last().update(i, s.last())
    }
}

/// The lobby pass at some point: the games, the next game id, the lobby,
/// and the place in the lobby of the next player to serve.
pub struct LobbyTick {
    pub games: Seq<Game>,
    pub next_id: nat,
    pub lobby: Seq<Player>,
    pub index: int,
}

/// One step of the pass: the player at `s.index` is served; if it stays
/// the pass moves on, if it went into a game the last player of the lobby
/// takes its place.
pub open spec fn lobby_step(s: LobbyTick, t: LobbyTick) -> bool {
    &&& 0 <= s.index < s.lobby.len()
    &&& exists|stay: Option<Player>|
        #[trigger] lobby_served(s.games, s.next_id, s.lobby[s.index], t.games, t.next_id, stay) && match stay {
            Some(q) => t.lobby == s.lobby.update(s.index, q) && t.index == s.index + 1,
            None => t.lobby == swap_removed(s.lobby, s.index) && t.index == s.index,
        }
}

/// `run` is a whole pass of the lobby from `start`: each step serves one
/// player, and the last tick has served every player.
pub open spec fn lobby_run(run: Seq<LobbyTick>, start: LobbyTick) -> bool {
    &&& run.len() >= 1
    &&& run[0] == start
    &&& start.index == 0
    &&& forall|k: int| 0 <= k < run.len() - 1 ==> lobby_step(#[trigger] run[k], run[k + 1])
    &&& run.last().index == run.last().lobby.len()
}

/// Serving the player at `s.index` with the outcome `stay` is a step.
pub proof fn lemma_step(s: LobbyTick, t: LobbyTick, stay: Option<Player>)
    requires
        0 <= s.index < s.lobby.len(),
        lobby_served(s.games, s.next_id, s.lobby[s.index], t.games, t.next_id, stay),
        match stay {
            Some(q) => t.lobby == s.lobby.update(s.index, q) && t.index == s.index + 1,
            None => t.lobby == swap_removed(s.lobby, s.index) && t.index == s.index,
        },
    ensures
        lobby_step(s, t),
{
}

/// A run of steps goes on by one more step.
pub proof fn lemma_run_push(run: Seq<LobbyTick>, t: LobbyTick)
    requires
        run.len() >= 1,
        forall|k: int| 0 <= k < run.len() - 1 ==> lobby_step(#[trigger] run[k], run[k + 1]),
        lobby_step(run.last(), t),
    ensures
        run.push(t).len() >= 1,
        run.push(t)[0] == run[0],
        run.push(t).last() == t,
        forall|k: int| 0 <= k < run.push(t).len() - 1 ==> lobby_step(#[trigger] run.push(t)[k], run.push(t)[k + 1]),
{
    let run2 = run.push(t);
    assert forall|k: int| 0 <= k < run2.len() - 1 implies lobby_step(#[trigger] run2[k], run2[k + 1]) by {
        if k < run.len() - 1 {
            assert(run2[k] == run[k]);
            assert(run2[k + 1] == run[k + 1]);
        } else {
            assert(run2[k] == run.last());
        }
    }
}

/// Reading `msgs` one more message on extends the answers by that
/// message's alone.
pub proof fn lemma_lobby_answers_push(games: Seq<Game>, msgs: Seq<ClientMessage>, m: ClientMessage)
    ensures
        lobby_answers(games, msgs.push(m)) == lobby_answers(games, msgs) + lobby_answer(games, m),
{
    assert(msgs.push(m).drop_last() =~= msgs);
}

/// A pass that has read `k` messages, none of them the last it reads,
/// reads `k` more than a pass over the rest.
pub proof fn lemma_visit_length_skip(games: Seq<Game>, msgs: Seq<ClientMessage>, k: int)
    requires
        0 <= k <= msgs.len(),
        forall|j: int| 0 <= j < k ==> !ends_visit(games, #[trigger] msgs[j]),
    ensures
        visit_length(games, msgs) == k + visit_length(games, msgs.skip(k)),
    decreases k,
{
    if k > 0 {
        assert forall|j: int| 0 <= j < k - 1 implies !ends_visit(games, #[trigger] msgs.drop_first()[j]) by {
            assert(msgs.drop_first()[j] == msgs[j + 1]);
        }
        lemma_visit_length_skip(games, msgs.drop_first(), k - 1);
        assert(msgs.drop_first().skip(k - 1) =~= msgs.skip(k));
        assert(!ends_visit(games, msgs[0]));
    } else {
        assert(msgs.skip(0) =~= msgs);
    }
}

/// A connected player of the lobby whose first message asks to join a game
/// with a free seat leaves the lobby and sits in that game.
pub proof fn lemma_join_seats_player(
    g0: Seq<Game>,
    n0: nat,
    p: Player,
    g1: Seq<Game>,
    n1: nat,
    stay: Option<Player>,
    id: Id,
)
    requires
        forall|j: int, k: int| 0 <= j < k < g0.len() ==> (#[trigger] g0[j]).spec_id() != (#[trigger] g0[k]).spec_id(),
        p.spec_connected(),
        p.inbox().len() > 0,
        p.inbox()[0] == ClientMessage::GameJoinRequest(id),
        open_seat(g0, id),
        lobby_served(g0, n0, p, g1, n1, stay),
    ensures
        stay is None,
        n1 == n0,
        g1.len() == g0.len(),
        exists|k: int|
            0 <= k < g1.len() && (#[trigger] g1[k]).spec_id() == id && (seat_id(g1[k].seat(0)) == Some(p.spec_id())
                || seat_id(g1[k].seat(1)) == Some(p.spec_id())),
{
    let m = p.inbox()[0];
    assert(ends_visit(g0, m));
    assert(visit_length(g0, p.inbox()) == 1);
    let read = visit(g0, p.inbox());
    assert(read.len() == 1 && read.last() == m);
    let q = choose|q: Player|
        same_player(q, p) && q.inbox() == p.inbox().skip(1) && lobby_answered(
            g0,
            p.outbox(),
            q.outbox(),
            lobby_answers(g0, read.drop_last()),
            p.spec_connected(),
        ) && #[trigger] entered(g0, n0, q, m, g1, n1);
    let k = choose|k: int|
        #![trigger g0[k]]
        0 <= k < g0.len() && g0[k].spec_id() == id && connect_outcome(g0[k], g1[k], q) && forall|j: int|
            0 <= j < g0.len() && j != k ==> #[trigger] g1[j] == g0[j];
    let j = choose|j: int| #![trigger g0[j]] 0 <= j < g0.len() && g0[j].spec_id() == id && !g0[j].spec_full();
    if j != k {
        if j < k {
            assert(g0[j].spec_id() != g0[k].spec_id());
        } else {
            assert(g0[k].spec_id() != g0[j].spec_id());
        }
    }
    assert(g1[k].spec_id() == id);
}

/// A connected player of the lobby whose first message asks to create a
/// game, while ids are left, leaves the lobby for a new game, added after
/// the others, with the next id and the player in its first seat.
pub proof fn lemma_create_opens_game(
    g0: Seq<Game>,
    n0: nat,
    p: Player,
    g1: Seq<Game>,
    n1: nat,
    stay: Option<Player>,
)
    requires
        p.spec_connected(),
        p.inbox().len() > 0,
        p.inbox()[0] == ClientMessage::GameCreateRequest,
        n0 < u64::MAX,
        lobby_served(g0, n0, p, g1, n1, stay),
    ensures
        stay is None,
        n1 == n0 + 1,
        g1.len() == g0.len() + 1,
        g1.take(g0.len() as int) == g0,
        g1.last().spec_id().value() == n0,
        seat_id(g1.last().seat(0)) == Some(p.spec_id()),
        g1.last().seat(1) is None,
{
    let m = p.inbox()[0];
    assert(ends_visit(g0, m));
    assert(visit_length(g0, p.inbox()) == 1);
    let read = visit(g0, p.inbox());
    assert(read.len() == 1 && read.last() == m);
    let q = choose|q: Player|
        same_player(q, p) && q.inbox() == p.inbox().skip(1) && lobby_answered(
            g0,
            p.outbox(),
            q.outbox(),
            lobby_answers(g0, read.drop_last()),
            p.spec_connected(),
        ) && #[trigger] entered(g0, n0, q, m, g1, n1);
    assert(entered(g0, n0, q, m, g1, n1));
}


/// The sum of `f` over `s`.
pub open spec fn total<A>(s: Seq<A>, f: spec_fn(A) -> nat) -> nat
    decreases s.len(),
{
    if s.len() == 0 {
        0
    } else {
        total(s.drop_last(), f) + f(s.last())
    }
}

/// 1 for a player with the id `id`, 0 for another.
pub open spec fn player_is(id: Id) -> spec_fn(Player) -> nat {
    |p: Player| if p.spec_id() == id { 1nat } else { 0nat }
}

/// How many seats of a game hold a player with the id `id`.
pub open spec fn seats_holding(id: Id) -> spec_fn(Game) -> nat {
    |g: Game|
        (if seat_id(g.seat(0)) == Some(id) { 1nat } else { 0nat }) + (if seat_id(g.seat(1)) == Some(id) {
            1nat
        } else {
            0nat
        })
}

/// How many players with the id `id` the lobby and the seats of the games
/// hold at the tick `t`.
pub open spec fn population(t: LobbyTick, id: Id) -> nat {
    total(t.lobby, player_is(id)) + total(t.games, seats_holding(id))
}

/// The conditions under which a pass keeps every player: the players of
/// the lobby are connected (each can be told and seated), the games have
/// distinct ids below the next id, and an id is left for each player still
/// to serve to create a game.
pub open spec fn keeps_players(t: LobbyTick) -> bool {
    &&& 0 <= t.index <= t.lobby.len()
    &&& forall|j: int| 0 <= j < t.lobby.len() ==> (#[trigger] t.lobby[j]).spec_connected()
    &&& forall|j: int, k: int|
        0 <= j < k < t.games.len() ==> (#[trigger] t.games[j]).spec_id() != (#[trigger] t.games[k]).spec_id()
    &&& forall|j: int| 0 <= j < t.games.len() ==> (#[trigger] t.games[j]).spec_id().value() < t.next_id
    &&& t.next_id + (t.lobby.len() - t.index) <= u64::MAX
}

proof fn lemma_total_update<A>(s: Seq<A>, i: int, v: A, f: spec_fn(A) -> nat)
    requires
        0 <= i < s.len(),
    ensures
        total(s.update(i, v), f) + f(s[i]) == total(s, f) + f(v),
    decreases s.len(),
{
    let u = s.update(i, v);
    if i == s.len() - 1 {
        assert(u.drop_last() =~= s.drop_last());
    } else {
        assert(u.drop_last() =~= s.drop_last().update(i, v));
        lemma_total_update(s.drop_last(), i, v, f);
    }
}

proof fn lemma_total_push<A>(s: Seq<A>, v: A, f: spec_fn(A) -> nat)
    ensures
        total(s.push(v), f) == total(s, f) + f(v),
{
    assert(s.push(v).drop_last() =~= s);
}

proof fn lemma_total_swap_removed(s: Seq<Player>, i: int, f: spec_fn(Player) -> nat)
    requires
        0 <= i < s.len(),
    ensures
        total(swap_removed(s, i), f) + f(s[i]) == total(s, f),
{
    if i < s.len() - 1 {
        lemma_total_update(s.drop_last(), i, s.last(), f);
        assert(s.drop_last()[i] == s[i]);
    }
}

/// One step of a pass keeps the conditions and the count of every id.
pub proof fn lemma_step_keeps_players(s: LobbyTick, t: LobbyTick, id: Id)
    requires
        lobby_step(s, t),
        keeps_players(s),
    ensures
        keeps_players(t),
        population(t, id) == population(s, id),
{
    let i = s.index;
    let p = s.lobby[i];
    let g0 = s.games;
    let g1 = t.games;
    let fp = player_is(id);
    let fg = seats_holding(id);
    let stay = choose|stay: Option<Player>|
        #[trigger] lobby_served(s.games, s.next_id, s.lobby[s.index], t.games, t.next_id, stay) && match stay {
            Some(q) => t.lobby == s.lobby.update(s.index, q) && t.index == s.index + 1,
            None => t.lobby == swap_removed(s.lobby, s.index) && t.index == s.index,
        };
    let read = visit(g0, p.inbox());
    match stay {
        Some(q) => {
            assert(!(read.len() > 0 && enters_game(g0, read.last())));
            assert(same_player(q, p));
            lemma_total_update(s.lobby, i, q, fp);
            assert forall|j: int| 0 <= j < t.lobby.len() implies (#[trigger] t.lobby[j]).spec_connected() by {
                if j != i {
                    assert(t.lobby[j] == s.lobby[j]);
                }
            }
        },
        None => {
            let m = read.last();
            assert(read.len() > 0 && enters_game(g0, m));
            let q = choose|q: Player|
                same_player(q, p) && q.inbox() == p.inbox().skip(read.len() as int) && lobby_answered(
                    g0,
                    p.outbox(),
                    q.outbox(),
                    lobby_answers(g0, read.drop_last()),
                    p.spec_connected(),
                ) && #[trigger] entered(g0, s.next_id, q, m, g1, t.next_id);
            assert(q.spec_connected() && q.spec_id() == p.spec_id());
            lemma_total_swap_removed(s.lobby, i, fp);
            assert forall|j: int| 0 <= j < t.lobby.len() implies (#[trigger] t.lobby[j]).spec_connected() by {
                if i < s.lobby.len() - 1 && j == i {
                    assert(t.lobby[j] == s.lobby.last());
                } else {
                    assert(t.lobby[j] == s.lobby[j]);
                }
            }
            match m {
                ClientMessage::GameJoinRequest(gid) => {
                    let j0 = choose|j: int| #![trigger g0[j]] 0 <= j < g0.len() && g0[j].spec_id() == gid && !g0[j].spec_full();
                    let k = choose|k: int|
                        #![trigger g0[k]]
                        0 <= k < g0.len() && g0[k].spec_id() == gid && connect_outcome(g0[k], g1[k], q) && forall|j: int|
                            0 <= j < g0.len() && j != k ==> #[trigger] g1[j] == g0[j];
                    if j0 != k {
                        if j0 < k {
                            assert(g0[j0].spec_id() != g0[k].spec_id());
                        } else {
                            assert(g0[k].spec_id() != g0[j0].spec_id());
                        }
                    }
                    let before = g0[k];
                    let after = g1[k];
                    assert(joined(before, after, q));
                    let kk: int = if before.seat(0) is None { 0 } else { 1 };
                    assert(before.seat(kk) is None);
                    assert(after.seat(kk) matches Some(x) && same_player(x, q));
                    assert(seat_id(after.seat(1 - kk)) == seat_id(before.seat(1 - kk)));
                    assert(fg(after) == fg(before) + fp(p)) by {
                        if kk == 0 {
                            assert(seat_id(after.seat(0)) == Some(q.spec_id()));
                        } else {
                            assert(seat_id(after.seat(1)) == Some(q.spec_id()));
                        }
                    }
                    assert(g1 =~= g0.update(k, after));
                    lemma_total_update(g0, k, after, fg);
                    assert forall|a: int, b: int|
                        0 <= a < b < g1.len() implies (#[trigger] g1[a]).spec_id() != (#[trigger] g1[b]).spec_id() by {
                        assert(g1[a].spec_id() == g0[a].spec_id());
                        assert(g1[b].spec_id() == g0[b].spec_id());
                    }
                    assert forall|a: int| 0 <= a < g1.len() implies (#[trigger] g1[a]).spec_id().value() < t.next_id by {
                        assert(g1[a].spec_id() == g0[a].spec_id());
                    }
                },
                ClientMessage::GameCreateRequest => {
                    assert(s.next_id < u64::MAX);
                    let fresh = g1.last();
                    assert(g1 =~= g0.push(fresh));
                    assert(fresh_game(fresh, s.next_id, q));
                    assert(fg(fresh) == fp(p)) by {
                        assert(seat_id(fresh.seat(0)) == Some(q.spec_id()));
                    }
                    lemma_total_push(g0, fresh, fg);
                    assert forall|a: int, b: int|
                        0 <= a < b < g1.len() implies (#[trigger] g1[a]).spec_id() != (#[trigger] g1[b]).spec_id() by {
                        assert(g1[a] == g0[a]);
                        if b < g0.len() {
                            assert(g1[b] == g0[b]);
                        } else {
                            assert(g1[a].spec_id().value() < s.next_id);
                            assert(g1[b].spec_id().value() == s.next_id);
                        }
                    }
                    assert forall|a: int| 0 <= a < g1.len() implies (#[trigger] g1[a]).spec_id().value() < t.next_id by {
                        if a < g0.len() {
                            assert(g1[a] == g0[a]);
                        }
                    }
                },
                _ => {},
            }
        },
    }
}

/// A pass of the lobby loses no player and duplicates none: for every id,
/// the lobby and the seats of the games hold as many players with that id
/// at the end of the pass as at its start, provided the players of the
/// lobby are connected, the games have distinct ids below the next id, and
/// an id is left for each player of the lobby to create a game.
pub proof fn lemma_lobby_run_keeps_players(run: Seq<LobbyTick>, start: LobbyTick, id: Id)
    requires
        lobby_run(run, start),
        keeps_players(start),
    ensures
        population(run.last(), id) == population(start, id),
{
    lemma_run_prefix_keeps_players(run, start, run.len() - 1, id);
}

/// The first `k` steps of a pass keep the conditions and every count.
proof fn lemma_run_prefix_keeps_players(run: Seq<LobbyTick>, start: LobbyTick, k: int, id: Id)
    requires
        lobby_run(run, start),
        keeps_players(start),
        0 <= k < run.len(),
    ensures
        keeps_players(run[k]),
        population(run[k], id) == population(start, id),
    decreases k,
{
    if k > 0 {
        lemma_run_prefix_keeps_players(run, start, k - 1, id);
        assert(lobby_step(run[k - 1], run[k]));
        lemma_step_keeps_players(run[k - 1], run[k], id);
    }
}

/// Each player of the lobby ends a pass in exactly one place: still in the
/// lobby and in no seat, or in exactly one seat of a game and no longer in
/// the lobby (under the conditions of `keeps_players`, for a player whose
/// id no one else in the lobby or the seats has).
pub proof fn lemma_lobby_player_ends_in_one_place(run: Seq<LobbyTick>, start: LobbyTick, id: Id)
    requires
        lobby_run(run, start),
        keeps_players(start),
        total(start.lobby, player_is(id)) == 1,
        total(start.games, seats_holding(id)) == 0,
    ensures
        (total(run.last().lobby, player_is(id)) == 1 && total(run.last().games, seats_holding(id)) == 0) || (
        total(run.last().lobby, player_is(id)) == 0 && total(run.last().games, seats_holding(id)) == 1),
{
    lemma_lobby_run_keeps_players(run, start, id);
}

} // verus!
