use vstd::prelude::*;
use crate::id::Id;
use crate::message::{ClientMessage, ServerMessage};
use crate::text::{push_str, string_from_chars};
use super::game::{connect_outcome, game_step, shows, Game};
use super::lobby::{
    ends_visit, entered, hosts, lemma_lobby_answers_push, lemma_visit_length_skip, lobby_answered, lobby_answers,
    lemma_run_push, lemma_step, lemma_lobby_run_keeps_players, keeps_players, population, lobby_fits, lobby_run, lobby_served, lobby_step, open_seat, swap_removed, visit, LobbyAnswer, LobbyTick,
};
use super::game::same_player;
use super::player::Player;

verus! {

/// The lobby and the games of the server.
pub struct GameManager {
    games: Vec<Game>,
    /// Connected players that are in no game.
    players: Vec<Player>,
    next_game_id: u64,
}

impl GameManager {
    pub closed spec fn games(&self) -> Seq<Game> {
        self.games@
    }

    pub closed spec fn lobby(&self) -> Seq<Player> {
        self.players@
    }

    /// The smallest number not yet used as a game id.
    pub closed spec fn next_id(&self) -> nat {
        self.next_game_id as nat
    }

    /// Every game is well formed, with no player waiting to be taken back
    /// to the lobby, and the game ids are distinct numbers below `next_id`.
    pub closed spec fn wf(&self) -> bool {
        &&& self.next_game_id >= 1
        &&& forall|j: int| 0 <= j < self.games@.len() ==> (#[trigger] self.games@[j]).wf()
        &&& forall|j: int| 0 <= j < self.games@.len() ==> (#[trigger] self.games@[j]).leavers().len() == 0
        &&& forall|j: int|
            0 <= j < self.games@.len() ==> (#[trigger] self.games@[j]).spec_id().value() < self.next_game_id
        &&& forall|j: int, k: int|
            0 <= j < k < self.games@.len() ==> (#[trigger] self.games@[j]).spec_id() != (
            #[trigger] self.games@[k]).spec_id()
    }

    pub fn new() -> (r: GameManager)
        ensures
            r.wf(),
            r.games() == Seq::<Game>::empty(),
            r.lobby() == Seq::<Player>::empty(),
    {
        GameManager { games: Vec::new(), players: Vec::new(), next_game_id: 1 }
    }

    /// Number of hosted games.
    pub fn game_count(&self) -> (r: usize)
        ensures
            r == self.games().len(),
    {
        self.games.len()
    }

    /// Number of players in the lobby.
    pub fn lobby_count(&self) -> (r: usize)
        ensures
            r == self.lobby().len(),
    {
        self.players.len()
    }

    /// The `i`-th game.
    pub fn game(&self, i: usize) -> (r: &Game)
        requires
            i < self.games().len(),
        ensures
            *r == self.games()[i as int],
    {
        &self.games[i]
    }

    /// Mutable access to the player in seat `s` of the `j`-th game, if there
    /// is one.
    pub fn seat_player_mut(&mut self, j: usize, s: usize) -> (r: Option<&mut Player>)
        requires
            old(self).wf(),
            j < old(self).games().len(),
            s < 2,
        ensures
            final(self).wf(),
            final(self).lobby() == old(self).lobby(),
            final(self).next_id() == old(self).next_id(),
            final(self).games().len() == old(self).games().len(),
            forall|k: int| 0 <= k < old(self).games().len() && k != j ==> #[trigger] final(self).games()[k] == old(self).games()[k],
            final(self).games()[j as int].spec_id() == old(self).games()[j as int].spec_id(),
            final(self).games()[j as int].spec_state() == old(self).games()[j as int].spec_state(),
            old(self).games()[j as int].seat(s as int) is None ==> r is None,
            old(self).games()[j as int].seat(s as int) matches Some(p) ==> (r matches Some(q) && *q == p
                && final(self).games()[j as int].seat(s as int) == Some(*final(q))),
    {
        proof {
            assert(self.games@[j as int].wf());
        }
        self.games[j].seat_player_mut(s)
    }

    /// Mutable access to every player the manager holds, in the lobby and
    /// in the games, for the network side to deliver and collect messages.
    pub fn lobby_player_mut(&mut self, i: usize) -> (r: &mut Player)
        requires
            i < old(self).lobby().len(),
        ensures
            *r == old(self).lobby()[i as int],
            final(self).lobby() == old(self).lobby().update(i as int, *final(r)),
            final(self).games() == old(self).games(),
            final(self).next_id() == old(self).next_id(),
            old(self).wf() ==> final(self).wf(),
    {
        &mut self.players[i]
    }

    /// What clients are told about every game.
    fn game_list(&self) -> (r: Vec<crate::game::Game>)
        requires
            self.wf(),
        ensures
            r@.len() == self.games().len(),
            forall|j: int| 0 <= j < r@.len() ==> shows(#[trigger] r@[j], self.games()[j]),
    {
        let mut out: Vec<crate::game::Game> = Vec::new();
        let mut i: usize = 0;
        while i < self.games.len()
            invariant
                self.wf(),
                i <= self.games@.len(),
                out@.len() == i,
                forall|j: int| 0 <= j < i ==> shows(#[trigger] out@[j], self.games@[j]),
            decreases self.games@.len() - i,
        {
            out.push(self.games[i].snapshot());
            i = i + 1;
        }
        out
    }

    /// The place of the game `id`, if it is hosted.
    fn find_game(&self, id: Id) -> (r: Option<usize>)
        ensures
            r matches Some(k) ==> k < self.games().len() && self.games()[k as int].spec_id() == id,
            r is None ==> forall|j: int| 0 <= j < self.games().len() ==> (#[trigger] self.games()[j]).spec_id() != id,
    {
        let mut i: usize = 0;
        while i < self.games.len()
            invariant
                i <= self.games@.len(),
                forall|j: int| 0 <= j < i ==> (#[trigger] self.games@[j]).spec_id() != id,
            decreases self.games@.len() - i,
        {
            if self.games[i].id() == id {
                return Some(i);
            }
            i = i + 1;
        }
        None
    }

    /// Deletes the games where no seat is taken.
    fn clean_inactive_games(&mut self)
        requires
            old(self).wf(),
        ensures
            final(self).wf(),
            final(self).lobby() == old(self).lobby(),
            final(self).next_id() == old(self).next_id(),
            final(self).games() == keep_active(old(self).games()),
    {
        let mut i: usize = 0;
        let ghost orig = self.games@;
        let ghost mut n: int = 0;
        while i < self.games.len()
            invariant
                i <= self.games@.len(),
                0 <= n <= orig.len(),
                self.games@ == keep_active(orig.take(n)) + orig.skip(n),
                i == keep_active(orig.take(n)).len(),
                self.players@ == old(self).players@,
                self.next_game_id == old(self).next_game_id,
                forall|j: int| 0 <= j < orig.len() ==> (#[trigger] orig[j]).wf(),
                orig == old(self).games@,
            decreases self.games@.len() - i,
        {
            proof {
                assert(orig.take(n + 1).drop_last() =~= orig.take(n));
                assert(orig.skip(n)[0] == orig[n]);
                assert(self.games@[i as int] == orig[n]);
            }
            let active = self.games[i].is_active();
            if !active {
                let _ = self.games.remove(i);
                proof {
                    assert(self.games@ =~= keep_active(orig.take(n + 1)) + orig.skip(n + 1));
                }
            } else {
                proof {
                    assert(self.games@ =~= keep_active(orig.take(n + 1)) + orig.skip(n + 1));
                }
                i = i + 1;
            }
            proof {
                n = n + 1;
            }
        }
        proof {
            assert(n == orig.len()) by {
                if n < orig.len() {
                    assert(self.games@.len() > i);
                }
            }
            assert(orig.take(n) =~= orig);
            assert(orig.skip(n) =~= Seq::<Game>::empty());
            assert(self.games@ =~= keep_active(orig));
            lemma_keep_active_sub(orig);
        }
    }
}

impl GameManager {
    /// Forgets the players of the lobby whose connection closed.
    fn clean_disconnected_players(&mut self)
        requires
            old(self).wf(),
        ensures
            final(self).wf(),
            final(self).games() == old(self).games(),
            final(self).next_id() == old(self).next_id(),
            final(self).lobby() == keep_connected(old(self).lobby()),
    {
        let mut i: usize = 0;
        let ghost orig = self.players@;
        let ghost mut n: int = 0;
        while i < self.players.len()
            invariant
                i <= self.players@.len(),
                0 <= n <= orig.len(),
                self.players@ == keep_connected(orig.take(n)) + orig.skip(n),
                i == keep_connected(orig.take(n)).len(),
                self.games@ == old(self).games@,
                self.next_game_id == old(self).next_game_id,
                orig == old(self).players@,
                old(self).wf(),
            decreases self.players@.len() - i,
        {
            proof {
                assert(orig.take(n + 1).drop_last() =~= orig.take(n));
                assert(orig.skip(n)[0] == orig[n]);
                assert(self.players@[i as int] == orig[n]);
            }
            if !self.players[i].is_connected() {
                let _ = self.players.remove(i);
                proof {
                    assert(self.players@ =~= keep_connected(orig.take(n + 1)) + orig.skip(n + 1));
                }
            } else {
                proof {
                    assert(self.players@ =~= keep_connected(orig.take(n + 1)) + orig.skip(n + 1));
                }
                i = i + 1;
            }
            proof {
                n = n + 1;
            }
        }
        proof {
            assert(n == orig.len()) by {
                if n < orig.len() {
                    assert(self.players@.len() > i);
                }
            }
            assert(orig.take(n) =~= orig);
            assert(orig.skip(n) =~= Seq::<Player>::empty());
            assert(self.players@ =~= keep_connected(orig));
        }
    }

    /// Takes every new player into the lobby, the last one first.
    fn register_new_players(&mut self, new_players: &mut Vec<Player>)
        requires
            old(self).wf(),
        ensures
            final(self).wf(),
            final(self).games() == old(self).games(),
            final(self).next_id() == old(self).next_id(),
            final(self).lobby() == old(self).lobby() + old(new_players)@.reverse(),
            final(new_players)@ == Seq::<Player>::empty(),
    {
        let ghost orig = new_players@;
        while new_players.len() > 0
            invariant
                self.wf(),
                self.games@ == old(self).games@,
                self.next_game_id == old(self).next_game_id,
                new_players@ == orig.take(new_players@.len() as int),
                new_players@.len() <= orig.len(),
                self.players@ == old(self).players@ + orig.skip(new_players@.len() as int).reverse(),
                orig == old(new_players)@,
            decreases new_players@.len(),
        {
            let ghost k = new_players@.len() as int;
            let p = new_players.pop().unwrap();
            self.players.push(p);
            proof {
                assert(new_players@ =~= orig.take(k - 1));
                assert(orig.skip(k - 1).reverse() =~= orig.skip(k).reverse().push(orig[k - 1]));
            }
        }
        assert(orig.skip(0) =~= orig);
    }
}

/// The games of `after` start with those of `before`, same ids in the same
/// order; the added games have new ids.
pub open spec fn games_extend(after: GameManager, before: GameManager) -> bool {
    &&& before.games().len() <= after.games().len()
    &&& forall|j: int|
        0 <= j < before.games().len() ==> (#[trigger] after.games()[j]).spec_id() == before.games()[j].spec_id()
    &&& forall|j: int|
        before.games().len() <= j < after.games().len() ==> (#[trigger] after.games()[j]).spec_id().value()
            >= before.next_id()
    &&& before.next_id() <= after.next_id()
}

impl GameManager {
    /// Text of a message.
    fn text(s: &str) -> (r: String)
        ensures
            r@ == s@,
    {
        let mut cs: Vec<char> = Vec::new();
        push_str(&mut cs, s);
        string_from_chars(cs)
    }

    /// Puts `p` in the game at place `k`.
    fn join_game(&mut self, k: usize, p: Player) -> (r: Result<(), crate::error::GameError>)
        requires
            old(self).wf(),
            k < old(self).games().len(),
        ensures
            final(self).wf(),
            final(self).lobby() == old(self).lobby(),
            final(self).next_id() == old(self).next_id(),
            final(self).games().len() == old(self).games().len(),
            forall|j: int| 0 <= j < final(self).games().len() ==> (#[trigger] final(self).games()[j]).spec_id() == old(self).games()[j].spec_id(),
            forall|j: int| 0 <= j < final(self).games().len() && j != k ==> #[trigger] final(self).games()[j] == old(self).games()[j],
            connect_outcome(old(self).games()[k as int], final(self).games()[k as int], p),
    {
        let mut g = self.games.remove(k);
        let r = g.connect_player(p);
        self.games.insert(k, g);
        assert forall|j: int| 0 <= j < self.games@.len() implies (#[trigger] self.games@[j]).spec_id() == old(self).games@[j].spec_id() by {
            if j != k {
                assert(self.games@[j] == old(self).games@[j]);
            }
        }
        assert forall|j: int, m: int|
            0 <= j < m < self.games@.len() implies (#[trigger] self.games@[j]).spec_id() != (
            #[trigger] self.games@[m]).spec_id() by {
            assert(self.games@[j].spec_id() == old(self).games@[j].spec_id());
            assert(self.games@[m].spec_id() == old(self).games@[m].spec_id());
        }
        r
    }

    /// A new game, with a fresh id, holding `p`. The game is kept only if
    /// `p` could join it.
    fn create_game(&mut self, p: Player)
        requires
            old(self).wf(),
        ensures
            final(self).wf(),
            final(self).lobby() == old(self).lobby(),
            games_extend(*final(self), *old(self)),
            entered(
                old(self).games(),
                old(self).next_id(),
                p,
                ClientMessage::GameCreateRequest,
                final(self).games(),
                final(self).next_id(),
            ),
    {
        let mut p = p;
        if self.next_game_id == u64::MAX {
            let _ = p.send(ServerMessage::GameCreatefail(GameManager::text("No game id is left")));
            return;
        }
        let id = match Id::new(self.next_game_id) {
            Some(id) => id,
            None => return,
        };
        self.next_game_id = self.next_game_id + 1;
        let mut game = Game::new(id);
        let ghost fresh = game;
        if game.connect_player(p).is_ok() {
            self.games.push(game);
            proof {
                assert(self.games@.take(old(self).games@.len() as int) =~= old(self).games@);
                assert(self.games@.last() == game);
                let x = game.seat(0).unwrap();
                let len = p.outbox().len() as int;
                assert(x.outbox()[len] matches ServerMessage::GameJoin(s) && shows(s, fresh));
            }
        }
    }

    /// Reads the messages of a player of the lobby: answers requests for
    /// the list of games and for a game's state, joins or creates a game.
    /// Gives the player back if it stays in the lobby.
    fn serve_lobby_player(&mut self, player: Player) -> (r: Option<Player>)
        requires
            old(self).wf(),
        ensures
            final(self).wf(),
            final(self).lobby() == old(self).lobby(),
            games_extend(*final(self), *old(self)),
            lobby_served(old(self).games(), old(self).next_id(), player, final(self).games(), final(self).next_id(), r),
    {
        let ghost g0 = self.games@;
        let ghost msgs = player.inbox();
        let ghost mut k: int = 0;
        let mut p = player;
        proof {
            assert(msgs.skip(0) =~= msgs);
            assert(msgs.take(0) =~= Seq::<ClientMessage>::empty());
            assert(p.outbox().take(p.outbox().len() as int) =~= p.outbox());
        }
        loop
            invariant
                self.wf(),
                self.games@ == g0,
                g0 == old(self).games(),
                self.players@ == old(self).players@,
                self.next_game_id == old(self).next_game_id,
                msgs == player.inbox(),
                0 <= k <= msgs.len(),
                p.inbox() == msgs.skip(k),
                forall|j: int| 0 <= j < k ==> !ends_visit(g0, #[trigger] msgs[j]),
                same_player(p, player),
                lobby_answered(g0, player.outbox(), p.outbox(), lobby_answers(g0, msgs.take(k)), player.spec_connected()),
            decreases p.inbox().len(),
        {
            let ghost before = p;
            let msg = match p.try_recv() {
                Ok(m) => m,
                Err(_) => {
                    proof {
                        lemma_visit_length_skip(g0, msgs, k);
                        assert(msgs.skip(k).len() == 0);
                        assert(k == msgs.len());
                        assert(visit(g0, msgs) == msgs.take(k));
                        lemma_games_extend_refl(*self);
                    }
                    return Some(p);
                },
            };
            proof {
                assert(msgs[k] == msg);
                assert(msgs.take(k + 1) =~= msgs.take(k).push(msg));
                lemma_lobby_answers_push(g0, msgs.take(k), msg);
                assert(msgs.skip(k).drop_first() =~= msgs.skip(k + 1));
            }
            let ghost answers = lobby_answers(g0, msgs.take(k));
            match msg {
                ClientMessage::RequestGames => {
                    let list = self.game_list();
                    let reply = ServerMessage::Games(list);
                    let ghost mid = p;
                    let _ = p.send(reply);
                    proof {
                        lemma_lobby_answered_push(g0, player.outbox(), mid.outbox(), p.outbox(), answers, LobbyAnswer::GameList, reply, player.spec_connected());
                    }
                },
                ClientMessage::GameJoinRequest(game_id) => {
                    match self.find_game(game_id) {
                        None => {
                            let reply = ServerMessage::GameJoinFaill(GameManager::text("Could not find the requested game"));
                            let ghost mid = p;
                            let _ = p.send(reply);
                            proof {
                                assert forall|j: int| 0 <= j < g0.len() implies #[trigger] g0[j].spec_id() != game_id by {
                                    assert(self.games()[j] == g0[j]);
                                }
                                assert(!hosts(g0, game_id));
                                assert(!open_seat(g0, game_id));
                                lemma_lobby_answered_push(g0, player.outbox(), mid.outbox(), p.outbox(), answers, LobbyAnswer::NoSuchGame, reply, player.spec_connected());
                            }
                        },
                        Some(i) => {
                            proof {
                                assert(hosts(g0, game_id));
                                assert(self.games@[i as int].wf());
                            }
                            if self.games[i].is_full() {
                                let reply = ServerMessage::GameJoinFaill(GameManager::text("Could not connect to game {game_id}: This game is full"));
                                let ghost mid = p;
                                let _ = p.send(reply);
                                proof {
                                    assert(!open_seat(g0, game_id)) by {
                                        if open_seat(g0, game_id) {
                                            let j = choose|j: int| #![trigger g0[j]] 0 <= j < g0.len() && g0[j].spec_id() == game_id && !g0[j].spec_full();
                                            if j != i {
                                                if j < i {
                                                    assert(g0[j].spec_id() != g0[i as int].spec_id());
                                                } else {
                                                    assert(g0[i as int].spec_id() != g0[j].spec_id());
                                                }
                                            }
                                        }
                                    }
                                    lemma_lobby_answered_push(g0, player.outbox(), mid.outbox(), p.outbox(), answers, LobbyAnswer::GameFull, reply, player.spec_connected());
                                }
                            } else {
                                let ghost before_self = *self;
                                proof {
                                    assert(open_seat(g0, game_id));
                                    lemma_visit_length_skip(g0, msgs, k);
                                    assert(msgs.skip(k)[0] == msg);
                                    assert(visit(g0, msgs) == msgs.take(k + 1));
                                    assert(msgs.take(k + 1).drop_last() =~= msgs.take(k));
                                }
                                let _ = self.join_game(i, p);
                                proof {
                                    assert(games_extend(*self, before_self));
                                    assert(entered(g0, old(self).next_id(), p, msg, self.games@, self.next_id()));
                                }
                                return None;
                            }
                        },
                    }
                },
                ClientMessage::GameInfoRequest(game_id) => {
                    match self.find_game(game_id) {
                        None => {
                            let reply = ServerMessage::GameInfoUpdateFail(game_id, GameManager::text("Could not fetch active game with the give id"));
                            let ghost mid = p;
                            let _ = p.send(reply);
                            proof {
                                assert forall|j: int| 0 <= j < g0.len() implies #[trigger] g0[j].spec_id() != game_id by {
                                    assert(self.games()[j] == g0[j]);
                                }
                                assert(!hosts(g0, game_id));
                                lemma_lobby_answered_push(g0, player.outbox(), mid.outbox(), p.outbox(), answers, LobbyAnswer::NoInfo(game_id), reply, player.spec_connected());
                                lemma_visit_length_skip(g0, msgs, k);
                                assert(msgs.skip(k)[0] == msg);
                                assert(visit(g0, msgs) == msgs.take(k + 1));
                                lemma_games_extend_refl(*self);
                            }
                            return Some(p);
                        },
                        Some(i) => {
                            proof {
                                assert(self.games@[i as int].wf());
                            }
                            let snap = self.games[i].snapshot();
                            let reply = ServerMessage::GameInfoUpdate(game_id, snap);
                            let ghost mid = p;
                            let _ = p.send(reply);
                            proof {
                                assert(hosts(g0, game_id));
                                lemma_lobby_answered_push(g0, player.outbox(), mid.outbox(), p.outbox(), answers, LobbyAnswer::Info(game_id), reply, player.spec_connected());
                            }
                        },
                    }
                },
                ClientMessage::GameCreateRequest => {
                    proof {
                        lemma_visit_length_skip(g0, msgs, k);
                        assert(msgs.skip(k)[0] == msg);
                        assert(visit(g0, msgs) == msgs.take(k + 1));
                        assert(msgs.take(k + 1).drop_last() =~= msgs.take(k));
                    }
                    self.create_game(p);
                    return None;
                },
                _ => {
                    proof {
                        assert(lobby_answers(g0, msgs.take(k + 1)) =~= answers);
                    }
                },
            }
            proof {
                k = k + 1;
            }
        }
    }
}

/// `after` is the game `mid` once the players that left it were taken
/// back to the lobby.
pub open spec fn leavers_taken(mid: Game, after: Game) -> bool {
    &&& after.spec_id() == mid.spec_id()
    &&& after.spec_state() == mid.spec_state()
    &&& after.seat(0) == mid.seat(0)
    &&& after.seat(1) == mid.seat(1)
    &&& after.leavers() == Seq::<Player>::empty()
}

/// Each game of `before` had one update, which gave the game of `mids`
/// at the same place; the players that left it were then taken back to
/// the lobby, which gave the game of `after`.
pub open spec fn games_stepped(before: Seq<Game>, mids: Seq<Game>, after: Seq<Game>) -> bool {
    &&& mids.len() == before.len()
    &&& after.len() == before.len()
    &&& forall|j: int|
        0 <= j < before.len() ==> game_step(before[j], #[trigger] mids[j]) && leavers_taken(mids[j], after[j])
}

/// The players that left the games of `mids`, game after game.
pub open spec fn all_leavers(mids: Seq<Game>) -> Seq<Player>
    decreases mids.len(),
{
    if mids.len() == 0 {
        Seq::empty()
    } else {
        all_leavers(mids.drop_last()) + mids.last().leavers()
    }
}

/// Where the lobby pass of a tick of the server from `before` starts, with
/// the new clients `arrivals`: the empty games and the players of the
/// lobby whose connection closed are dropped, and the new players join
/// the lobby, the last one first.
pub open spec fn tick_start(before: GameManager, arrivals: Seq<Player>) -> LobbyTick {
    LobbyTick {
        games: keep_active(before.games()),
        next_id: before.next_id(),
        lobby: keep_connected(before.lobby()) + arrivals.reverse(),
        index: 0,
    }
}

/// One tick of the server from `before`, with the new clients `arrivals`:
/// from `tick_start`, a pass of the lobby serves each of its players, then
/// each game has one update and the players that left a game are taken
/// back to the lobby, after those already there.
pub open spec fn server_tick(before: GameManager, arrivals: Seq<Player>, after: GameManager) -> bool {
    exists|run: Seq<LobbyTick>, mids: Seq<Game>|
        #![trigger lobby_run(run, tick_start(before, arrivals)), games_stepped(run.last().games, mids, after.games())]
        lobby_run(run, tick_start(before, arrivals)) && games_stepped(run.last().games, mids, after.games())
            && after.lobby() == run.last().lobby + all_leavers(mids) && after.next_id() == run.last().next_id
}

/// In a tick of the server, the pass over the lobby loses no player and
/// duplicates none: the pass that `server_tick` speaks of ends with as many
/// players of each id in the lobby and the seats of the games as it began
/// with, under the conditions of `keeps_players` at its start.
pub proof fn lemma_tick_keeps_lobby_players(before: GameManager, arrivals: Seq<Player>, after: GameManager, id: Id)
    requires
        server_tick(before, arrivals, after),
        keeps_players(tick_start(before, arrivals)),
    ensures
        exists|run: Seq<LobbyTick>, mids: Seq<Game>|
            #![trigger lobby_run(run, tick_start(before, arrivals)), games_stepped(run.last().games, mids, after.games())]
            lobby_run(run, tick_start(before, arrivals)) && games_stepped(run.last().games, mids, after.games())
                && after.lobby() == run.last().lobby + all_leavers(mids) && after.next_id() == run.last().next_id
                && population(run.last(), id) == population(tick_start(before, arrivals), id),
{
    let (run, mids) = choose|run: Seq<LobbyTick>, mids: Seq<Game>|
        #![trigger lobby_run(run, tick_start(before, arrivals)), games_stepped(run.last().games, mids, after.games())]
        lobby_run(run, tick_start(before, arrivals)) && games_stepped(run.last().games, mids, after.games())
            && after.lobby() == run.last().lobby + all_leavers(mids) && after.next_id() == run.last().next_id;
    lemma_lobby_run_keeps_players(run, tick_start(before, arrivals), id);
}

/// The lobby pass of `m` at the player in place `index`.
pub open spec fn tick_of(m: GameManager, index: int) -> LobbyTick {
    LobbyTick { games: m.games(), next_id: m.next_id(), lobby: m.lobby(), index }
}

/// Nothing changed.
pub proof fn lemma_games_extend_refl(a: GameManager)
    ensures
        games_extend(a, a),
{
}

/// Answering one more message, by `reply` when the client is connected,
/// keeps the answers sent so far.
pub proof fn lemma_lobby_answered_push(
    games: Seq<Game>,
    before: Seq<ServerMessage>,
    mid: Seq<ServerMessage>,
    after: Seq<ServerMessage>,
    expected: Seq<LobbyAnswer>,
    a: LobbyAnswer,
    reply: ServerMessage,
    connected: bool,
)
    requires
        lobby_answered(games, before, mid, expected, connected),
        connected ==> after == mid.push(reply) && lobby_fits(games, a, reply),
        !connected ==> after == mid,
    ensures
        lobby_answered(games, before, after, expected + seq![a], connected),
{
    if connected {
        assert(after.take(before.len() as int) =~= mid.take(before.len() as int));
        let e = expected + seq![a];
        assert forall|k: int| 0 <= k < e.len() implies lobby_fits(games, #[trigger] e[k], after[before.len() + k]) by {
            if k < expected.len() {
                assert(e[k] == expected[k]);
                assert(after[before.len() + k] == mid[before.len() + k]);
            }
        }
    }
}

impl GameManager {
    /// Serves every player of the lobby in turn; a player that goes into a
    /// game leaves the lobby, its place taken by the last player of the
    /// lobby (as `swap_remove` does).
    #[verifier::spinoff_prover]
    #[verifier::rlimit(40)]
    fn update_connected_players(&mut self)
        requires
            old(self).wf(),
        ensures
            final(self).wf(),
            games_extend(*final(self), *old(self)),
            final(self).lobby().len() <= old(self).lobby().len(),
            forall|j: int|
                0 <= j < final(self).lobby().len() ==> has_id(old(self).lobby(), #[trigger] final(self).lobby()[j].spec_id()),
            exists|run: Seq<LobbyTick>|
                lobby_run(run, tick_of(*old(self), 0)) && #[trigger] run.last() == tick_of(
                    *final(self),
                    final(self).lobby().len() as int,
                ),
            keeps_players(tick_of(*old(self), 0)) ==> forall|id: Id|
                #[trigger] population(tick_of(*final(self), final(self).lobby().len() as int), id) == population(
                    tick_of(*old(self), 0),
                    id,
                ),
    {
        let mut player_index: usize = 0;
        let ghost mut run: Seq<LobbyTick> = seq![tick_of(*self, 0)];
        assert forall|j: int|
            0 <= j < self.players@.len() implies has_id(old(self).players@, #[trigger] self.players@[j].spec_id()) by {
            assert(self.players@[j] == old(self).players@[j]);
        }
        while player_index < self.players.len()
            invariant
                self.wf(),
                games_extend(*self, *old(self)),
                player_index <= self.players@.len(),
                self.players@.len() <= old(self).players@.len(),
                forall|j: int|
                    0 <= j < self.players@.len() ==> has_id(old(self).players@, #[trigger] self.players@[j].spec_id()),
                run.len() >= 1,
                run[0] == tick_of(*old(self), 0),
                forall|k: int| 0 <= k < run.len() - 1 ==> lobby_step(#[trigger] run[k], run[k + 1]),
                run.last() == tick_of(*self, player_index as int),
            decreases self.players@.len() - player_index,
        {
            let ghost before = *self;
            let player = self.players.remove(player_index);
            let ghost removed = self.players@;
            let ghost pid = player.spec_id();
            let outcome = self.serve_lobby_player(player);
            proof {
                lemma_games_extend_trans(*self, before, *old(self));
            }
            match outcome {
                Some(q) => {
                    self.players.insert(player_index, q);
                    assert forall|j: int|
                        0 <= j < self.players@.len() implies has_id(old(self).players@, #[trigger] self.players@[j].spec_id()) by {
                        if j < player_index {
                            assert(self.players@[j] == before.players@[j]);
                        } else if j == player_index {
                            assert(self.players@[j].spec_id() == before.players@[j].spec_id());
                            assert(has_id(old(self).players@, before.players@[j].spec_id()));
                        } else {
                            assert(self.players@[j] == before.players@[j]);
                        }
                    }
                    proof {
                        assert(self.players@ =~= before.players@.update(player_index as int, q));
                    }
                    player_index = player_index + 1;
                },
                None => {
                    if player_index < self.players.len() {
                        let last = self.players.pop().unwrap();
                        self.players.insert(player_index, last);
                    }
                    proof {
                        assert(self.players@ =~= swap_removed(before.players@, player_index as int));
                    }
                    assert forall|j: int|
                        0 <= j < self.players@.len() implies has_id(old(self).players@, #[trigger] self.players@[j].spec_id()) by {
                        assert(removed.contains(self.players@[j]));
                        let m = choose|m: int| 0 <= m < removed.len() && removed[m] == self.players@[j];
                        if m < player_index {
                            assert(before.players@[m] == removed[m]);
                            assert(has_id(old(self).players@, before.players@[m].spec_id()));
                        } else {
                            assert(before.players@[m + 1] == removed[m]);
                            assert(has_id(old(self).players@, before.players@[m + 1].spec_id()));
                        }
                    }
                },
            }
            proof {
                let t = tick_of(*self, player_index as int);
                lemma_step(run.last(), t, outcome);
                lemma_run_push(run, t);
                run = run.push(t);
            }
        }
        assert forall|j: int|
            0 <= j < self.lobby().len() implies has_id(old(self).lobby(), #[trigger] self.lobby()[j].spec_id()) by {
            assert(self.lobby()[j] == self.players@[j]);
        }
        assert(lobby_run(run, tick_of(*old(self), 0)));
        proof {
            if keeps_players(tick_of(*old(self), 0)) {
                assert forall|id: Id|
                    #[trigger] population(tick_of(*self, self.lobby().len() as int), id) == population(
                        tick_of(*old(self), 0),
                        id,
                    ) by {
                    lemma_lobby_run_keeps_players(run, tick_of(*old(self), 0), id);
                }
            }
        }
    }

    /// Updates every game, and takes the players that left a game back
    /// into the lobby.
    fn update_games(&mut self)
        requires
            old(self).wf(),
        ensures
            final(self).wf(),
            final(self).next_id() == old(self).next_id(),
            final(self).games().len() == old(self).games().len(),
            forall|j: int|
                0 <= j < final(self).games().len() ==> (#[trigger] final(self).games()[j]).spec_id()
                    == old(self).games()[j].spec_id(),
            old(self).lobby().len() <= final(self).lobby().len(),
            final(self).lobby().subrange(0, old(self).lobby().len() as int) == old(self).lobby(),
            exists|mids: Seq<Game>|
                #[trigger] games_stepped(old(self).games(), mids, final(self).games()) && final(self).lobby()
                    == old(self).lobby() + all_leavers(mids),
    {
        let mut i: usize = 0;
        let ghost mut mids: Seq<Game> = Seq::empty();
        proof {
            assert(self.players@ =~= old(self).players@ + all_leavers(mids));
        }
        while i < self.games.len()
            invariant
                self.wf(),
                i <= self.games@.len(),
                self.next_game_id == old(self).next_game_id,
                self.games@.len() == old(self).games@.len(),
                forall|j: int|
                    0 <= j < self.games@.len() ==> (#[trigger] self.games@[j]).spec_id() == old(self).games@[j].spec_id(),
                old(self).players@.len() <= self.players@.len(),
                self.players@.subrange(0, old(self).players@.len() as int) == old(self).players@,
                mids.len() == i,
                forall|j: int|
                    0 <= j < i ==> game_step(old(self).games@[j], #[trigger] mids[j]) && leavers_taken(
                        mids[j],
                        self.games@[j],
                    ),
                forall|j: int| i <= j < self.games@.len() ==> #[trigger] self.games@[j] == old(self).games@[j],
                self.players@ == old(self).players@ + all_leavers(mids),
            decreases self.games@.len() - i,
        {
            let ghost before = *self;
            let mut g = self.games.remove(i);
            proof {
                assert(g == old(self).games@[i as int]);
            }
            g.update();
            let ghost mid = g;
            let mut back = g.take_leavers();
            self.players.append(&mut back);
            self.games.insert(i, g);
            assert forall|j: int| 0 <= j < self.games@.len() implies (#[trigger] self.games@[j]).spec_id() == old(self).games@[j].spec_id() by {
                if j != i {
                    assert(self.games@[j] == before.games@[j]);
                }
            }
            assert forall|j: int, m: int|
                0 <= j < m < self.games@.len() implies (#[trigger] self.games@[j]).spec_id() != (
                #[trigger] self.games@[m]).spec_id() by {
                assert(self.games@[j].spec_id() == before.games@[j].spec_id());
                assert(self.games@[m].spec_id() == before.games@[m].spec_id());
            }
            assert forall|j: int| 0 <= j < self.games@.len() implies (#[trigger] self.games@[j]).wf() by {
                if j != i {
                    assert(self.games@[j] == before.games@[j]);
                }
            }
            assert forall|j: int| 0 <= j < self.games@.len() implies (#[trigger] self.games@[j]).leavers().len() == 0 by {
                if j != i {
                    assert(self.games@[j] == before.games@[j]);
                }
            }
            proof {
                let mids2 = mids.push(mid);
                assert(mids2.drop_last() =~= mids);
                assert(self.players@ =~= old(self).players@ + all_leavers(mids2));
                assert forall|j: int|
                    0 <= j < i + 1 implies game_step(old(self).games@[j], #[trigger] mids2[j]) && leavers_taken(
                        mids2[j],
                        self.games@[j],
                    ) by {
                    if j < i {
                        assert(mids2[j] == mids[j]);
                        assert(self.games@[j] == before.games@[j]);
                    }
                }
                assert forall|j: int| i + 1 <= j < self.games@.len() implies #[trigger] self.games@[j] == old(self).games@[j] by {
                    assert(self.games@[j] == before.games@[j]);
                }
                mids = mids2;
            }
            assert(self.players@.subrange(0, old(self).players@.len() as int) =~= old(self).players@);
            i = i + 1;
        }
        proof {
            assert(games_stepped(old(self).games(), mids, self.games()));
        }
    }

    /// One tick of the server: forget empty games and closed connections,
    /// take the new players into the lobby, serve the lobby, then update
    /// the games (`server_tick` states it whole). That the pass over the
    /// lobby loses and duplicates no player is `lemma_tick_keeps_lobby_players`.
    pub fn update(&mut self, new_players: &mut Vec<Player>)
        requires
            old(self).wf(),
        ensures
            final(self).wf(),
            final(new_players)@ == Seq::<Player>::empty(),
            old(self).next_id() <= final(self).next_id(),
            keep_active(old(self).games()).len() <= final(self).games().len(),
            forall|j: int|
                0 <= j < keep_active(old(self).games()).len() ==> (#[trigger] final(self).games()[j]).spec_id()
                    == keep_active(old(self).games())[j].spec_id(),
            forall|j: int|
                keep_active(old(self).games()).len() <= j < final(self).games().len() ==> old(self).next_id()
                    <= (#[trigger] final(self).games()[j]).spec_id().value(),
            server_tick(*old(self), old(new_players)@, *final(self)),
    {
        self.clean_inactive_games();
        self.clean_disconnected_players();
        self.register_new_players(new_players);
        let ghost start = *self;
        self.update_connected_players();
        let ghost served = *self;
        self.update_games();
        proof {
            assert forall|j: int| 0 <= j < self.games().len() implies (#[trigger] self.games()[j]).spec_id()
                == served.games()[j].spec_id() by {}
            let run = choose|run: Seq<LobbyTick>|
                lobby_run(run, tick_of(start, 0)) && #[trigger] run.last() == tick_of(
                    served,
                    served.lobby().len() as int,
                );
            let mids = choose|mids: Seq<Game>|
                #[trigger] games_stepped(served.games(), mids, self.games()) && self.lobby()
                    == served.lobby() + all_leavers(mids);
            assert(tick_of(start, 0) == tick_start(*old(self), old(new_players)@));
            assert(lobby_run(run, tick_start(*old(self), old(new_players)@)) && games_stepped(
                run.last().games,
                mids,
                self.games(),
            ) && self.lobby() == run.last().lobby + all_leavers(mids) && self.next_id() == run.last().next_id);
        }
    }
}

pub proof fn lemma_games_extend_trans(a: GameManager, b: GameManager, c: GameManager)
    requires
        games_extend(a, b),
        games_extend(b, c),
    ensures
        games_extend(a, c),
{
    assert forall|j: int| c.games().len() <= j < a.games().len() implies (#[trigger] a.games()[j]).spec_id().value() >= c.next_id() by {
        if j < b.games().len() {
            assert(a.games()[j].spec_id() == b.games()[j].spec_id());
        }
    }
}

/// Some player of `s` has the id `id`.
pub open spec fn has_id(s: Seq<Player>, id: Id) -> bool {
    exists|k: int| #![trigger s[k]] 0 <= k < s.len() && s[k].spec_id() == id
}

/// The players of `s` whose connection is open, in order.
pub open spec fn keep_connected(s: Seq<Player>) -> Seq<Player>
    decreases s.len(),
{
    if s.len() == 0 {
        Seq::empty()
    } else {
        let prev = keep_connected(s.drop_last());
        if s.last().spec_connected() {
            prev.push(s.last())
        } else {
            prev
        }
    }
}

/// The games of `s` where a seat is taken, in order.
pub open spec fn keep_active(s: Seq<Game>) -> Seq<Game>
    decreases s.len(),
{
    if s.len() == 0 {
        Seq::empty()
    } else {
        let prev = keep_active(s.drop_last());
        if s.last().spec_active() {
            prev.push(s.last())
        } else {
            prev
        }
    }
}

/// The game ids of `s` are distinct.
pub open spec fn distinct_ids(s: Seq<Game>) -> bool {
    forall|j: int, k: int| 0 <= j < k < s.len() ==> (#[trigger] s[j]).spec_id() != (#[trigger] s[k]).spec_id()
}

/// `keep_active` keeps only games of `s`, active ones, with distinct ids
/// when those of `s` are.
pub proof fn lemma_keep_active_sub(s: Seq<Game>)
    ensures
        forall|j: int| 0 <= j < keep_active(s).len() ==> s.contains(#[trigger] keep_active(s)[j]),
        forall|j: int| 0 <= j < keep_active(s).len() ==> (#[trigger] keep_active(s)[j]).spec_active(),
        distinct_ids(s) ==> distinct_ids(keep_active(s)),
        keep_active(s).len() <= s.len(),
    decreases s.len(),
{
    if s.len() > 0 {
        let t = s.drop_last();
        lemma_keep_active_sub(t);
        assert forall|j: int| 0 <= j < keep_active(s).len() implies s.contains(#[trigger] keep_active(s)[j]) by {
            if j < keep_active(t).len() {
                let g = keep_active(t)[j];
                assert(t.contains(g));
                let k = choose|k: int| 0 <= k < t.len() && t[k] == g;
                assert(s[k] == g);
            } else {
                assert(s[s.len() - 1] == s.last());
            }
        }
        if distinct_ids(s) {
            assert(distinct_ids(t));
            assert forall|j: int, k: int|
                0 <= j < k < keep_active(s).len() implies (#[trigger] keep_active(s)[j]).spec_id() != (
                #[trigger] keep_active(s)[k]).spec_id() by {
                if k < keep_active(t).len() {
                } else {
                    let g = keep_active(t)[j];
                    assert(t.contains(g));
                    let m = choose|m: int| 0 <= m < t.len() && t[m] == g;
                    assert(s[m] == g);
                    assert(s[s.len() - 1] == s.last());
                }
            }
        }
    }
}

} // verus!
