use chess_game::chess::{ChessMove, Color, File, Piece, Position, Rank};
use chess_game::error::GameError;
use chess_game::game::{Game as GameInfo, Player as PlayerInfo, State};
use chess_game::id::Id;
use chess_game::message::{ClientMessage, ServerMessage};
use chess_game::server::game::Game;
use chess_game::server::player::TryRecvError;
use chess_game::server::{GameManager, Player};

fn id(n: u64) -> Id {
    Id::new(n).unwrap()
}

#[test]
fn ids() {
    assert!(Id::new(0).is_none());
    assert_eq!(Id::new(7).unwrap().get(), 7);
    assert_eq!(Id::new(7), Id::new(7));
}

#[test]
fn player_mailbox() {
    let mut p = Player::new(id(12));
    assert_eq!(p.name(), "Player12");
    assert_eq!(p.id(), id(12));
    assert!(p.is_connected());
    assert!(p.color().is_none());

    assert_eq!(p.try_recv(), Err(TryRecvError::Empty));
    p.deliver(ClientMessage::Ping);
    p.deliver(ClientMessage::RequestGames);
    assert_eq!(p.try_recv(), Ok(ClientMessage::Ping));
    assert_eq!(p.try_recv(), Ok(ClientMessage::RequestGames));

    assert!(p.send(ServerMessage::Pong).is_ok());
    assert_eq!(p.take_outgoing(), vec![ServerMessage::Pong]);
    assert!(p.take_outgoing().is_empty());

    p.set_connected(false);
    assert!(p.send(ServerMessage::Pong).is_err());
    assert_eq!(p.try_recv(), Err(TryRecvError::Disconnected));
}

#[test]
fn lobby_and_games() {
    let mut mgr = GameManager::new();
    let mut p1 = Player::new(id(1));
    p1.deliver(ClientMessage::RequestGames);
    let mut fresh = vec![p1];
    mgr.update(&mut fresh);
    assert!(fresh.is_empty());
    assert_eq!(mgr.lobby_count(), 1);
    assert_eq!(mgr.lobby_player_mut(0).take_outgoing(), vec![ServerMessage::Games(vec![])]);

    // Creating a game seats its creator.
    mgr.lobby_player_mut(0).deliver(ClientMessage::GameCreateRequest);
    mgr.update(&mut Vec::new());
    assert_eq!(mgr.lobby_count(), 0);
    assert_eq!(mgr.game_count(), 1);
    let gid = mgr.game(0).id();
    assert!(mgr.game(0).is_active());
    assert!(!mgr.game(0).is_full());
    assert_eq!(mgr.game(0).seat_player_id(0), Some(id(1)));
    let out = mgr.seat_player_mut(0, 0).unwrap().take_outgoing();
    assert!(matches!(out.first(), Some(ServerMessage::GameJoin(_))));
    assert!(mgr.seat_player_mut(0, 1).is_none());

    // A second player joins it; a third finds it full.
    let mut p2 = Player::new(id(2));
    p2.deliver(ClientMessage::GameJoinRequest(gid));
    mgr.update(&mut vec![p2]);
    assert!(mgr.game(0).is_full());
    assert_eq!(mgr.game(0).seat_player_id(1), Some(id(2)));

    let mut p3 = Player::new(id(3));
    p3.deliver(ClientMessage::GameJoinRequest(gid));
    p3.deliver(ClientMessage::GameInfoRequest(id(99)));
    p3.deliver(ClientMessage::GameJoinRequest(id(99)));
    mgr.update(&mut vec![p3]);
    assert_eq!(mgr.lobby_count(), 1);
    let out = mgr.lobby_player_mut(0).take_outgoing();
    // A failed info request ends the reading of the player's messages for
    // this turn; the rest is read on the next one.
    assert_eq!(out.len(), 2);
    assert!(matches!(&out[0], ServerMessage::GameJoinFaill(_)));
    assert!(matches!(&out[1], ServerMessage::GameInfoUpdateFail(g, _) if *g == id(99)));
    mgr.update(&mut Vec::new());
    let out = mgr.lobby_player_mut(0).take_outgoing();
    assert_eq!(out.len(), 1);
    assert!(matches!(&out[0], ServerMessage::GameJoinFaill(_)));

    // A lobby player that disconnects is dropped.
    mgr.lobby_player_mut(0).set_connected(false);
    mgr.update(&mut Vec::new());
    assert_eq!(mgr.lobby_count(), 0);
}

#[test]
fn game_seats() {
    let mut g = Game::new(id(5));
    assert_eq!(g.id(), id(5));
    assert!(!g.is_active());
    assert!(g.connect_player(Player::new(id(1))).is_ok());
    assert!(g.connect_player(Player::new(id(2))).is_ok());
    assert!(g.is_full());
    assert_eq!(g.connect_player(Player::new(id(3))), Err(GameError::SessionIsFull));
    let mut gone = Player::new(id(4));
    gone.set_connected(false);
    let mut h = Game::new(id(6));
    assert_eq!(h.connect_player(gone), Err(GameError::FailledToAcceptPlayer));
}

#[test]
fn shared_game() {
    let p = PlayerInfo::new(id(1), "Ana".to_string(), None);
    let mut g = GameInfo::new(id(3), [Some(p.clone()), None], State::default());
    assert_eq!(g.id(), id(3));
    assert_eq!(g.player_count(), 1);
    assert_eq!(g.max_players(), 2);
    assert_eq!(g.players()[0], Some(p));
    assert_eq!(*g.state(), State::Waiting);
    *g.state() = State::GameStart;
    assert_eq!(g.state().variant_name(), "GameStart");
}

#[test]
fn messages() {
    assert!(ClientMessage::default_ping().is_ping());
    assert!(ClientMessage::default_pong().is_pong());
    assert!(!ClientMessage::Ping.is_pong());
    assert!(ServerMessage::default_ping().is_ping());
    assert!(ServerMessage::default_pong().is_pong());
}

#[test]
fn server_plays_moves() {
    let mut mgr = GameManager::new();
    let mut p1 = Player::new(id(1));
    p1.deliver(ClientMessage::GameCreateRequest);
    mgr.update(&mut vec![p1]);
    let gid = mgr.game(0).id();
    let mut p2 = Player::new(id(2));
    p2.deliver(ClientMessage::GameJoinRequest(gid));
    // The game starts in the turn the second player joins.
    mgr.update(&mut vec![p2]);
    assert!(matches!(mgr.game(0).state(), State::Playing { .. }));

    let white_seat = if mgr.seat_player_mut(0, 0).unwrap().color() == Some(Color::White) { 0 } else { 1 };
    assert_eq!(mgr.seat_player_mut(0, 1 - white_seat).unwrap().color(), Some(Color::Black));
    for s in 0..2 {
        mgr.seat_player_mut(0, s).unwrap().take_outgoing();
    }

    let e2 = Position::from_file_rank(File::E, Rank::Two);
    let e4 = Position::from_file_rank(File::E, Rank::Four);
    let good = ChessMove::new(e2, e4, Piece::Pawn, Color::White);
    let bad = ChessMove::new(e2, e4, Piece::Pawn, Color::Black);
    mgr.seat_player_mut(0, 1 - white_seat).unwrap().deliver(ClientMessage::MakeMove(bad));
    mgr.seat_player_mut(0, white_seat).unwrap().deliver(ClientMessage::MakeMove(good));
    mgr.update(&mut Vec::new());

    match mgr.game(0).state() {
        State::Playing { board } => {
            assert_eq!(board.read(e4), Some((Color::White, Piece::Pawn)));
            assert_eq!(board.read(e2), None);
            assert_eq!(board.next_to_play(), Color::Black);
        },
        other => panic!("the game should still be played, not {other:?}"),
    }
    let black_out = mgr.seat_player_mut(0, 1 - white_seat).unwrap().take_outgoing();
    assert!(black_out.contains(&ServerMessage::MoveResponse { chess_move: bad, valid: false }));
    // The rejected move makes the server send the game to both players.
    assert!(black_out.iter().any(|m| matches!(m, ServerMessage::GameInfoUpdate(g, _) if *g == gid)));

    // Leaving brings the player back to the lobby.
    mgr.seat_player_mut(0, white_seat).unwrap().deliver(ClientMessage::LeaveGameRequest);
    mgr.update(&mut Vec::new());
    assert_eq!(mgr.lobby_count(), 1);
    assert_eq!(mgr.lobby_player_mut(0).id(), if white_seat == 0 { id(1) } else { id(2) });
    assert!(mgr.lobby_player_mut(0).take_outgoing().contains(&ServerMessage::GameLeave));
}

#[test]
fn lobby_replies() {
    let mut mgr = GameManager::new();
    let mut p1 = Player::new(id(1));
    p1.deliver(ClientMessage::GameCreateRequest);
    mgr.update(&mut vec![p1]);
    let gid = mgr.game(0).id();

    let mut p2 = Player::new(id(2));
    p2.deliver(ClientMessage::RequestGames);
    p2.deliver(ClientMessage::GameInfoRequest(gid));
    p2.deliver(ClientMessage::GameJoinRequest(id(99)));
    p2.deliver(ClientMessage::Text("hello".to_string()));
    mgr.update(&mut vec![p2]);
    assert_eq!(mgr.lobby_count(), 1);
    let out = mgr.lobby_player_mut(0).take_outgoing();
    assert_eq!(out.len(), 3);
    match &out[0] {
        ServerMessage::Games(list) => {
            assert_eq!(list.len(), 1);
            assert_eq!(list[0].id(), gid);
            assert_eq!(list[0].player_count(), 1);
        }
        other => panic!("unexpected {:?}", other),
    }
    match &out[1] {
        ServerMessage::GameInfoUpdate(g, info) => {
            assert_eq!(*g, gid);
            assert_eq!(info.id(), gid);
            assert_eq!(info.players()[0].as_ref().unwrap().id(), id(1));
            assert_eq!(info.players()[0].as_ref().unwrap().name(), "Player1");
            assert!(info.players()[1].is_none());
        }
        other => panic!("unexpected {:?}", other),
    }
    assert_eq!(out[2], ServerMessage::GameJoinFaill("Could not find the requested game".to_string()));

    // The game gets its second player; a third player finds it full.
    mgr.lobby_player_mut(0).deliver(ClientMessage::GameJoinRequest(gid));
    let mut p3 = Player::new(id(3));
    p3.deliver(ClientMessage::GameJoinRequest(gid));
    p3.deliver(ClientMessage::GameInfoRequest(id(42)));
    mgr.update(&mut vec![p3]);
    assert_eq!(mgr.lobby_count(), 1);
    let out = mgr.lobby_player_mut(0).take_outgoing();
    assert_eq!(
        out,
        vec![
            ServerMessage::GameJoinFaill("Could not connect to game {game_id}: This game is full".to_string()),
            ServerMessage::GameInfoUpdateFail(id(42), "Could not fetch active game with the give id".to_string()),
        ]
    );
    assert!(mgr.game(0).is_full());
}

fn info_state(m: &ServerMessage) -> State {
    match m {
        ServerMessage::GameInfoUpdate(_, g) => g.clone().state().clone(),
        other => panic!("not an info update: {:?}", other),
    }
}

#[test]
fn game_update_messages() {
    let mut g = Game::new(id(5));
    assert!(g.connect_player(Player::new(id(1))).is_ok());
    assert!(g.connect_player(Player::new(id(2))).is_ok());
    for s in 0..2 {
        let out = g.seat_player_mut(s).unwrap().take_outgoing();
        assert_eq!(out.len(), 2);
        assert!(matches!(&out[0], ServerMessage::GameJoin(_)));
        assert_eq!(info_state(&out[1]), State::GameStart);
    }

    // The start: colors, the game as it was, then the new game.
    g.update();
    assert!(matches!(g.state(), State::Playing { .. }));
    let c0 = g.seat_player_mut(0).unwrap().color().unwrap();
    let c1 = g.seat_player_mut(1).unwrap().color().unwrap();
    assert_ne!(c0, c1);
    for s in 0..2 {
        let out = g.seat_player_mut(s).unwrap().take_outgoing();
        assert_eq!(out.len(), 2);
        assert_eq!(info_state(&out[0]), State::GameStart);
        assert!(matches!(info_state(&out[1]), State::Playing { .. }));
    }

    // A player whose connection closed leaves; the other is told twice.
    g.seat_player_mut(1).unwrap().set_connected(false);
    g.update();
    assert_eq!(*g.state(), State::Waiting);
    assert_eq!(g.seat_player_id(1), None);
    let out = g.seat_player_mut(0).unwrap().take_outgoing();
    assert_eq!(out.len(), 2);
    assert_eq!(info_state(&out[0]), State::PlayerDisconnected);
    assert_eq!(info_state(&out[1]), State::Waiting);
    match &out[1] {
        ServerMessage::GameInfoUpdate(i, info) => {
            assert_eq!(*i, id(5));
            assert_eq!(info.players()[0].as_ref().unwrap().id(), id(1));
            assert!(info.players()[1].is_none());
        }
        _ => unreachable!(),
    }
}

#[test]
fn playing_alone() {
    let mut g = Game::new(id(8));
    assert!(g.connect_player(Player::new(id(1))).is_ok());
    assert!(g.connect_player(Player::new(id(2))).is_ok());
    g.update();
    for s in 0..2 {
        g.seat_player_mut(s).unwrap().take_outgoing();
    }

    // The player of seat 0 leaves during play; the round goes on.
    g.seat_player_mut(0).unwrap().deliver(ClientMessage::LeaveGameRequest);
    g.update();
    assert!(matches!(g.state(), State::Playing { .. }));
    assert_eq!(g.seat_player_id(0), None);
    let mut left = g.take_leavers();
    assert_eq!(left.len(), 1);
    assert_eq!(left[0].id(), id(1));
    assert_eq!(left[0].take_outgoing(), vec![ServerMessage::GameLeave]);

    // With a seat empty, the next round reports the disconnection.
    g.update();
    assert_eq!(*g.state(), State::PlayerDisconnected);
    let out = g.seat_player_mut(1).unwrap().take_outgoing();
    assert_eq!(out.len(), 1);
    assert_eq!(info_state(&out[0]), State::PlayerDisconnected);

    // Then the game waits again.
    g.update();
    assert_eq!(*g.state(), State::Waiting);
    let out = g.seat_player_mut(1).unwrap().take_outgoing();
    assert_eq!(out.len(), 1);
    assert_eq!(info_state(&out[0]), State::Waiting);
}

#[test]
fn fresh_ids() {
    let mut ids = chess_game::id::IdSource::new();
    let a = ids.fresh().unwrap();
    let b = ids.fresh().unwrap();
    assert_eq!(a.get(), 1);
    assert_eq!(b.get(), 2);
    assert_ne!(a, b);
}
