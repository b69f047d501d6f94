use vstd::prelude::*;
use crate::chess::ChessMove;
use crate::game::Game;
use crate::id::Id;

verus! {

/// What a client sends to the server.
#[derive(Debug, Clone, PartialEq)]
pub enum ClientMessage {
    Text(String),
    Ping,
    Pong,
    /// Asks for the games that the server hosts.
    RequestGames,
    GameJoinRequest(Id),
    GameInfoRequest(Id),
    GameCreateRequest,
    LeaveGameRequest,
    MakeMove(ChessMove),
}

/// What the server sends to a client.
#[derive(Debug, Clone, PartialEq)]
pub enum ServerMessage {
    Text(String),
    Ping,
    Pong,
    /// The games that the server hosts.
    Games(Vec<Game>),
    GameJoin(Game),
    GameLeave,
    GameJoinFaill(String),
    GameInfoUpdate(Id, Game),
    GameInfoUpdateFail(Id, String),
    GameCreateSucess(Id),
    GameCreatefail(String),
    MoveResponse { chess_move: ChessMove, valid: bool },
}

impl ClientMessage {
    pub fn is_ping(&self) -> (r: bool)
        ensures
            r == (*self is Ping),
    {
        matches!(self, ClientMessage::Ping)
    }

    pub fn is_pong(&self) -> (r: bool)
        ensures
            r == (*self is Pong),
    {
        matches!(self, ClientMessage::Pong)
    }

    pub fn default_ping() -> (r: ClientMessage)
        ensures
            r is Ping,
    {
        ClientMessage::Ping
    }

    pub fn default_pong() -> (r: ClientMessage)
        ensures
            r is Pong,
    {
        ClientMessage::Pong
    }
}

impl ServerMessage {
    pub fn is_ping(&self) -> (r: bool)
        ensures
            r == (*self is Ping),
    {
        matches!(self, ServerMessage::Ping)
    }

    pub fn is_pong(&self) -> (r: bool)
        ensures
            r == (*self is Pong),
    {
        matches!(self, ServerMessage::Pong)
    }

    pub fn default_ping() -> (r: ServerMessage)
        ensures
            r is Ping,
    {
        ServerMessage::Ping
    }

    pub fn default_pong() -> (r: ServerMessage)
        ensures
            r is Pong,
    {
        ServerMessage::Pong
    }
}

} // verus!
