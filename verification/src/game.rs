use vstd::prelude::*;
use crate::chess::{Board, Color};
use crate::id::Id;

verus! {

/// What a client is told about a game.
#[derive(Debug, Clone, PartialEq)]
pub struct Game {
    id: Id,
    players: [Option<Player>; 2],
    state: State,
}

/// What a client is told about a player.
#[derive(Debug, Clone, PartialEq)]
pub struct Player {
    id: Id,
    name: String,
    color: Option<Color>,
}

/// Stage of a game.
#[derive(Debug, Clone, PartialEq)]
pub enum State {
    PlayerDisconnected,
    Waiting,
    GameStart,
    Playing { board: Board },
    GameEnd { winner: Option<Id> },
}

/// A new game waits for its players.
impl Default for State {
    fn default() -> (r: State)
        ensures
            r is Waiting,
    {
        State::Waiting
    }
}

impl State {
    /// The name of the stage.
    pub fn variant_name(&self) -> (r: &'static str)
        ensures
            r@ == match self {
                State::PlayerDisconnected => "PlayerDisconnected"@,
                State::Waiting => "Waiting"@,
                State::GameStart => "GameStart"@,
                State::Playing { .. } => "Playing"@,
                State::GameEnd { .. } => "GameEnd"@,
            },
    {
        match self {
            State::PlayerDisconnected => "PlayerDisconnected",
            State::Waiting => "Waiting",
            State::GameStart => "GameStart",
            State::Playing { .. } => "Playing",
            State::GameEnd { .. } => "GameEnd",
        }
    }
}

/// Number of seats of `players` that are taken.
pub open spec fn seats_taken(players: [Option<Player>; 2]) -> nat {
    (if players[0] is Some { 1nat } else { 0nat }) + (if players[1] is Some { 1nat } else { 0nat })
}

impl Game {
    pub closed spec fn spec_id(&self) -> Id {
        self.id
    }

    pub closed spec fn spec_players(&self) -> [Option<Player>; 2] {
        self.players
    }

    pub closed spec fn spec_state(&self) -> State {
        self.state
    }

    pub fn new(id: Id, players: [Option<Player>; 2], state: State) -> (r: Game)
        ensures
            r.spec_id() == id,
            r.spec_players() == players,
            r.spec_state() == state,
    {
        Game { id, players, state }
    }

    pub fn id(&self) -> (r: Id)
        ensures
            r == self.spec_id(),
    {
        self.id
    }

    /// An equal copy of the game.
    pub fn duplicate(&self) -> (r: Game)
        ensures
            r == *self,
    {
        let a = match &self.players[0] {
            Some(p) => Some(p.duplicate()),
            None => None,
        };
        let b = match &self.players[1] {
            Some(p) => Some(p.duplicate()),
            None => None,
        };
        let state = match &self.state {
            State::PlayerDisconnected => State::PlayerDisconnected,
            State::Waiting => State::Waiting,
            State::GameStart => State::GameStart,
            State::Playing { board } => State::Playing { board: *board },
            State::GameEnd { winner } => State::GameEnd { winner: *winner },
        };
        let r = Game { id: self.id, players: [a, b], state };
        assert(r.players =~= self.players);
        r
    }

    /// Number of seats taken.
    pub fn player_count(&self) -> (r: usize)
        ensures
            r == seats_taken(self.spec_players()),
    {
        let mut n: usize = 0;
        if self.players[0].is_some() {
            n = n + 1;
        }
        if self.players[1].is_some() {
            n = n + 1;
        }
        n
    }

    /// A game has two seats.
    pub fn max_players(&self) -> (r: usize)
        ensures
            r == 2,
    {
        2
    }

    pub fn players(&self) -> (r: &[Option<Player>; 2])
        ensures
            *r == self.spec_players(),
    {
        &self.players
    }

    pub fn state(&mut self) -> (r: &mut State)
        ensures
            *r == old(self).spec_state(),
            final(self).spec_state() == *final(r),
            final(self).spec_id() == old(self).spec_id(),
            final(self).spec_players() == old(self).spec_players(),
    {
        &mut self.state
    }
}

impl Player {
    pub closed spec fn spec_id(&self) -> Id {
        self.id
    }

    pub closed spec fn spec_name(&self) -> Seq<char> {
        self.name@
    }

    pub closed spec fn spec_color(&self) -> Option<Color> {
        self.color
    }

    pub fn new(id: Id, name: String, color: Option<Color>) -> (r: Player)
        ensures
            r.spec_id() == id,
            r.spec_name() == name@,
            r.spec_color() == color,
    {
        Player { id, name, color }
    }

    pub fn id(&self) -> (r: Id)
        ensures
            r == self.spec_id(),
    {
        self.id
    }

    /// An equal copy of the player.
    pub fn duplicate(&self) -> (r: Player)
        ensures
            r == *self,
    {
        Player { id: self.id, name: self.name.clone(), color: self.color }
    }

    pub fn color(&self) -> (r: Option<Color>)
        ensures
            r == self.spec_color(),
    {
        self.color
    }

    pub fn name(&self) -> (r: &String)
        ensures
            r@ == self.spec_name(),
    {
        &self.name
    }
}

} // verus!
