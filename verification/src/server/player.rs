use vstd::prelude::*;
use crate::chess::Color;
use crate::id::Id;
use crate::message::{ClientMessage, ServerMessage};
use crate::text::{decimal, decimal_chars, push_str, string_from_chars};

verus! {

/// Why nothing was received from a player.
#[derive(Debug, Clone, Copy, PartialEq, Eq, Structural)]
pub enum TryRecvError {
    /// No message is waiting.
    Empty,
    /// No message is waiting and the connection is closed.
    Disconnected,
}

/// A message that could not be sent because the connection is closed.
#[derive(Debug)]
pub struct SendError(pub ServerMessage);

/// A client connected to the server, seen as a mailbox: the messages it
/// sent that were not read yet, and the messages for it that were not
/// delivered yet. The network side fills the one and empties the other.
pub struct Player {
    id: Id,
    name: String,
    color: Option<Color>,
    connected: bool,
    inbox: Vec<ClientMessage>,
    outbox: Vec<ServerMessage>,
}

/// The name given to the player of a client: "Player" and its number.
pub open spec fn player_name(id: Id) -> Seq<char> {
    "Player"@ + decimal(id.value())
}

impl Player {
    pub closed spec fn spec_id(&self) -> Id {
        self.id
    }

    pub closed spec fn spec_name(&self) -> Seq<char> {
        self.name@
    }

    pub closed spec fn spec_color(&self) -> Option<Color> {
        self.color
    }

    pub closed spec fn spec_connected(&self) -> bool {
        self.connected
    }

    /// Messages received from the client and not read yet, oldest first.
    pub closed spec fn inbox(&self) -> Seq<ClientMessage> {
        self.inbox@
    }

    /// Messages for the client not delivered yet, oldest first.
    pub closed spec fn outbox(&self) -> Seq<ServerMessage> {
        self.outbox@
    }

    /// The player of the client `id`: connected, no color, nothing pending.
    pub fn new(id: Id) -> (r: Player)
        ensures
            r.spec_id() == id,
            r.spec_name() == player_name(id),
            r.spec_color() is None,
            r.spec_connected(),
            r.inbox() == Seq::<ClientMessage>::empty(),
            r.outbox() == Seq::<ServerMessage>::empty(),
    {
        let mut cs: Vec<char> = Vec::new();
        push_str(&mut cs, "Player");
        let mut digits = decimal_chars(id.get());
        cs.append(&mut digits);
        Player {
            id,
            name: string_from_chars(cs),
            color: None,
            connected: true,
            inbox: Vec::new(),
            outbox: Vec::new(),
        }
    }

    pub fn id(&self) -> (r: Id)
        ensures
            r == self.spec_id(),
    {
        self.id
    }

    pub fn name(&self) -> (r: String)
        ensures
            r@ == self.spec_name(),
    {
        self.name.clone()
    }

    pub fn color(&self) -> (r: Option<Color>)
        ensures
            r == self.spec_color(),
    {
        self.color
    }

    pub fn is_connected(&self) -> (r: bool)
        ensures
            r == self.spec_connected(),
    {
        self.connected
    }

    /// Takes the oldest message received from the client.
    pub fn try_recv(&mut self) -> (r: Result<ClientMessage, TryRecvError>)
        ensures
            final(self).spec_id() == old(self).spec_id(),
            final(self).spec_name() == old(self).spec_name(),
            final(self).spec_color() == old(self).spec_color(),
            final(self).spec_connected() == old(self).spec_connected(),
            final(self).outbox() == old(self).outbox(),
            old(self).inbox().len() > 0 ==> r == Ok::<ClientMessage, TryRecvError>(old(self).inbox()[0])
                && final(self).inbox() == old(self).inbox().drop_first(),
            old(self).inbox().len() == 0 ==> final(self).inbox() == old(self).inbox() && r == Err::<
                ClientMessage,
                TryRecvError,
            >(if old(self).spec_connected() {
                TryRecvError::Empty
            } else {
                TryRecvError::Disconnected
            }),
    {
        if self.inbox.len() == 0 {
            if self.connected {
                Err(TryRecvError::Empty)
            } else {
                Err(TryRecvError::Disconnected)
            }
        } else {
            let m = self.inbox.remove(0);
            assert(self.inbox@ =~= old(self).inbox@.drop_first());
            Ok(m)
        }
    }

    /// Queues a message for the client; fails when the connection is
    /// closed.
    pub fn send(&mut self, msg: ServerMessage) -> (r: Result<(), SendError>)
        ensures
            final(self).spec_id() == old(self).spec_id(),
            final(self).spec_name() == old(self).spec_name(),
            final(self).spec_color() == old(self).spec_color(),
            final(self).spec_connected() == old(self).spec_connected(),
            final(self).inbox() == old(self).inbox(),
            r is Ok <==> old(self).spec_connected(),
            r is Ok ==> final(self).outbox() == old(self).outbox().push(msg),
            r is Err ==> final(self).outbox() == old(self).outbox(),
    {
        if self.connected {
            self.outbox.push(msg);
            Ok(())
        } else {
            Err(SendError(msg))
        }
    }

    pub fn set_color(&mut self, color: Color)
        ensures
            final(self).spec_color() == Some(color),
            final(self).spec_id() == old(self).spec_id(),
            final(self).spec_name() == old(self).spec_name(),
            final(self).spec_connected() == old(self).spec_connected(),
            final(self).inbox() == old(self).inbox(),
            final(self).outbox() == old(self).outbox(),
    {
        self.color = Some(color)
    }

    /// Records whether the connection of the client is still open.
    pub fn set_connected(&mut self, connected: bool)
        ensures
            final(self).spec_connected() == connected,
            final(self).spec_id() == old(self).spec_id(),
            final(self).spec_name() == old(self).spec_name(),
            final(self).spec_color() == old(self).spec_color(),
            final(self).inbox() == old(self).inbox(),
            final(self).outbox() == old(self).outbox(),
    {
        self.connected = connected
    }

    /// Hands over a message received from the client.
    pub fn deliver(&mut self, msg: ClientMessage)
        ensures
            final(self).inbox() == old(self).inbox().push(msg),
            final(self).spec_connected() == old(self).spec_connected(),
            final(self).spec_id() == old(self).spec_id(),
            final(self).spec_name() == old(self).spec_name(),
            final(self).spec_color() == old(self).spec_color(),
            final(self).outbox() == old(self).outbox(),
    {
        self.inbox.push(msg)
    }

    /// Takes every message waiting to be sent to the client, oldest first.
    pub fn take_outgoing(&mut self) -> (r: Vec<ServerMessage>)
        ensures
            r@ == old(self).outbox(),
            final(self).outbox() == Seq::<ServerMessage>::empty(),
            final(self).inbox() == old(self).inbox(),
            final(self).spec_connected() == old(self).spec_connected(),
            final(self).spec_id() == old(self).spec_id(),
            final(self).spec_name() == old(self).spec_name(),
            final(self).spec_color() == old(self).spec_color(),
    {
        let mut out: Vec<ServerMessage> = Vec::new();
        out.append(&mut self.outbox);
        out
    }

    /// What a client is told about this player.
    pub fn to_public(&self) -> (r: crate::game::Player)
        ensures
            r.spec_id() == self.spec_id(),
            r.spec_name() == self.spec_name(),
            r.spec_color() == self.spec_color(),
    {
        crate::game::Player::new(self.id, self.name.clone(), self.color)
    }
}

} // verus!
