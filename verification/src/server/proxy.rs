use vstd::prelude::*;
use crate::message::{ClientMessage, ServerMessage};
use crate::networking::{IoKind, SocketError};
use crate::threading::Channel;

verus! {

/// Why a client proxy stops.
#[derive(Debug, Clone, PartialEq, Eq)]
pub enum NetworkError {
    Socket(SocketError),
    ChannelSend(String),
}

/// `format!("{:?}")` of a refused send: how the failure is reported.
#[verifier::external_body]
fn describe<T: std::fmt::Debug>(e: &std::sync::mpsc::SendError<T>) -> String {
    format!("{e:?}")
}

/// The answer a proxy gives at once to a message of its client, before
/// passing the message on: a ping is answered with a pong.
pub open spec fn reply_of(msg: ClientMessage) -> Option<ServerMessage> {
    match msg {
        ClientMessage::Ping => Some(ServerMessage::Pong),
        _ => None,
    }
}

/// Stands between the socket of one client and the server: it passes the
/// messages of the one to the other, and stops at the first failure.
pub struct ClientProxy {
    server: Channel<ServerMessage, ClientMessage>,
    running: bool,
}

impl ClientProxy {
    pub closed spec fn spec_running(&self) -> bool {
        self.running
    }

    /// The messages of the client handed to the server so far, oldest first.
    pub closed spec fn forwarded(&self) -> Seq<ClientMessage> {
        self.server.handed()
    }

    /// A running proxy talking to the server through `server`.
    pub fn new(server: Channel<ServerMessage, ClientMessage>) -> (r: ClientProxy)
        ensures
            r.spec_running(),
            r.forwarded() == server.handed(),
    {
        ClientProxy { server, running: true }
    }

    pub fn is_running(&self) -> (r: bool)
        ensures
            r == self.spec_running(),
    {
        self.running
    }

    /// The next message the server has for the client, if one is waiting.
    pub fn next_for_client(&self) -> Option<ServerMessage> {
        match self.server.try_recv() {
            Ok(msg) => Some(msg),
            Err(_) => None,
        }
    }

    /// The answer to give the client at once for `msg`.
    pub fn reply_to(msg: &ClientMessage) -> (r: Option<ServerMessage>)
        ensures
            r == reply_of(*msg),
    {
        match msg {
            ClientMessage::Ping => Some(ServerMessage::Pong),
            _ => None,
        }
    }

    /// Passes a message of the client on to the server; if the server is
    /// gone, the proxy stops.
    pub fn forward_to_server(&mut self, msg: ClientMessage) -> (r: Result<(), NetworkError>)
        ensures
            final(self).forwarded() == old(self).forwarded().push(msg),
            r is Ok ==> final(self).spec_running() == old(self).spec_running(),
            r is Err ==> !final(self).spec_running() && r matches Err(NetworkError::ChannelSend(_)),
    {
        match self.server.send(msg) {
            Ok(()) => Ok(()),
            Err(e) => {
                self.running = false;
                Err(NetworkError::ChannelSend(describe(&e)))
            },
        }
    }

    /// Writing to the client failed: the proxy stops.
    pub fn client_write_failed(&mut self, error: SocketError) -> (r: NetworkError)
        ensures
            !final(self).spec_running(),
            final(self).forwarded() == old(self).forwarded(),
            r == NetworkError::Socket(error),
    {
        self.running = false;
        NetworkError::Socket(error)
    }

    /// Reading from the client failed. Data that is not all there yet is
    /// waited for; anything else stops the proxy.
    pub fn client_read_failed(&mut self, error: SocketError) -> (r: Result<(), NetworkError>)
        ensures
            final(self).forwarded() == old(self).forwarded(),
            error == SocketError::StreamRead(IoKind::WouldBlock) ==> r is Ok && final(self).spec_running()
                == old(self).spec_running(),
            error != SocketError::StreamRead(IoKind::WouldBlock) ==> r == Err::<(), NetworkError>(
                NetworkError::Socket(error),
            ) && !final(self).spec_running(),
    {
        let would_block = match error {
            SocketError::StreamRead(IoKind::WouldBlock) => true,
            _ => false,
        };
        if would_block {
            Ok(())
        } else {
            self.running = false;
            Err(NetworkError::Socket(error))
        }
    }

    /// Stops the proxy.
    pub fn stop(&mut self)
        ensures
            !final(self).spec_running(),
            final(self).forwarded() == old(self).forwarded(),
    {
        self.running = false;
    }
}

} // verus!
