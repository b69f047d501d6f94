use vstd::prelude::*;
use crate::text::{push_str, string_from_chars};

verus! {

/// Size in bytes of an encoded `Header`: its one `usize` field is written
/// as eight bytes.
pub const HEADER_SIZE: usize = 8;

/// Precedes every packet on a socket: the size of the packet that follows.
#[derive(Debug, Clone, Copy, PartialEq, Eq, Structural)]
pub struct Header {
    pub size: usize,
}

impl Header {
    pub fn new(size: usize) -> (r: Header)
        ensures
            r.size == size,
    {
        Header { size }
    }
}

/// The kind of an I/O failure, as far as the packet layer tells them apart.
#[derive(Debug, Clone, Copy, PartialEq, Eq, Structural)]
pub enum IoKind {
    /// The operation would block: not enough data is there yet.
    WouldBlock,
    /// The other side closed the connection.
    ConnectionReset,
    Other,
}

/// Why a packet could not be sent or received.
#[derive(Debug, Clone, PartialEq, Eq)]
pub enum SocketError {
    TestError,
    Serialization(String),
    Deserialization(String),
    StreamWrite(IoKind),
    StreamRead(IoKind),
}

/// The bytes sent for a packet: its encoded header, then the message.
/// Fails if the header was not encoded on `HEADER_SIZE` bytes.
pub fn frame(header_bytes: Vec<u8>, message_bytes: Vec<u8>) -> (r: Result<Vec<u8>, SocketError>)
    ensures
        r is Ok <==> header_bytes@.len() == HEADER_SIZE,
        r matches Ok(v) ==> v@ == header_bytes@ + message_bytes@,
        r matches Err(e) ==> e is Serialization,
{
    if header_bytes.len() != HEADER_SIZE {
        let mut text: Vec<char> = Vec::new();
        push_str(&mut text, "The length of the serialized header is not equal to the HEADER_SIZE constant (8)");
        return Err(SocketError::Serialization(string_from_chars(text)));
    }
    let mut out = header_bytes;
    let mut rest = message_bytes;
    out.append(&mut rest);
    Ok(out)
}

/// Whether a peek that found `read_len` bytes can be read as the
/// `target_size` bytes wanted; otherwise the read has to wait.
pub fn check_peek(read_len: usize, target_size: usize) -> (r: Result<(), SocketError>)
    ensures
        r is Ok <==> read_len == target_size,
        r is Err ==> r == Err::<(), SocketError>(SocketError::StreamRead(IoKind::WouldBlock)),
{
    if read_len != target_size {
        Err(SocketError::StreamRead(IoKind::WouldBlock))
    } else {
        Ok(())
    }
}

/// The plain messages of the packet layer, client side.
#[derive(Debug, PartialEq)]
pub enum ClientMessage {
    Text(String),
    Ping,
    Pong,
}

/// The plain messages of the packet layer, server side.
#[derive(Debug, PartialEq)]
pub enum ServerMessage {
    Text(String),
    Ping,
    Pong,
}

} // verus!
