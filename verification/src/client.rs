//! The discovery client's one-shot handshake decisions.
//!
//! The surrounding transport code connects, writes the ping, reads one
//! reply and reports failures; what the ping says, how the reply is
//! classified, and how a pong changes the directory live here.

use vstd::prelude::*;

use crate::info::{spec_record_handshake, wf, PeerInfo};
use crate::peer::Addr;
use crate::request::{Ping, Pong, ReadOutcome, Request};

verus! {

/// Every failure that aborts a client handshake.
#[derive(Clone, Copy, PartialEq, Eq, Structural, Debug)]
pub enum HandshakeError {
    /// The outbound connection could not be opened.
    Unreachable,
    /// A socket read or write failed.
    IoFailure,
    /// The peer aborted the connection before replying.
    ConnectionAborted,
    /// The reply did not parse as any request.
    ParseFailure,
    /// The reply parsed, but was not a pong.
    ProtocolViolation,
}

/// The ping a client opens a handshake with: its own identifier and both
/// its addresses.
pub fn ping_for(dir: &PeerInfo) -> (r: Ping)
    ensures
        r@.peer_id == dir@.id,
        r@.peer_addr == dir@.addr,
        r@.peer_chat_addr == dir@.chat_addr,
{
    Ping::new(dir.id, dir.addr.duplicate(), dir.chat_addr.duplicate())
}

/// Classifies the one reply a handshake awaits: exactly a framed pong
/// succeeds; any other variant is a protocol violation, an aborted read
/// and a malformed payload are the corresponding failures.
pub fn classify_reply(read: ReadOutcome) -> (r: Result<Pong, HandshakeError>)
    ensures
        r is Ok <==> (read matches ReadOutcome::Frame(Request::Pong(_))),
        r matches Ok(p) ==> (read matches ReadOutcome::Frame(Request::Pong(q)) && p@ == q@),
        (read matches ReadOutcome::Frame(Request::Ping(_))) ==> r == Result::<Pong,
        HandshakeError>::Err(HandshakeError::ProtocolViolation),
        (read matches ReadOutcome::Frame(Request::Message(_))) ==> r == Result::<Pong,
        HandshakeError>::Err(HandshakeError::ProtocolViolation),
        read is Aborted ==> r == Result::<Pong, HandshakeError>::Err(
            HandshakeError::ConnectionAborted,
        ),
        read is Malformed ==> r == Result::<Pong, HandshakeError>::Err(
            HandshakeError::ParseFailure,
        ),
{
    match read {
        ReadOutcome::Frame(Request::Pong(p)) => Ok(p),
        ReadOutcome::Frame(_) => Err(HandshakeError::ProtocolViolation),
        ReadOutcome::Aborted => Err(HandshakeError::ConnectionAborted),
        ReadOutcome::Malformed => Err(HandshakeError::ParseFailure),
    }
}

/// Applies a valid pong from the peer dialed at `addr`: the responder is
/// inserted or refreshed under its identifier — the dialed address as its
/// control address, its declared chat address — marked online and stamped
/// with `now`.
pub fn apply_pong(dir: &mut PeerInfo, addr: &Addr, pong: &Pong, now: u64)
    requires
        wf(old(dir)@),
    ensures
        wf(final(dir)@),
        final(dir)@ == spec_record_handshake(
            old(dir)@,
            pong@.peer_id,
            addr@,
            pong@.peer_chat_addr,
            now,
        ),
{
    dir.record_handshake(&pong.peer_id, addr, &pong.peer_chat_addr, now);
}

} // verus!
