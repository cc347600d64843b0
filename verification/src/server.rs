//! The discovery server's per-request decisions.
//!
//! The surrounding transport loop accepts connections, reads one framed
//! request at a time, writes the reply, and persists the directory; the
//! decisions — which requests are served, what the reply says, and how a
//! served handshake changes the directory — live here.

use vstd::prelude::*;

use crate::info::{spec_record_handshake, wf, PeerInfo};
use crate::request::{Ping, Pong, ReadOutcome, Request};

verus! {

/// The reply to every valid ping: a pong carrying the server's own
/// identifier and chat address.
pub fn pong_for(dir: &PeerInfo) -> (r: Pong)
    ensures
        r@.peer_id == dir@.id,
        r@.peer_chat_addr == dir@.chat_addr,
{
    Pong::new(dir.id, dir.chat_addr.duplicate())
}

/// Picks the requests the server serves: exactly the well-formed pings.
/// Anything else — another variant, a malformed payload, an aborted read —
/// is skipped, and the connection loop simply retries.
pub fn served_ping(read: &ReadOutcome) -> (r: Option<&Ping>)
    ensures
        r is Some <==> (read matches ReadOutcome::Frame(Request::Ping(_))),
        r matches Some(p) ==> (read matches ReadOutcome::Frame(Request::Ping(q)) && p@ == q@),
{
    match read {
        ReadOutcome::Frame(Request::Ping(p)) => Some(p),
        _ => None,
    }
}

/// Applies a served ping whose pong reply was delivered: the requester is
/// inserted or refreshed under its identifier, marked online and stamped
/// with `now`. Callers skip this when the reply write failed, so no record
/// is made for an unreachable requester.
pub fn apply_ping(dir: &mut PeerInfo, ping: &Ping, now: u64)
    requires
        wf(old(dir)@),
    ensures
        wf(final(dir)@),
        final(dir)@ == spec_record_handshake(
            old(dir)@,
            ping@.peer_id,
            ping@.peer_addr,
            ping@.peer_chat_addr,
            now,
        ),
{
    dir.record_handshake(&ping.peer_id, &ping.peer_addr, &ping.peer_chat_addr, now);
}

/// A served handshake leaves the directory with a record for the sender:
/// online, last seen at `now` — no earlier than the moment the handshake
/// began — with every other record and the local identity unchanged.
pub proof fn lemma_handshake_outcome(
    d: crate::info::DirView,
    id: Seq<u8>,
    a: Seq<u8>,
    c: Seq<u8>,
    now: u64,
)
    requires
        wf(d),
        id != d.id,
    ensures
        crate::info::spec_has_peer(spec_record_handshake(d, id, a, c, now).peers, id),
        exists|i: int|
            0 <= i < spec_record_handshake(d, id, a, c, now).peers.len()
                && #[trigger] spec_record_handshake(d, id, a, c, now).peers[i].id == id
                && spec_record_handshake(d, id, a, c, now).peers[i].status is Online
                && spec_record_handshake(d, id, a, c, now).peers[i].last_seen == Some(now),
        spec_record_handshake(d, id, a, c, now).id == d.id,
        spec_record_handshake(d, id, a, c, now).addr == d.addr,
        spec_record_handshake(d, id, a, c, now).chat_addr == d.chat_addr,
        spec_record_handshake(d, id, a, c, now).path == d.path,
        forall|i: int|
            0 <= i < d.peers.len() && (#[trigger] d.peers[i]).id != id ==> spec_record_handshake(
                d,
                id,
                a,
                c,
                now,
            ).peers[i] == d.peers[i],
{
    let d2 = spec_record_handshake(d, id, a, c, now);
    if crate::info::spec_has_peer(d.peers, id) {
        let i = choose|i: int| 0 <= i < d.peers.len() && d.peers[i].id == id;
        assert(d2.peers[i].id == id && d2.peers[i].status is Online && d2.peers[i].last_seen
            == Some(now));
    } else {
        let i = d.peers.len() as int;
        assert(d2.peers[i].id == id && d2.peers[i].status is Online && d2.peers[i].last_seen
            == Some(now));
    }
}

} // verus!
