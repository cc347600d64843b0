//! Peers: network addresses, online status, and directory records.

use vstd::prelude::*;

use crate::uuid::Uuid;

verus! {

/// A network address, kept as the bytes of its text form. The library
/// never interprets an address; it only stores it and copies it onto the
/// wire.
#[derive(Clone, PartialEq, Eq, Debug)]
pub struct Addr {
    pub bytes: Vec<u8>,
}

impl View for Addr {
    type V = Seq<u8>;

    open spec fn view(&self) -> Seq<u8> {
        self.bytes@
    }
}

impl Addr {
    /// An address from the bytes of its text form.
    pub fn new(bytes: Vec<u8>) -> (r: Addr)
        ensures
            r@ == bytes@,
    {
        Addr { bytes }
    }

    /// A copy of this address.
    pub fn duplicate(&self) -> (r: Addr)
        ensures
            r@ == self@,
    {
        let bytes = self.bytes.clone();
        proof {
            assert(bytes@ =~= self.bytes@);
        }
        Addr { bytes }
    }
}

/// Whether a peer has answered a handshake.
#[derive(Clone, Copy, PartialEq, Eq, Structural, Debug)]
pub enum Status {
    Online,
    Offline,
}

impl Status {
    /// The text of this status.
    pub fn as_text(&self) -> (r: String)
        ensures
            self is Online ==> r@ == "online"@,
            self is Offline ==> r@ == "offline"@,
    {
        match self {
            Status::Online => "online".to_owned(),
            Status::Offline => "offline".to_owned(),
        }
    }
}

impl Default for Status {
    /// A peer is offline until a handshake succeeds.
    fn default() -> (r: Self)
        ensures
            r is Offline,
    {
        Status::Offline
    }
}

/// The mathematical value of a directory record.
#[verifier::ext_equal]
pub ghost struct PeerV {
    pub id: Seq<u8>,
    pub addr: Seq<u8>,
    pub chat_addr: Seq<u8>,
    pub status: Status,
    pub last_seen: Option<u64>,
}

/// One entry of the peer directory: a peer's identifier, control and chat
/// addresses, status, and the time of the last successful handshake, in
/// seconds of the Unix epoch.
#[derive(Clone, PartialEq, Eq, Debug)]
pub struct Peer {
    pub id: Uuid,
    pub addr: Addr,
    pub chat_addr: Addr,
    pub status: Status,
    pub last_seen: Option<u64>,
}

impl View for Peer {
    type V = PeerV;

    open spec fn view(&self) -> PeerV {
        PeerV {
            id: self.id@,
            addr: self.addr@,
            chat_addr: self.chat_addr@,
            status: self.status,
            last_seen: self.last_seen,
        }
    }
}

impl Peer {
    /// A record for a newly met peer: offline, never seen.
    pub fn new(id: Uuid, addr: Addr, chat_addr: Addr) -> (r: Peer)
        ensures
            r@ == (PeerV {
                id: id@,
                addr: addr@,
                chat_addr: chat_addr@,
                status: Status::Offline,
                last_seen: None,
            }),
    {
        Peer { id, addr, chat_addr, status: Status::Offline, last_seen: None }
    }

    /// A copy of this record.
    pub fn duplicate(&self) -> (r: Peer)
        ensures
            r@ == self@,
    {
        Peer {
            id: self.id,
            addr: self.addr.duplicate(),
            chat_addr: self.chat_addr.duplicate(),
            status: self.status,
            last_seen: self.last_seen,
        }
    }
}

} // verus!
