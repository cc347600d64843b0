//! The peer directory: the local identity plus every known peer record,
//! bound to a persistence path.

use vstd::prelude::*;

use crate::peer::{Addr, Peer, PeerV, Status};
use crate::uuid::{lemma_uuid_len, Uuid};

verus! {

/// The mathematical value of a directory.
#[verifier::ext_equal]
pub ghost struct DirView {
    pub id: Seq<u8>,
    pub addr: Seq<u8>,
    pub chat_addr: Seq<u8>,
    pub peers: Seq<PeerV>,
    pub path: Seq<u8>,
}

/// The record views of a sequence of records.
pub open spec fn views(peers: Seq<Peer>) -> Seq<PeerV> {
    peers.map_values(|p: Peer| p@)
}

/// Whether some record in `peers` has the identifier `id`.
pub open spec fn spec_has_peer(peers: Seq<PeerV>, id: Seq<u8>) -> bool {
    exists|i: int| 0 <= i < peers.len() && peers[i].id == id
}

/// Directory well-formedness: record identifiers are unique, the local
/// identifier is never among them, and every identifier is 16 bytes.
pub open spec fn wf(d: DirView) -> bool {
    &&& d.id.len() == 16
    &&& forall|i: int| 0 <= i < d.peers.len() ==> (#[trigger] d.peers[i]).id.len() == 16
    &&& forall|i: int| 0 <= i < d.peers.len() ==> (#[trigger] d.peers[i]).id != d.id
    &&& forall|i: int, j: int|
        0 <= i < j < d.peers.len() ==> (#[trigger] d.peers[i]).id != (#[trigger] d.peers[j]).id
}

/// The directory after an insert-if-absent of `id`: unchanged when a record
/// for `id` exists; otherwise one offline, never-seen record seeded with
/// the given default addresses is appended.
pub open spec fn spec_peer_or_insert(d: DirView, id: Seq<u8>, a: Seq<u8>, c: Seq<u8>) -> DirView {
    if spec_has_peer(d.peers, id) {
        d
    } else {
        DirView {
            peers: d.peers + seq![
                PeerV { id, addr: a, chat_addr: c, status: Status::Offline, last_seen: None },
            ],
            ..d
        }
    }
}

/// A record refreshed by a successful handshake: online, just seen; the
/// addresses it already holds are kept.
pub open spec fn spec_mark_online(p: PeerV, now: u64) -> PeerV {
    PeerV { status: Status::Online, last_seen: Some(now), ..p }
}

/// The directory after a successful handshake with `id`: the record for
/// `id` (inserted with the given defaults if absent) is marked online and
/// stamped with `now`; every other record and the local identity are
/// unchanged. A handshake that echoes the local identifier changes
/// nothing, so the local identifier never becomes a record.
pub open spec fn spec_record_handshake(
    d: DirView,
    id: Seq<u8>,
    a: Seq<u8>,
    c: Seq<u8>,
    now: u64,
) -> DirView {
    if id == d.id {
        d
    } else if spec_has_peer(d.peers, id) {
        DirView {
            peers: Seq::new(
                d.peers.len(),
                |i: int|
                    if d.peers[i].id == id {
                        spec_mark_online(d.peers[i], now)
                    } else {
                        d.peers[i]
                    },
            ),
            ..d
        }
    } else {
        DirView {
            peers: d.peers + seq![
                PeerV { id, addr: a, chat_addr: c, status: Status::Online, last_seen: Some(now) },
            ],
            ..d
        }
    }
}

/// The peer directory: the local identity and addresses, every known peer
/// record, and the path the directory is persisted at.
#[derive(Clone, PartialEq, Eq, Debug)]
pub struct PeerInfo {
    pub id: Uuid,
    pub addr: Addr,
    pub chat_addr: Addr,
    pub peers: Vec<Peer>,
    pub path: Vec<u8>,
}

impl View for PeerInfo {
    type V = DirView;

    open spec fn view(&self) -> DirView {
        DirView {
            id: self.id@,
            addr: self.addr@,
            chat_addr: self.chat_addr@,
            peers: views(self.peers@),
            path: self.path@,
        }
    }
}

impl PeerInfo {
    /// A fresh directory: a newly generated local identifier, the given
    /// addresses, no peers, bound to `path`.
    pub fn new(addr: Addr, chat_addr: Addr, path: Vec<u8>) -> (r: PeerInfo)
        ensures
            wf(r@),
            r@.addr == addr@,
            r@.chat_addr == chat_addr@,
            r@.path == path@,
            r@.peers.len() == 0,
    {
        let r = PeerInfo { id: Uuid::new(), addr, chat_addr, peers: Vec::new(), path };
        proof {
            assert(views(r.peers@) =~= Seq::<PeerV>::empty());
        }
        r
    }

    /// A directory with every part given, used when one is rebuilt from
    /// its persisted form.
    pub fn with_id(id: Uuid, addr: Addr, chat_addr: Addr, peers: Vec<Peer>, path: Vec<u8>) -> (r:
        PeerInfo)
        ensures
            r@ == (DirView {
                id: id@,
                addr: addr@,
                chat_addr: chat_addr@,
                peers: views(peers@),
                path: path@,
            }),
    {
        PeerInfo { id, addr, chat_addr, peers, path }
    }

    /// Retrieves the index of the record for `id`, or inserts a new
    /// offline record seeded with the given defaults. The defaults are
    /// only observed on first insertion: an existing record is returned
    /// unchanged.
    pub fn peer_or_insert(&mut self, id: &Uuid, default_addr: &Addr, default_chat_addr: &Addr) -> (
        idx: usize)
        requires
            wf(old(self)@),
            id@ != old(self)@.id,
        ensures
            wf(final(self)@),
            final(self)@ == spec_peer_or_insert(old(self)@, id@, default_addr@, default_chat_addr@),
            idx < final(self)@.peers.len(),
            final(self)@.peers[idx as int].id == id@,
            spec_has_peer(old(self)@.peers, id@) ==> final(self)@ == old(self)@,
            !spec_has_peer(old(self)@.peers, id@) ==> idx == old(self)@.peers.len(),
    {
        proof {
            broadcast use lemma_uuid_len;

        }
        let n: usize = self.peers.len();
        let mut i: usize = 0;
        while i < n
            invariant
                *self == *old(self),
                wf(self@),
                id@ != self@.id,
                n == self.peers@.len(),
                0 <= i <= n,
                forall|k: int| 0 <= k < i ==> views(self.peers@)[k].id != id@,
            decreases n - i,
        {
            if self.peers[i].id.same(id) {
                proof {
                    assert(self@.peers[i as int].id == id@);
                    assert(spec_has_peer(self@.peers, id@));
                }
                return i;
            }
            i = i + 1;
        }
        let p = Peer::new(*id, default_addr.duplicate(), default_chat_addr.duplicate());
        self.peers.push(p);
        proof {
            assert(!spec_has_peer(old(self)@.peers, id@));
            assert(views(self.peers@) =~= views(old(self).peers@) + seq![
                PeerV {
                    id: id@,
                    addr: default_addr@,
                    chat_addr: default_chat_addr@,
                    status: Status::Offline,
                    last_seen: None,
                },
            ]);
            assert(self@ =~~= spec_peer_or_insert(old(self)@, id@, default_addr@,
            default_chat_addr@));
        }
        n
    }

    /// Applies a successful handshake with `id`: the record for `id` is
    /// created if absent (seeded with the given addresses) and marked
    /// online with `last_seen = now`. A handshake that echoes the local
    /// identifier changes nothing.
    pub fn record_handshake(&mut self, id: &Uuid, addr: &Addr, chat_addr: &Addr, now: u64)
        requires
            wf(old(self)@),
        ensures
            wf(final(self)@),
            final(self)@ == spec_record_handshake(old(self)@, id@, addr@, chat_addr@, now),
    {
        if self.id.same(id) {
            return ;
        }
        let idx = self.peer_or_insert(id, addr, chat_addr);
        let ghost mid = self@;
        self.peers[idx].status = Status::Online;
        self.peers[idx].last_seen = Some(now);
        proof {
            let spec_d = spec_record_handshake(old(self)@, id@, addr@, chat_addr@, now);
            assert(views(self.peers@) =~~= mid.peers.update(
                idx as int,
                spec_mark_online(mid.peers[idx as int], now),
            ));
            if spec_has_peer(old(self)@.peers, id@) {
                assert forall|i: int| 0 <= i < old(self)@.peers.len() implies views(self.peers@)[i]
                    == spec_d.peers[i] by {
                    if old(self)@.peers[i].id == id@ {
                        assert(i == idx as int);
                    }
                }
                assert(self@ =~~= spec_d);
            } else {
                assert(views(self.peers@) =~~= spec_d.peers);
                assert(self@ =~~= spec_d);
            }
        }
    }
}

/// Insert-if-absent is idempotent on the identifier: after a first call
/// with an unseen identifier, a second call with the same identifier and
/// any other default addresses changes nothing, and the single record keeps
/// the first call's defaults.
pub proof fn lemma_peer_or_insert_idempotent(
    d: DirView,
    id: Seq<u8>,
    a1: Seq<u8>,
    c1: Seq<u8>,
    a2: Seq<u8>,
    c2: Seq<u8>,
)
    requires
        !spec_has_peer(d.peers, id),
    ensures
        spec_peer_or_insert(spec_peer_or_insert(d, id, a1, c1), id, a2, c2) == spec_peer_or_insert(
            d,
            id,
            a1,
            c1,
        ),
        spec_peer_or_insert(d, id, a1, c1).peers.last() == (PeerV {
            id,
            addr: a1,
            chat_addr: c1,
            status: Status::Offline,
            last_seen: None,
        }),
{
    let d1 = spec_peer_or_insert(d, id, a1, c1);
    assert(d1.peers[d.peers.len() as int].id == id);
    assert(spec_has_peer(d1.peers, id));
}

/// A directory error.
#[derive(Debug)]
pub struct Error {
    pub kind: ErrorKind,
    pub msg: String,
}

impl Error {
    /// An error of the given kind carrying a description.
    pub fn new(kind: ErrorKind, msg: &str) -> (r: Self)
        ensures
            r.kind == kind,
            r.msg@ == msg@,
    {
        Error { kind, msg: msg.to_owned() }
    }
}

/// The kinds of directory error.
#[derive(Clone, Copy, PartialEq, Eq, Structural, Debug)]
pub enum ErrorKind {
    FileNotFound,
    ReadError,
    WriteError,
    InvalidData,
}

impl Default for ErrorKind {
    fn default() -> (r: Self)
        ensures
            r is FileNotFound,
    {
        ErrorKind::FileNotFound
    }
}

} // verus!
