//! The persisted form of the peer directory: one self-describing document
//! holding the local identity and every record, written whole on each
//! save and read whole on each load.
//!
//! The layout is canonical: a directory serializes to exactly one byte
//! sequence, and only documents laid out that way are accepted back; a
//! document whose records repeat an identifier, or list the local
//! identifier, is rejected rather than repaired.

use vstd::prelude::*;

use crate::info::{views, wf, DirView, PeerInfo};
use crate::peer::{Addr, Peer, PeerV, Status};
use crate::request::RBRACE;
use crate::text::{
    append_ascii, append_bytes, append_dec, append_escaped, ascii_seq, lit_at, match_lit,
    scan_string, scan_u64, spec_dec, spec_escape, spec_scan, spec_scan_u64, lemma_scan_bounds,
    lemma_scan_escape,
    QUOTE,
};
use crate::uuid::{lemma_uuid_len, spec_uuid_parse, spec_uuid_text, Uuid, UuidV4};

verus! {

/// The comma byte between entries.
pub const COMMA: u8 = 44;

/// The persisted form of one record.
pub open spec fn spec_encode_record(p: PeerV) -> Seq<u8> {
    ascii_seq("{\"id\":\""@) + spec_uuid_text(p.id) + ascii_seq("\",\"addr\":\""@) + spec_escape(
        p.addr,
    ) + seq![QUOTE] + ascii_seq(",\"chat_addr\":\""@) + spec_escape(p.chat_addr) + seq![QUOTE]
        + ascii_seq(",\"status\":\""@) + (if p.status is Online {
        ascii_seq("online\""@)
    } else {
        ascii_seq("offline\""@)
    }) + (match p.last_seen {
        Some(t) => ascii_seq(",\"last_seen\":"@) + spec_dec(t as int),
        None => Seq::empty(),
    }) + seq![RBRACE]
}

/// The persisted form of one map entry: the identifier as the key, then
/// the record.
pub open spec fn spec_encode_entry(p: PeerV) -> Seq<u8> {
    seq![QUOTE] + spec_uuid_text(p.id) + ascii_seq("\":"@) + spec_encode_record(p)
}

/// The persisted form of the record map's inside: entries separated by
/// commas.
pub open spec fn spec_encode_entries(ps: Seq<PeerV>) -> Seq<u8>
    decreases ps.len(),
{
    if ps.len() == 0 {
        Seq::empty()
    } else if ps.len() == 1 {
        spec_encode_entry(ps[0])
    } else {
        spec_encode_entry(ps[0]) + seq![COMMA] + spec_encode_entries(ps.drop_first())
    }
}

/// The persisted form of a directory. The persistence path is where the
/// document lives, not part of it.
pub open spec fn spec_encode_dir(d: DirView) -> Seq<u8> {
    ascii_seq("{\"id\":\""@) + spec_uuid_text(d.id) + ascii_seq("\",\"addr\":\""@) + spec_escape(
        d.addr,
    ) + seq![QUOTE] + ascii_seq(",\"chat_addr\":\""@) + spec_escape(d.chat_addr) + seq![QUOTE]
        + ascii_seq(",\"peers\":{"@) + spec_encode_entries(d.peers) + seq![RBRACE] + seq![RBRACE]
}

/// Reads one record back: the fields in their canonical order, the
/// last-seen stamp present or absent.
pub open spec fn spec_parse_record(s: Seq<u8>, i: int) -> Option<(PeerV, int)> {
    if !lit_at(s, i, "{\"id\":\""@) || s.len() < i + 43 {
        None
    } else if spec_uuid_parse(s.subrange(i + 7, i + 43)) is None || !lit_at(
        s,
        i + 43,
        "\",\"addr\":\""@,
    ) {
        None
    } else {
        let id = spec_uuid_parse(s.subrange(i + 7, i + 43))->Some_0;
        match spec_scan(s, i + 53) {
            Some((a, p1)) => if lit_at(s, p1, ",\"chat_addr\":\""@) {
                match spec_scan(s, p1 + 14) {
                    Some((c, p2)) => if lit_at(s, p2, ",\"status\":\""@) {
                        let (st, p3): (Status, int) = if lit_at(s, p2 + 11, "online\""@) {
                            (Status::Online, p2 + 18)
                        } else {
                            (Status::Offline, p2 + 19)
                        };
                        if !(lit_at(s, p2 + 11, "online\""@) || lit_at(s, p2 + 11, "offline\""@)) {
                            None
                        } else if p3 < s.len() && s[p3] == RBRACE {
                            Some(
                                (
                                    PeerV {
                                        id,
                                        addr: a,
                                        chat_addr: c,
                                        status: st,
                                        last_seen: None,
                                    },
                                    p3 + 1,
                                ),
                            )
                        } else if lit_at(s, p3, ",\"last_seen\":"@) {
                            match spec_scan_u64(s, p3 + 13) {
                                Some((t, p4)) => if p4 < s.len() && s[p4] == RBRACE {
                                    Some(
                                        (
                                            PeerV {
                                                id,
                                                addr: a,
                                                chat_addr: c,
                                                status: st,
                                                last_seen: Some(t),
                                            },
                                            p4 + 1,
                                        ),
                                    )
                                } else {
                                    None
                                },
                                None => None,
                            }
                        } else {
                            None
                        }
                    } else {
                        None
                    },
                    None => None,
                }
            } else {
                None
            },
            None => None,
        }
    }
}

/// Reads one map entry back, requiring the key and the record to agree on
/// the identifier.
pub open spec fn spec_parse_entry(s: Seq<u8>, i: int) -> Option<(PeerV, int)> {
    if !(0 <= i && i + 39 <= s.len() && s[i] == QUOTE) {
        None
    } else if spec_uuid_parse(s.subrange(i + 1, i + 37)) is None || !lit_at(s, i + 37, "\":"@) {
        None
    } else {
        match spec_parse_record(s, i + 39) {
            Some((p, j)) => if p.id == spec_uuid_parse(s.subrange(i + 1, i + 37))->Some_0 {
                Some((p, j))
            } else {
                None
            },
            None => None,
        }
    }
}

/// Reads the record map's inside back, up to and including its closing
/// brace. `fuel` only bounds the recursion; parsing an entry always
/// advances, so any fuel at least the remaining length behaves alike.
pub open spec fn spec_parse_entries(s: Seq<u8>, i: int, fuel: nat) -> Option<(Seq<PeerV>, int)>
    decreases fuel,
{
    if 0 <= i && i < s.len() && s[i] == RBRACE {
        Some((Seq::empty(), i + 1))
    } else {
        match spec_parse_entry(s, i) {
            Some((p, j)) => if j < s.len() && s[j] == COMMA {
                if fuel == 0 {
                    None
                } else {
                    match spec_parse_entries(s, j + 1, (fuel - 1) as nat) {
                        Some((ps, k)) => Some((seq![p] + ps, k)),
                        None => None,
                    }
                }
            } else if j < s.len() && s[j] == RBRACE {
                Some((seq![p], j + 1))
            } else {
                None
            },
            None => None,
        }
    }
}

/// Reads a whole persisted directory back, bound to `path`: the document
/// must be laid out canonically, end at its final brace, and describe a
/// well-formed directory.
pub open spec fn spec_parse_dir(s: Seq<u8>, path: Seq<u8>) -> Option<DirView> {
    if !lit_at(s, 0, "{\"id\":\""@) || s.len() < 43 {
        None
    } else if spec_uuid_parse(s.subrange(7, 43)) is None || !lit_at(s, 43, "\",\"addr\":\""@) {
        None
    } else {
        let id = spec_uuid_parse(s.subrange(7, 43))->Some_0;
        match spec_scan(s, 53) {
            Some((a, p1)) => if lit_at(s, p1, ",\"chat_addr\":\""@) {
                match spec_scan(s, p1 + 14) {
                    Some((c, p2)) => if lit_at(s, p2, ",\"peers\":{"@) {
                        match spec_parse_entries(s, p2 + 10, s.len() as nat) {
                            Some((ps, p3)) => if s.len() - p3 == 1 && s[p3] == RBRACE {
                                let d = DirView { id, addr: a, chat_addr: c, peers: ps, path };
                                if wf(d) {
                                    Some(d)
                                } else {
                                    None
                                }
                            } else {
                                None
                            },
                            None => None,
                        }
                    } else {
                        None
                    },
                    None => None,
                }
            } else {
                None
            },
            None => None,
        }
    }
}

/// Appends the persisted form of one record.
#[verifier::rlimit(100)]
fn append_record(out: &mut Vec<u8>, p: &Peer)
    ensures
        final(out)@ == old(out)@ + spec_encode_record(p@),
{
    proof {
        reveal_strlit("{\"id\":\"");
        reveal_strlit("\",\"addr\":\"");
        reveal_strlit(",\"chat_addr\":\"");
        reveal_strlit(",\"status\":\"");
        reveal_strlit("online\"");
        reveal_strlit("offline\"");
        reveal_strlit(",\"last_seen\":");
    }
    append_ascii(out, "{\"id\":\"");
    let id = p.id.format();
    append_bytes(out, id.as_slice());
    append_ascii(out, "\",\"addr\":\"");
    append_escaped(out, p.addr.bytes.as_slice());
    out.push(QUOTE);
    append_ascii(out, ",\"chat_addr\":\"");
    append_escaped(out, p.chat_addr.bytes.as_slice());
    out.push(QUOTE);
    append_ascii(out, ",\"status\":\"");
    match p.status {
        Status::Online => append_ascii(out, "online\""),
        Status::Offline => append_ascii(out, "offline\""),
    }
    match p.last_seen {
        Some(t) => {
            append_ascii(out, ",\"last_seen\":");
            append_dec(out, t);
        },
        None => {},
    }
    out.push(RBRACE);
    proof {
        assert(out@ =~= old(out)@ + spec_encode_record(p@));
    }
}

/// Appends the persisted form of one map entry.
fn append_entry(out: &mut Vec<u8>, p: &Peer)
    ensures
        final(out)@ == old(out)@ + spec_encode_entry(p@),
{
    proof {
        reveal_strlit("\":");
    }
    out.push(QUOTE);
    let id = p.id.format();
    append_bytes(out, id.as_slice());
    append_ascii(out, "\":");
    append_record(out, p);
    proof {
        assert(out@ =~= old(out)@ + spec_encode_entry(p@));
    }
}

/// Splitting the last entry off a non-empty entry list.
proof fn lemma_entries_snoc(ps: Seq<PeerV>)
    requires
        ps.len() > 0,
    ensures
        spec_encode_entries(ps) == if ps.len() == 1 {
            spec_encode_entry(ps[0])
        } else {
            spec_encode_entries(ps.drop_last()) + seq![COMMA] + spec_encode_entry(ps.last())
        },
    decreases ps.len(),
{
    if ps.len() > 1 {
        lemma_entries_snoc(ps.drop_first());
        assert(ps.drop_first().drop_last() =~= ps.drop_last().drop_first());
        if ps.len() == 2 {
            assert(spec_encode_entries(ps.drop_last()) == spec_encode_entry(ps[0]));
            assert(spec_encode_entries(ps) =~= spec_encode_entries(ps.drop_last()) + seq![COMMA]
                + spec_encode_entry(ps.last()));
        } else {
            assert(ps.drop_last().len() > 1);
            assert(ps.drop_last()[0] == ps[0]);
            assert(spec_encode_entries(ps) =~= spec_encode_entries(ps.drop_last()) + seq![COMMA]
                + spec_encode_entry(ps.last()));
        }
    }
}

impl PeerInfo {
    /// Serializes this directory into its persisted document.
    pub fn to_bytes(&self) -> (r: Vec<u8>)
        ensures
            r@ == spec_encode_dir(self@),
    {
        proof {
            reveal_strlit("{\"id\":\"");
            reveal_strlit("\",\"addr\":\"");
            reveal_strlit(",\"chat_addr\":\"");
            reveal_strlit(",\"peers\":{");
        }
        let mut out: Vec<u8> = Vec::new();
        append_ascii(&mut out, "{\"id\":\"");
        let id = self.id.format();
        append_bytes(&mut out, id.as_slice());
        append_ascii(&mut out, "\",\"addr\":\"");
        append_escaped(&mut out, self.addr.bytes.as_slice());
        out.push(QUOTE);
        append_ascii(&mut out, ",\"chat_addr\":\"");
        append_escaped(&mut out, self.chat_addr.bytes.as_slice());
        out.push(QUOTE);
        append_ascii(&mut out, ",\"peers\":{");
        let ghost pre = out@;
        let n: usize = self.peers.len();
        let mut i: usize = 0;
        while i < n
            invariant
                n == self.peers@.len(),
                0 <= i <= n,
                out@ == pre + spec_encode_entries(views(self.peers@).subrange(0, i as int)),
            decreases n - i,
        {
            if i > 0 {
                out.push(COMMA);
            }
            append_entry(&mut out, &self.peers[i]);
            i = i + 1;
            proof {
                let ps = views(self.peers@).subrange(0, i as int);
                assert(ps.last() == self.peers@[i - 1]@);
                assert(ps.drop_last() =~= views(self.peers@).subrange(0, i - 1));
                lemma_entries_snoc(ps);
                assert(out@ =~= pre + spec_encode_entries(ps));
            }
        }
        out.push(RBRACE);
        out.push(RBRACE);
        proof {
            assert(views(self.peers@).subrange(0, n as int) =~= views(self.peers@));
            assert(out@ =~= spec_encode_dir(self@));
        }
        out
    }
}

/// Reads one record of the persisted document, as [`spec_parse_record`]
/// describes.
#[verifier::rlimit(100)]
fn parse_record(s: &[u8], i: usize) -> (r: Option<(Peer, usize)>)
    ensures
        r is Some <==> spec_parse_record(s@, i as int) is Some,
        r matches Some(v) ==> spec_parse_record(s@, i as int) == Some((v.0@, v.1 as int)),
{
    proof {
        reveal_strlit("{\"id\":\"");
        reveal_strlit("\",\"addr\":\"");
        reveal_strlit(",\"chat_addr\":\"");
        reveal_strlit(",\"status\":\"");
        reveal_strlit("online\"");
        reveal_strlit("offline\"");
        reveal_strlit(",\"last_seen\":");
    }
    if !match_lit(s, i, "{\"id\":\"") {
        return None;
    }
    if s.len() < 43 || i > s.len() - 43 {
        return None;
    }
    let id = match UuidV4::parse(vstd::slice::slice_subrange(s, i + 7, i + 43)) {
        Ok(v) => Uuid::V4(v),
        Err(_) => {
            return None;
        },
    };
    if !match_lit(s, i + 43, "\",\"addr\":\"") {
        return None;
    }
    let (a, p1) = match scan_string(s, i + 53) {
        Some(r) => r,
        None => {
            return None;
        },
    };
    if !match_lit(s, p1, ",\"chat_addr\":\"") {
        return None;
    }
    proof {
        lemma_scan_bounds(s@, i + 53);
    }
    let (c, p2) = match scan_string(s, p1 + 14) {
        Some(r) => r,
        None => {
            return None;
        },
    };
    proof {
        lemma_scan_bounds(s@, p1 + 14);
    }
    if !match_lit(s, p2, ",\"status\":\"") {
        return None;
    }
    let online = match_lit(s, p2 + 11, "online\"");
    let offline = match_lit(s, p2 + 11, "offline\"");
    if !(online || offline) {
        return None;
    }
    let st = if online {
        Status::Online
    } else {
        Status::Offline
    };
    let p3: usize = if online {
        p2 + 18
    } else {
        p2 + 19
    };
    if p3 < s.len() && s[p3] == RBRACE {
        let peer = Peer { id, addr: Addr::new(a), chat_addr: Addr::new(c), status: st, last_seen: None };
        return Some((peer, p3 + 1));
    }
    if !match_lit(s, p3, ",\"last_seen\":") {
        return None;
    }
    let (t, p4) = match scan_u64(s, p3 + 13) {
        Some(r) => r,
        None => {
            return None;
        },
    };
    if p4 < s.len() && s[p4] == RBRACE {
        let peer = Peer {
            id,
            addr: Addr::new(a),
            chat_addr: Addr::new(c),
            status: st,
            last_seen: Some(t),
        };
        Some((peer, p4 + 1))
    } else {
        None
    }
}

/// Reads one map entry of the persisted document, as [`spec_parse_entry`]
/// describes.
fn parse_entry(s: &[u8], i: usize) -> (r: Option<(Peer, usize)>)
    ensures
        r is Some <==> spec_parse_entry(s@, i as int) is Some,
        r matches Some(v) ==> spec_parse_entry(s@, i as int) == Some((v.0@, v.1 as int)),
{
    proof {
        reveal_strlit("\":");
    }
    if s.len() < 39 || i > s.len() - 39 {
        return None;
    }
    if s[i] != QUOTE {
        return None;
    }
    let key = match UuidV4::parse(vstd::slice::slice_subrange(s, i + 1, i + 37)) {
        Ok(v) => Uuid::V4(v),
        Err(_) => {
            return None;
        },
    };
    if !match_lit(s, i + 37, "\":") {
        return None;
    }
    let (p, j) = match parse_record(s, i + 39) {
        Some(r) => r,
        None => {
            return None;
        },
    };
    if p.id.same(&key) {
        Some((p, j))
    } else {
        None
    }
}

/// Parsing one entry always moves forward, never past the end.
proof fn lemma_parse_entry_bounds(s: Seq<u8>, i: int)
    requires
        spec_parse_entry(s, i) is Some,
    ensures
        i < spec_parse_entry(s, i)->Some_0.1 <= s.len(),
{
    reveal_strlit("online\"");
    reveal_strlit("offline\"");
    reveal_strlit(",\"last_seen\":");
    let b = i + 39;
    lemma_scan_bounds(s, b + 53);
    let p1 = spec_scan(s, b + 53)->Some_0.1;
    lemma_scan_bounds(s, p1 + 14);
    let p2 = spec_scan(s, p1 + 14)->Some_0.1;
    let p3: int = if lit_at(s, p2 + 11, "online\""@) {
        p2 + 18
    } else {
        p2 + 19
    };
    if !(p3 < s.len() && s[p3] == RBRACE) {
        crate::text::lemma_digit_run(s, p3 + 13);
    }
}

/// Reads the record map's inside, as [`spec_parse_entries`] describes
/// with fuel no less than the remaining length.
fn parse_entries(s: &[u8], i: usize) -> (r: Option<(Vec<Peer>, usize)>)
    requires
        i <= s@.len(),
    ensures
        r is Some <==> spec_parse_entries(s@, i as int, s@.len() as nat) is Some,
        r matches Some(v) ==> spec_parse_entries(s@, i as int, s@.len() as nat) == Some(
            (views(v.0@), v.1 as int),
        ),
        r matches Some(v) ==> v.1 <= s@.len(),
{
    let ghost f0: nat = s@.len() as nat;
    let mut acc: Vec<Peer> = Vec::new();
    let mut cur: usize = i;
    let ghost mut fuel: nat = f0;
    proof {
        assert(views(acc@) =~= Seq::<PeerV>::empty());
    }
    loop
        invariant
            f0 == s@.len() as nat,
            cur <= s@.len(),
            fuel >= s@.len() - cur,
            fuel <= f0,
            (spec_parse_entries(s@, i as int, f0) is Some <==> spec_parse_entries(
                s@,
                cur as int,
                fuel,
            ) is Some),
            spec_parse_entries(s@, cur as int, fuel) matches Some(v) ==> spec_parse_entries(
                s@,
                i as int,
                f0,
            ) == Some((views(acc@) + v.0, v.1)),
        decreases s@.len() - cur,
    {
        if cur < s.len() && s[cur] == RBRACE {
            proof {
                let v = spec_parse_entries(s@, cur as int, fuel)->Some_0;
                assert(views(acc@) + v.0 =~= views(acc@));
            }
            return Some((acc, cur + 1));
        }
        let (p, j) = match parse_entry(s, cur) {
            Some(r) => r,
            None => {
                return None;
            },
        };
        proof {
            lemma_parse_entry_bounds(s@, cur as int);
        }
        if j < s.len() && s[j] == COMMA {
            proof {
                assert(fuel > 0);
            }
            let ghost prev = cur as int;
            let ghost prev_fuel = fuel;
            let ghost prev_acc = acc@;
            acc.push(p);
            cur = j + 1;
            proof {
                fuel = (prev_fuel - 1) as nat;
                if spec_parse_entries(s@, cur as int, fuel) is Some {
                    let v = spec_parse_entries(s@, cur as int, fuel)->Some_0;
                    assert(spec_parse_entries(s@, prev, prev_fuel) == Some(
                        (seq![p@] + v.0, v.1),
                    ));
                    assert(views(acc@) =~= views(prev_acc) + seq![p@]);
                    assert(views(prev_acc) + (seq![p@] + v.0) =~= views(acc@) + v.0);
                } else {
                    assert(spec_parse_entries(s@, prev, prev_fuel) is None);
                }
            }
        } else if j < s.len() && s[j] == RBRACE {
            let ghost prev_acc = acc@;
            acc.push(p);
            proof {
                let v = spec_parse_entries(s@, cur as int, fuel)->Some_0;
                assert(v.0 =~= seq![p@]);
                assert(views(acc@) =~= views(prev_acc) + seq![p@]);
            }
            return Some((acc, j + 1));
        } else {
            return None;
        }
    }
}

impl PeerInfo {
    /// Rebuilds a directory from its persisted document, binding it to
    /// `path`. Exactly the canonically laid-out documents that describe a
    /// well-formed directory are accepted; anything else is invalid data.
    pub fn from_bytes(s: &[u8], path: Vec<u8>) -> (r: Result<PeerInfo, crate::info::Error>)
        ensures
            r is Ok <==> spec_parse_dir(s@, path@) is Some,
            r matches Ok(d) ==> spec_parse_dir(s@, path@) == Some(d@) && wf(d@),
            r matches Err(e) ==> e.kind == crate::info::ErrorKind::InvalidData,
    {
        proof {
            reveal_strlit("{\"id\":\"");
            reveal_strlit("\",\"addr\":\"");
            reveal_strlit(",\"chat_addr\":\"");
            reveal_strlit(",\"peers\":{");
        }
        if !match_lit(s, 0, "{\"id\":\"") || s.len() < 43 {
            return Err(crate::info::Error::new(
                crate::info::ErrorKind::InvalidData,
                "malformed directory document",
            ));
        }
        let id = match UuidV4::parse(vstd::slice::slice_subrange(s, 7, 43)) {
            Ok(v) => Uuid::V4(v),
            Err(_) => {
                return Err(crate::info::Error::new(
                    crate::info::ErrorKind::InvalidData,
                    "malformed directory document",
                ));
            },
        };
        if !match_lit(s, 43, "\",\"addr\":\"") {
            return Err(crate::info::Error::new(
                crate::info::ErrorKind::InvalidData,
                "malformed directory document",
            ));
        }
        let (a, p1) = match scan_string(s, 53) {
            Some(r) => r,
            None => {
                return Err(crate::info::Error::new(
                    crate::info::ErrorKind::InvalidData,
                    "malformed directory document",
                ));
            },
        };
        if !match_lit(s, p1, ",\"chat_addr\":\"") {
            return Err(crate::info::Error::new(
                crate::info::ErrorKind::InvalidData,
                "malformed directory document",
            ));
        }
        proof {
            lemma_scan_bounds(s@, 53);
        }
        let (c, p2) = match scan_string(s, p1 + 14) {
            Some(r) => r,
            None => {
                return Err(crate::info::Error::new(
                    crate::info::ErrorKind::InvalidData,
                    "malformed directory document",
                ));
            },
        };
        proof {
            lemma_scan_bounds(s@, p1 + 14);
        }
        if !match_lit(s, p2, ",\"peers\":{") {
            return Err(crate::info::Error::new(
                crate::info::ErrorKind::InvalidData,
                "malformed directory document",
            ));
        }
        let (peers, p3) = match parse_entries(s, p2 + 10) {
            Some(r) => r,
            None => {
                return Err(crate::info::Error::new(
                    crate::info::ErrorKind::InvalidData,
                    "malformed directory document",
                ));
            },
        };
        if !(s.len() - p3 == 1 && s[p3] == RBRACE) {
            return Err(crate::info::Error::new(
                crate::info::ErrorKind::InvalidData,
                "malformed directory document",
            ));
        }
        let d = PeerInfo { id, addr: Addr::new(a), chat_addr: Addr::new(c), peers, path };
        if check_wf(&d) {
            Ok(d)
        } else {
            Err(crate::info::Error::new(
                crate::info::ErrorKind::InvalidData,
                "directory document repeats or shadows an identifier",
            ))
        }
    }
}

/// A subrange of an embedded sequence, seen through the embedding.
proof fn lemma_subrange_transfer(s: Seq<u8>, i: int, e: Seq<u8>, a: int, b: int)
    requires
        0 <= i,
        i + e.len() <= s.len(),
        s.subrange(i, i + e.len() as int) == e,
        0 <= a <= b <= e.len(),
    ensures
        s.subrange(i + a, i + b) == e.subrange(a, b),
{
    assert forall|k: int| 0 <= k < b - a implies s.subrange(i + a, i + b)[k] == e.subrange(
        a,
        b,
    )[k] by {
        assert(s.subrange(i, i + e.len() as int)[a + k] == e[a + k]);
    }
    assert(s.subrange(i + a, i + b) =~= e.subrange(a, b));
}

/// One byte of an embedded sequence, seen through the embedding.
proof fn lemma_byte_transfer(s: Seq<u8>, i: int, e: Seq<u8>, a: int)
    requires
        0 <= i,
        i + e.len() <= s.len(),
        s.subrange(i, i + e.len() as int) == e,
        0 <= a < e.len(),
    ensures
        s[i + a] == e[a],
{
    assert(s.subrange(i, i + e.len() as int)[a] == e[a]);
}

/// Round trip for one record.
#[verifier::rlimit(100)]
proof fn lemma_record_round_trip(s: Seq<u8>, i: int, p: PeerV)
    requires
        p.id.len() == 16,
        0 <= i,
        i + spec_encode_record(p).len() <= s.len(),
        s.subrange(i, i + spec_encode_record(p).len() as int) == spec_encode_record(p),
    ensures
        spec_parse_record(s, i) == Some((p, i + spec_encode_record(p).len() as int)),
{
    reveal_strlit("{\"id\":\"");
    reveal_strlit("\",\"addr\":\"");
    reveal_strlit(",\"chat_addr\":\"");
    reveal_strlit(",\"status\":\"");
    reveal_strlit("online\"");
    reveal_strlit("offline\"");
    reveal_strlit(",\"last_seen\":");
    let e = spec_encode_record(p);
    let u = spec_uuid_text(p.id);
    let ea = spec_escape(p.addr);
    let ec = spec_escape(p.chat_addr);
    crate::uuid::lemma_uuid_round_trip(p.id);
    assert(u.len() == 36);
    let o1 = 53 + ea.len() as int;
    let o2 = o1 + 15 + ec.len() as int;
    let o3 = o2 + 12;
    assert(e.subrange(0, 7) =~= ascii_seq("{\"id\":\""@));
    assert(e.subrange(7, 43) =~= u);
    assert(e.subrange(43, 53) =~= ascii_seq("\",\"addr\":\""@));
    assert(e.subrange(53, o1) =~= ea);
    assert(e[o1] == QUOTE);
    assert(e.subrange(o1 + 1, o1 + 15) =~= ascii_seq(",\"chat_addr\":\""@));
    assert(e.subrange(o1 + 15, o2) =~= ec);
    assert(e[o2] == QUOTE);
    assert(e.subrange(o2 + 1, o3) =~= ascii_seq(",\"status\":\""@));
    lemma_subrange_transfer(s, i, e, 0, 7);
    lemma_subrange_transfer(s, i, e, 7, 43);
    lemma_subrange_transfer(s, i, e, 43, 53);
    lemma_subrange_transfer(s, i, e, 53, o1);
    lemma_byte_transfer(s, i, e, o1);
    lemma_subrange_transfer(s, i, e, o1 + 1, o1 + 15);
    lemma_subrange_transfer(s, i, e, o1 + 15, o2);
    lemma_byte_transfer(s, i, e, o2);
    lemma_subrange_transfer(s, i, e, o2 + 1, o3);
    lemma_scan_escape(s, i + 53, p.addr);
    let p1 = i + o1 + 1;
    lemma_scan_escape(s, p1 + 14, p.chat_addr);
    let p2 = i + o2 + 1;
    let st_len: int = if p.status is Online {
        7
    } else {
        8
    };
    let o4 = o3 + st_len;
    if p.status is Online {
        assert(e.subrange(o3, o4) =~= ascii_seq("online\""@));
        lemma_subrange_transfer(s, i, e, o3, o4);
    } else {
        assert(e.subrange(o3, o4) =~= ascii_seq("offline\""@));
        lemma_subrange_transfer(s, i, e, o3, o4);
        assert(!lit_at(s, i + o3, "online\""@)) by {
            if lit_at(s, i + o3, "online\""@) {
                assert(s.subrange(i + o3, i + o3 + 7)[1] == ascii_seq("online\""@)[1]);
                assert(s.subrange(i + o3, o4 + i)[1] == ascii_seq("offline\""@)[1]);
            }
        }
    }
    match p.last_seen {
        None => {
            assert(e[o4] == RBRACE);
            lemma_byte_transfer(s, i, e, o4);
            assert(spec_parse_record(s, i)->Some_0 =~~= (p, i + e.len() as int));
        },
        Some(t) => {
            let dt = spec_dec(t as int);
            crate::text::lemma_dec_shape(t as int);
            assert(e.subrange(o4, o4 + 13) =~= ascii_seq(",\"last_seen\":"@));
            assert(e.subrange(o4 + 13, o4 + 13 + dt.len() as int) =~= dt);
            assert(e[o4 + 13 + dt.len() as int] == RBRACE);
            lemma_subrange_transfer(s, i, e, o4, o4 + 13);
            lemma_subrange_transfer(s, i, e, o4 + 13, o4 + 13 + dt.len() as int);
            lemma_byte_transfer(s, i, e, o4);
            lemma_byte_transfer(s, i, e, o4 + 13 + dt.len() as int);
            crate::text::lemma_dec_round_trip(s, i + o4 + 13, t);
            assert(s[i + o4] != RBRACE);
            assert(spec_parse_record(s, i)->Some_0 =~~= (p, i + e.len() as int));
        },
    }
}

/// Round trip for one map entry.
#[verifier::rlimit(100)]
proof fn lemma_entry_round_trip(s: Seq<u8>, i: int, p: PeerV)
    requires
        p.id.len() == 16,
        0 <= i,
        i + spec_encode_entry(p).len() <= s.len(),
        s.subrange(i, i + spec_encode_entry(p).len() as int) == spec_encode_entry(p),
    ensures
        spec_parse_entry(s, i) == Some((p, i + spec_encode_entry(p).len() as int)),
{
    reveal_strlit("\":");
    let e = spec_encode_entry(p);
    let u = spec_uuid_text(p.id);
    let er = spec_encode_record(p);
    crate::uuid::lemma_uuid_round_trip(p.id);
    assert(u.len() == 36);
    assert(e[0] == QUOTE);
    assert(e.subrange(1, 37) =~= u);
    assert(e.subrange(37, 39) =~= ascii_seq("\":"@));
    assert(e.subrange(39, 39 + er.len() as int) =~= er);
    lemma_byte_transfer(s, i, e, 0);
    lemma_subrange_transfer(s, i, e, 1, 37);
    lemma_subrange_transfer(s, i, e, 37, 39);
    lemma_subrange_transfer(s, i, e, 39, 39 + er.len() as int);
    lemma_record_round_trip(s, i + 39, p);
}

/// Every entry is at least one byte long.
proof fn lemma_entries_min_len(ps: Seq<PeerV>)
    ensures
        spec_encode_entries(ps).len() >= ps.len(),
    decreases ps.len(),
{
    if ps.len() > 0 {
        lemma_entries_min_len(ps.drop_first());
    }
}

/// Round trip for the record map's inside.
#[verifier::rlimit(100)]
proof fn lemma_entries_round_trip(s: Seq<u8>, i: int, ps: Seq<PeerV>, fuel: nat)
    requires
        forall|k: int| 0 <= k < ps.len() ==> (#[trigger] ps[k]).id.len() == 16,
        0 <= i,
        i + spec_encode_entries(ps).len() + 1 <= s.len(),
        s.subrange(i, i + spec_encode_entries(ps).len() as int) == spec_encode_entries(ps),
        s[i + spec_encode_entries(ps).len() as int] == RBRACE,
        fuel >= ps.len(),
    ensures
        spec_parse_entries(s, i, fuel) == Some(
            (ps, i + spec_encode_entries(ps).len() + 1),
        ),
    decreases ps.len(),
{
    let e = spec_encode_entries(ps);
    if ps.len() == 0 {
        assert(s[i] == RBRACE);
        assert(spec_parse_entries(s, i, fuel)->Some_0 =~~= (ps, i + 1));
    } else {
        let e0 = spec_encode_entry(ps[0]);
        assert(e0[0] == QUOTE);
        assert(e[0] == e0[0]);
        lemma_byte_transfer(s, i, e, 0);
        assert(s[i] != RBRACE);
        if ps.len() == 1 {
            assert(e =~= e0);
            lemma_entry_round_trip(s, i, ps[0]);
            let j = i + e0.len() as int;
            assert(s[j] == RBRACE);
            assert(seq![ps[0]] =~= ps);
            assert(spec_parse_entries(s, i, fuel)->Some_0 =~~= (ps, j + 1));
        } else {
            let rest = ps.drop_first();
            let erest = spec_encode_entries(rest);
            assert(e == e0 + seq![COMMA] + erest);
            assert(e.subrange(0, e0.len() as int) =~= e0);
            lemma_subrange_transfer(s, i, e, 0, e0.len() as int);
            lemma_entry_round_trip(s, i, ps[0]);
            let j = i + e0.len() as int;
            assert(e[e0.len() as int] == COMMA);
            lemma_byte_transfer(s, i, e, e0.len() as int);
            assert(s[j] == COMMA);
            assert(s[j] != RBRACE);
            assert(fuel > 0);
            assert(e.subrange(e0.len() as int + 1, e.len() as int) =~= erest);
            lemma_subrange_transfer(s, i, e, e0.len() as int + 1, e.len() as int);
            assert(s[j + 1 + erest.len() as int] == RBRACE);
            lemma_entries_round_trip(s, j + 1, rest, (fuel - 1) as nat);
            assert(seq![ps[0]] + rest =~= ps);
            assert(spec_parse_entries(s, i, fuel)->Some_0 =~~= (
                ps,
                i + e.len() + 1,
            ));
        }
    }
}

/// Round trip: reading back the persisted document of any well-formed
/// directory, bound to the same path, gives that directory.
#[verifier::rlimit(100)]
pub proof fn lemma_store_round_trip(d: DirView)
    requires
        wf(d),
    ensures
        spec_parse_dir(spec_encode_dir(d), d.path) == Some(d),
{
    reveal_strlit("{\"id\":\"");
    reveal_strlit("\",\"addr\":\"");
    reveal_strlit(",\"chat_addr\":\"");
    reveal_strlit(",\"peers\":{");
    let s = spec_encode_dir(d);
    let u = spec_uuid_text(d.id);
    let ea = spec_escape(d.addr);
    let ec = spec_escape(d.chat_addr);
    let ents = spec_encode_entries(d.peers);
    crate::uuid::lemma_uuid_round_trip(d.id);
    lemma_entries_min_len(d.peers);
    assert(u.len() == 36);
    assert(s.subrange(0, 7) =~= ascii_seq("{\"id\":\""@));
    assert(s.subrange(7, 43) =~= u);
    assert(s.subrange(43, 53) =~= ascii_seq("\",\"addr\":\""@));
    assert(s.subrange(53, 53 + ea.len() as int) =~= ea);
    assert(s[53 + ea.len() as int] == QUOTE);
    lemma_scan_escape(s, 53, d.addr);
    let p1 = 53 + ea.len() as int + 1;
    assert(s.subrange(p1, p1 + 14) =~= ascii_seq(",\"chat_addr\":\""@));
    assert(s.subrange(p1 + 14, p1 + 14 + ec.len() as int) =~= ec);
    assert(s[p1 + 14 + ec.len() as int] == QUOTE);
    lemma_scan_escape(s, p1 + 14, d.chat_addr);
    let p2 = p1 + 14 + ec.len() as int + 1;
    assert(s.subrange(p2, p2 + 10) =~= ascii_seq(",\"peers\":{"@));
    let pe = p2 + 10;
    assert(s.subrange(pe, pe + ents.len() as int) =~= ents);
    assert(s[pe + ents.len() as int] == RBRACE);
    lemma_entries_round_trip(s, pe, d.peers, s.len() as nat);
    let p3 = pe + ents.len() as int + 1;
    assert(s[p3] == RBRACE);
    assert(s.len() - p3 == 1);
    assert(spec_parse_dir(s, d.path)->Some_0 =~~= d);
}

/// Decides directory well-formedness for a freshly parsed directory:
/// record identifiers unique and never the local identifier.
fn check_wf(d: &PeerInfo) -> (r: bool)
    ensures
        r == wf(d@),
{
    proof {
        broadcast use lemma_uuid_len;

    }
    let n: usize = d.peers.len();
    let mut i: usize = 0;
    while i < n
        invariant
            n == d.peers@.len(),
            0 <= i <= n,
            forall|k: int| 0 <= k < i ==> (#[trigger] d@.peers[k]).id != d@.id,
            forall|k1: int, k2: int|
                0 <= k1 < k2 < i ==> (#[trigger] d@.peers[k1]).id != (#[trigger] d@.peers[k2]).id,
        decreases n - i,
    {
        if d.peers[i].id.same(&d.id) {
            proof {
                assert(d@.peers[i as int].id == d@.id);
            }
            return false;
        }
        let mut j: usize = 0;
        while j < i
            invariant
                n == d.peers@.len(),
                0 <= j <= i < n,
                forall|k: int| 0 <= k < j ==> (#[trigger] d@.peers[k]).id != d@.peers[i as int].id,
            decreases i - j,
        {
            if d.peers[j].id.same(&d.peers[i].id) {
                proof {
                    assert(d@.peers[j as int].id == d@.peers[i as int].id);
                }
                return false;
            }
            j = j + 1;
        }
        i = i + 1;
    }
    true
}

} // verus!
