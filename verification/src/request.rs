//! The wire protocol: the three request variants and their framed codec.
//!
//! Every request travels as one self-describing payload: a JSON object
//! whose `method` field selects the variant. The codec is canonical: a
//! request encodes to exactly one byte sequence, and decoding accepts a
//! payload laid out that way, reading string escapes and hexadecimal
//! digits of either case. Anything else is a decode failure.

use vstd::prelude::*;

use crate::peer::Addr;
use crate::text::{
    ascii_seq, lit_at, match_lit, spec_escape, spec_scan, append_ascii, append_bytes,
    append_escaped, scan_string, lemma_scan_escape, lemma_scan_bounds, QUOTE,
};
use crate::uuid::{lemma_uuid_round_trip, spec_uuid_parse, spec_uuid_text, Uuid};

verus! {

/// The closing-brace byte that ends a payload.
pub const RBRACE: u8 = 125;

/// A discovery request: the sender's identifier and both its addresses.
#[derive(Clone, PartialEq, Eq, Debug)]
pub struct Ping {
    pub peer_id: Uuid,
    pub peer_addr: Addr,
    pub peer_chat_addr: Addr,
}

/// The mathematical value of a ping.
#[verifier::ext_equal]
pub ghost struct PingV {
    pub peer_id: Seq<u8>,
    pub peer_addr: Seq<u8>,
    pub peer_chat_addr: Seq<u8>,
}

impl View for Ping {
    type V = PingV;

    open spec fn view(&self) -> PingV {
        PingV {
            peer_id: self.peer_id@,
            peer_addr: self.peer_addr@,
            peer_chat_addr: self.peer_chat_addr@,
        }
    }
}

impl Ping {
    /// A ping carrying the sender's identifier and addresses.
    pub fn new(peer_id: Uuid, peer_addr: Addr, peer_chat_addr: Addr) -> (r: Ping)
        ensures
            r@ == (PingV {
                peer_id: peer_id@,
                peer_addr: peer_addr@,
                peer_chat_addr: peer_chat_addr@,
            }),
    {
        Ping { peer_id, peer_addr, peer_chat_addr }
    }
}

/// A discovery reply: the responder's identifier and chat address.
#[derive(Clone, PartialEq, Eq, Debug)]
pub struct Pong {
    pub peer_id: Uuid,
    pub peer_chat_addr: Addr,
}

/// The mathematical value of a pong.
#[verifier::ext_equal]
pub ghost struct PongV {
    pub peer_id: Seq<u8>,
    pub peer_chat_addr: Seq<u8>,
}

impl View for Pong {
    type V = PongV;

    open spec fn view(&self) -> PongV {
        PongV { peer_id: self.peer_id@, peer_chat_addr: self.peer_chat_addr@ }
    }
}

impl Pong {
    /// A pong carrying the responder's identifier and chat address.
    pub fn new(peer_id: Uuid, peer_chat_addr: Addr) -> (r: Pong)
        ensures
            r@ == (PongV { peer_id: peer_id@, peer_chat_addr: peer_chat_addr@ }),
    {
        Pong { peer_id, peer_chat_addr }
    }
}

/// A chat line: the sender's identifier and the line's bytes.
#[derive(Clone, PartialEq, Eq, Debug)]
pub struct Message {
    pub peer_id: Uuid,
    pub text: Vec<u8>,
}

/// The mathematical value of a chat message.
#[verifier::ext_equal]
pub ghost struct MessageV {
    pub peer_id: Seq<u8>,
    pub text: Seq<u8>,
}

impl View for Message {
    type V = MessageV;

    open spec fn view(&self) -> MessageV {
        MessageV { peer_id: self.peer_id@, text: self.text@ }
    }
}

impl Message {
    /// A message carrying the sender's identifier and a chat line.
    pub fn new(peer_id: Uuid, text: Vec<u8>) -> (r: Message)
        ensures
            r@ == (MessageV { peer_id: peer_id@, text: text@ }),
    {
        Message { peer_id, text }
    }

    /// A copy of this message.
    pub fn duplicate(&self) -> (r: Message)
        ensures
            r@ == self@,
    {
        let text = self.text.clone();
        proof {
            assert(text@ =~= self.text@);
        }
        Message { peer_id: self.peer_id, text }
    }
}

/// One of the three request variants.
#[derive(Clone, PartialEq, Eq, Debug)]
pub enum Request {
    Ping(Ping),
    Pong(Pong),
    Message(Message),
}

/// The mathematical value of a request.
#[verifier::ext_equal]
pub ghost enum ReqV {
    Ping(PingV),
    Pong(PongV),
    Message(MessageV),
}

impl View for Request {
    type V = ReqV;

    open spec fn view(&self) -> ReqV {
        match self {
            Request::Ping(p) => ReqV::Ping(p@),
            Request::Pong(p) => ReqV::Pong(p@),
            Request::Message(m) => ReqV::Message(m@),
        }
    }
}

/// Request well-formedness: the identifier is 16 bytes. Every identifier
/// the library builds satisfies this.
pub open spec fn wf_req(r: ReqV) -> bool {
    match r {
        ReqV::Ping(p) => p.peer_id.len() == 16,
        ReqV::Pong(p) => p.peer_id.len() == 16,
        ReqV::Message(m) => m.peer_id.len() == 16,
    }
}

/// The canonical payload of a request.
pub open spec fn spec_encode(r: ReqV) -> Seq<u8> {
    match r {
        ReqV::Ping(p) => ascii_seq("{\"method\":\"ping\",\"peer_id\":\""@) + spec_uuid_text(
            p.peer_id,
        ) + ascii_seq("\",\"peer_addr\":\""@) + spec_escape(p.peer_addr) + seq![QUOTE] + ascii_seq(
            ",\"peer_chat_addr\":\""@,
        ) + spec_escape(p.peer_chat_addr) + seq![QUOTE] + seq![RBRACE],
        ReqV::Pong(p) => ascii_seq("{\"method\":\"pong\",\"peer_id\":\""@) + spec_uuid_text(
            p.peer_id,
        ) + ascii_seq("\",\"peer_chat_addr\":\""@) + spec_escape(p.peer_chat_addr) + seq![QUOTE]
            + seq![RBRACE],
        ReqV::Message(m) => ascii_seq("{\"method\":\"message\",\"peer_id\":\""@) + spec_uuid_text(
            m.peer_id,
        ) + ascii_seq("\",\"text\":\""@) + spec_escape(m.text) + seq![QUOTE] + seq![RBRACE],
    }
}

/// The request read back from a payload laid out as a ping.
pub open spec fn spec_decode_ping(s: Seq<u8>) -> Option<ReqV> {
    if s.len() < 64 {
        None
    } else if spec_uuid_parse(s.subrange(28, 64)) is Some && lit_at(
        s,
        64,
        "\",\"peer_addr\":\""@,
    ) {
        match spec_scan(s, 79) {
            Some((a, p)) => if lit_at(s, p, ",\"peer_chat_addr\":\""@) {
                match spec_scan(s, p + 19) {
                    Some((c, q)) => if s.len() - q == 1 && s[q] == RBRACE {
                        Some(
                            ReqV::Ping(
                                PingV {
                                    peer_id: spec_uuid_parse(s.subrange(28, 64))->Some_0,
                                    peer_addr: a,
                                    peer_chat_addr: c,
                                },
                            ),
                        )
                    } else {
                        None
                    },
                    None => None,
                }
            } else {
                None
            },
            None => None,
        }
    } else {
        None
    }
}

/// The request read back from a payload laid out as a pong.
pub open spec fn spec_decode_pong(s: Seq<u8>) -> Option<ReqV> {
    if s.len() < 64 {
        None
    } else if spec_uuid_parse(s.subrange(28, 64)) is Some && lit_at(
        s,
        64,
        "\",\"peer_chat_addr\":\""@,
    ) {
        match spec_scan(s, 84) {
            Some((c, q)) => if s.len() - q == 1 && s[q] == RBRACE {
                Some(
                    ReqV::Pong(
                        PongV {
                            peer_id: spec_uuid_parse(s.subrange(28, 64))->Some_0,
                            peer_chat_addr: c,
                        },
                    ),
                )
            } else {
                None
            },
            None => None,
        }
    } else {
        None
    }
}

/// The request read back from a payload laid out as a message.
pub open spec fn spec_decode_message(s: Seq<u8>) -> Option<ReqV> {
    if s.len() < 67 {
        None
    } else if spec_uuid_parse(s.subrange(31, 67)) is Some && lit_at(s, 67, "\",\"text\":\""@) {
        match spec_scan(s, 77) {
            Some((t, q)) => if s.len() - q == 1 && s[q] == RBRACE {
                Some(
                    ReqV::Message(
                        MessageV {
                            peer_id: spec_uuid_parse(s.subrange(31, 67))->Some_0,
                            text: t,
                        },
                    ),
                )
            } else {
                None
            },
            None => None,
        }
    } else {
        None
    }
}

/// The request a payload decodes to: the discriminator selects the
/// variant; an unknown discriminator or a field out of place is a failure.
pub open spec fn spec_decode(s: Seq<u8>) -> Option<ReqV> {
    if lit_at(s, 0, "{\"method\":\"ping\",\"peer_id\":\""@) {
        spec_decode_ping(s)
    } else if lit_at(s, 0, "{\"method\":\"pong\",\"peer_id\":\""@) {
        spec_decode_pong(s)
    } else if lit_at(s, 0, "{\"method\":\"message\",\"peer_id\":\""@) {
        spec_decode_message(s)
    } else {
        None
    }
}

/// Encodes a request into its canonical payload.
pub fn encode(req: &Request) -> (r: Vec<u8>)
    ensures
        r@ == spec_encode(req@),
{
    proof {
        reveal_strlit("{\"method\":\"ping\",\"peer_id\":\"");
        reveal_strlit("{\"method\":\"pong\",\"peer_id\":\"");
        reveal_strlit("{\"method\":\"message\",\"peer_id\":\"");
        reveal_strlit("\",\"peer_addr\":\"");
        reveal_strlit(",\"peer_chat_addr\":\"");
        reveal_strlit("\",\"peer_chat_addr\":\"");
        reveal_strlit("\",\"text\":\"");
    }
    let mut out: Vec<u8> = Vec::new();
    match req {
        Request::Ping(p) => {
            append_ascii(&mut out, "{\"method\":\"ping\",\"peer_id\":\"");
            let id = p.peer_id.format();
            append_bytes(&mut out, id.as_slice());
            append_ascii(&mut out, "\",\"peer_addr\":\"");
            append_escaped(&mut out, p.peer_addr.bytes.as_slice());
            out.push(QUOTE);
            append_ascii(&mut out, ",\"peer_chat_addr\":\"");
            append_escaped(&mut out, p.peer_chat_addr.bytes.as_slice());
            out.push(QUOTE);
            out.push(RBRACE);
            proof {
                assert(out@ =~= spec_encode(req@));
            }
        },
        Request::Pong(p) => {
            append_ascii(&mut out, "{\"method\":\"pong\",\"peer_id\":\"");
            let id = p.peer_id.format();
            append_bytes(&mut out, id.as_slice());
            append_ascii(&mut out, "\",\"peer_chat_addr\":\"");
            append_escaped(&mut out, p.peer_chat_addr.bytes.as_slice());
            out.push(QUOTE);
            out.push(RBRACE);
            proof {
                assert(out@ =~= spec_encode(req@));
            }
        },
        Request::Message(m) => {
            append_ascii(&mut out, "{\"method\":\"message\",\"peer_id\":\"");
            let id = m.peer_id.format();
            append_bytes(&mut out, id.as_slice());
            append_ascii(&mut out, "\",\"text\":\"");
            append_escaped(&mut out, m.text.as_slice());
            out.push(QUOTE);
            out.push(RBRACE);
            proof {
                assert(out@ =~= spec_encode(req@));
            }
        },
    }
    out
}

/// Decodes a canonical payload, as [`spec_decode`] describes: the result
/// is a request exactly when the payload is laid out canonically, and the
/// request it carries otherwise a parse failure.
pub fn decode(s: &[u8]) -> (r: Result<Request, Error>)
    ensures
        r is Ok <==> spec_decode(s@) is Some,
        r is Ok ==> r->Ok_0@ == spec_decode(s@)->Some_0,
        r is Err ==> r->Err_0.kind == ErrorKind::ParseFailure,
{
    proof {
        reveal_strlit("{\"method\":\"ping\",\"peer_id\":\"");
        reveal_strlit("{\"method\":\"pong\",\"peer_id\":\"");
        reveal_strlit("{\"method\":\"message\",\"peer_id\":\"");
        reveal_strlit("\",\"peer_addr\":\"");
        reveal_strlit(",\"peer_chat_addr\":\"");
        reveal_strlit("\",\"peer_chat_addr\":\"");
        reveal_strlit("\",\"text\":\"");
    }
    if match_lit(s, 0, "{\"method\":\"ping\",\"peer_id\":\"") {
        decode_ping(s)
    } else if match_lit(s, 0, "{\"method\":\"pong\",\"peer_id\":\"") {
        decode_pong(s)
    } else if match_lit(s, 0, "{\"method\":\"message\",\"peer_id\":\"") {
        decode_message(s)
    } else {
        Err(Error::new(ErrorKind::ParseFailure, "unknown method"))
    }
}

/// Decodes the body of a payload whose discriminator says ping.
#[verifier::rlimit(100)]
fn decode_ping(s: &[u8]) -> (r: Result<Request, Error>)
    ensures
        r is Ok <==> spec_decode_ping(s@) is Some,
        r is Ok ==> r->Ok_0@ == spec_decode_ping(s@)->Some_0,
        r is Err ==> r->Err_0.kind == ErrorKind::ParseFailure,
{
    proof {
        reveal_strlit("\",\"peer_addr\":\"");
        reveal_strlit(",\"peer_chat_addr\":\"");
    }
    if s.len() < 64 {
        return Err(Error::new(ErrorKind::ParseFailure, "payload too short"));
    }
    let id = match Uuid::parse(vstd::slice::slice_subrange(s, 28, 64)) {
        Ok(id) => id,
        Err(_) => {
            return Err(Error::new(ErrorKind::ParseFailure, "malformed peer_id"));
        },
    };
    if !match_lit(s, 64, "\",\"peer_addr\":\"") {
        return Err(Error::new(ErrorKind::ParseFailure, "missing peer_addr"));
    }
    let (a, p) = match scan_string(s, 79) {
        Some(r) => r,
        None => {
            return Err(Error::new(ErrorKind::ParseFailure, "unterminated peer_addr"));
        },
    };
    if !match_lit(s, p, ",\"peer_chat_addr\":\"") {
        return Err(Error::new(ErrorKind::ParseFailure, "missing peer_chat_addr"));
    }
    proof {
        lemma_scan_bounds(s@, 79);
    }
    let (c, q) = match scan_string(s, p + 19) {
        Some(r) => r,
        None => {
            return Err(Error::new(ErrorKind::ParseFailure, "unterminated peer_chat_addr"));
        },
    };
    proof {
        lemma_scan_bounds(s@, p + 19);
    }
    if s.len() - q == 1 && s[q] == RBRACE {
        Ok(Request::Ping(Ping { peer_id: id, peer_addr: Addr::new(a), peer_chat_addr: Addr::new(c) }))
    } else {
        Err(Error::new(ErrorKind::ParseFailure, "trailing bytes"))
    }
}

/// Decodes the body of a payload whose discriminator says pong.
#[verifier::rlimit(100)]
fn decode_pong(s: &[u8]) -> (r: Result<Request, Error>)
    ensures
        r is Ok <==> spec_decode_pong(s@) is Some,
        r is Ok ==> r->Ok_0@ == spec_decode_pong(s@)->Some_0,
        r is Err ==> r->Err_0.kind == ErrorKind::ParseFailure,
{
    proof {
        reveal_strlit("\",\"peer_chat_addr\":\"");
    }
    if s.len() < 64 {
        return Err(Error::new(ErrorKind::ParseFailure, "payload too short"));
    }
    let id = match Uuid::parse(vstd::slice::slice_subrange(s, 28, 64)) {
        Ok(id) => id,
        Err(_) => {
            return Err(Error::new(ErrorKind::ParseFailure, "malformed peer_id"));
        },
    };
    if !match_lit(s, 64, "\",\"peer_chat_addr\":\"") {
        return Err(Error::new(ErrorKind::ParseFailure, "missing peer_chat_addr"));
    }
    let (c, q) = match scan_string(s, 84) {
        Some(r) => r,
        None => {
            return Err(Error::new(ErrorKind::ParseFailure, "unterminated peer_chat_addr"));
        },
    };
    proof {
        lemma_scan_bounds(s@, 84);
    }
    if s.len() - q == 1 && s[q] == RBRACE {
        Ok(Request::Pong(Pong { peer_id: id, peer_chat_addr: Addr::new(c) }))
    } else {
        Err(Error::new(ErrorKind::ParseFailure, "trailing bytes"))
    }
}

/// Decodes the body of a payload whose discriminator says message.
#[verifier::rlimit(100)]
fn decode_message(s: &[u8]) -> (r: Result<Request, Error>)
    ensures
        r is Ok <==> spec_decode_message(s@) is Some,
        r is Ok ==> r->Ok_0@ == spec_decode_message(s@)->Some_0,
        r is Err ==> r->Err_0.kind == ErrorKind::ParseFailure,
{
    proof {
        reveal_strlit("\",\"text\":\"");
    }
    if s.len() < 67 {
        return Err(Error::new(ErrorKind::ParseFailure, "payload too short"));
    }
    let id = match Uuid::parse(vstd::slice::slice_subrange(s, 31, 67)) {
        Ok(id) => id,
        Err(_) => {
            return Err(Error::new(ErrorKind::ParseFailure, "malformed peer_id"));
        },
    };
    if !match_lit(s, 67, "\",\"text\":\"") {
        return Err(Error::new(ErrorKind::ParseFailure, "missing text"));
    }
    let (t, q) = match scan_string(s, 77) {
        Some(r) => r,
        None => {
            return Err(Error::new(ErrorKind::ParseFailure, "unterminated text"));
        },
    };
    proof {
        lemma_scan_bounds(s@, 77);
    }
    if s.len() - q == 1 && s[q] == RBRACE {
        Ok(Request::Message(Message { peer_id: id, text: t }))
    } else {
        Err(Error::new(ErrorKind::ParseFailure, "trailing bytes"))
    }
}

/// Round trip for a ping payload.
#[verifier::rlimit(100)]
proof fn lemma_round_trip_ping(r: ReqV)
    requires
        wf_req(r),
        r is Ping,
    ensures
        spec_decode(spec_encode(r)) == Some(r),
{
    reveal_strlit("{\"method\":\"ping\",\"peer_id\":\"");
    reveal_strlit("\",\"peer_addr\":\"");
    reveal_strlit(",\"peer_chat_addr\":\"");
    let p = r->Ping_0;
    let s = spec_encode(r);
    let u = spec_uuid_text(p.peer_id);
    let ea = spec_escape(p.peer_addr);
    let ec = spec_escape(p.peer_chat_addr);
    lemma_uuid_round_trip(p.peer_id);
    assert(u.len() == 36);
    assert(s.subrange(0, 28) =~= ascii_seq("{\"method\":\"ping\",\"peer_id\":\""@));
    assert(s.subrange(28, 64) =~= u);
    assert(s.subrange(64, 79) =~= ascii_seq("\",\"peer_addr\":\""@));
    assert(s.subrange(79, 79 + ea.len() as int) =~= ea);
    assert(s[79 + ea.len() as int] == QUOTE);
    lemma_scan_escape(s, 79, p.peer_addr);
    let pa = 79 + ea.len() as int + 1;
    assert(s.subrange(pa, pa + 19) =~= ascii_seq(",\"peer_chat_addr\":\""@));
    assert(s.subrange(pa + 19, pa + 19 + ec.len() as int) =~= ec);
    assert(s[pa + 19 + ec.len() as int] == QUOTE);
    lemma_scan_escape(s, pa + 19, p.peer_chat_addr);
    let q = pa + 19 + ec.len() as int + 1;
    assert(s[q] == RBRACE);
    assert(q + 1 == s.len());
    assert(spec_decode_ping(s)->Some_0 =~~= r);
}

/// Round trip for a pong payload.
#[verifier::rlimit(100)]
proof fn lemma_round_trip_pong(r: ReqV)
    requires
        wf_req(r),
        r is Pong,
    ensures
        spec_decode(spec_encode(r)) == Some(r),
{
    reveal_strlit("{\"method\":\"ping\",\"peer_id\":\"");
    reveal_strlit("{\"method\":\"pong\",\"peer_id\":\"");
    reveal_strlit("\",\"peer_chat_addr\":\"");
    let p = r->Pong_0;
    let s = spec_encode(r);
    let u = spec_uuid_text(p.peer_id);
    let ec = spec_escape(p.peer_chat_addr);
    lemma_uuid_round_trip(p.peer_id);
    assert(u.len() == 36);
    assert(s.subrange(0, 28) =~= ascii_seq("{\"method\":\"pong\",\"peer_id\":\""@));
    assert(!lit_at(s, 0, "{\"method\":\"ping\",\"peer_id\":\""@)) by {
        if lit_at(s, 0, "{\"method\":\"ping\",\"peer_id\":\""@) {
            assert(s.subrange(0, 28)[12] == ascii_seq("{\"method\":\"ping\",\"peer_id\":\""@)[12]);
        }
    }
    assert(s.subrange(28, 64) =~= u);
    assert(s.subrange(64, 84) =~= ascii_seq("\",\"peer_chat_addr\":\""@));
    assert(s.subrange(84, 84 + ec.len() as int) =~= ec);
    assert(s[84 + ec.len() as int] == QUOTE);
    lemma_scan_escape(s, 84, p.peer_chat_addr);
    let q = 84 + ec.len() as int + 1;
    assert(s[q] == RBRACE);
    assert(q + 1 == s.len());
    assert(spec_decode_pong(s)->Some_0 =~~= r);
}

/// Round trip for a message payload.
#[verifier::rlimit(100)]
proof fn lemma_round_trip_message(r: ReqV)
    requires
        wf_req(r),
        r is Message,
    ensures
        spec_decode(spec_encode(r)) == Some(r),
{
    reveal_strlit("{\"method\":\"ping\",\"peer_id\":\"");
    reveal_strlit("{\"method\":\"pong\",\"peer_id\":\"");
    reveal_strlit("{\"method\":\"message\",\"peer_id\":\"");
    reveal_strlit("\",\"text\":\"");
    let m = r->Message_0;
    let s = spec_encode(r);
    let u = spec_uuid_text(m.peer_id);
    let et = spec_escape(m.text);
    lemma_uuid_round_trip(m.peer_id);
    assert(u.len() == 36);
    assert(s.subrange(0, 31) =~= ascii_seq("{\"method\":\"message\",\"peer_id\":\""@));
    assert(!lit_at(s, 0, "{\"method\":\"ping\",\"peer_id\":\""@)) by {
        if lit_at(s, 0, "{\"method\":\"ping\",\"peer_id\":\""@) {
            assert(s.subrange(0, 28)[11] == ascii_seq("{\"method\":\"ping\",\"peer_id\":\""@)[11]);
            assert(s.subrange(0, 31)[11] == ascii_seq("{\"method\":\"message\",\"peer_id\":\""@)[11]);
        }
    }
    assert(!lit_at(s, 0, "{\"method\":\"pong\",\"peer_id\":\""@)) by {
        if lit_at(s, 0, "{\"method\":\"pong\",\"peer_id\":\""@) {
            assert(s.subrange(0, 28)[11] == ascii_seq("{\"method\":\"pong\",\"peer_id\":\""@)[11]);
            assert(s.subrange(0, 31)[11] == ascii_seq("{\"method\":\"message\",\"peer_id\":\""@)[11]);
        }
    }
    assert(s.subrange(31, 67) =~= u);
    assert(s.subrange(67, 77) =~= ascii_seq("\",\"text\":\""@));
    assert(s.subrange(77, 77 + et.len() as int) =~= et);
    assert(s[77 + et.len() as int] == QUOTE);
    lemma_scan_escape(s, 77, m.text);
    let q = 77 + et.len() as int + 1;
    assert(s[q] == RBRACE);
    assert(q + 1 == s.len());
    assert(spec_decode_message(s)->Some_0 =~~= r);
}

/// Round trip: decoding the canonical payload of any well-formed request
/// gives that request back.
pub proof fn lemma_codec_round_trip(r: ReqV)
    requires
        wf_req(r),
    ensures
        spec_decode(spec_encode(r)) == Some(r),
{
    match r {
        ReqV::Ping(_) => lemma_round_trip_ping(r),
        ReqV::Pong(_) => lemma_round_trip_pong(r),
        ReqV::Message(_) => lemma_round_trip_message(r),
    }
}

/// A wire protocol error.
#[derive(Debug)]
pub struct Error {
    pub kind: ErrorKind,
    pub msg: String,
}

impl Error {
    /// An error of the given kind carrying a description.
    pub fn new(kind: ErrorKind, msg: &str) -> (r: Self)
        ensures
            r.kind == kind,
            r.msg@ == msg@,
    {
        Error { kind, msg: msg.to_owned() }
    }
}

/// The kinds of wire protocol error.
#[derive(Clone, Copy, PartialEq, Eq, Structural, Debug)]
pub enum ErrorKind {
    ParseFailure,
}

/// What one framed read of a transport chunk yields. The framing treats
/// the chunk as exactly one whole message.
#[derive(Clone, PartialEq, Eq, Debug)]
pub enum ReadOutcome {
    /// The chunk decoded to one request.
    Frame(Request),
    /// The transport returned zero bytes: the connection was aborted.
    Aborted,
    /// The chunk did not decode: a malformed or truncated payload.
    Malformed,
}

/// Interprets one transport read that filled `buf[..n]`: zero bytes is an
/// aborted connection, and anything else is framed as exactly one message
/// and decoded.
pub fn interpret_read(buf: &[u8], n: usize) -> (r: ReadOutcome)
    requires
        n <= buf@.len(),
    ensures
        n == 0 ==> r is Aborted,
        n > 0 ==> match spec_decode(buf@.subrange(0, n as int)) {
            Some(v) => r matches ReadOutcome::Frame(req) && req@ == v,
            None => r is Malformed,
        },
{
    if n == 0 {
        return ReadOutcome::Aborted;
    }
    match decode(vstd::slice::slice_subrange(buf, 0, n)) {
        Ok(req) => ReadOutcome::Frame(req),
        Err(_) => ReadOutcome::Malformed,
    }
}

} // verus!
