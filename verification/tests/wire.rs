use peerchat::peer::Addr;
use peerchat::request::{
    decode, encode, interpret_read, ErrorKind, Message, Ping, Pong, ReadOutcome, Request,
};
use peerchat::uuid::Uuid;

fn id(text: &[u8]) -> Uuid {
    Uuid::parse(text).expect("well-formed identifier")
}

fn addr(text: &[u8]) -> Addr {
    Addr::new(text.to_vec())
}

#[test]
fn ping_encodes_to_its_canonical_payload() {
    let ping = Ping::new(
        id(b"00010203-0405-0607-0809-0a0b0c0d0e0f"),
        addr(b"127.0.0.1:7040"),
        addr(b"127.0.0.1:7041"),
    );
    let bytes = encode(&Request::Ping(ping));
    assert_eq!(
        String::from_utf8(bytes).unwrap(),
        "{\"method\":\"ping\",\"peer_id\":\"00010203-0405-0607-0809-0a0b0c0d0e0f\",\
         \"peer_addr\":\"127.0.0.1:7040\",\"peer_chat_addr\":\"127.0.0.1:7041\"}"
    );
}

#[test]
fn pong_encodes_to_its_canonical_payload() {
    let pong = Pong::new(id(b"00010203-0405-0607-0809-0a0b0c0d0e0f"), addr(b"[::1]:9000"));
    let bytes = encode(&Request::Pong(pong));
    assert_eq!(
        String::from_utf8(bytes).unwrap(),
        "{\"method\":\"pong\",\"peer_id\":\"00010203-0405-0607-0809-0a0b0c0d0e0f\",\
         \"peer_chat_addr\":\"[::1]:9000\"}"
    );
}

#[test]
fn message_encodes_to_its_canonical_payload() {
    let msg = Message::new(id(b"00010203-0405-0607-0809-0a0b0c0d0e0f"), b"hello".to_vec());
    let bytes = encode(&Request::Message(msg));
    assert_eq!(
        String::from_utf8(bytes).unwrap(),
        "{\"method\":\"message\",\"peer_id\":\"00010203-0405-0607-0809-0a0b0c0d0e0f\",\
         \"text\":\"hello\"}"
    );
}

#[test]
fn every_variant_round_trips() {
    let reqs = vec![
        Request::Ping(Ping::new(
            id(b"00010203-0405-0607-0809-0a0b0c0d0e0f"),
            addr(b"10.0.0.1:1"),
            addr(b"10.0.0.1:2"),
        )),
        Request::Pong(Pong::new(id(b"ffffffff-ffff-ffff-ffff-ffffffffffff"), addr(b"h:1"))),
        Request::Message(Message::new(
            id(b"00000000-0000-0000-0000-000000000001"),
            b"line with spaces".to_vec(),
        )),
    ];
    for req in reqs {
        let bytes = encode(&req);
        assert_eq!(decode(&bytes).expect("canonical payload"), req);
    }
}

#[test]
fn quotes_and_backslashes_survive_the_codec() {
    let msg = Message::new(
        id(b"00010203-0405-0607-0809-0a0b0c0d0e0f"),
        b"say \"hi\" \\ twice".to_vec(),
    );
    let req = Request::Message(msg);
    let bytes = encode(&req);
    assert_eq!(decode(&bytes).expect("escapes read back"), req);
}

#[test]
fn unknown_discriminator_is_a_parse_failure() {
    let bytes = b"{\"method\":\"poke\",\"peer_id\":\"00010203-0405-0607-0809-0a0b0c0d0e0f\"}";
    let e = decode(bytes).unwrap_err();
    assert_eq!(e.kind, ErrorKind::ParseFailure);
}

#[test]
fn truncated_payload_is_a_parse_failure() {
    let full = encode(&Request::Pong(Pong::new(
        id(b"00010203-0405-0607-0809-0a0b0c0d0e0f"),
        addr(b"h:1"),
    )));
    let cut = &full[..full.len() - 1];
    assert!(decode(cut).is_err());
}

#[test]
fn trailing_bytes_are_a_parse_failure() {
    let mut full = encode(&Request::Pong(Pong::new(
        id(b"00010203-0405-0607-0809-0a0b0c0d0e0f"),
        addr(b"h:1"),
    )));
    full.push(b' ');
    assert!(decode(&full).is_err());
}

#[test]
fn payloads_parse_as_json() {
    let ping = Ping::new(
        id(b"00010203-0405-0607-0809-0a0b0c0d0e0f"),
        addr(b"127.0.0.1:7040"),
        addr(b"127.0.0.1:7041"),
    );
    let bytes = encode(&Request::Ping(ping));
    let v: serde_json::Value = serde_json::from_slice(&bytes).expect("valid JSON");
    assert_eq!(v["method"], serde_json::Value::String("ping".to_string()));
    assert_eq!(
        v["peer_id"],
        serde_json::Value::String("00010203-0405-0607-0809-0a0b0c0d0e0f".to_string())
    );
    assert_eq!(v["peer_addr"], serde_json::Value::String("127.0.0.1:7040".to_string()));
    assert_eq!(v["peer_chat_addr"], serde_json::Value::String("127.0.0.1:7041".to_string()));
}

#[test]
fn zero_byte_read_is_an_aborted_connection() {
    let buf = [0u8; 16];
    assert_eq!(interpret_read(&buf, 0), ReadOutcome::Aborted);
}

#[test]
fn garbage_read_is_malformed() {
    let buf = b"not a payload at all";
    assert_eq!(interpret_read(buf, buf.len()), ReadOutcome::Malformed);
}

#[test]
fn whole_chunk_read_is_framed_as_one_message() {
    let req = Request::Message(Message::new(
        id(b"00010203-0405-0607-0809-0a0b0c0d0e0f"),
        b"hello".to_vec(),
    ));
    let bytes = encode(&req);
    match interpret_read(&bytes, bytes.len()) {
        ReadOutcome::Frame(got) => assert_eq!(got, req),
        other => panic!("expected a frame, got {other:?}"),
    }
}
