use peerchat::info::{ErrorKind, PeerInfo};
use peerchat::listing::{format_duration_ago, peer_row};
use peerchat::peer::{Addr, Peer, Status};
use peerchat::uuid::Uuid;

fn id(text: &[u8]) -> Uuid {
    Uuid::parse(text).expect("well-formed identifier")
}

fn addr(text: &[u8]) -> Addr {
    Addr::new(text.to_vec())
}

fn fresh_dir() -> PeerInfo {
    PeerInfo::with_id(
        id(b"aaaaaaaa-aaaa-4aaa-8aaa-aaaaaaaaaaaa"),
        addr(b"127.0.0.1:7040"),
        addr(b"127.0.0.1:7041"),
        Vec::new(),
        b"/tmp/peers.json".to_vec(),
    )
}

#[test]
fn peer_or_insert_is_idempotent_on_id() {
    let mut dir = fresh_dir();
    let unseen = id(b"bbbbbbbb-bbbb-4bbb-8bbb-bbbbbbbbbbbb");
    let first = dir.peer_or_insert(&unseen, &addr(b"1.1.1.1:1"), &addr(b"1.1.1.1:2"));
    let second = dir.peer_or_insert(&unseen, &addr(b"2.2.2.2:1"), &addr(b"2.2.2.2:2"));
    assert_eq!(first, second);
    assert_eq!(dir.peers.len(), 1);
    // the single record keeps the first call's defaults
    assert_eq!(dir.peers[0].addr, addr(b"1.1.1.1:1"));
    assert_eq!(dir.peers[0].chat_addr, addr(b"1.1.1.1:2"));
    assert_eq!(dir.peers[0].status, Status::Offline);
    assert_eq!(dir.peers[0].last_seen, None);
}

#[test]
fn record_handshake_inserts_online_record() {
    let mut dir = fresh_dir();
    let peer = id(b"bbbbbbbb-bbbb-4bbb-8bbb-bbbbbbbbbbbb");
    dir.record_handshake(&peer, &addr(b"1.1.1.1:1"), &addr(b"1.1.1.1:2"), 1700);
    assert_eq!(dir.peers.len(), 1);
    assert_eq!(dir.peers[0].id, peer);
    assert_eq!(dir.peers[0].status, Status::Online);
    assert_eq!(dir.peers[0].last_seen, Some(1700));
}

#[test]
fn record_handshake_keeps_known_addresses() {
    let mut dir = fresh_dir();
    let peer = id(b"bbbbbbbb-bbbb-4bbb-8bbb-bbbbbbbbbbbb");
    dir.record_handshake(&peer, &addr(b"1.1.1.1:1"), &addr(b"1.1.1.1:2"), 1700);
    dir.record_handshake(&peer, &addr(b"9.9.9.9:1"), &addr(b"9.9.9.9:2"), 1800);
    assert_eq!(dir.peers.len(), 1);
    // a later handshake refreshes status and time, not the addresses
    assert_eq!(dir.peers[0].addr, addr(b"1.1.1.1:1"));
    assert_eq!(dir.peers[0].chat_addr, addr(b"1.1.1.1:2"));
    assert_eq!(dir.peers[0].last_seen, Some(1800));
}

#[test]
fn local_identifier_never_becomes_a_record() {
    let mut dir = fresh_dir();
    let own = dir.id;
    dir.record_handshake(&own, &addr(b"1.1.1.1:1"), &addr(b"1.1.1.1:2"), 1700);
    assert_eq!(dir.peers.len(), 0);
}

#[test]
fn directory_document_round_trips() {
    let mut dir = fresh_dir();
    dir.record_handshake(
        &id(b"bbbbbbbb-bbbb-4bbb-8bbb-bbbbbbbbbbbb"),
        &addr(b"1.1.1.1:1"),
        &addr(b"1.1.1.1:2"),
        1700,
    );
    let _ = dir.peer_or_insert(
        &id(b"cccccccc-cccc-4ccc-8ccc-cccccccccccc"),
        &addr(b"2.2.2.2:1"),
        &addr(b"2.2.2.2:2"),
    );
    let bytes = dir.to_bytes();
    let back = PeerInfo::from_bytes(&bytes, b"/tmp/peers.json".to_vec()).expect("own document");
    assert_eq!(back, dir);
}

#[test]
fn empty_directory_document_is_exact() {
    let dir = fresh_dir();
    assert_eq!(
        String::from_utf8(dir.to_bytes()).unwrap(),
        "{\"id\":\"aaaaaaaa-aaaa-4aaa-8aaa-aaaaaaaaaaaa\",\"addr\":\"127.0.0.1:7040\",\
         \"chat_addr\":\"127.0.0.1:7041\",\"peers\":{}}"
    );
}

#[test]
fn directory_document_parses_as_json() {
    let mut dir = fresh_dir();
    dir.record_handshake(
        &id(b"bbbbbbbb-bbbb-4bbb-8bbb-bbbbbbbbbbbb"),
        &addr(b"1.1.1.1:1"),
        &addr(b"1.1.1.1:2"),
        1700,
    );
    let v: serde_json::Value = serde_json::from_slice(&dir.to_bytes()).expect("valid JSON");
    assert_eq!(v["id"], serde_json::Value::String("aaaaaaaa-aaaa-4aaa-8aaa-aaaaaaaaaaaa".into()));
    let rec = &v["peers"]["bbbbbbbb-bbbb-4bbb-8bbb-bbbbbbbbbbbb"];
    assert_eq!(rec["status"], serde_json::Value::String("online".into()));
    assert_eq!(rec["last_seen"], serde_json::Value::from(1700u64));
}

#[test]
fn malformed_documents_are_invalid_data() {
    let e = PeerInfo::from_bytes(b"not a document", b"p".to_vec()).unwrap_err();
    assert_eq!(e.kind, ErrorKind::InvalidData);
    assert!(PeerInfo::from_bytes(b"", b"p".to_vec()).is_err());
    // a well-formed document with trailing bytes
    let mut bytes = fresh_dir().to_bytes();
    bytes.push(b'\n');
    assert!(PeerInfo::from_bytes(&bytes, b"p".to_vec()).is_err());
}

#[test]
fn document_shadowing_the_local_identifier_is_rejected() {
    // a record under the directory's own identifier
    let own = id(b"aaaaaaaa-aaaa-4aaa-8aaa-aaaaaaaaaaaa");
    let rogue = PeerInfo::with_id(
        own,
        addr(b"h:1"),
        addr(b"h:2"),
        vec![Peer::new(own, addr(b"x:1"), addr(b"x:2"))],
        b"p".to_vec(),
    );
    let bytes = rogue.to_bytes();
    let e = PeerInfo::from_bytes(&bytes, b"p".to_vec()).unwrap_err();
    assert_eq!(e.kind, ErrorKind::InvalidData);
}

#[test]
fn duration_text_picks_the_unit() {
    assert_eq!(format_duration_ago(0), "0 second(s) ago");
    assert_eq!(format_duration_ago(59), "59 second(s) ago");
    assert_eq!(format_duration_ago(60), "1 minute(s) ago");
    assert_eq!(format_duration_ago(3599), "59 minute(s) ago");
    assert_eq!(format_duration_ago(3600), "1 hour(s) ago");
    assert_eq!(format_duration_ago(86399), "23 hour(s) ago");
    assert_eq!(format_duration_ago(86400), "1 day(s) ago");
    assert_eq!(format_duration_ago(200_000), "2 day(s) ago");
}

#[test]
fn peer_row_is_fixed_width() {
    let mut p = Peer::new(
        id(b"bbbbbbbb-bbbb-4bbb-8bbb-bbbbbbbbbbbb"),
        addr(b"1.1.1.1:1"),
        addr(b"1.1.1.1:2"),
    );
    p.status = Status::Online;
    p.last_seen = Some(1000);
    let row = String::from_utf8(peer_row(&p, 1005)).unwrap();
    assert_eq!(
        row,
        format!(
            "{:<38}{:<23}{:<20}{:<10}",
            "bbbbbbbb-bbbb-4bbb-8bbb-bbbbbbbbbbbb", "1.1.1.1:1", "5 second(s) ago", "online"
        )
    );
}

#[test]
fn never_seen_peer_row_says_never() {
    let p = Peer::new(
        id(b"bbbbbbbb-bbbb-4bbb-8bbb-bbbbbbbbbbbb"),
        addr(b"1.1.1.1:1"),
        addr(b"1.1.1.1:2"),
    );
    let row = String::from_utf8(peer_row(&p, 1005)).unwrap();
    assert!(row.contains("never"));
    assert!(row.contains("offline"));
}

#[test]
fn status_text_names_both_states() {
    assert_eq!(Status::Online.as_text(), "online");
    assert_eq!(Status::Offline.as_text(), "offline");
    assert_eq!(Status::default(), Status::Offline);
}

#[test]
fn addresses_with_quotes_survive_the_document() {
    let mut dir = fresh_dir();
    dir.record_handshake(
        &id(b"bbbbbbbb-bbbb-4bbb-8bbb-bbbbbbbbbbbb"),
        &addr(b"host \"x\" \\ 1:1"),
        &addr(b"1.1.1.1:2"),
        7,
    );
    let bytes = dir.to_bytes();
    let back = PeerInfo::from_bytes(&bytes, b"/tmp/peers.json".to_vec()).expect("escaped fields");
    assert_eq!(back, dir);
}

#[test]
fn largest_last_seen_round_trips() {
    let mut dir = fresh_dir();
    dir.record_handshake(
        &id(b"bbbbbbbb-bbbb-4bbb-8bbb-bbbbbbbbbbbb"),
        &addr(b"1.1.1.1:1"),
        &addr(b"1.1.1.1:2"),
        u64::MAX,
    );
    let bytes = dir.to_bytes();
    let back = PeerInfo::from_bytes(&bytes, b"/tmp/peers.json".to_vec()).expect("largest stamp");
    assert_eq!(back.peers[0].last_seen, Some(u64::MAX));
}

#[test]
fn padded_last_seen_is_rejected() {
    let mut dir = fresh_dir();
    dir.record_handshake(
        &id(b"bbbbbbbb-bbbb-4bbb-8bbb-bbbbbbbbbbbb"),
        &addr(b"1.1.1.1:1"),
        &addr(b"1.1.1.1:2"),
        1,
    );
    let text = String::from_utf8(dir.to_bytes()).unwrap();
    let padded = text.replace("\"last_seen\":1", "\"last_seen\":01");
    assert_ne!(text, padded);
    assert!(PeerInfo::from_bytes(padded.as_bytes(), b"/tmp/peers.json".to_vec()).is_err());
}
