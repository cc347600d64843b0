use peerchat::chat::{
    chat_targets, input_event, render_line, row_for, ChatHistory, RelayQueue, RELAY_CAPACITY,
};
use peerchat::client::{apply_pong, classify_reply, ping_for, HandshakeError};
use peerchat::info::PeerInfo;
use peerchat::peer::{Addr, Status};
use peerchat::request::{encode, interpret_read, Message, ReadOutcome, Request};
use peerchat::server::{apply_ping, pong_for, served_ping};
use peerchat::uuid::Uuid;

fn id(text: &[u8]) -> Uuid {
    Uuid::parse(text).expect("well-formed identifier")
}

fn addr(text: &[u8]) -> Addr {
    Addr::new(text.to_vec())
}

fn dir_with(idt: &[u8], a: &[u8], c: &[u8]) -> PeerInfo {
    PeerInfo::with_id(id(idt), addr(a), addr(c), Vec::new(), b"/tmp/peers.json".to_vec())
}

#[test]
fn full_queue_suspends_publisher_without_dropping() {
    let mut q = RelayQueue::new();
    let sender = id(b"aaaaaaaa-aaaa-4aaa-8aaa-aaaaaaaaaaaa");
    for i in 0..RELAY_CAPACITY {
        let m = Message::new(sender, format!("m{i}").into_bytes());
        assert!(q.try_publish(m).is_ok());
    }
    assert_eq!(q.len(), 32);
    // the queue is full: the publisher gets its message back, untouched
    let extra = Message::new(sender, b"m32".to_vec());
    let back = q.try_publish(extra.clone()).unwrap_err();
    assert_eq!(back, extra);
    assert_eq!(q.len(), 32);
    // once the consumer takes one message, the publish goes through
    let first = q.pop_front().unwrap();
    assert_eq!(first.text, b"m0".to_vec());
    assert!(q.try_publish(back).is_ok());
    // nothing was lost and arrival order held
    for i in 1..=32 {
        let m = q.pop_front().unwrap();
        assert_eq!(m.text, format!("m{i}").into_bytes());
    }
    assert!(q.pop_front().is_none());
}

#[test]
fn history_keeps_newest_first_and_evicts_oldest() {
    let mut h = ChatHistory::new(3);
    for line in [b"one".to_vec(), b"two".to_vec(), b"three".to_vec(), b"four".to_vec()] {
        h.push_line(line);
    }
    assert_eq!(h.len(), 3);
    assert_eq!(h.line(0), &b"four".to_vec());
    assert_eq!(h.line(1), &b"three".to_vec());
    assert_eq!(h.line(2), &b"two".to_vec());
}

#[test]
fn input_lines_are_trimmed_and_empty_ones_skipped() {
    let me = id(b"aaaaaaaa-aaaa-4aaa-8aaa-aaaaaaaaaaaa");
    let m = input_event(&me, b"  hello there \n").expect("non-empty line");
    assert_eq!(m.text, b"hello there".to_vec());
    assert_eq!(m.peer_id, me);
    assert!(input_event(&me, b"   \n").is_none());
    assert!(input_event(&me, b"").is_none());
}

#[test]
fn rendered_line_attributes_the_sender() {
    let m = Message::new(id(b"aaaaaaaa-aaaa-4aaa-8aaa-aaaaaaaaaaaa"), b"hi".to_vec());
    assert_eq!(
        String::from_utf8(render_line(&m)).unwrap(),
        "aaaaaaaa-aaaa-4aaa-8aaa-aaaaaaaaaaaa: hi"
    );
}

#[test]
fn rows_fill_upward_from_the_bottom() {
    assert_eq!(row_for(10, 0), 9);
    assert_eq!(row_for(10, 3), 6);
    assert_eq!(row_for(1, 0), 0);
}

#[test]
fn chat_targets_follow_directory_order() {
    let mut dir = dir_with(b"aaaaaaaa-aaaa-4aaa-8aaa-aaaaaaaaaaaa", b"h:1", b"h:2");
    dir.record_handshake(
        &id(b"bbbbbbbb-bbbb-4bbb-8bbb-bbbbbbbbbbbb"),
        &addr(b"1.1.1.1:1"),
        &addr(b"1.1.1.1:2"),
        1,
    );
    dir.record_handshake(
        &id(b"cccccccc-cccc-4ccc-8ccc-cccccccccccc"),
        &addr(b"2.2.2.2:1"),
        &addr(b"2.2.2.2:2"),
        2,
    );
    let targets = chat_targets(&dir);
    assert_eq!(targets.len(), 2);
    assert_eq!(targets[0], addr(b"1.1.1.1:2"));
    assert_eq!(targets[1], addr(b"2.2.2.2:2"));
}

#[test]
fn relay_receives_line_even_when_one_peer_socket_hangs() {
    // one peer relays "hello" to two others; whatever each peer socket
    // does, the sender's publish to its own relay queue is independent of
    // the fan-out, and the healthy receiver decodes the line
    let sender = id(b"aaaaaaaa-aaaa-4aaa-8aaa-aaaaaaaaaaaa");
    let m = input_event(&sender, b"hello\n").unwrap();
    let mut q = RelayQueue::new();
    assert!(q.try_publish(m.clone()).is_ok());
    let wire = encode(&Request::Message(m));
    // the healthy receiver gets the whole frame; the hung one returns
    // nothing, which only ends that connection
    match interpret_read(&wire, wire.len()) {
        ReadOutcome::Frame(Request::Message(got)) => {
            assert_eq!(got.text, b"hello".to_vec());
            assert_eq!(got.peer_id, sender);
        },
        other => panic!("expected the message frame, got {other:?}"),
    }
    assert_eq!(interpret_read(&wire, 0), ReadOutcome::Aborted);
}

#[test]
fn discovery_handshake_fills_both_directories() {
    // process A serves discovery; process B dials it
    let mut a = dir_with(b"aaaaaaaa-aaaa-4aaa-8aaa-aaaaaaaaaaaa", b"hostA:7040", b"hostA:7041");
    let mut b = dir_with(b"bbbbbbbb-bbbb-4bbb-8bbb-bbbbbbbbbbbb", b"hostB:7040", b"hostB:7041");

    // B sends its ping over the wire
    let ping_bytes = encode(&Request::Ping(ping_for(&b)));
    // A reads it, serves it, replies, and records B
    let read = interpret_read(&ping_bytes, ping_bytes.len());
    let ping = served_ping(&read).expect("a well-formed ping is served").clone();
    let pong_bytes = encode(&Request::Pong(pong_for(&a)));
    apply_ping(&mut a, &ping, 1700);
    // B reads the one reply and records A under the dialed address
    let reply = interpret_read(&pong_bytes, pong_bytes.len());
    let pong = classify_reply(reply).expect("a pong reply succeeds");
    apply_pong(&mut b, &addr(b"hostA:7040"), &pong, 1701);

    assert_eq!(a.peers.len(), 1);
    assert_eq!(a.peers[0].id, b.id);
    assert_eq!(a.peers[0].status, Status::Online);
    assert_eq!(a.peers[0].addr, addr(b"hostB:7040"));
    assert_eq!(a.peers[0].chat_addr, addr(b"hostB:7041"));
    assert_eq!(a.peers[0].last_seen, Some(1700));

    assert_eq!(b.peers.len(), 1);
    assert_eq!(b.peers[0].id, a.id);
    assert_eq!(b.peers[0].status, Status::Online);
    assert_eq!(b.peers[0].addr, addr(b"hostA:7040"));
    assert_eq!(b.peers[0].chat_addr, addr(b"hostA:7041"));
    assert_eq!(b.peers[0].last_seen, Some(1701));
}

#[test]
fn malformed_ping_is_skipped_and_service_continues() {
    let mut a = dir_with(b"aaaaaaaa-aaaa-4aaa-8aaa-aaaaaaaaaaaa", b"hostA:7040", b"hostA:7041");
    // a truncated payload is not served and changes nothing
    let garbage = b"{\"method\":\"ping\",\"peer_id\":\"000";
    let read = interpret_read(garbage, garbage.len());
    assert_eq!(read, ReadOutcome::Malformed);
    assert!(served_ping(&read).is_none());
    assert_eq!(a.peers.len(), 0);
    // the next, well-formed ping on the same loop is served normally
    let b = dir_with(b"bbbbbbbb-bbbb-4bbb-8bbb-bbbbbbbbbbbb", b"hostB:7040", b"hostB:7041");
    let ping_bytes = encode(&Request::Ping(ping_for(&b)));
    let read = interpret_read(&ping_bytes, ping_bytes.len());
    let ping = served_ping(&read).expect("served after the malformed one").clone();
    apply_ping(&mut a, &ping, 1700);
    assert_eq!(a.peers.len(), 1);
    assert_eq!(a.peers[0].status, Status::Online);
}

#[test]
fn exactly_a_pong_reply_succeeds() {
    let a = dir_with(b"aaaaaaaa-aaaa-4aaa-8aaa-aaaaaaaaaaaa", b"hostA:7040", b"hostA:7041");
    let ping = Request::Ping(ping_for(&a));
    let msg = Request::Message(Message::new(a.id, b"x".to_vec()));
    let ping_read = interpret_read(&encode(&ping), encode(&ping).len());
    let msg_read = interpret_read(&encode(&msg), encode(&msg).len());
    assert_eq!(classify_reply(ping_read).unwrap_err(), HandshakeError::ProtocolViolation);
    assert_eq!(classify_reply(msg_read).unwrap_err(), HandshakeError::ProtocolViolation);
    assert_eq!(classify_reply(ReadOutcome::Aborted).unwrap_err(), HandshakeError::ConnectionAborted);
    assert_eq!(classify_reply(ReadOutcome::Malformed).unwrap_err(), HandshakeError::ParseFailure);
}

#[test]
fn zero_capacity_history_keeps_nothing() {
    let mut h = ChatHistory::new(0);
    h.push_line(b"line".to_vec());
    assert_eq!(h.len(), 0);
}
