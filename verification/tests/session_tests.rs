use marsipan::bytes::{class_has, copy_range, same_bytes, scan, ByteClass};
use marsipan::hooks::{Hook, HookStorage};
use marsipan::packet::{parse, Message, MessageBody, ParseError};
use marsipan::session::{decode, greeting, step, take_packet, MarsError, SessionAction, SessionEvent, SessionState};
use marsipan::wire::encode;

#[test]
fn byte_classes() {
    assert!(class_has(ByteClass::Alpha, b'a'));
    assert!(class_has(ByteClass::Alpha, b'Z'));
    assert!(!class_has(ByteClass::Alpha, b'0'));
    assert!(!class_has(ByteClass::Alpha, b'['));
    assert!(!class_has(ByteClass::Alpha, b'`'));
    assert!(class_has(ByteClass::Alnum, b'9'));
    assert!(!class_has(ByteClass::Alnum, b'='));
    assert!(class_has(ByteClass::Digit, b'0'));
    assert!(!class_has(ByteClass::Digit, b'a'));
    assert!(class_has(ByteClass::NotLf, 0));
    assert!(!class_has(ByteClass::NotLf, b'\n'));
    assert!(!class_has(ByteClass::NotNul, 0));
    assert!(!class_has(ByteClass::NotSpace, b' '));
}

#[test]
fn scan_stops_at_first_byte_outside_the_class() {
    assert_eq!(scan(b"abc=def", 0, ByteClass::Alpha), 3);
    assert_eq!(scan(b"abc=def", 3, ByteClass::Alpha), 3);
    assert_eq!(scan(b"abc=def", 4, ByteClass::Alpha), 7);
    assert_eq!(scan(b"abc", 3, ByteClass::Alpha), 3);
}

#[test]
fn ranges_and_equality_of_bytes() {
    assert_eq!(copy_range(b"abcdef", 2, 4), b"cd".to_vec());
    assert_eq!(copy_range(b"abcdef", 3, 3), Vec::<u8>::new());
    assert!(same_bytes(b"abc", b"abc"));
    assert!(!same_bytes(b"abc", b"abd"));
    assert!(!same_bytes(b"abc", b"ab"));
}

#[test]
fn packets_are_cut_at_the_first_nul() {
    let mut buf = b"foo\n\0bar baz\n\0qu".to_vec();
    assert_eq!(take_packet(&mut buf), Some(b"foo\n\0".to_vec()));
    assert_eq!(take_packet(&mut buf), Some(b"bar baz\n\0".to_vec()));
    assert_eq!(take_packet(&mut buf), None);
    assert_eq!(buf, b"qu".to_vec());
}

#[test]
fn decode_reads_whole_packets_only() {
    let mut buf = b"foo\na=b\n\n\0bar".to_vec();
    assert_eq!(decode(&mut buf),
               Some(Ok(Message {
                           name: b"foo".to_vec(),
                           argument: None,
                           attrs: vec![(b"a".to_vec(), String::from("b"))],
                           body: Some(MessageBody(vec![0u8])),
                       })));
    assert_eq!(decode(&mut buf), None);
    assert_eq!(buf, b"bar".to_vec());
}

#[test]
fn decode_fails_on_a_malformed_packet() {
    let mut buf = b"foo\0bar\n\0".to_vec();
    assert_eq!(decode(&mut buf), Some(Err(ParseError::MalformedPacket)));
    assert_eq!(buf, b"bar\n\0".to_vec());
    let mut extra = b"foo\nxyz\0".to_vec();
    assert_eq!(decode(&mut extra), Some(Err(ParseError::MalformedPacket)));
    let mut bad = b"foo\nk=\xff\n\0".to_vec();
    assert_eq!(decode(&mut bad), Some(Err(ParseError::MalformedPacket)));
}

#[test]
fn greeting_on_the_wire() {
    assert_eq!(encode(&greeting()), b"dAmnClient 0.3\nagent=marsipan\n\0".to_vec());
    assert_eq!(parse(b"dAmnClient 0.3\nagent=marsipan\n\0".to_vec()), Ok(greeting()));
}

#[test]
fn encode_writes_the_body_after_a_blank_line() {
    let msg = Message {
        name: b"send".to_vec(),
        argument: Some(b"chat:room".to_vec()),
        attrs: vec![],
        body: Some(MessageBody(b"msg main\n\nhi\0".to_vec())),
    };
    let wire = encode(&msg);
    assert_eq!(wire, b"send chat:room\n\nmsg main\n\nhi\0".to_vec());
    assert_eq!(parse(wire), Ok(msg));
}

#[test]
fn encode_then_parse_gives_the_packet_back() {
    let msg = Message {
        name: b"login".to_vec(),
        argument: None,
        attrs: vec![(b"pk".to_vec(), String::from("h\u{e9}llo w\u{f6}rld")),
                    (b"e2".to_vec(), String::new())],
        body: None,
    };
    let wire = encode(&msg);
    assert_eq!(wire, b"login\npk=h\xc3\xa9llo w\xc3\xb6rld\ne2=\n\0".to_vec());
    assert_eq!(parse(wire), Ok(msg));
}

#[test]
fn session_goes_from_connecting_to_active() {
    assert_eq!(step(SessionState::Connecting, SessionEvent::Connected),
               (SessionState::Active, SessionAction::Greet));
    assert_eq!(step(SessionState::Active, SessionEvent::Received),
               (SessionState::Active, SessionAction::Dispatch));
    assert_eq!(step(SessionState::Active, SessionEvent::Queued),
               (SessionState::Active, SessionAction::Write));
    assert_eq!(step(SessionState::Connecting, SessionEvent::Received),
               (SessionState::Connecting, SessionAction::Idle));
}

#[test]
fn every_failure_reconnects() {
    for e in [MarsError::Io, MarsError::Parse, MarsError::Fut] {
        for s in [SessionState::Connecting, SessionState::Active] {
            assert_eq!(step(s, SessionEvent::Failure(e)),
                       (SessionState::Failed, SessionAction::Abandon));
        }
    }
    assert_eq!(step(SessionState::Failed, SessionEvent::Ready),
               (SessionState::Connecting, SessionAction::Connect));
}

#[test]
fn closed_session_stays_closed() {
    assert_eq!(step(SessionState::Active, SessionEvent::Ended),
               (SessionState::Closed, SessionAction::Abandon));
    assert_eq!(step(SessionState::Closed, SessionEvent::Connected),
               (SessionState::Closed, SessionAction::Idle));
    assert_eq!(step(SessionState::Closed, SessionEvent::Failure(MarsError::Io)),
               (SessionState::Closed, SessionAction::Idle));
}

#[test]
fn hooks_fire_in_registration_order() {
    let mut hooks = HookStorage::new();
    assert_eq!(hooks.register(String::from("in")), 0);
    assert_eq!(hooks.register(String::from("out")), 1);
    assert_eq!(hooks.register(String::from("in")), 2);
    assert_eq!(hooks.fire(&String::from("in")), vec![0, 2]);
    assert_eq!(hooks.fire(&String::from("out")), vec![1]);
    assert_eq!(hooks.fire(&String::from("recv")), Vec::<u64>::new());
}

#[test]
fn unregistered_hook_does_not_fire() {
    let mut hooks = HookStorage::new();
    hooks.register(String::from("in"));
    hooks.register(String::from("in"));
    hooks.unregister(0);
    assert_eq!(hooks.fire(&String::from("in")), vec![1]);
    hooks.unregister(7);
    assert_eq!(hooks.fire(&String::from("in")), vec![1]);
    assert_eq!(hooks.register(String::from("in")), 2);
    assert_eq!(hooks.fire(&String::from("in")), vec![1, 2]);
}

#[test]
fn hook_requests_are_applied() {
    let mut hooks = HookStorage::new();
    assert_eq!(hooks.apply(Hook::Register(String::from("in"))), Some(0));
    assert_eq!(hooks.apply(Hook::Register(String::from("out"))), Some(1));
    assert_eq!(hooks.apply(Hook::Unregister(0)), None);
    assert_eq!(hooks.hooks, vec![(1, String::from("out"))]);
    assert_eq!(hooks.next, 2);
}
