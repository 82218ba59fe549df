use marsipan::packet::{parse, parse_message, parse_submessage, Message, MessageBody, ParseError, SubMessage};

#[test]
fn parse_basic() {
    assert_eq!(parse(b"foo bar\nbaz=qux\n\nthis is the body\0".to_vec()),
               Ok(Message {
                      name: b"foo".to_vec(),
                      argument: Some(b"bar".to_vec()),
                      attrs: vec![(b"baz".to_vec(), String::from("qux"))],
                      body: Some(MessageBody(b"this is the body\0".to_vec())),
                  }));
}

#[test]
fn parse_no_body() {
    assert_eq!(parse(b"foo bar\nbaz=qux\n\0".to_vec()),
               Ok(Message {
                      name: b"foo".to_vec(),
                      argument: Some(b"bar".to_vec()),
                      attrs: vec![(b"baz".to_vec(), String::from("qux"))],
                      body: None,
                  }));
}

#[test]
fn parse_no_attrs() {
    assert_eq!(parse(b"foo bar\n\0".to_vec()),
               Ok(Message {
                      name: b"foo".to_vec(),
                      argument: Some(b"bar".to_vec()),
                      attrs: vec![],
                      body: None,
                  }));
}

#[test]
fn parse_no_arg() {
    assert_eq!(parse(b"foo\n\0".to_vec()),
               Ok(Message {
                      name: b"foo".to_vec(),
                      argument: None,
                      attrs: vec![],
                      body: None,
                  }));
}

#[test]
fn parse_sub() {
    let msg = parse(b"foo\n\na=b\nc=d\n\0".to_vec())
        .expect("oh no")
        .body
        .expect("no body");
    assert_eq!(msg.submessage(),
               Ok(SubMessage {
                      name: None,
                      argument: None,
                      attrs: vec![(b"a".to_vec(), String::from("b")),
                                  (b"c".to_vec(), String::from("d"))],
                      body: None,
                  }))
}

#[test]
fn body_keeps_its_nul_even_when_empty() {
    let msg = parse(b"foo\n\n\0".to_vec()).expect("a packet");
    assert_eq!(msg.body, Some(MessageBody(vec![0u8])));
}

#[test]
fn body_stops_at_first_nul() {
    let (msg, end) = parse_message(b"foo\n\nab\0cd\0", 0).expect("a packet");
    assert_eq!(msg.body, Some(MessageBody(b"ab\0".to_vec())));
    assert_eq!(end, 8);
}

#[test]
fn body_without_nul_is_malformed() {
    assert_eq!(parse(b"foo\n\nabc".to_vec()), Err(ParseError::MalformedPacket));
}

#[test]
fn name_must_be_alphabetic_and_present() {
    assert_eq!(parse(b"\n\0".to_vec()), Err(ParseError::MalformedPacket));
    assert_eq!(parse(b"1foo\n\0".to_vec()), Err(ParseError::MalformedPacket));
    assert_eq!(parse(b"foo1\n\0".to_vec()), Err(ParseError::MalformedPacket));
    assert_eq!(parse(b"".to_vec()), Err(ParseError::MalformedPacket));
    assert_eq!(parse(b"foo".to_vec()), Err(ParseError::MalformedPacket));
}

#[test]
fn command_line_needs_its_line_feed() {
    assert_eq!(parse(b"foo bar".to_vec()), Err(ParseError::MalformedPacket));
    assert_eq!(parse(b"foo\n".to_vec()), Err(ParseError::MalformedPacket));
}

#[test]
fn empty_argument_is_present() {
    let msg = parse(b"foo \n\0".to_vec()).expect("a packet");
    assert_eq!(msg.argument, Some(vec![]));
}

#[test]
fn argument_may_hold_spaces_and_equals() {
    let msg = parse(b"recv chat:room a=b\n\0".to_vec()).expect("a packet");
    assert_eq!(msg.name, b"recv".to_vec());
    assert_eq!(msg.argument, Some(b"chat:room a=b".to_vec()));
}

#[test]
fn attribute_value_may_be_empty_and_hold_equals() {
    let msg = parse(b"foo\nk1=\nk2=a=b\n\0".to_vec()).expect("a packet");
    assert_eq!(msg.attrs,
               vec![(b"k1".to_vec(), String::new()), (b"k2".to_vec(), String::from("a=b"))]);
}

#[test]
fn attribute_value_is_decoded_as_utf8() {
    let msg = parse(b"foo\nk=h\xc3\xa9\n\0".to_vec()).expect("a packet");
    assert_eq!(msg.attrs, vec![(b"k".to_vec(), String::from("h\u{e9}"))]);
}

#[test]
fn invalid_utf8_value_fails_the_parse() {
    assert_eq!(parse(b"foo\nk=\xff\xfe\n\0".to_vec()), Err(ParseError::MalformedPacket));
    assert_eq!(parse(b"foo\na=b\nk=\xc3\n\0".to_vec()), Err(ParseError::MalformedPacket));
    assert_eq!(parse(b"foo\nk=\xed\xa0\x80\n\n\0".to_vec()), Err(ParseError::MalformedPacket));
}

#[test]
fn invalid_utf8_value_fails_the_submessage() {
    let body = MessageBody(b"k=\xff\n\0".to_vec());
    assert_eq!(body.submessage(), Err(ParseError::MalformedPacket));
}

#[test]
fn invalid_utf8_in_body_is_kept() {
    let msg = parse(b"foo\n\n\xff\xfe\0".to_vec()).expect("a packet");
    assert_eq!(msg.body, Some(MessageBody(b"\xff\xfe\0".to_vec())));
}

#[test]
fn round_trip_without_body() {
    let msg = Message {
        name: b"property".to_vec(),
        argument: Some(b"chat:Botdom".to_vec()),
        attrs: vec![(b"p".to_vec(), String::from("members")), (b"by".to_vec(), String::from(""))],
        body: None,
    };
    let mut wire: Vec<u8> = Vec::new();
    wire.extend_from_slice(&msg.name);
    wire.push(b' ');
    wire.extend_from_slice(msg.argument.as_ref().unwrap());
    wire.push(b'\n');
    for (k, v) in msg.attrs.iter() {
        wire.extend_from_slice(k);
        wire.push(b'=');
        wire.extend_from_slice(v.as_bytes());
        wire.push(b'\n');
    }
    wire.push(0);
    assert_eq!(parse(wire), Ok(msg));
}

#[test]
fn packet_ends_after_its_terminator() {
    let (msg, end) = parse_message(b"foo\na=b\n\0bar\n\0", 0).expect("a packet");
    assert_eq!(msg.name, b"foo".to_vec());
    assert_eq!(end, 9);
    let (next, end) = parse_message(b"foo\na=b\n\0bar\n\0", 9).expect("a packet");
    assert_eq!(next.name, b"bar".to_vec());
    assert_eq!(end, 14);
}

#[test]
fn submessage_with_command_line() {
    let body = MessageBody(b"member someone\npc=Members\n\nrest\0".to_vec());
    assert_eq!(body.submessage(),
               Ok(SubMessage {
                      name: Some(b"member".to_vec()),
                      argument: Some(b"someone".to_vec()),
                      attrs: vec![(b"pc".to_vec(), String::from("Members"))],
                      body: Some(MessageBody(b"rest\0".to_vec())),
                  }));
}

#[test]
fn submessage_is_repeatable() {
    let body = MessageBody(b"a=b\n\0".to_vec());
    assert_eq!(body.submessage(), body.submessage());
    let (sub, end) = parse_submessage(b"a=b\n\0", 0).expect("a sub-message");
    assert_eq!(sub.name, None);
    assert_eq!(end, 5);
}

#[test]
fn packet_without_body_must_end_with_nul() {
    assert_eq!(parse(b"foo\nx".to_vec()), Err(ParseError::MalformedPacket));
    assert_eq!(parse(b"foo\nabc\0".to_vec()), Err(ParseError::MalformedPacket));
    assert_eq!(parse(b"foo\na=b\n \0".to_vec()), Err(ParseError::MalformedPacket));
    assert_eq!(parse(b"foo\na=b".to_vec()), Err(ParseError::MalformedPacket));
}
