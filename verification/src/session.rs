//! One session of the connection: how bytes are cut into packets, and what
//! the driver does next on each thing that happens to it.

use vstd::prelude::*;
use crate::bytes::{copy_range, lemma_run_bounds, run_end, scan, ByteClass};
use crate::packet::{lemma_ends_with_nul, message_at, parse_message, Message, ParseError};

verus! {

/// Where the first packet of a buffer ends: after its first NUL. Nothing where
/// the buffer holds no NUL yet.
pub open spec fn frame_end(s: Seq<u8>) -> Option<int> {
    let e = run_end(s, 0, ByteClass::NotNul);
    if e < s.len() {
        Some(e + 1)
    } else {
        None
    }
}

/// Takes the first packet, with its NUL, off the front of the buffer. A
/// buffer without a NUL is left as it is.
pub fn take_packet(buf: &mut Vec<u8>) -> (r: Option<Vec<u8>>)
    ensures
        match frame_end(old(buf)@) {
            None => r is None && final(buf)@ == old(buf)@,
            Some(e) => {
                &&& 0 < e <= old(buf)@.len()
                &&& r matches Some(packet) && packet@ == old(buf)@.subrange(0, e)
                &&& final(buf)@ == old(buf)@.subrange(e, old(buf)@.len() as int)
            },
        },
{
    let e = scan(buf.as_slice(), 0, ByteClass::NotNul);
    if e >= buf.len() {
        return None;
    }
    let packet = copy_range(buf.as_slice(), 0, e + 1);
    let rest = copy_range(buf.as_slice(), e + 1, buf.len());
    *buf = rest;
    Some(packet)
}

/// Takes the first packet off the buffer and reads it. Nothing where the
/// buffer holds no whole packet yet; an error where its first packet is
/// malformed.
pub fn decode(buf: &mut Vec<u8>) -> (r: Option<Result<Message, ParseError>>)
    ensures
        match frame_end(old(buf)@) {
            None => r is None && final(buf)@ == old(buf)@,
            Some(e) => {
                &&& final(buf)@ == old(buf)@.subrange(e, old(buf)@.len() as int)
                &&& match message_at(old(buf)@.subrange(0, e), 0) {
                    Some((m, _)) => r matches Some(Ok(msg)) && msg@ == m,
                    None => r matches Some(Err(x)) && x == ParseError::MalformedPacket,
                }
            },
        },
{
    let packet = match take_packet(buf) {
        None => {
            return None;
        },
        Some(packet) => packet,
    };
    match parse_message(packet.as_slice(), 0) {
        Ok((msg, _)) => Some(Ok(msg)),
        Err(e) => Some(Err(e)),
    }
}

/// A packet that is read from the bytes that were cut off for it takes all of
/// them: the NUL at which the buffer was cut is the NUL that closes it.
pub proof fn lemma_frame_is_whole(s: Seq<u8>)
    requires
        frame_end(s) is Some,
    ensures
        message_at(s.subrange(0, frame_end(s).unwrap()), 0) matches Some((_, end)) ==> end
            == frame_end(s).unwrap(),
{
    let e = frame_end(s).unwrap();
    let frame = s.subrange(0, e);
    lemma_run_bounds(s, 0, ByteClass::NotNul);
    lemma_ends_with_nul(frame, 0);
    if let Some((_, end)) = message_at(frame, 0) {
        assert(frame[end - 1] == s[end - 1]);
    }
}

/// The packet that opens a session: the client's name and version, and the
/// agent that speaks.
pub fn greeting() -> (m: Message)
    ensures
        m@.name == seq![100u8, 65u8, 109u8, 110u8, 67u8, 108u8, 105u8, 101u8, 110u8, 116u8],
        m@.argument == Some(seq![48u8, 46u8, 51u8]),
        m@.attrs == seq![(seq![97u8, 103u8, 101u8, 110u8, 116u8], "marsipan"@)],
        m@.body is None,
{
    let name = vec![100u8, 65u8, 109u8, 110u8, 67u8, 108u8, 105u8, 101u8, 110u8, 116u8];
    let version = vec![48u8, 46u8, 51u8];
    let key = vec![97u8, 103u8, 101u8, 110u8, 116u8];
    let mut attrs: Vec<(Vec<u8>, String)> = Vec::new();
    attrs.push((key, "marsipan".to_owned()));
    let m = Message { name, argument: Some(version), attrs, body: None };
    assert(m@.attrs =~= seq![(seq![97u8, 103u8, 101u8, 110u8, 116u8], "marsipan"@)]);
    m
}

/// Why a session fails.
#[derive(Clone, Copy, Debug, PartialEq, Eq, Structural)]
pub enum MarsError {
    /// Reading from or writing to the socket failed.
    Io,
    /// A packet was malformed.
    Parse,
    /// The outbound queue is closed.
    Fut,
}

/// Where the driver stands.
#[derive(Clone, Copy, Debug, PartialEq, Eq, Structural)]
pub enum SessionState {
    Connecting,
    Active,
    Closed,
    Failed,
}

/// What happened to the driver.
#[derive(Clone, Copy, Debug, PartialEq, Eq, Structural)]
pub enum SessionEvent {
    /// The socket is connected.
    Connected,
    /// A packet was read and decoded.
    Received,
    /// A message waits in the outbound queue.
    Queued,
    /// The peer closed the connection.
    Ended,
    /// Something failed.
    Failure(MarsError),
    /// The driver is ready to go on.
    Ready,
}

/// What the driver is to do.
#[derive(Clone, Copy, Debug, PartialEq, Eq, Structural)]
pub enum SessionAction {
    /// Connect to the address.
    Connect,
    /// Start a session with empty hooks and send the greeting.
    Greet,
    /// Hand the packet to the handler of its command.
    Dispatch,
    /// Write the queued message to the socket.
    Write,
    /// Drop the session and all that belongs to it.
    Abandon,
    /// Nothing.
    Idle,
}

/// The driver's rule: a connection makes the session active; an active session
/// dispatches and writes; every failure abandons the session, and a failed
/// session always connects again; a closed one stays closed.
pub open spec fn step_of(state: SessionState, event: SessionEvent) -> (SessionState, SessionAction) {
    match (state, event) {
        (SessionState::Closed, _) => (SessionState::Closed, SessionAction::Idle),
        (SessionState::Failed, _) => (SessionState::Connecting, SessionAction::Connect),
        (_, SessionEvent::Failure(_)) => (SessionState::Failed, SessionAction::Abandon),
        (SessionState::Connecting, SessionEvent::Connected) => (
            SessionState::Active,
            SessionAction::Greet,
        ),
        (SessionState::Connecting, _) => (SessionState::Connecting, SessionAction::Idle),
        (SessionState::Active, SessionEvent::Received) => (
            SessionState::Active,
            SessionAction::Dispatch,
        ),
        (SessionState::Active, SessionEvent::Queued) => (
            SessionState::Active,
            SessionAction::Write,
        ),
        (SessionState::Active, SessionEvent::Ended) => (SessionState::Closed, SessionAction::Abandon),
        (SessionState::Active, _) => (SessionState::Active, SessionAction::Idle),
    }
}

/// The driver's next state and what it is to do.
pub fn step(state: SessionState, event: SessionEvent) -> (r: (SessionState, SessionAction))
    ensures
        r == step_of(state, event),
{
    match state {
        SessionState::Closed => (SessionState::Closed, SessionAction::Idle),
        SessionState::Failed => (SessionState::Connecting, SessionAction::Connect),
        SessionState::Connecting => match event {
            SessionEvent::Failure(_) => (SessionState::Failed, SessionAction::Abandon),
            SessionEvent::Connected => (SessionState::Active, SessionAction::Greet),
            _ => (SessionState::Connecting, SessionAction::Idle),
        },
        SessionState::Active => match event {
            SessionEvent::Failure(_) => (SessionState::Failed, SessionAction::Abandon),
            SessionEvent::Received => (SessionState::Active, SessionAction::Dispatch),
            SessionEvent::Queued => (SessionState::Active, SessionAction::Write),
            SessionEvent::Ended => (SessionState::Closed, SessionAction::Abandon),
            _ => (SessionState::Active, SessionAction::Idle),
        },
    }
}

/// Every failure is retried, and the whole session is what is retried: while
/// connecting or active, a failure abandons the session and leads through
/// `Failed` back to `Connecting`, whatever the failure was and whatever
/// happens next.
pub proof fn lemma_failure_reconnects(state: SessionState, error: MarsError, next: SessionEvent)
    requires
        state == SessionState::Connecting || state == SessionState::Active,
    ensures
        step_of(state, SessionEvent::Failure(error)) == (
            SessionState::Failed,
            SessionAction::Abandon,
        ),
        step_of(step_of(state, SessionEvent::Failure(error)).0, next) == (
            SessionState::Connecting,
            SessionAction::Connect,
        ),
{
}

} // verus!
