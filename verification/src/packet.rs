//! The packet of the wire: a command name, an optional argument, attribute
//! lines and an optional body, closed by a NUL byte.

use vstd::prelude::*;
use vstd::utf8::{decode_utf8, valid_utf8};
use crate::bytes::{
    copy_range, lemma_run_bounds, run_end, scan, ByteClass, EQUALS, LF, NUL, SPACE,
};

verus! {

/// Why a buffer is no packet. The grammar gives no further detail.
#[derive(Clone, Copy, Debug, PartialEq, Eq, Structural)]
pub enum ParseError {
    MalformedPacket,
}

/// The raw body of a packet, with the NUL that closes it.
#[derive(Clone, Debug, PartialEq, Eq)]
pub struct MessageBody(pub Vec<u8>);

/// One packet of the wire.
#[derive(Clone, Debug, PartialEq, Eq)]
pub struct Message {
    pub name: Vec<u8>,
    pub argument: Option<Vec<u8>>,
    pub attrs: Vec<(Vec<u8>, String)>,
    pub body: Option<MessageBody>,
}

/// A body read as a packet again: the command line may be missing.
#[derive(Clone, Debug, PartialEq, Eq)]
pub struct SubMessage {
    pub name: Option<Vec<u8>>,
    pub argument: Option<Vec<u8>>,
    pub attrs: Vec<(Vec<u8>, String)>,
    pub body: Option<MessageBody>,
}

pub type AttrModel = (Seq<u8>, Seq<char>);

pub struct MessageModel {
    pub name: Seq<u8>,
    pub argument: Option<Seq<u8>>,
    pub attrs: Seq<AttrModel>,
    pub body: Option<Seq<u8>>,
}

pub struct SubMessageModel {
    pub name: Option<Seq<u8>>,
    pub argument: Option<Seq<u8>>,
    pub attrs: Seq<AttrModel>,
    pub body: Option<Seq<u8>>,
}

pub open spec fn attr_model(p: (Vec<u8>, String)) -> AttrModel {
    (p.0@, p.1@)
}

pub open spec fn attrs_model(v: Seq<(Vec<u8>, String)>) -> Seq<AttrModel> {
    Seq::new(v.len(), |i: int| attr_model(v[i]))
}

pub open spec fn bytes_model(v: Option<Vec<u8>>) -> Option<Seq<u8>> {
    match v {
        Some(b) => Some(b@),
        None => None,
    }
}

pub open spec fn body_model(v: Option<MessageBody>) -> Option<Seq<u8>> {
    match v {
        Some(b) => Some(b.0@),
        None => None,
    }
}

impl View for MessageBody {
    type V = Seq<u8>;

    open spec fn view(&self) -> Seq<u8> {
        self.0@
    }
}

impl View for Message {
    type V = MessageModel;

    open spec fn view(&self) -> MessageModel {
        MessageModel {
            name: self.name@,
            argument: bytes_model(self.argument),
            attrs: attrs_model(self.attrs@),
            body: body_model(self.body),
        }
    }
}

impl View for SubMessage {
    type V = SubMessageModel;

    open spec fn view(&self) -> SubMessageModel {
        SubMessageModel {
            name: bytes_model(self.name),
            argument: bytes_model(self.argument),
            attrs: attrs_model(self.attrs@),
            body: body_model(self.body),
        }
    }
}

/// The shape of an attribute line at `pos`: a key of one or more letters and
/// digits, `=`, and a value that runs up to the next line feed. Gives the key,
/// the value's bytes and the position after the line feed.
pub open spec fn attr_at(s: Seq<u8>, pos: int) -> Option<(Seq<u8>, Seq<u8>, int)> {
    let k = run_end(s, pos, ByteClass::Alnum);
    let v = run_end(s, k + 1, ByteClass::NotLf);
    if 0 <= pos < k && k < s.len() && s[k] == EQUALS && v < s.len() {
        Some((s.subrange(pos, k), s.subrange(k + 1, v), v + 1))
    } else {
        None
    }
}

/// The attribute block at `pos`, read after the attributes `acc`: as many
/// attribute lines as follow one another. A value that is not UTF-8 fails the
/// block, and the packet with it.
pub open spec fn attrs_from(acc: Seq<AttrModel>, s: Seq<u8>, pos: int) -> Option<
    (Seq<AttrModel>, int),
>
    decreases s.len() - pos,
{
    match attr_at(s, pos) {
        None => Some((acc, pos)),
        Some((key, raw, next)) => {
            if valid_utf8(raw) && pos < next <= s.len() {
                attrs_from(acc.push((key, decode_utf8(raw))), s, next)
            } else {
                None
            }
        },
    }
}

pub open spec fn attrs_at(s: Seq<u8>, pos: int) -> Option<(Seq<AttrModel>, int)> {
    attrs_from(Seq::empty(), s, pos)
}

/// What follows the attribute block: the NUL that closes a packet without a
/// body, or a line feed and the body, which runs up to and with the first NUL.
pub open spec fn body_at(s: Seq<u8>, pos: int) -> Option<(Option<Seq<u8>>, int)> {
    let e = run_end(s, pos + 1, ByteClass::NotNul);
    if !(0 <= pos < s.len()) {
        None
    } else if s[pos] == NUL {
        Some((None, pos + 1))
    } else if s[pos] != LF {
        None
    } else if e < s.len() {
        Some((Some(s.subrange(pos + 1, e + 1)), e + 1))
    } else {
        None
    }
}

/// Where the command line's line feed must stand, and the argument before it:
/// after a name that ends at `n`, a space opens an argument that runs up to the
/// next line feed.
pub open spec fn argument_at(s: Seq<u8>, n: int) -> (Option<Seq<u8>>, int) {
    let e = run_end(s, n + 1, ByteClass::NotLf);
    if 0 <= n < s.len() && s[n] == SPACE {
        (Some(s.subrange(n + 1, e)), e)
    } else {
        (None, n)
    }
}

/// The packet at `pos` and the position after it, where there is one.
pub open spec fn message_at(s: Seq<u8>, pos: int) -> Option<(MessageModel, int)> {
    let n = run_end(s, pos, ByteClass::Alpha);
    let (argument, nl) = argument_at(s, n);
    if 0 <= pos < n && nl < s.len() && s[nl] == LF {
        match attrs_at(s, nl + 1) {
            None => None,
            Some((attrs, a)) => match body_at(s, a) {
                None => None,
                Some((body, end)) => Some(
                    (MessageModel { name: s.subrange(pos, n), argument, attrs, body }, end),
                ),
            },
        }
    } else {
        None
    }
}

/// The sub-message at `pos`: where an attribute line stands first, an attribute
/// block and a body without a command line; else a whole packet.
pub open spec fn submessage_at(s: Seq<u8>, pos: int) -> Option<(SubMessageModel, int)> {
    if attr_at(s, pos) is Some {
        match attrs_at(s, pos) {
            None => None,
            Some((attrs, a)) => match body_at(s, a) {
                None => None,
                Some((body, end)) => Some(
                    (SubMessageModel { name: None, argument: None, attrs, body }, end),
                ),
            },
        }
    } else {
        match message_at(s, pos) {
            None => None,
            Some((m, end)) => Some(
                (
                    SubMessageModel {
                        name: Some(m.name),
                        argument: m.argument,
                        attrs: m.attrs,
                        body: m.body,
                    },
                    end,
                ),
            ),
        }
    }
}

/// Every packet and every sub-message ends with a NUL: what is read stops
/// right after a NUL byte, inside the buffer.
pub proof fn lemma_ends_with_nul(s: Seq<u8>, pos: int)
    ensures
        message_at(s, pos) matches Some((_, end)) ==> 0 < end <= s.len() && s[end - 1] == NUL,
        submessage_at(s, pos) matches Some((_, end)) ==> 0 < end <= s.len() && s[end - 1] == NUL,
{
    if let Some((_, end)) = message_at(s, pos) {
        let n = run_end(s, pos, ByteClass::Alpha);
        let nl = argument_at(s, n).1;
        let a = attrs_at(s, nl + 1).unwrap().1;
        lemma_body_ends_with_nul(s, a);
    }
    if let Some((_, end)) = submessage_at(s, pos) {
        if attr_at(s, pos) is Some {
            let a = attrs_at(s, pos).unwrap().1;
            lemma_body_ends_with_nul(s, a);
        }
    }
}

/// What closes a packet ends with a NUL.
pub proof fn lemma_body_ends_with_nul(s: Seq<u8>, pos: int)
    ensures
        body_at(s, pos) matches Some((_, end)) ==> 0 < end <= s.len() && s[end - 1] == NUL,
{
    if 0 <= pos < s.len() && s[pos] == LF {
        lemma_run_bounds(s, pos + 1, ByteClass::NotNul);
    }
}

/// `String::from_utf8` of std: the text that the bytes encode, where they are
/// valid UTF-8, and nothing where they are not.
#[verifier::external_body]
fn decode_text(bytes: Vec<u8>) -> (r: Option<String>)
    ensures
        r is Some <==> valid_utf8(bytes@),
        r is Some ==> r.unwrap()@ == decode_utf8(bytes@),
{
    match String::from_utf8(bytes) {
        Ok(text) => Some(text),
        Err(_) => None,
    }
}

/// Reads one attribute line at `pos`. `Ok(None)` where no line of that shape
/// stands there; an error where one does and its value is not UTF-8.
pub fn attr(input: &[u8], pos: usize) -> (r: Result<Option<((Vec<u8>, String), usize)>, ParseError>)
    requires
        pos <= input@.len(),
    ensures
        match attr_at(input@, pos as int) {
            None => r == Ok::<Option<((Vec<u8>, String), usize)>, ParseError>(None),
            Some((key, raw, next)) => if valid_utf8(raw) {
                r matches Ok(Some((p, n))) && attr_model(p) == (key, decode_utf8(raw)) && n == next
                    && pos < n <= input@.len()
            } else {
                r is Err
            },
        },
{
    let k = scan(input, pos, ByteClass::Alnum);
    if k == pos || k >= input.len() || input[k] != EQUALS {
        return Ok(None);
    }
    let v = scan(input, k + 1, ByteClass::NotLf);
    if v >= input.len() {
        return Ok(None);
    }
    let key = copy_range(input, pos, k);
    let raw = copy_range(input, k + 1, v);
    match decode_text(raw) {
        Some(text) => Ok(Some(((key, text), v + 1))),
        None => Err(ParseError::MalformedPacket),
    }
}

/// Reads the attribute block at `pos`.
pub fn attrs(input: &[u8], pos: usize) -> (r: Result<(Vec<(Vec<u8>, String)>, usize), ParseError>)
    requires
        pos <= input@.len(),
    ensures
        match attrs_at(input@, pos as int) {
            None => r is Err,
            Some((list, end)) => r matches Ok((v, e)) && attrs_model(v@) == list && e == end
                && e <= input@.len(),
        },
{
    let mut list: Vec<(Vec<u8>, String)> = Vec::new();
    let mut at: usize = pos;
    assert(attrs_model(list@) == Seq::<AttrModel>::empty());
    loop
        invariant
            at <= input@.len(),
            attrs_at(input@, pos as int) == attrs_from(attrs_model(list@), input@, at as int),
        decreases input@.len() - at,
    {
        match attr(input, at) {
            Err(e) => {
                return Err(e);
            },
            Ok(None) => {
                return Ok((list, at));
            },
            Ok(Some((pair, next))) => {
                let ghost before = attrs_model(list@);
                let ghost added = attr_model(pair);
                list.push(pair);
                assert(attrs_model(list@) == before.push(added));
                at = next;
            },
        }
    }
}

/// Reads what follows the attribute block at `pos`.
pub fn pbody(input: &[u8], pos: usize) -> (r: Result<(Option<MessageBody>, usize), ParseError>)
    requires
        pos <= input@.len(),
    ensures
        match body_at(input@, pos as int) {
            None => r is Err,
            Some((body, end)) => r matches Ok((b, e)) && body_model(b) == body && e == end,
        },
{
    if pos >= input.len() {
        return Err(ParseError::MalformedPacket);
    }
    if input[pos] == NUL {
        return Ok((None, pos + 1));
    }
    if input[pos] != LF {
        return Err(ParseError::MalformedPacket);
    }
    let e = scan(input, pos + 1, ByteClass::NotNul);
    if e >= input.len() {
        return Err(ParseError::MalformedPacket);
    }
    Ok((Some(MessageBody(copy_range(input, pos + 1, e + 1))), e + 1))
}

/// Reads one packet at `pos`.
pub fn parse_message(input: &[u8], pos: usize) -> (r: Result<(Message, usize), ParseError>)
    requires
        pos <= input@.len(),
    ensures
        match message_at(input@, pos as int) {
            None => r is Err,
            Some((m, end)) => r matches Ok((msg, e)) && msg@ == m && e == end,
        },
{
    let n = scan(input, pos, ByteClass::Alpha);
    if n == pos || n >= input.len() {
        return Err(ParseError::MalformedPacket);
    }
    let mut argument: Option<Vec<u8>> = None;
    let mut nl: usize = n;
    if input[n] == SPACE {
        nl = scan(input, n + 1, ByteClass::NotLf);
        argument = Some(copy_range(input, n + 1, nl));
    }
    if nl >= input.len() || input[nl] != LF {
        return Err(ParseError::MalformedPacket);
    }
    let (attrs, a) = attrs(input, nl + 1)?;
    let (body, end) = pbody(input, a)?;
    let name = copy_range(input, pos, n);
    Ok((Message { name, argument, attrs, body }, end))
}

/// Reads one sub-message at `pos`.
pub fn parse_submessage(input: &[u8], pos: usize) -> (r: Result<(SubMessage, usize), ParseError>)
    requires
        pos <= input@.len(),
    ensures
        match submessage_at(input@, pos as int) {
            None => r is Err,
            Some((m, end)) => r matches Ok((sub, e)) && sub@ == m && e == end,
        },
{
    let first = attr(input, pos)?;
    if first.is_some() {
        let (attrs, a) = attrs(input, pos)?;
        let (body, end) = pbody(input, a)?;
        Ok((SubMessage { name: None, argument: None, attrs, body }, end))
    } else {
        let (msg, end) = parse_message(input, pos)?;
        Ok(
            (
                SubMessage {
                    name: Some(msg.name),
                    argument: msg.argument,
                    attrs: msg.attrs,
                    body: msg.body,
                },
                end,
            ),
        )
    }
}

impl MessageBody {
    /// The body read as a sub-message. What follows the sub-message in the body
    /// is not looked at.
    pub fn submessage(&self) -> (r: Result<SubMessage, ParseError>)
        ensures
            match submessage_at(self@, 0) {
                None => r is Err,
                Some((m, _)) => r matches Ok(sub) && sub@ == m,
            },
    {
        match parse_submessage(self.0.as_slice(), 0) {
            Ok((sub, _)) => Ok(sub),
            Err(e) => Err(e),
        }
    }
}

/// Reads the packet at the front of `bs`. What follows the packet is not looked
/// at.
pub fn parse(bs: Vec<u8>) -> (r: Result<Message, ParseError>)
    ensures
        match message_at(bs@, 0) {
            None => r is Err,
            Some((m, _)) => r matches Ok(msg) && msg@ == m,
        },
{
    match parse_message(bs.as_slice(), 0) {
        Ok((msg, _)) => Ok(msg),
        Err(e) => Err(e),
    }
}

} // verus!
