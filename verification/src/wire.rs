//! The bytes that a packet is written as, and the law that reading them gives
//! the packet back.

use vstd::prelude::*;
use vstd::string::StringSliceAdditionalSpecFns;
use vstd::utf8::{decode_utf8, encode_utf8, valid_utf8};
use crate::bytes::{in_class, lemma_run_end, run_end, ByteClass, EQUALS, LF, NUL, SPACE};
use crate::packet::{
    argument_at, attr_at, attrs_at, attrs_from, body_at, message_at, submessage_at, AttrModel,
    Message, MessageModel,
};

verus! {

/// Every byte of `s` is of class `c`.
pub open spec fn all_in(s: Seq<u8>, c: ByteClass) -> bool {
    forall|i: int| 0 <= i < s.len() ==> in_class(c, #[trigger] s[i])
}

/// The line of one attribute: key, `=`, the value in UTF-8, line feed.
pub open spec fn attr_wire(a: AttrModel) -> Seq<u8> {
    a.0 + seq![EQUALS] + encode_utf8(a.1) + seq![LF]
}

/// The lines of the attributes, one after another.
pub open spec fn attrs_wire(attrs: Seq<AttrModel>) -> Seq<u8>
    decreases attrs.len(),
{
    if attrs.len() == 0 {
        Seq::empty()
    } else {
        attr_wire(attrs[0]) + attrs_wire(attrs.skip(1))
    }
}

/// The command line: the name, a space and the argument where there is one,
/// line feed.
pub open spec fn head_wire(name: Seq<u8>, argument: Option<Seq<u8>>) -> Seq<u8> {
    match argument {
        Some(a) => name + seq![SPACE] + a + seq![LF],
        None => name + seq![LF],
    }
}

/// What closes a packet: the NUL alone, or a blank line and the body, which
/// brings its own NUL.
pub open spec fn tail_wire(body: Option<Seq<u8>>) -> Seq<u8> {
    match body {
        None => seq![NUL],
        Some(b) => seq![LF] + b,
    }
}

/// The bytes of a packet: command line, attribute lines, and what closes it.
pub open spec fn wire_form(m: MessageModel) -> Seq<u8> {
    head_wire(m.name, m.argument) + attrs_wire(m.attrs) + tail_wire(m.body)
}

/// The lines of a list of attributes with one more at its end.
pub proof fn lemma_attrs_wire_push(attrs: Seq<AttrModel>, a: AttrModel)
    ensures
        attrs_wire(attrs.push(a)) == attrs_wire(attrs) + attr_wire(a),
    decreases attrs.len(),
{
    let longer = attrs.push(a);
    if attrs.len() == 0 {
        assert(longer.skip(1) =~= Seq::<AttrModel>::empty());
        assert(attrs_wire(Seq::<AttrModel>::empty()) =~= Seq::<u8>::empty());
        assert(longer[0] == a);
        assert(attrs_wire(longer) =~= attr_wire(a));
        assert(attrs_wire(attrs) + attr_wire(a) =~= attr_wire(a));
    } else {
        lemma_attrs_wire_push(attrs.skip(1), a);
        assert(longer.skip(1) =~= attrs.skip(1).push(a));
        assert(attrs_wire(longer) =~= attrs_wire(attrs) + attr_wire(a));
    }
}

/// Writes a packet as the bytes that go on the wire.
pub fn encode(m: &Message) -> (out: Vec<u8>)
    ensures
        out@ == wire_form(m@),
{
    let mut out: Vec<u8> = Vec::new();
    out.extend_from_slice(m.name.as_slice());
    match &m.argument {
        Some(a) => {
            out.push(SPACE);
            out.extend_from_slice(a.as_slice());
        },
        None => {},
    }
    out.push(LF);
    let ghost head = head_wire(m@.name, m@.argument);
    assert(out@ =~= head);
    let mut i: usize = 0;
    assert(m@.attrs.take(0) =~= Seq::<AttrModel>::empty());
    assert(out@ =~= head + attrs_wire(m@.attrs.take(0)));
    while i < m.attrs.len()
        invariant
            i <= m.attrs@.len(),
            out@ == head + attrs_wire(m@.attrs.take(i as int)),
        decreases m.attrs@.len() - i,
    {
        let ghost before = out@;
        out.extend_from_slice(m.attrs[i].0.as_slice());
        out.push(EQUALS);
        out.extend_from_slice(m.attrs[i].1.as_str().as_bytes());
        out.push(LF);
        proof {
            let a = m@.attrs[i as int];
            assert(out@ =~= before + attr_wire(a));
            lemma_attrs_wire_push(m@.attrs.take(i as int), a);
            assert(m@.attrs.take(i + 1) =~= m@.attrs.take(i as int).push(a));
            assert(out@ =~= head + attrs_wire(m@.attrs.take(i + 1)));
        }
        i += 1;
    }
    assert(m@.attrs.take(i as int) =~= m@.attrs);
    let ghost lines = out@;
    match &m.body {
        None => {
            out.push(NUL);
        },
        Some(b) => {
            out.push(LF);
            out.extend_from_slice(b.0.as_slice());
        },
    }
    assert(out@ =~= lines + tail_wire(m@.body));
    out
}

/// An attribute that the grammar can carry: a key of one or more letters and
/// digits, and a value without a line feed.
pub open spec fn writable_attr(a: AttrModel) -> bool {
    &&& a.0.len() > 0
    &&& all_in(a.0, ByteClass::Alnum)
    &&& all_in(encode_utf8(a.1), ByteClass::NotLf)
}

/// A packet without a body that the grammar can carry: a name of one or more
/// letters, an argument without a line feed, and attributes that it can carry.
pub open spec fn writable(m: MessageModel) -> bool {
    &&& m.name.len() > 0
    &&& all_in(m.name, ByteClass::Alpha)
    &&& m.argument matches Some(a) ==> all_in(a, ByteClass::NotLf)
    &&& forall|i: int| 0 <= i < m.attrs.len() ==> writable_attr(#[trigger] m.attrs[i])
    &&& m.body is None
}

/// A run covers the bytes `x` that stand at `pos` where all of them are of the
/// class and the byte after them is not.
pub proof fn lemma_run_over(s: Seq<u8>, pos: int, x: Seq<u8>, c: ByteClass)
    requires
        0 <= pos,
        pos + x.len() <= s.len(),
        s.subrange(pos, pos + x.len()) == x,
        all_in(x, c),
        pos + x.len() == s.len() || !in_class(c, s[pos + x.len()]),
    ensures
        run_end(s, pos, c) == pos + x.len(),
{
    assert forall|j: int| pos <= j < pos + x.len() implies in_class(c, #[trigger] s[j]) by {
        assert(s[j] == s.subrange(pos, pos + x.len())[j - pos]);
    }
    lemma_run_end(s, pos, c, pos + x.len());
}

/// Reading the lines of writable attributes, closed by a NUL, gives the
/// attributes back and stops at the NUL.
pub proof fn lemma_attrs_read_back(acc: Seq<AttrModel>, s: Seq<u8>, pos: int, attrs: Seq<AttrModel>)
    requires
        0 <= pos <= s.len(),
        s.subrange(pos, s.len() as int) == attrs_wire(attrs) + seq![NUL],
        forall|i: int| 0 <= i < attrs.len() ==> writable_attr(#[trigger] attrs[i]),
    ensures
        attrs_from(acc, s, pos) == Some((acc + attrs, s.len() - 1)),
    decreases attrs.len(),
{
    let tail = s.subrange(pos, s.len() as int);
    if attrs.len() == 0 {
        assert(tail.len() == 1);
        assert(s[pos] == tail[0]);
        assert(attr_at(s, pos) is None);
        assert(acc + attrs =~= acc);
    } else {
        let a = attrs[0];
        let rest = attrs.skip(1);
        let key = a.0;
        let val = encode_utf8(a.1);
        let line = attr_wire(a);
        assert(writable_attr(a));
        assert(tail =~= line + (attrs_wire(rest) + seq![NUL]));
        assert(line.len() == key.len() + val.len() + 2);
        let kl = key.len() as int;
        let vl = val.len() as int;
        let k = pos + kl;
        let v = k + 1 + vl;
        assert forall|j: int| 0 <= j < line.len() implies s[pos + j] == line[j] by {
            assert(s[pos + j] == tail[j]);
        }
        assert(s.subrange(pos, k) =~= key) by {
            assert forall|j: int| 0 <= j < key.len() implies s.subrange(pos, k)[j] == key[j] by {
                assert(s[pos + j] == line[j]);
            }
        }
        assert(s[k] == EQUALS) by {
            assert(s[pos + kl] == line[kl]);
        }
        assert(s.subrange(k + 1, v) =~= val) by {
            assert forall|j: int| 0 <= j < val.len() implies s.subrange(k + 1, v)[j] == val[j] by {
                assert(s[pos + (kl + 1 + j)] == line[kl + 1 + j]);
            }
        }
        assert(s[v] == LF) by {
            assert(s[pos + (kl + 1 + vl)] == line[kl + 1 + vl]);
        }
        lemma_run_over(s, pos, key, ByteClass::Alnum);
        lemma_run_over(s, k + 1, val, ByteClass::NotLf);
        assert(attr_at(s, pos) == Some((key, val, v + 1)));
        vstd::utf8::encode_utf8_valid_utf8(a.1);
        vstd::utf8::encode_utf8_decode_utf8(a.1);
        assert(s.subrange(v + 1, s.len() as int) =~= attrs_wire(rest) + seq![NUL]) by {
            assert forall|j: int| 0 <= j < s.len() - (v + 1) implies s.subrange(
                v + 1,
                s.len() as int,
            )[j] == (attrs_wire(rest) + seq![NUL])[j] by {
                assert(s[pos + (kl + vl + 2 + j)] == tail[kl + vl + 2 + j]);
            }
        }
        assert forall|i: int| 0 <= i < rest.len() implies writable_attr(#[trigger] rest[i]) by {
            assert(rest[i] == attrs[i + 1]);
        }
        lemma_attrs_read_back(acc.push(a), s, v + 1, rest);
        assert(acc.push(a) + rest =~= acc + attrs);
    }
}

/// Reading back what was written: for every packet without a body that the
/// grammar can carry, the bytes it is written as are read as that packet, to
/// their end.
pub proof fn lemma_round_trip(m: MessageModel)
    requires
        writable(m),
    ensures
        message_at(wire_form(m), 0) == Some((m, wire_form(m).len() as int)),
{
    let s = wire_form(m);
    let head = head_wire(m.name, m.argument);
    let n = m.name.len() as int;
    assert(tail_wire(m.body) == seq![NUL]);
    assert(s =~= head + (attrs_wire(m.attrs) + seq![NUL]));
    assert forall|j: int| 0 <= j < head.len() implies s[j] == head[j] by {}
    assert(s.subrange(0, n) =~= m.name);
    match m.argument {
        Some(a) => {
            assert(s[n] == SPACE) by {
                assert(head[n] == SPACE);
            }
            let e = n + 1 + a.len();
            assert(s.subrange(n + 1, e) =~= a) by {
                assert forall|j: int| 0 <= j < a.len() implies s.subrange(n + 1, e)[j] == a[j] by {
                    assert(head[n + 1 + j] == a[j]);
                }
            }
            assert(s[e] == LF) by {
                assert(head[e] == LF);
            }
            lemma_run_over(s, 0, m.name, ByteClass::Alpha);
            lemma_run_over(s, n + 1, a, ByteClass::NotLf);
            assert(argument_at(s, n) == (Some(a), e));
            assert(head.len() == e + 1);
        },
        None => {
            assert(s[n] == LF) by {
                assert(head[n] == LF);
            }
            lemma_run_over(s, 0, m.name, ByteClass::Alpha);
            assert(argument_at(s, n) == (None::<Seq<u8>>, n));
            assert(head.len() == n + 1);
        },
    }
    let h = head.len() as int;
    assert(s.subrange(h, s.len() as int) =~= attrs_wire(m.attrs) + seq![NUL]);
    lemma_attrs_read_back(Seq::empty(), s, h, m.attrs);
    assert(Seq::<AttrModel>::empty() + m.attrs =~= m.attrs);
    assert(attrs_at(s, h) == Some((m.attrs, s.len() - 1)));
    assert(s[s.len() - 1] == NUL);
    assert(body_at(s, s.len() - 1) == Some((None::<Seq<u8>>, s.len() as int)));
    assert(s.subrange(0, n) == m.name);
}

/// The attribute block that starts at `pos` gets as far as `target`: every
/// line between the two is an attribute with a value in UTF-8.
pub open spec fn block_reaches(s: Seq<u8>, pos: int, target: int) -> bool
    decreases s.len() - pos,
{
    pos == target || (match attr_at(s, pos) {
        Some((_, raw, next)) => valid_utf8(raw) && pos < next <= s.len() && block_reaches(
            s,
            next,
            target,
        ),
        None => false,
    })
}

/// Where the attribute block of the packet at `pos` starts: after the line
/// feed of the command line.
pub open spec fn block_start(s: Seq<u8>, pos: int) -> int {
    argument_at(s, run_end(s, pos, ByteClass::Alpha)).1 + 1
}

/// A value that is not UTF-8 fails the block: where an attribute block gets as
/// far as a line of the shape of an attribute whose value is not valid UTF-8,
/// the block is not read, whatever was read before and whatever follows.
pub proof fn lemma_invalid_value_fails(acc: Seq<AttrModel>, s: Seq<u8>, pos: int, target: int)
    requires
        block_reaches(s, pos, target),
        attr_at(s, target) matches Some((_, raw, _)) && !valid_utf8(raw),
    ensures
        attrs_from(acc, s, pos) is None,
    decreases s.len() - pos,
{
    if pos != target {
        let (key, raw, next) = attr_at(s, pos).unwrap();
        lemma_invalid_value_fails(acc.push((key, decode_utf8(raw))), s, next, target);
    }
}

/// A value that is not UTF-8 fails the packet and the sub-message: neither is
/// read where its attribute block gets as far as an attribute line whose value
/// is not valid UTF-8.
pub proof fn lemma_invalid_value_fails_packet(s: Seq<u8>, pos: int, target: int)
    requires
        attr_at(s, target) matches Some((_, raw, _)) && !valid_utf8(raw),
    ensures
        block_reaches(s, block_start(s, pos), target) ==> message_at(s, pos) is None,
        block_reaches(s, pos, target) ==> submessage_at(s, pos) is None,
{
    if block_reaches(s, block_start(s, pos), target) {
        lemma_invalid_value_fails(Seq::empty(), s, block_start(s, pos), target);
    }
    if block_reaches(s, pos, target) {
        lemma_invalid_value_fails(Seq::empty(), s, pos, target);
    }
}

} // verus!
