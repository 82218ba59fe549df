//! The text of a word-war request: the command word, decimal numbers, and the
//! form `:<minute> for <minutes>`.

use vstd::prelude::*;
use crate::bytes::{copy_range, run_end, scan, ByteClass, COLON};

verus! {

/// The number that a string of decimal digits writes.
pub open spec fn digits_value(s: Seq<u8>) -> int
    decreases s.len(),
{
    if s.len() == 0 {
        0
    } else {
        digits_value(s.drop_last()) * 10 + (s.last() - 0x30)
    }
}

/// The decimal number at `pos`: one or more digits, as many as stand there,
/// whose value is at most `max`. Gives the value and the position after it.
pub open spec fn number_at(s: Seq<u8>, pos: int, max: u64) -> Option<(u64, int)> {
    let e = run_end(s, pos, ByteClass::Digit);
    let v = digits_value(s.subrange(pos, e));
    if 0 <= pos < e && v <= max {
        Some((v as u64, e))
    } else {
        None
    }
}

/// Reads the decimal number at `pos`.
pub fn number(input: &[u8], pos: usize, max: u64) -> (r: Option<(u64, usize)>)
    requires
        pos <= input@.len(),
    ensures
        match number_at(input@, pos as int, max) {
            None => r is None,
            Some((v, e)) => r == Some((v, e as usize)) && pos < e <= input@.len(),
        },
{
    let e = scan(input, pos, ByteClass::Digit);
    if e == pos {
        return None;
    }
    let mut acc: u64 = 0;
    let mut over = false;
    let mut i: usize = pos;
    assert(input@.subrange(pos as int, i as int) =~= Seq::<u8>::empty());
    while i < e
        invariant
            pos <= i <= e <= input@.len(),
            forall|j: int| pos <= j < e ==> crate::bytes::in_class(
                ByteClass::Digit,
                #[trigger] input@[j],
            ),
            over ==> digits_value(input@.subrange(pos as int, i as int)) > max,
            !over ==> acc == digits_value(input@.subrange(pos as int, i as int)) && acc <= max,
        decreases e - i,
    {
        let d: u8 = input[i] - 0x30;
        proof {
            let longer = input@.subrange(pos as int, i + 1);
            assert(longer.drop_last() =~= input@.subrange(pos as int, i as int));
            assert(longer.last() == input@[i as int]);
        }
        if !over {
            let next: u128 = (acc as u128) * 10 + (d as u128);
            if next > max as u128 {
                over = true;
            } else {
                acc = next as u64;
            }
        }
        i += 1;
    }
    if over {
        None
    } else {
        Some((acc, e))
    }
}

/// Whether the bytes of ` for ` stand at `pos`.
pub open spec fn for_at(s: Seq<u8>, pos: int) -> bool {
    0 <= pos && pos + 5 <= s.len() && s[pos] == 32 && s[pos + 1] == 102 && s[pos + 2] == 111
        && s[pos + 3] == 114 && s[pos + 4] == 32
}

/// The minute and the length in minutes that a request asks for: a colon, a
/// number, ` for `, a number, and nothing after it. Both numbers fit 32 bits.
pub open spec fn request_of(s: Seq<u8>) -> Option<(u32, u32)> {
    if s.len() >= 1 && s[0] == COLON {
        match number_at(s, 1, 0xffff_ffff) {
            None => None,
            Some((at, p)) => if for_at(s, p) {
                match number_at(s, p + 5, 0xffff_ffff) {
                    None => None,
                    Some((minutes, e)) => if e == s.len() {
                        Some((at as u32, minutes as u32))
                    } else {
                        None
                    },
                }
            } else {
                None
            },
        }
    } else {
        None
    }
}

/// Reads a request of the form `:<minute> for <minutes>`.
pub fn parse_ww(input: &[u8]) -> (r: Option<(u32, u32)>)
    ensures
        r == request_of(input@),
{
    if input.len() < 1 || input[0] != COLON {
        return None;
    }
    let (at, p) = match number(input, 1, 0xffff_ffff) {
        None => {
            return None;
        },
        Some(found) => found,
    };
    if input.len() - p < 5 || input[p] != 32 || input[p + 1] != 102 || input[p + 2] != 111
        || input[p + 3] != 114 || input[p + 4] != 32 {
        return None;
    }
    let (minutes, e) = match number(input, p + 5, 0xffff_ffff) {
        None => {
            return None;
        },
        Some(found) => found,
    };
    if e != input.len() {
        return None;
    }
    Some((at as u32, minutes as u32))
}

/// The identifier that a string of digits writes, where the whole input is one
/// number that fits 64 bits.
pub open spec fn id_of(s: Seq<u8>) -> Option<u64> {
    match number_at(s, 0, 0xffff_ffff_ffff_ffff) {
        Some((v, e)) => if e == s.len() {
            Some(v)
        } else {
            None
        },
        None => None,
    }
}

/// Reads an identifier.
pub fn parse_id(input: &[u8]) -> (r: Option<u64>)
    ensures
        r == id_of(input@),
{
    match number(input, 0, 0xffff_ffff_ffff_ffff) {
        Some((v, e)) => if e == input.len() {
            Some(v)
        } else {
            None
        },
        None => None,
    }
}

/// Where the first word of `s` ends: at its first space, or at its end.
pub open spec fn word_end(s: Seq<u8>) -> int {
    run_end(s, 0, ByteClass::NotSpace)
}

/// What follows the first word of `s` and the space after it.
pub open spec fn after_word(s: Seq<u8>) -> Seq<u8> {
    if word_end(s) < s.len() {
        s.subrange(word_end(s) + 1, s.len() as int)
    } else {
        Seq::empty()
    }
}

/// Splits a line into its first word and what follows the space after it.
pub fn word(input: &[u8]) -> (r: (Vec<u8>, Vec<u8>))
    ensures
        r.0@ == input@.subrange(0, word_end(input@)),
        r.1@ == after_word(input@),
{
    let e = scan(input, 0, ByteClass::NotSpace);
    let first = copy_range(input, 0, e);
    if e < input.len() {
        (first, copy_range(input, e + 1, input.len()))
    } else {
        (first, Vec::new())
    }
}

} // verus!
