//! Byte classes and the scanning of runs of bytes, on which both grammars rest.

use vstd::prelude::*;

verus! {

pub const NUL: u8 = 0;
pub const LF: u8 = 10;
pub const SPACE: u8 = 32;
pub const COLON: u8 = 58;
pub const EQUALS: u8 = 61;

/// The kinds of byte that the grammars tell apart.
#[derive(Clone, Copy, Debug, PartialEq, Eq)]
pub enum ByteClass {
    /// ASCII letters.
    Alpha,
    /// ASCII letters and digits.
    Alnum,
    /// ASCII digits.
    Digit,
    /// Every byte but the line feed.
    NotLf,
    /// Every byte but NUL.
    NotNul,
    /// Every byte but the space.
    NotSpace,
}

pub open spec fn is_alpha(b: u8) -> bool {
    (0x41 <= b && b <= 0x5a) || (0x61 <= b && b <= 0x7a)
}

pub open spec fn is_digit(b: u8) -> bool {
    0x30 <= b && b <= 0x39
}

pub open spec fn in_class(c: ByteClass, b: u8) -> bool {
    match c {
        ByteClass::Alpha => is_alpha(b),
        ByteClass::Alnum => is_alpha(b) || is_digit(b),
        ByteClass::Digit => is_digit(b),
        ByteClass::NotLf => b != LF,
        ByteClass::NotNul => b != NUL,
        ByteClass::NotSpace => b != SPACE,
    }
}

/// Where the longest run of bytes of class `c` that starts at `pos` ends: the
/// position of the first byte at or after `pos` that is not of the class, or
/// the length of `s` where there is none.
pub open spec fn run_end(s: Seq<u8>, pos: int, c: ByteClass) -> int
    decreases s.len() - pos,
{
    if 0 <= pos < s.len() && in_class(c, s[pos]) {
        run_end(s, pos + 1, c)
    } else {
        pos
    }
}

/// A run ends at `end` if every byte before `end` is of the class and the byte
/// at `end`, if there is one, is not.
pub proof fn lemma_run_end(s: Seq<u8>, pos: int, c: ByteClass, end: int)
    requires
        0 <= pos <= end <= s.len(),
        forall|j: int| pos <= j < end ==> in_class(c, #[trigger] s[j]),
        end == s.len() || !in_class(c, s[end]),
    ensures
        run_end(s, pos, c) == end,
    decreases end - pos,
{
    if pos < end {
        lemma_run_end(s, pos + 1, c, end);
    }
}

/// A run that starts inside `s` ends at or after its start and inside `s` or
/// at its end; every byte of it is of the class, and the byte after it, if
/// there is one, is not.
pub proof fn lemma_run_bounds(s: Seq<u8>, pos: int, c: ByteClass)
    requires
        0 <= pos <= s.len(),
    ensures
        pos <= run_end(s, pos, c) <= s.len(),
        forall|j: int| pos <= j < run_end(s, pos, c) ==> in_class(c, #[trigger] s[j]),
        run_end(s, pos, c) == s.len() || !in_class(c, s[run_end(s, pos, c)]),
    decreases s.len() - pos,
{
    if pos < s.len() && in_class(c, s[pos]) {
        lemma_run_bounds(s, pos + 1, c);
    }
}

pub fn class_has(c: ByteClass, b: u8) -> (r: bool)
    ensures
        r == in_class(c, b),
{
    let alpha = (0x41 <= b && b <= 0x5a) || (0x61 <= b && b <= 0x7a);
    let digit = 0x30 <= b && b <= 0x39;
    match c {
        ByteClass::Alpha => alpha,
        ByteClass::Alnum => alpha || digit,
        ByteClass::Digit => digit,
        ByteClass::NotLf => b != LF,
        ByteClass::NotNul => b != NUL,
        ByteClass::NotSpace => b != SPACE,
    }
}

/// Skips the bytes of class `c` from `start` on.
pub fn scan(input: &[u8], start: usize, c: ByteClass) -> (end: usize)
    requires
        start <= input@.len(),
    ensures
        end == run_end(input@, start as int, c),
        start <= end <= input@.len(),
        forall|j: int| start <= j < end ==> in_class(c, #[trigger] input@[j]),
        end == input@.len() || !in_class(c, input@[end as int]),
{
    let mut i: usize = start;
    while i < input.len() && class_has(c, input[i])
        invariant
            start <= i <= input@.len(),
            forall|j: int| start <= j < i ==> in_class(c, #[trigger] input@[j]),
        decreases input@.len() - i,
    {
        i += 1;
    }
    proof {
        lemma_run_end(input@, start as int, c, i as int);
    }
    i
}

/// Whether two buffers hold the same bytes.
pub fn same_bytes(a: &[u8], b: &[u8]) -> (r: bool)
    ensures
        r == (a@ == b@),
{
    if a.len() != b.len() {
        return false;
    }
    let mut i: usize = 0;
    while i < a.len()
        invariant
            i <= a@.len(),
            a@.len() == b@.len(),
            forall|j: int| 0 <= j < i ==> a@[j] == b@[j],
        decreases a@.len() - i,
    {
        if a[i] != b[i] {
            return false;
        }
        i += 1;
    }
    assert(a@ =~= b@);
    true
}

/// The bytes of `input` from `from` up to, not including, `to`.
pub fn copy_range(input: &[u8], from: usize, to: usize) -> (out: Vec<u8>)
    requires
        from <= to <= input@.len(),
    ensures
        out@ == input@.subrange(from as int, to as int),
{
    let mut out: Vec<u8> = Vec::new();
    let mut i: usize = from;
    while i < to
        invariant
            from <= i <= to <= input@.len(),
            out@ == input@.subrange(from as int, i as int),
        decreases to - i,
    {
        out.push(input[i]);
        i += 1;
        assert(out@ == input@.subrange(from as int, i as int));
    }
    out
}

} // verus!
