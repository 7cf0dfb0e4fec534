//! Byte-level text: literals and delimited fields.
//!
//! The structured documents of the protocol are written and read with the
//! primitives of this module. Every primitive has a mathematical meaning on
//! `Seq<u8>`, and the executable functions are proved against it.

use vstd::prelude::*;
use vstd::string::*;

verus! {

/// The bytes of an ASCII string: one byte per character.
pub open spec fn ascii(s: &str) -> Seq<u8> {
    Seq::new(s@.len(), |i: int| s@[i] as u8)
}

/// `s` begins with `p`.
pub open spec fn starts_with(s: Seq<u8>, p: Seq<u8>) -> bool {
    p.len() <= s.len() && s.take(p.len() as int) == p
}

/// What follows `lit` in `s`, if `s` begins with `lit`.
pub open spec fn after(s: Seq<u8>, lit: Seq<u8>) -> Option<Seq<u8>> {
    if starts_with(s, lit) {
        Some(s.skip(lit.len() as int))
    } else {
        None
    }
}

/// The position of the first `d` in `s`, or the length of `s` if there is
/// none.
pub open spec fn index_of(s: Seq<u8>, d: u8) -> int
    decreases s.len(),
{
    if s.len() == 0 {
        0
    } else if s[0] == d {
        0
    } else {
        1 + index_of(s.skip(1), d)
    }
}

/// `s` holds no byte `d`.
pub open spec fn free_of(s: Seq<u8>, d: u8) -> bool {
    forall|i: int| 0 <= i < s.len() ==> s[i] != d
}

/// What `index_of` finds: a position within `s`, before which no `d` stands,
/// and at which a `d` stands unless the position is the end.
pub proof fn lemma_index_of(s: Seq<u8>, d: u8)
    ensures
        0 <= index_of(s, d) <= s.len(),
        free_of(s.take(index_of(s, d)), d),
        index_of(s, d) < s.len() ==> s[index_of(s, d)] == d,
    decreases s.len(),
{
    if s.len() > 0 && s[0] != d {
        let t = s.skip(1);
        lemma_index_of(t, d);
        let k = index_of(t, d);
        let head = s.take(k + 1);
        assert forall|i: int| 0 <= i < head.len() implies head[i] != d by {
            if i > 0 {
                assert(t.take(k)[i - 1] == s[i]);
            }
        }
    }
}

/// A field free of `d`, followed by a `d`, is found again whole.
pub proof fn lemma_index_of_field(field: Seq<u8>, rest: Seq<u8>, d: u8)
    requires
        free_of(field, d),
        rest.len() > 0,
        rest[0] == d,
    ensures
        index_of(field + rest, d) == field.len(),
    decreases field.len(),
{
    let s = field + rest;
    if field.len() == 0 {
    } else {
        assert(s.skip(1) =~= field.skip(1) + rest);
        lemma_index_of_field(field.skip(1), rest, d);
    }
}

/// A literal is found at the start of what begins with it.
pub proof fn lemma_after(lit: Seq<u8>, rest: Seq<u8>)
    ensures
        after(lit + rest, lit) == Some(rest),
{
    assert((lit + rest).take(lit.len() as int) =~= lit);
}

/// A field free of `d`, followed by text that begins with `d`, is cut off
/// where it ends.
pub proof fn lemma_field(field: Seq<u8>, rest: Seq<u8>, d: u8)
    requires
        free_of(field, d),
        rest.len() > 0,
        rest[0] == d,
    ensures
        (field + rest).take(index_of(field + rest, d)) == field,
        (field + rest).skip(index_of(field + rest, d)) == rest,
{
    lemma_index_of_field(field, rest, d);
}

/// What begins with a literal is that literal and what follows it.
pub proof fn lemma_after_sound(s: Seq<u8>, lit: Seq<u8>)
    requires
        after(s, lit) is Some,
    ensures
        s == lit + after(s, lit).unwrap(),
{
}

/// What is cut at the first `d` is a field free of `d` and what follows it.
pub proof fn lemma_field_sound(s: Seq<u8>, d: u8)
    ensures
        free_of(s.take(index_of(s, d)), d),
        s == s.take(index_of(s, d)) + s.skip(index_of(s, d)),
{
    lemma_index_of(s, d);
    let k = index_of(s, d);
}

/// Skipping twice is skipping once by the sum.
pub proof fn lemma_skip_skip(s: Seq<u8>, a: int, b: int)
    requires
        0 <= a,
        0 <= b,
        a + b <= s.len(),
    ensures
        s.skip(a).skip(b) == s.skip(a + b),
{
}

/// Appends the bytes of a string.
pub fn put(out: &mut Vec<u8>, s: &str)
    ensures
        final(out)@ == old(out)@ + s.spec_bytes(),
{
    out.extend_from_slice(s.as_bytes());
}

/// Appends a run of bytes.
pub fn put_bytes(out: &mut Vec<u8>, b: &[u8])
    ensures
        final(out)@ == old(out)@ + b@,
{
    out.extend_from_slice(b);
}

/// Tests whether the literal `lit` stands at `pos`, and if so returns the
/// position behind it.
pub fn expect(buf: &[u8], pos: usize, lit: &str) -> (r: Option<usize>)
    requires
        pos <= buf@.len(),
    ensures
        match r {
            Some(end) => {
                &&& starts_with(buf@.skip(pos as int), lit.spec_bytes())
                &&& end == pos + lit.spec_bytes().len()
                &&& end <= buf@.len()
            },
            None => !starts_with(buf@.skip(pos as int), lit.spec_bytes()),
        },
{
    let b = lit.as_bytes();
    let n = b.len();
    let ghost rest = buf@.skip(pos as int);
    if buf.len() - pos < n {
        return None;
    }
    let mut i: usize = 0;
    while i < n
        invariant
            i <= n,
            n == b@.len(),
            b@ == lit.spec_bytes(),
            pos + n <= buf@.len() <= usize::MAX,
            rest == buf@.skip(pos as int),
            rest.take(i as int) == b@.take(i as int),
        decreases n - i,
    {
        if buf[pos + i] != b[i] {
            return None;
        }
        i += 1;
    }
    assert(b@.take(n as int) =~= b@);
    Some(pos + n)
}

/// Reads the field that runs from `pos` up to the next `d`. Returns the
/// field and the position of that `d`; `None` if no `d` follows.
pub fn take_until(buf: &[u8], pos: usize, d: u8) -> (r: Option<(Vec<u8>, usize)>)
    requires
        pos <= buf@.len(),
    ensures
        ({
            let rest = buf@.skip(pos as int);
            let k = index_of(rest, d);
            match r {
                Some((field, end)) => k < rest.len() && field@ == rest.take(k) && end == pos + k,
                None => k == rest.len(),
            }
        }),
{
    let ghost rest = buf@.skip(pos as int);
    let mut field: Vec<u8> = Vec::new();
    let mut i: usize = pos;
    assert(rest.skip(0) =~= rest);
    while i < buf.len()
        invariant
            pos <= i <= buf@.len(),
            rest == buf@.skip(pos as int),
            field@ == rest.take(i - pos),
            index_of(rest, d) == (i - pos) + index_of(rest.skip(i - pos), d),
        decreases buf@.len() - i,
    {
        let ghost tail = rest.skip(i - pos);
        if buf[i] == d {
            return Some((field, i));
        }
        field.push(buf[i]);
        assert(tail.skip(1) =~= rest.skip(i + 1 - pos));
        i += 1;
    }
    None
}

} // verus!
