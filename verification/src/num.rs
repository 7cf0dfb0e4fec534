//! Numbers on the wire: little-endian integers of the packet header and the
//! decimal numbers of the structured documents.

use vstd::prelude::*;

verus! {

/// The two bytes of `x`, least significant first.
pub open spec fn le16(x: u16) -> Seq<u8> {
    seq![(x % 256) as u8, (x / 256) as u8]
}

/// The four bytes of `x`, least significant first.
pub open spec fn le32(x: u32) -> Seq<u8> {
    seq![
        (x % 256) as u8,
        ((x / 256) % 256) as u8,
        ((x / 65536) % 256) as u8,
        (x / 16777216) as u8,
    ]
}

/// The number whose little-endian form is the first two bytes of `s`.
pub open spec fn from_le16(s: Seq<u8>) -> u16 {
    (s[0] as int + 256 * (s[1] as int)) as u16
}

/// The number whose little-endian form is the first four bytes of `s`.
pub open spec fn from_le32(s: Seq<u8>) -> u32 {
    (s[0] as int + 256 * (s[1] as int) + 65536 * (s[2] as int) + 16777216 * (s[3] as int)) as u32
}

/// Reading back what was written gives the number again.
pub proof fn lemma_le16_roundtrip(x: u16)
    ensures
        le16(x).len() == 2,
        from_le16(le16(x)) == x,
{
}

/// Reading back what was written gives the number again.
pub proof fn lemma_le32_roundtrip(x: u32)
    ensures
        le32(x).len() == 4,
        from_le32(le32(x)) == x,
{
}

/// Writing what was read gives the bytes again.
pub proof fn lemma_le16_canonical(s: Seq<u8>)
    requires
        s.len() >= 2,
    ensures
        le16(from_le16(s)) == s.take(2),
{
    assert(le16(from_le16(s)) =~= s.take(2));
}

/// Writing what was read gives the bytes again.
pub proof fn lemma_le32_canonical(s: Seq<u8>)
    requires
        s.len() >= 4,
    ensures
        le32(from_le32(s)) == s.take(4),
{
}

/// Appends `x` in little-endian form.
pub fn put_le16(out: &mut Vec<u8>, x: u16)
    ensures
        final(out)@ == old(out)@ + le16(x),
{
    out.push((x % 256) as u8);
    out.push((x / 256) as u8);
}

/// Appends `x` in little-endian form.
pub fn put_le32(out: &mut Vec<u8>, x: u32)
    ensures
        final(out)@ == old(out)@ + le32(x),
{
    out.push((x % 256) as u8);
    out.push(((x / 256) % 256) as u8);
    out.push(((x / 65536) % 256) as u8);
    out.push((x / 16777216) as u8);
}

/// Reads the little-endian number at `pos`.
pub fn get_le16(buf: &[u8], pos: usize) -> (x: u16)
    requires
        pos + 2 <= buf@.len(),
    ensures
        x == from_le16(buf@.skip(pos as int)),
{
    let b0: u16 = buf[pos] as u16;
    let b1: u16 = buf[pos + 1] as u16;
    b0 + 256 * b1
}

/// Reads the little-endian number at `pos`.
pub fn get_le32(buf: &[u8], pos: usize) -> (x: u32)
    requires
        pos + 4 <= buf@.len(),
    ensures
        x == from_le32(buf@.skip(pos as int)),
{
    let b0: u32 = buf[pos] as u32;
    let b1: u32 = buf[pos + 1] as u32;
    let b2: u32 = buf[pos + 2] as u32;
    let b3: u32 = buf[pos + 3] as u32;
    b0 + 256 * b1 + 65536 * b2 + 16777216 * b3
}

/// `b` is one of the characters `0` to `9`.
pub open spec fn is_digit(b: u8) -> bool {
    48 <= b <= 57
}

/// Every byte of `s` is a decimal digit.
pub open spec fn all_digits(s: Seq<u8>) -> bool {
    forall|i: int| 0 <= i < s.len() ==> is_digit(#[trigger] s[i])
}

/// The decimal form of `n`, without leading zeros.
pub open spec fn decimal(n: nat) -> Seq<u8>
    decreases n,
{
    if n < 10 {
        seq![(48 + n) as u8]
    } else {
        decimal(n / 10).push((48 + n % 10) as u8)
    }
}

/// The number that a run of digits denotes.
pub open spec fn digits_value(s: Seq<u8>) -> nat
    decreases s.len(),
{
    if s.len() == 0 {
        0
    } else {
        digits_value(s.drop_last()) * 10 + (s.last() - 48) as nat
    }
}

/// The number of which `s` is the decimal form; `None` if `s` is empty,
/// holds anything but digits, or has a leading zero.
pub open spec fn decimal_value(s: Seq<u8>) -> Option<nat> {
    if s.len() == 0 || !all_digits(s) || (s.len() > 1 && s[0] == 48) {
        None
    } else {
        Some(digits_value(s))
    }
}

/// A decimal form is read back as the number it was written from.
pub proof fn lemma_decimal_roundtrip(n: nat)
    ensures
        decimal(n).len() >= 1,
        all_digits(decimal(n)),
        decimal(n).len() > 1 ==> decimal(n)[0] != 48,
        decimal(n)[0] == 48 ==> n == 0,
        digits_value(decimal(n)) == n,
        decimal_value(decimal(n)) == Some(n),
    decreases n,
{
    if n < 10 {
        let s = decimal(n);
        assert(digits_value(s) == digits_value(s.drop_last()) * 10 + (s.last() - 48) as nat);
    } else {
        lemma_decimal_roundtrip(n / 10);
        let p = decimal(n / 10);
        let s = decimal(n);
        assert(s.drop_last() =~= p);
        assert forall|i: int| 0 <= i < s.len() implies is_digit(#[trigger] s[i]) by {}
    }
}

/// Whatever has a decimal value is the decimal form of that value.
pub proof fn lemma_decimal_unique(s: Seq<u8>)
    requires
        decimal_value(s) is Some,
    ensures
        decimal(decimal_value(s).unwrap()) == s,
    decreases s.len(),
{
    let n = digits_value(s);
    if s.len() == 1 {
        assert(digits_value(s.drop_last()) == 0);
    } else {
        let p = s.drop_last();
        assert forall|i: int| 0 <= i < p.len() implies is_digit(#[trigger] p[i]) by {}
        lemma_decimal_unique(p);
        lemma_decimal_roundtrip(digits_value(p));
        assert(digits_value(p) >= 1);
    }
}

/// A prefix of a run of digits denotes no more than the whole run.
pub proof fn lemma_digits_value_prefix(s: Seq<u8>, k: int)
    requires
        0 <= k <= s.len(),
    ensures
        digits_value(s.take(k)) <= digits_value(s),
    decreases s.len() - k,
{
    if k == s.len() {
        assert(s.take(k) =~= s);
    } else {
        assert(s.drop_last().take(k) =~= s.take(k));
        lemma_digits_value_prefix(s.drop_last(), k);
    }
}

/// Appends the decimal form of `n`.
pub fn put_decimal(out: &mut Vec<u8>, n: u32)
    ensures
        final(out)@ == old(out)@ + decimal(n as nat),
    decreases n,
{
    if n >= 10 {
        put_decimal(out, n / 10);
    }
    out.push(48 + (n % 10) as u8);
}

/// Reads `text` as a decimal number.
pub fn parse_decimal(text: &[u8]) -> (r: Option<u32>)
    ensures
        r == (match decimal_value(text@) {
            Some(n) => if n <= u32::MAX {
                Some(n as u32)
            } else {
                None
            },
            None => None,
        }),
{
    let len = text.len();
    if len == 0 {
        return None;
    }
    if len > 1 && text[0] == 48 {
        return None;
    }
    let mut acc: u64 = 0;
    let mut i: usize = 0;
    while i < len
        invariant
            i <= len,
            len == text@.len(),
            all_digits(text@.take(i as int)),
            acc == digits_value(text@.take(i as int)),
            acc <= u32::MAX,
        decreases len - i,
    {
        let b = text[i];
        if b < 48 || b > 57 {
            return None;
        }
        let ghost next = text@.take(i + 1);
        proof {
            assert(next.drop_last() =~= text@.take(i as int));
            assert forall|j: int| 0 <= j < next.len() implies is_digit(#[trigger] next[j]) by {}
        }
        let value: u64 = acc * 10 + (b - 48) as u64;
        if value > 0xffff_ffff {
            proof {
                lemma_digits_value_prefix(text@, i + 1);
            }
            return None;
        }
        acc = value;
        i += 1;
    }
    assert(text@.take(len as int) =~= text@);
    Some(acc as u32)
}

} // verus!
