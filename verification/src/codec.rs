//! Canonical byte encoding of the record fields that get hashed.
//!
//! Every hash in the engine is taken over a fixed, self-delimiting byte
//! encoding: integers as eight big-endian bytes, strings as a length prefix
//! followed by four big-endian bytes per character.

use vstd::prelude::*;

verus! {

/// The eight big-endian bytes of a 64-bit integer.
pub open spec fn spec_u64_bytes(x: u64) -> Seq<u8> {
    seq![
        (x >> 56) as u8,
        (x >> 48) as u8,
        (x >> 40) as u8,
        (x >> 32) as u8,
        (x >> 24) as u8,
        (x >> 16) as u8,
        (x >> 8) as u8,
        x as u8,
    ]
}

/// The four big-endian bytes of one character's scalar value.
pub open spec fn spec_char_bytes(c: char) -> Seq<u8> {
    seq![
        ((c as u32) >> 24) as u8,
        ((c as u32) >> 16) as u8,
        ((c as u32) >> 8) as u8,
        (c as u32) as u8,
    ]
}

/// The characters of a string, four bytes each, in order.
pub open spec fn spec_chars_bytes(s: Seq<char>) -> Seq<u8>
    decreases s.len(),
{
    if s.len() == 0 {
        Seq::empty()
    } else {
        spec_chars_bytes(s.drop_last()) + spec_char_bytes(s.last())
    }
}

/// A string encodes as its character count followed by its characters.
pub open spec fn spec_str_bytes(s: Seq<char>) -> Seq<u8> {
    spec_u64_bytes(s.len() as u64) + spec_chars_bytes(s)
}

/// Appends the eight big-endian bytes of `x` to `out`.
pub fn push_u64(out: &mut Vec<u8>, x: u64)
    ensures
        final(out)@ == old(out)@ + spec_u64_bytes(x),
{
    out.push((x >> 56) as u8);
    out.push((x >> 48) as u8);
    out.push((x >> 40) as u8);
    out.push((x >> 32) as u8);
    out.push((x >> 24) as u8);
    out.push((x >> 16) as u8);
    out.push((x >> 8) as u8);
    out.push(x as u8);
    assert(out@ =~= old(out)@ + spec_u64_bytes(x));
}

/// Appends the four big-endian bytes of `c`'s scalar value to `out`.
pub fn push_char(out: &mut Vec<u8>, c: char)
    ensures
        final(out)@ == old(out)@ + spec_char_bytes(c),
{
    let v: u32 = c as u32;
    out.push((v >> 24) as u8);
    out.push((v >> 16) as u8);
    out.push((v >> 8) as u8);
    out.push(v as u8);
    assert(out@ =~= old(out)@ + spec_char_bytes(c));
}

/// Appends the length-prefixed encoding of `s` to `out`.
pub fn push_str(out: &mut Vec<u8>, s: &str)
    ensures
        final(out)@ == old(out)@ + spec_str_bytes(s@),
{
    let n: usize = s.unicode_len();
    push_u64(out, n as u64);
    let ghost base: Seq<u8> = out@;
    let mut i: usize = 0;
    while i < n
        invariant
            n == s@.len(),
            i <= n,
            out@ == base + spec_chars_bytes(s@.take(i as int)),
        decreases n - i,
    {
        let c: char = s.get_char(i);
        push_char(out, c);
        proof {
            assert(s@.take(i + 1).drop_last() =~= s@.take(i as int));
            assert(s@.take(i + 1).last() == s@[i as int]);
        }
        i = i + 1;
    }
    proof {
        assert(s@.take(n as int) =~= s@);
    }
}

/// Appends the length-prefixed encoding of an optional string: a one-byte
/// presence tag, then the string itself when present.
pub fn push_opt_str(out: &mut Vec<u8>, s: &Option<String>)
    ensures
        final(out)@ == old(out)@ + spec_opt_str_bytes(match s {
            Some(d) => Some(d@),
            None => None,
        }),
{
    match s {
        Some(d) => {
            out.push(1u8);
            push_str(out, d.as_str());
            assert(out@ =~= old(out)@ + (seq![1u8] + spec_str_bytes(d@)));
        },
        None => {
            out.push(0u8);
            assert(out@ =~= old(out)@ + seq![0u8]);
        },
    }
}

/// An absent payload encodes as a zero tag; a present one as a one tag and
/// the payload string.
pub open spec fn spec_opt_str_bytes(s: Option<Seq<char>>) -> Seq<u8> {
    match s {
        Some(d) => seq![1u8] + spec_str_bytes(d),
        None => seq![0u8],
    }
}

} // verus!
