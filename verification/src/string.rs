//! DeviceSQL string encoding.
//!
//! The database stores text in one of three forms, chosen by content:
//! - short ASCII (length <= 126): one header byte `((len + 1) << 1) | 1`,
//!   then the raw ASCII bytes;
//! - long ASCII (length > 126): `0x40`, the total length as `u16` little
//!   endian, a zero byte, then the raw ASCII bytes;
//! - UTF-16LE (any non-ASCII character): `0x90`, the total length as `u16`
//!   little endian, a zero byte, then the UTF-16 code units little endian.
//!
//! The empty string is the single byte `0x03`. ISRC values use the UTF-16
//! flag byte with an ASCII body: a `0x03` marker, the bytes, then one
//! trailing zero.

use vstd::prelude::*;
use vstd::utf8::encode_utf8;
use vstd::utf8::is_ascii_chars;
use vstd::utf8::is_ascii_chars_encode_utf8;

use crate::bytes::le2;

verus! {

/// Longest string that still takes the short ASCII form.
pub const MAX_SHORT_ASCII_LEN: usize = 126;

/// The ASCII characters of `s`, one byte each.
pub open spec fn ascii_bytes(s: Seq<char>) -> Seq<u8> {
    Seq::new(s.len(), |i: int| s[i] as u8)
}

/// The UTF-16 code units of one scalar value: one unit below 0x10000,
/// otherwise a surrogate pair.
pub open spec fn utf16_units(c: char) -> Seq<u16> {
    if (c as u32) < 0x10000 {
        seq![c as u16]
    } else {
        let v = (c as u32 - 0x10000) as u32;
        seq![(0xD800 + (v >> 10)) as u16, (0xDC00 + (v & 0x3FF)) as u16]
    }
}

/// The UTF-16 code units of a character sequence.
pub open spec fn utf16_seq(s: Seq<char>) -> Seq<u16>
    decreases s.len(),
{
    if s.len() == 0 {
        Seq::empty()
    } else {
        utf16_seq(s.drop_last()) + utf16_units(s.last())
    }
}

/// Each code unit as two little-endian bytes.
pub open spec fn u16s_le(us: Seq<u16>) -> Seq<u8>
    decreases us.len(),
{
    if us.len() == 0 {
        Seq::empty()
    } else {
        u16s_le(us.drop_last()) + le2(us.last())
    }
}

/// Each code unit as two big-endian bytes.
pub open spec fn u16s_be(us: Seq<u16>) -> Seq<u8>
    decreases us.len(),
{
    if us.len() == 0 {
        Seq::empty()
    } else {
        u16s_be(us.drop_last()) + crate::bytes::be2(us.last())
    }
}

/// The encoded form of `s`, exactly as `encode_string` emits it.
pub open spec fn spec_encode_string(s: Seq<char>) -> Seq<u8> {
    if s.len() == 0 {
        seq![0x03u8]
    } else if is_ascii_chars(s) && s.len() <= 126 {
        seq![((((s.len() + 1) as u16) << 1) | 1) as u8] + ascii_bytes(s)
    } else if is_ascii_chars(s) {
        seq![0x40u8] + le2((s.len() + 4) as u16) + seq![0x00u8] + ascii_bytes(s)
    } else {
        let body = u16s_le(utf16_seq(s));
        seq![0x90u8] + le2((body.len() + 4) as u16) + seq![0x00u8] + body
    }
}

/// The number of bytes `encode_string` emits for `s`.
pub open spec fn spec_encoded_length(s: Seq<char>) -> int {
    spec_encode_string(s).len() as int
}

/// The encoded form of an ISRC, exactly as `encode_isrc` emits it:
/// the UTF-16 flag byte, but an ASCII body between a `0x03` marker and a
/// trailing zero.
pub open spec fn spec_encode_isrc(s: Seq<char>) -> Seq<u8> {
    if s.len() == 0 {
        spec_encode_string(s)
    } else {
        let body_len = encode_utf8(s).len() + 2;
        seq![0x90u8] + le2((body_len + 4) as u16) + seq![0x00u8, 0x03u8] + encode_utf8(s) + seq![
            0x00u8,
        ]
    }
}

/// Big-endian flattening doubles the unit count.
pub proof fn lemma_u16s_be_len(us: Seq<u16>)
    ensures
        u16s_be(us).len() == 2 * us.len(),
    decreases us.len(),
{
    if us.len() > 0 {
        lemma_u16s_be_len(us.drop_last());
    }
}

proof fn lemma_u16s_le_len(us: Seq<u16>)
    ensures
        u16s_le(us).len() == 2 * us.len(),
    decreases us.len(),
{
    if us.len() > 0 {
        lemma_u16s_le_len(us.drop_last());
    }
}

pub proof fn lemma_utf16_seq_len(s: Seq<char>)
    ensures
        s.len() <= utf16_seq(s).len() <= 2 * s.len(),
    decreases s.len(),
{
    if s.len() > 0 {
        lemma_utf16_seq_len(s.drop_last());
    }
}

/// Encode a string in DeviceSQL form, choosing the short ASCII, long
/// ASCII or UTF-16LE layout by content.
pub fn encode_string(s: &str) -> (r: Vec<u8>)
    requires
        spec_encoded_length(s@) <= 0xFFFF,
    ensures
        r@ == spec_encode_string(s@),
{
    let len = s.unicode_len();
    if len == 0 {
        let mut r: Vec<u8> = Vec::new();
        r.push(0x03u8);
        assert(r@ =~= spec_encode_string(s@));
        r
    } else if s.is_ascii() && len <= MAX_SHORT_ASCII_LEN {
        let mut r: Vec<u8> = Vec::new();
        let header: u8 = ((((len + 1) as u16) << 1) | 1) as u8;
        r.push(header);
        push_ascii_bytes(&mut r, s);
        assert(r@ =~= spec_encode_string(s@));
        r
    } else if s.is_ascii() {
        proof {
            lemma_ascii_encoded_len(s@);
        }
        let mut r: Vec<u8> = Vec::new();
        r.push(0x40u8);
        crate::bytes::push_u16_le(&mut r, (len + 4) as u16);
        r.push(0x00u8);
        push_ascii_bytes(&mut r, s);
        assert(r@ =~= spec_encode_string(s@));
        r
    } else {
        let units = utf16_body(s);
        proof {
            lemma_utf16_encoded_len(s@);
        }
        let mut r: Vec<u8> = Vec::new();
        r.push(0x90u8);
        crate::bytes::push_u16_le(&mut r, (units.len() + 4) as u16);
        r.push(0x00u8);
        crate::bytes::push_bytes(&mut r, &units);
        assert(r@ =~= spec_encode_string(s@));
        r
    }
}

/// In the long-ASCII branch the encoded length is the character count
/// plus the four header bytes.
proof fn lemma_ascii_encoded_len(s: Seq<char>)
    requires
        s.len() > 0,
        is_ascii_chars(s),
        s.len() > 126,
        spec_encoded_length(s) <= 0xFFFF,
    ensures
        s.len() + 4 <= 0xFFFF,
{
}

/// In the UTF-16 branch the encoded length is the body length plus the
/// four header bytes.
proof fn lemma_utf16_encoded_len(s: Seq<char>)
    requires
        s.len() > 0,
        !is_ascii_chars(s),
        spec_encoded_length(s) <= 0xFFFF,
    ensures
        u16s_le(utf16_seq(s)).len() + 4 <= 0xFFFF,
{
}

/// Append the bytes of an ASCII string.
fn push_ascii_bytes(out: &mut Vec<u8>, s: &str)
    requires
        is_ascii_chars(s@),
    ensures
        final(out)@ == old(out)@ + ascii_bytes(s@),
{
    let b = s.as_bytes_vec();
    proof {
        is_ascii_chars_encode_utf8(s@);
        assert(b@ =~= ascii_bytes(s@));
    }
    crate::bytes::push_bytes(out, &b);
}

/// The UTF-16LE bytes of `s`.
fn utf16_body(s: &str) -> (r: Vec<u8>)
    ensures
        r@ == u16s_le(utf16_seq(s@)),
        r@.len() <= 4 * s@.len(),
{
    let len = s.unicode_len();
    let mut r: Vec<u8> = Vec::new();
    let mut i: usize = 0;
    while i < len
        invariant
            i <= len,
            len == s@.len(),
            r@ == u16s_le(utf16_seq(s@.subrange(0, i as int))),
            r@.len() <= 4 * i,
        decreases len - i,
    {
        let c = s.get_char(i);
        let cv = c as u32;
        let ghost prefix = s@.subrange(0, i as int);
        proof {
            assert(s@.subrange(0, i as int + 1).drop_last() =~= prefix);
            assert(s@.subrange(0, i as int + 1).last() == c);
            assert(utf16_seq(s@.subrange(0, i as int + 1)) == utf16_seq(prefix) + utf16_units(c));
            lemma_u16s_le_snoc(utf16_seq(prefix), utf16_units(c));
        }
        if cv < 0x10000 {
            crate::bytes::push_u16_le(&mut r, cv as u16);
            proof {
                lemma_u16s_le_one(c as u16);
                assert(r@ =~= u16s_le(utf16_seq(s@.subrange(0, i as int + 1))));
            }
        } else {
            let v = cv - 0x10000;
            assert(v <= 0xFFFFF);
            assert((0xD800 + (v >> 10)) <= 0xDBFF && (0xDC00 + (v & 0x3FF)) <= 0xDFFF)
                by (bit_vector)
                requires
                    v <= 0xFFFFF,
            ;
            crate::bytes::push_u16_le(&mut r, (0xD800 + (v >> 10)) as u16);
            crate::bytes::push_u16_le(&mut r, (0xDC00 + (v & 0x3FF)) as u16);
            proof {
                lemma_u16s_le_two((0xD800 + (v >> 10)) as u16, (0xDC00 + (v & 0x3FF)) as u16);
                assert(r@ =~= u16s_le(utf16_seq(s@.subrange(0, i as int + 1))));
            }
        }
        i = i + 1;
    }
    proof {
        assert(s@.subrange(0, len as int) =~= s@);
        lemma_utf16_seq_len(s@);
        lemma_u16s_le_len(utf16_seq(s@));
    }
    r
}

/// The UTF-16BE bytes of `s`, together with the code unit count.
pub fn utf16_be_body(s: &str) -> (r: (Vec<u8>, usize))
    requires
        2 * s@.len() <= 0x7FFF_FFFF,
    ensures
        r.0@ == u16s_be(utf16_seq(s@)),
        r.1 as int == utf16_seq(s@).len(),
        r.0@.len() == 2 * r.1 as int,
        r.1 <= 2 * s@.len(),
{
    let len = s.unicode_len();
    let mut r: Vec<u8> = Vec::new();
    let mut units: usize = 0;
    let mut i: usize = 0;
    while i < len
        invariant
            i <= len,
            len == s@.len(),
            2 * len <= 0x7FFF_FFFF,
            units as int == utf16_seq(s@.subrange(0, i as int)).len(),
            units <= 2 * i,
            r@ == u16s_be(utf16_seq(s@.subrange(0, i as int))),
            r@.len() == 2 * units as int,
        decreases len - i,
    {
        let c = s.get_char(i);
        let cv = c as u32;
        let ghost prefix = s@.subrange(0, i as int);
        proof {
            assert(s@.subrange(0, i as int + 1).drop_last() =~= prefix);
            assert(s@.subrange(0, i as int + 1).last() == c);
            assert(utf16_seq(s@.subrange(0, i as int + 1)) == utf16_seq(prefix) + utf16_units(c));
            lemma_u16s_be_snoc(utf16_seq(prefix), utf16_units(c));
        }
        if cv < 0x10000 {
            crate::bytes::push_u16_be(&mut r, cv as u16);
            units = units + 1;
            proof {
                lemma_u16s_be_one(c as u16);
                assert(r@ =~= u16s_be(utf16_seq(s@.subrange(0, i as int + 1))));
            }
        } else {
            let v = cv - 0x10000;
            assert(v <= 0xFFFFF);
            assert((0xD800 + (v >> 10)) <= 0xDBFF && (0xDC00 + (v & 0x3FF)) <= 0xDFFF)
                by (bit_vector)
                requires
                    v <= 0xFFFFF,
            ;
            crate::bytes::push_u16_be(&mut r, (0xD800 + (v >> 10)) as u16);
            crate::bytes::push_u16_be(&mut r, (0xDC00 + (v & 0x3FF)) as u16);
            units = units + 2;
            proof {
                lemma_u16s_be_two((0xD800 + (v >> 10)) as u16, (0xDC00 + (v & 0x3FF)) as u16);
                assert(r@ =~= u16s_be(utf16_seq(s@.subrange(0, i as int + 1))));
            }
        }
        i = i + 1;
    }
    proof {
        assert(s@.subrange(0, len as int) =~= s@);
    }
    (r, units)
}

/// The big-endian flattened bytes of a single code unit.
proof fn lemma_u16s_be_one(u: u16)
    ensures
        u16s_be(seq![u]) == crate::bytes::be2(u),
{
    assert(seq![u].drop_last() =~= Seq::<u16>::empty());
    assert(seq![u].last() == u);
    assert(u16s_be(Seq::<u16>::empty()) == Seq::<u8>::empty());
    assert(u16s_be(seq![u]) == u16s_be(seq![u].drop_last()) + crate::bytes::be2(seq![u].last()));
    assert(u16s_be(seq![u]) =~= crate::bytes::be2(u));
}

/// The big-endian flattened bytes of a surrogate pair.
proof fn lemma_u16s_be_two(a: u16, b: u16)
    ensures
        u16s_be(seq![a, b]) == crate::bytes::be2(a) + crate::bytes::be2(b),
{
    assert(seq![a, b].drop_last() =~= seq![a]);
    lemma_u16s_be_one(a);
    assert(u16s_be(seq![a, b]) =~= crate::bytes::be2(a) + crate::bytes::be2(b));
}

/// Appending units on the right extends the big-endian bytes on the right.
proof fn lemma_u16s_be_snoc(us: Seq<u16>, more: Seq<u16>)
    ensures
        u16s_be(us + more) == u16s_be(us) + u16s_be(more),
    decreases more.len(),
{
    if more.len() == 0 {
        assert(us + more =~= us);
        assert(u16s_be(us) + u16s_be(more) =~= u16s_be(us));
    } else {
        assert((us + more).drop_last() =~= us + more.drop_last());
        lemma_u16s_be_snoc(us, more.drop_last());
        assert(u16s_be(us + more) =~= u16s_be(us) + u16s_be(more));
    }
}

/// The flattened bytes of a single code unit.
proof fn lemma_u16s_le_one(u: u16)
    ensures
        u16s_le(seq![u]) == le2(u),
{
    assert(seq![u].drop_last() =~= Seq::<u16>::empty());
    assert(seq![u].last() == u);
    assert(u16s_le(Seq::<u16>::empty()) == Seq::<u8>::empty());
    assert(u16s_le(seq![u]) == u16s_le(seq![u].drop_last()) + le2(seq![u].last()));
    assert(u16s_le(seq![u]) =~= le2(u));
}

/// The flattened bytes of a surrogate pair.
proof fn lemma_u16s_le_two(a: u16, b: u16)
    ensures
        u16s_le(seq![a, b]) == le2(a) + le2(b),
{
    assert(seq![a, b].drop_last() =~= seq![a]);
    lemma_u16s_le_one(a);
    assert(u16s_le(seq![a, b]) =~= le2(a) + le2(b));
}

/// Appending units on the right extends the flattened bytes on the right.
proof fn lemma_u16s_le_snoc(us: Seq<u16>, more: Seq<u16>)
    ensures
        u16s_le(us + more) == u16s_le(us) + u16s_le(more),
    decreases more.len(),
{
    if more.len() == 0 {
        assert(us + more =~= us);
        assert(u16s_le(us) + u16s_le(more) =~= u16s_le(us));
    } else {
        assert((us + more).drop_last() =~= us + more.drop_last());
        lemma_u16s_le_snoc(us, more.drop_last());
        assert(u16s_le(us + more) =~= u16s_le(us) + u16s_le(more));
    }
}

/// Whether two strings hold the same characters.
pub fn str_eq(a: &str, b: &str) -> (r: bool)
    ensures
        r == (a@ == b@),
{
    let av = a.as_bytes_vec();
    let bv = b.as_bytes_vec();
    proof {
        vstd::utf8::encode_utf8_decode_utf8(a@);
        vstd::utf8::encode_utf8_decode_utf8(b@);
    }
    if av.len() != bv.len() {
        return false;
    }
    let mut i: usize = 0;
    while i < av.len()
        invariant
            i <= av@.len(),
            av@.len() == bv@.len(),
            av@ == encode_utf8(a@),
            bv@ == encode_utf8(b@),
            forall|j: int| 0 <= j < i ==> av@[j] == bv@[j],
        decreases av@.len() - i,
    {
        if av[i] != bv[i] {
            proof {
                vstd::utf8::encode_utf8_decode_utf8(a@);
                vstd::utf8::encode_utf8_decode_utf8(b@);
                assert(av@[i as int] != bv@[i as int]);
                assert(av@ != bv@);
            }
            return false;
        }
        i = i + 1;
    }
    proof {
        assert(av@ =~= bv@);
        vstd::utf8::encode_utf8_decode_utf8(a@);
        vstd::utf8::encode_utf8_decode_utf8(b@);
    }
    true
}

/// Encode an ISRC: the UTF-16 flag byte, a `0x03` marker, the raw bytes,
/// and a trailing zero.
pub fn encode_isrc(isrc: &str) -> (r: Vec<u8>)
    requires
        encode_utf8(isrc@).len() + 6 <= 0xFFFF,
        spec_encoded_length(isrc@) <= 0xFFFF,
    ensures
        r@ == spec_encode_isrc(isrc@),
{
    if isrc.unicode_len() == 0 {
        encode_string(isrc)
    } else {
        let b = isrc.as_bytes_vec();
        let mut r: Vec<u8> = Vec::new();
        r.push(0x90u8);
        crate::bytes::push_u16_le(&mut r, (b.len() + 6) as u16);
        r.push(0x00u8);
        r.push(0x03u8);
        crate::bytes::push_bytes(&mut r, &b);
        r.push(0x00u8);
        assert(r@ =~= spec_encode_isrc(isrc@));
        r
    }
}

/// How many UTF-16 code units `s` takes, counted without building
/// them.
fn utf16_unit_count(s: &str) -> (r: usize)
    requires
        2 * s@.len() <= 0x7FFF_FFFF,
    ensures
        r as int == utf16_seq(s@).len(),
        r <= 2 * s@.len(),
{
    let len = s.unicode_len();
    let mut units: usize = 0;
    let mut i: usize = 0;
    while i < len
        invariant
            i <= len,
            len == s@.len(),
            2 * len <= 0x7FFF_FFFF,
            units as int == utf16_seq(s@.subrange(0, i as int)).len(),
            units <= 2 * i,
        decreases len - i,
    {
        let c = s.get_char(i);
        proof {
            assert(s@.subrange(0, i as int + 1).drop_last() =~= s@.subrange(0, i as int));
            assert(s@.subrange(0, i as int + 1).last() == c);
        }
        if (c as u32) < 0x10000 {
            units = units + 1;
        } else {
            units = units + 2;
        }
        i = i + 1;
    }
    proof {
        assert(s@.subrange(0, len as int) =~= s@);
    }
    units
}

/// The encoded length of `s`, computed without building the encoding.
/// This is the length of what `encode_string` returns.
pub fn encoded_length(s: &str) -> (r: usize)
    requires
        spec_encoded_length(s@) <= 0xFFFF,
    ensures
        r as int == spec_encoded_length(s@),
{
    let len = s.unicode_len();
    if len == 0 {
        1
    } else if s.is_ascii() && len <= MAX_SHORT_ASCII_LEN {
        1 + len
    } else if s.is_ascii() {
        proof {
            lemma_ascii_encoded_len(s@);
        }
        4 + len
    } else {
        proof {
            lemma_utf16_encoded_len(s@);
            lemma_u16s_le_len(utf16_seq(s@));
            lemma_utf16_seq_len(s@);
        }
        let units = utf16_unit_count(s);
        4 + 2 * units
    }
}

} // verus!
