//! A reader for the items this library writes, as spec functions, and the laws
//! that each item written reads back as the value it was written from.
use vstd::prelude::*;
use crate::cbor::{
    array_start, bool_item, f64_item, map_start, null_item,
    be_value, bytes_item, chunked_text, cid_item, CID_TAG, decode_head, head, integer_item, lemma_be_roundtrip,
    lemma_head_roundtrip, min_be, pow256, text_chunks, text_item, BREAK,
};

verus! {

/// Reads a string item of definite length and major type `major` that fills `s`.
pub open spec fn decode_definite(major: u8, s: Seq<u8>) -> Option<Seq<u8>> {
    match decode_head(s) {
        Some((m, n, h)) => if m == major && h + n == s.len() {
            Some(s.subrange(h, s.len() as int))
        } else {
            None
        },
        None => None,
    }
}

/// Reads the chunks of a text string of unknown length up to its break byte, which
/// must be the last byte of `s`; gives their contents one after another.
pub open spec fn decode_text_chunks(s: Seq<u8>) -> Option<Seq<u8>>
    decreases s.len(),
{
    if s.len() == 0 {
        None
    } else if s[0] / 32 == 7 && s[0] % 32 == 31 {
        if s.len() == 1 {
            Some(Seq::empty())
        } else {
            None
        }
    } else {
        match decode_head(s) {
            Some((m, n, h)) => if m == 3 && 0 < h && h + n <= s.len() {
                match decode_text_chunks(s.skip(h + n)) {
                    Some(rest) => Some(s.subrange(h, h + n) + rest),
                    None => None,
                }
            } else {
                None
            },
            None => None,
        }
    }
}

/// Reads a text string item, of definite or unknown length, that fills `s`.
pub open spec fn decode_text(s: Seq<u8>) -> Option<Seq<u8>> {
    if s.len() > 0 && s[0] / 32 == 3 && s[0] % 32 == 31 {
        decode_text_chunks(s.drop_first())
    } else {
        decode_definite(3, s)
    }
}

/// Reads an integer item (an ordinary integer or a bignum) that fills `s`.
pub open spec fn decode_integer(s: Seq<u8>) -> Option<int> {
    match decode_head(s) {
        Some((m, n, h)) => if (m == 0 || m == 1) && h == s.len() {
            if m == 0 {
                Some(n as int)
            } else {
                Some(-1 - n)
            }
        } else if m == 6 && (n == 2 || n == 3) {
            match decode_definite(2, s.skip(h)) {
                Some(b) => if n == 2 {
                    Some(be_value(b) as int)
                } else {
                    Some(-1 - be_value(b))
                },
                None => None,
            }
        } else {
            None
        },
        None => None,
    }
}

/// Reads a CID item that fills `s`: tag 42 over a byte string that starts with a
/// zero byte; gives the bytes after it.
pub open spec fn decode_cid(s: Seq<u8>) -> Option<Seq<u8>> {
    match decode_head(s) {
        Some((m, t, h)) => if m == 6 && t == 42 {
            match decode_definite(2, s.skip(h)) {
                Some(b) => if b.len() > 0 && b[0] == 0 {
                    Some(b.drop_first())
                } else {
                    None
                },
                None => None,
            }
        } else {
            None
        },
        None => None,
    }
}

/// Law: a CID item reads back as the CID's bytes.
pub proof fn lemma_cid_roundtrip(cid: Seq<u8>)
    requires
        cid.len() < u64::MAX,
    ensures
        decode_cid(cid_item(cid)) == Some(cid),
{
    let b = seq![0u8] + cid;
    let rest = bytes_item(b);
    lemma_head_roundtrip(6, CID_TAG, rest);
    assert(cid_item(cid).skip(head(6, CID_TAG).len() as int) =~= rest);
    lemma_definite_roundtrip(2, b);
    assert(b.drop_first() =~= cid);
}

/// Law: a string item of definite length reads back as its content.
pub proof fn lemma_definite_roundtrip(major: u8, b: Seq<u8>)
    requires
        major < 8,
        b.len() <= u64::MAX,
    ensures
        decode_definite(major, head(major, b.len() as u64) + b) == Some(b),
{
    lemma_head_roundtrip(major, b.len() as u64, b);
    let s = head(major, b.len() as u64) + b;
    assert(s.subrange(head(major, b.len() as u64).len() as int, s.len() as int) =~= b);
}

/// Law: a byte string reads back as its bytes.
pub proof fn lemma_bytes_roundtrip(b: Seq<u8>)
    requires
        b.len() <= u64::MAX,
    ensures
        decode_definite(2, bytes_item(b)) == Some(b),
{
    lemma_definite_roundtrip(2, b);
}

/// Law: a text string of definite length reads back as its content.
pub proof fn lemma_text_roundtrip(b: Seq<u8>)
    requires
        b.len() <= u64::MAX,
    ensures
        decode_text(text_item(b)) == Some(b),
{
    lemma_definite_roundtrip(3, b);
    lemma_head_roundtrip(3, b.len() as u64, b);
}

proof fn lemma_text_chunks_roundtrip(cs: Seq<Seq<u8>>)
    requires
        forall|i: int| 0 <= i < cs.len() ==> #[trigger] cs[i].len() <= u64::MAX,
    ensures
        decode_text_chunks(text_chunks(cs) + seq![BREAK]) == Some(cs.flatten()),
    decreases cs.len(),
{
    let s = text_chunks(cs) + seq![BREAK];
    if cs.len() == 0 {
        assert(s =~= seq![BREAK]);
    } else {
        let c = cs[0];
        let h = head(3, c.len() as u64);
        let tail = text_chunks(cs.drop_first()) + seq![BREAK];
        assert(s =~= h + (c + tail));
        lemma_head_roundtrip(3, c.len() as u64, c + tail);
        assert(s[0] == h[0]);
        assert(h[0] / 32 == 3);
        assert(s.skip(h.len() + c.len() as int) =~= tail);
        assert(s.subrange(h.len() as int, h.len() + c.len() as int) =~= c);
        lemma_text_chunks_roundtrip(cs.drop_first());
    }
}

/// Law: a text string of unknown length reads back as its chunks' contents, one
/// after another.
pub proof fn lemma_chunked_text_roundtrip(cs: Seq<Seq<u8>>)
    requires
        forall|i: int| 0 <= i < cs.len() ==> #[trigger] cs[i].len() <= u64::MAX,
    ensures
        decode_text(chunked_text(cs)) == Some(cs.flatten()),
{
    lemma_text_chunks_roundtrip(cs);
    assert(chunked_text(cs).drop_first() =~= text_chunks(cs) + seq![BREAK]);
}

/// The shortest big-endian bytes of `v` denote `v`.
pub proof fn lemma_min_be_value(v: nat)
    ensures
        be_value(min_be(v)) == v,
    decreases v,
{
    if v > 0 {
        lemma_min_be_value(v / 256);
        assert(min_be(v).drop_last() =~= min_be(v / 256));
        assert((v / 256) * 256 + v % 256 == v) by (nonlinear_arith);
    }
}

/// Law: every integer that fits in 128 bits, signed or unsigned, reads back from its
/// item as itself.
pub proof fn lemma_integer_roundtrip(v: int)
    requires
        -0x1_0000_0000_0000_0000_0000_0000_0000_0000 <= v < 0x1_0000_0000_0000_0000_0000_0000_0000_0000,
    ensures
        decode_integer(integer_item(v)) == Some(v),
{
    let s = integer_item(v);
    if 0 <= v <= u64::MAX {
        lemma_head_roundtrip(0, v as u64, Seq::empty());
        assert(s + Seq::<u8>::empty() =~= s);
    } else if v < 0 && -1 - v <= u64::MAX {
        lemma_head_roundtrip(1, (-1 - v) as u64, Seq::empty());
        assert(s + Seq::<u8>::empty() =~= s);
    } else {
        let m: nat = if v > 0 { v as nat } else { (-1 - v) as nat };
        let t: u64 = if v > 0 { 2 } else { 3 };
        let b = min_be(m);
        crate::cbor::lemma_min_be_u128(m);
        let rest = bytes_item(b);
        assert(s =~= head(6, t) + rest);
        lemma_head_roundtrip(6, t, rest);
        assert(s.skip(head(6, t).len() as int) =~= rest);
        lemma_definite_roundtrip(2, b);
        lemma_min_be_value(m);
    }
}

/// Reads a double-precision float item that fills `s`: the marker byte (major type
/// 7, additional information 27) and the float's 64 bits, most significant first.
pub open spec fn decode_f64(s: Seq<u8>) -> Option<u64> {
    if s.len() == 9 && s[0] / 32 == 7 && s[0] % 32 == 27 {
        Some(be_value(s.subrange(1, 9)) as u64)
    } else {
        None
    }
}

/// Reads a one-byte simple value (major type 7, value below 24) that fills `s`.
pub open spec fn decode_simple(s: Seq<u8>) -> Option<u8> {
    if s.len() == 1 && s[0] / 32 == 7 && s[0] % 32 < 24 {
        Some((s[0] % 32) as u8)
    } else {
        None
    }
}

/// A bignum item: tag `tag` over a byte string whose first byte is not zero (the
/// shortest form) and whose bytes denote `m`.
pub open spec fn is_bignum_of(s: Seq<u8>, tag: u64, m: nat) -> bool {
    match decode_head(s) {
        Some((major, t, h)) => major == 6 && t == tag && match decode_definite(2, s.skip(h)) {
            Some(b) => b.len() > 0 && b[0] != 0 && be_value(b) == m,
            None => false,
        },
        None => false,
    }
}

/// Law: a float item carries all 64 bits it was given, sign included: it reads back
/// as exactly those bits.
pub proof fn lemma_f64_roundtrip(bits: u64)
    ensures
        decode_f64(f64_item(bits)) == Some(bits),
{
    crate::cbor::lemma_pow256_values();
    lemma_be_roundtrip(bits as nat, 8);
    assert(f64_item(bits).subrange(1, 9) =~= crate::cbor::be_bytes(bits as nat, 8));
}

/// Law: `false`, `true` and `null` are the simple values 20, 21 and 22 of RFC 8949,
/// and the two booleans differ.
pub proof fn lemma_simple_values(b: bool)
    ensures
        decode_simple(bool_item(b)) == Some(if b { 21u8 } else { 20u8 }),
        decode_simple(null_item()) == Some(22u8),
{
}

/// Law: the head of an array or map of known length carries that length exactly,
/// whatever follows; an array or map of unknown length starts with the one byte of
/// its major type with additional information 31, and the byte that closes it is
/// the "break" of major type 7 with additional information 31.
pub proof fn lemma_collection_starts(n: usize, rest: Seq<u8>)
    ensures
        decode_head(array_start(Some(n)) + rest) == Some(
            (4u8, n as u64, array_start(Some(n)).len() as int),
        ),
        decode_head(map_start(Some(n)) + rest) == Some(
            (5u8, n as u64, map_start(Some(n)).len() as int),
        ),
        array_start(None).len() == 1 && array_start(None)[0] / 32 == 4 && array_start(None)[0] % 32
            == 31,
        map_start(None).len() == 1 && map_start(None)[0] / 32 == 5 && map_start(None)[0] % 32
            == 31,
        BREAK / 32 == 7 && BREAK % 32 == 31,
{
    lemma_head_roundtrip(4, n as u64, rest);
    lemma_head_roundtrip(5, n as u64, rest);
}

/// The shortest big-endian bytes of a positive number start with a non-zero byte.
proof fn lemma_min_be_leading(v: nat)
    requires
        v > 0,
    ensures
        min_be(v).len() > 0,
        min_be(v)[0] != 0,
    decreases v,
{
    if v / 256 > 0 {
        lemma_min_be_leading(v / 256);
        assert(min_be(v)[0] == min_be(v / 256)[0]);
    } else {
        assert(min_be(v / 256) =~= Seq::<u8>::empty());
        assert(v % 256 == v);
    }
}

/// Law: an integer in the 64-bit range of its sign is one head that fills the
/// item: major type 0 with the value itself, or major type 1 with `-1 - v`. Beyond
/// that range it is a bignum (tag 2 for positive, 3 for negative over `-1 - v`) in
/// shortest form.
pub proof fn lemma_integer_item_form(v: int)
    requires
        -0x1_0000_0000_0000_0000_0000_0000_0000_0000 <= v < 0x1_0000_0000_0000_0000_0000_0000_0000_0000,
    ensures
        0 <= v <= u64::MAX ==> decode_head(integer_item(v)) == Some(
            (0u8, v as u64, integer_item(v).len() as int),
        ),
        -0x1_0000_0000_0000_0000 <= v < 0 ==> decode_head(integer_item(v)) == Some(
            (1u8, (-1 - v) as u64, integer_item(v).len() as int),
        ),
        v > u64::MAX ==> is_bignum_of(integer_item(v), 2, v as nat),
        v < -0x1_0000_0000_0000_0000 ==> is_bignum_of(integer_item(v), 3, (-1 - v) as nat),
{
    let s = integer_item(v);
    if 0 <= v <= u64::MAX {
        lemma_head_roundtrip(0, v as u64, Seq::empty());
        assert(s + Seq::<u8>::empty() =~= s);
    } else if v < 0 && -1 - v <= u64::MAX {
        lemma_head_roundtrip(1, (-1 - v) as u64, Seq::empty());
        assert(s + Seq::<u8>::empty() =~= s);
    } else {
        let m: nat = if v > 0 { v as nat } else { (-1 - v) as nat };
        let t: u64 = if v > 0 { 2 } else { 3 };
        let b = min_be(m);
        crate::cbor::lemma_min_be_u128(m);
        let rest = bytes_item(b);
        assert(s =~= head(6, t) + rest);
        lemma_head_roundtrip(6, t, rest);
        assert(s.skip(head(6, t).len() as int) =~= rest);
        lemma_definite_roundtrip(2, b);
        lemma_min_be_value(m);
        lemma_min_be_leading(m);
    }
}

} // verus!
