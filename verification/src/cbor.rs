//! The CBOR encodings this library emits, as spec functions over bytes, together
//! with the executable encoders of an item head and the laws that tie them to a
//! decoder.
use vstd::prelude::*;

verus! {

/// `256` to the power `n`.
pub open spec fn pow256(n: nat) -> nat
    decreases n,
{
    if n == 0 {
        1
    } else {
        256 * pow256((n - 1) as nat)
    }
}

/// The `n` low-order bytes of `v`, most significant first.
pub open spec fn be_bytes(v: nat, n: nat) -> Seq<u8>
    decreases n,
{
    if n == 0 {
        Seq::empty()
    } else {
        be_bytes(v / 256, (n - 1) as nat).push((v % 256) as u8)
    }
}

/// The number that a big-endian byte string denotes.
pub open spec fn be_value(s: Seq<u8>) -> nat
    decreases s.len(),
{
    if s.len() == 0 {
        0
    } else {
        be_value(s.drop_last()) * 256 + s.last() as nat
    }
}

/// The shortest big-endian byte string that denotes `v` (empty for zero).
pub open spec fn min_be(v: nat) -> Seq<u8>
    decreases v,
{
    if v == 0 {
        Seq::empty()
    } else {
        min_be(v / 256).push((v % 256) as u8)
    }
}

/// The head of a CBOR data item of major type `major` whose argument is `arg`,
/// in its shortest form (RFC 8949, section 3).
pub open spec fn head(major: u8, arg: u64) -> Seq<u8> {
    let ib = major as int * 32;
    if arg < 24 {
        seq![(ib + arg) as u8]
    } else if arg <= 0xff {
        seq![(ib + 24) as u8] + be_bytes(arg as nat, 1)
    } else if arg <= 0xffff {
        seq![(ib + 25) as u8] + be_bytes(arg as nat, 2)
    } else if arg <= 0xffff_ffff {
        seq![(ib + 26) as u8] + be_bytes(arg as nat, 4)
    } else {
        seq![(ib + 27) as u8] + be_bytes(arg as nat, 8)
    }
}

/// The initial byte of a text string of unknown length.
pub const TEXT_START: u8 = 0x7f;

/// The initial byte of an array of unknown length.
pub const ARRAY_START: u8 = 0x9f;

/// The initial byte of a map of unknown length.
pub const MAP_START: u8 = 0xbf;

/// The "break" byte that closes an item of unknown length.
pub const BREAK: u8 = 0xff;

/// The tag number of a CID in DAG-CBOR.
pub const CID_TAG: u64 = 42;

/// A byte string item: its head, then its bytes.
pub open spec fn bytes_item(b: Seq<u8>) -> Seq<u8> {
    head(2, b.len() as u64) + b
}

/// A text string item of definite length, over UTF-8 bytes `b`.
pub open spec fn text_item(b: Seq<u8>) -> Seq<u8> {
    head(3, b.len() as u64) + b
}

/// An integer item: major type 0 or 1 where the value fits in 64 bits, else a
/// bignum (tag 2 or 3 over the shortest big-endian bytes), as RFC 8949 section 3.4.3
/// describes.
pub open spec fn integer_item(v: int) -> Seq<u8> {
    if 0 <= v <= u64::MAX {
        head(0, v as u64)
    } else if v > u64::MAX {
        head(6, 2) + bytes_item(min_be(v as nat))
    } else if -1 - v <= u64::MAX {
        head(1, (-1 - v) as u64)
    } else {
        head(6, 3) + bytes_item(min_be((-1 - v) as nat))
    }
}

/// The simple values `false` and `true`.
pub open spec fn bool_item(b: bool) -> Seq<u8> {
    if b {
        seq![0xf5u8]
    } else {
        seq![0xf4u8]
    }
}

/// The simple value `null`.
pub open spec fn null_item() -> Seq<u8> {
    seq![0xf6u8]
}

/// A double-precision float item, from the float's bit pattern.
pub open spec fn f64_item(bits: u64) -> Seq<u8> {
    seq![0xfbu8] + be_bytes(bits as nat, 8)
}

/// The start of an array: a head with its length, or the marker of an array of
/// unknown length.
pub open spec fn array_start(len: Option<usize>) -> Seq<u8> {
    match len {
        Some(n) => head(4, n as u64),
        None => seq![ARRAY_START],
    }
}

/// The start of a map: a head with its number of entries, or the marker of a map of
/// unknown length.
pub open spec fn map_start(len: Option<usize>) -> Seq<u8> {
    match len {
        Some(n) => head(5, n as u64),
        None => seq![MAP_START],
    }
}

/// Text string chunks of definite length, one after another: the body of a text
/// string of unknown length.
pub open spec fn text_chunks(cs: Seq<Seq<u8>>) -> Seq<u8>
    decreases cs.len(),
{
    if cs.len() == 0 {
        Seq::empty()
    } else {
        text_item(cs[0]) + text_chunks(cs.drop_first())
    }
}

/// A text string of unknown length made of the chunks `cs`.
pub open spec fn chunked_text(cs: Seq<Seq<u8>>) -> Seq<u8> {
    seq![TEXT_START] + text_chunks(cs) + seq![BREAK]
}

/// One more chunk at the end adds its item at the end.
pub proof fn lemma_text_chunks_push(cs: Seq<Seq<u8>>, c: Seq<u8>)
    ensures
        text_chunks(cs.push(c)) == text_chunks(cs) + text_item(c),
    decreases cs.len(),
{
    if cs.len() == 0 {
        assert(cs.push(c).drop_first() =~= Seq::<Seq<u8>>::empty());
        assert(cs.push(c)[0] == c);
        assert(text_chunks(Seq::<Seq<u8>>::empty()) == Seq::<u8>::empty());
        assert(text_chunks(cs.push(c)) =~= text_item(c));
    } else {
        lemma_text_chunks_push(cs.drop_first(), c);
        assert(cs.push(c).drop_first() =~= cs.drop_first().push(c));
        assert(text_chunks(cs.push(c)) =~= text_chunks(cs) + text_item(c));
    }
}

/// A CID: tag 42 over a byte string that is the CID's bytes after one zero byte.
pub open spec fn cid_item(cid: Seq<u8>) -> Seq<u8> {
    head(6, CID_TAG) + bytes_item(seq![0u8] + cid)
}

/// Reads the head at the start of `s`: its major type, its argument and its length
/// in bytes. A head that is not in its shortest form is refused, as DAG-CBOR asks.
pub open spec fn decode_head(s: Seq<u8>) -> Option<(u8, u64, int)> {
    if s.len() == 0 {
        None
    } else {
        let major = (s[0] / 32) as u8;
        let info = s[0] % 32;
        if info < 24 {
            Some((major, info as u64, 1))
        } else if info == 24 && s.len() >= 2 && be_value(s.subrange(1, 2)) >= 24 {
            Some((major, be_value(s.subrange(1, 2)) as u64, 2))
        } else if info == 25 && s.len() >= 3 && be_value(s.subrange(1, 3)) > 0xff {
            Some((major, be_value(s.subrange(1, 3)) as u64, 3))
        } else if info == 26 && s.len() >= 5 && be_value(s.subrange(1, 5)) > 0xffff {
            Some((major, be_value(s.subrange(1, 5)) as u64, 5))
        } else if info == 27 && s.len() >= 9 && be_value(s.subrange(1, 9)) > 0xffff_ffff {
            Some((major, be_value(s.subrange(1, 9)) as u64, 9))
        } else {
            None
        }
    }
}

/// Big-endian bytes read back give the number they were made from.
pub proof fn lemma_be_roundtrip(v: nat, n: nat)
    requires
        v < pow256(n),
    ensures
        be_bytes(v, n).len() == n,
        be_value(be_bytes(v, n)) == v,
    decreases n,
{
    if n > 0 {
        let p = pow256((n - 1) as nat);
        assert(v / 256 < p) by (nonlinear_arith)
            requires
                v < 256 * p,
        ;
        lemma_be_roundtrip(v / 256, (n - 1) as nat);
        let s = be_bytes(v, n);
        assert(s.drop_last() =~= be_bytes(v / 256, (n - 1) as nat));
        assert((v / 256) * 256 + v % 256 == v) by (nonlinear_arith);
    }
}

/// The powers of 256 that head widths use.
pub proof fn lemma_pow256_values()
    ensures
        pow256(1) == 0x100,
        pow256(2) == 0x1_0000,
        pow256(4) == 0x1_0000_0000,
        pow256(8) == 0x1_0000_0000_0000_0000,
{
    reveal_with_fuel(pow256, 9);
}

/// Law: a head reads back as the major type and argument it was made from, and it
/// is in shortest form, whatever follows it.
pub proof fn lemma_head_roundtrip(major: u8, arg: u64, rest: Seq<u8>)
    requires
        major < 8,
    ensures
        decode_head(head(major, arg) + rest) == Some((major, arg, head(major, arg).len() as int)),
{
    lemma_pow256_values();
    let h = head(major, arg);
    let s = h + rest;
    let ib = major as int * 32;
    if arg < 24 {
        assert(s[0] == (ib + arg) as u8);
    } else {
        let n: nat = if arg <= 0xff {
            1
        } else if arg <= 0xffff {
            2
        } else if arg <= 0xffff_ffff {
            4
        } else {
            8
        };
        lemma_be_roundtrip(arg as nat, n);
        assert(s.subrange(1, 1 + n as int) =~= be_bytes(arg as nat, n));
    }
}


/// The shortest big-endian bytes of a 128-bit number are at most 16.
pub proof fn lemma_min_be_u128(v: nat)
    requires
        v < 0x1_0000_0000_0000_0000_0000_0000_0000_0000,
    ensures
        min_be(v).len() <= 16,
{
    assert(pow256(16) == 0x1_0000_0000_0000_0000_0000_0000_0000_0000) by {
        reveal_with_fuel(pow256, 17);
    }
    lemma_min_be_len(v, 16);
}

/// The shortest big-endian bytes of a number below `256^n` are at most `n`.
pub proof fn lemma_min_be_len(v: nat, n: nat)
    requires
        v < pow256(n),
    ensures
        min_be(v).len() <= n,
    decreases v,
{
    if v > 0 {
        assert(n > 0);
        let p = pow256((n - 1) as nat);
        assert(v / 256 < p) by (nonlinear_arith)
            requires
                v < 256 * p,
        ;
        lemma_min_be_len(v / 256, (n - 1) as nat);
    }
}

/// Appends the `n` low-order bytes of `v` to `out`, most significant first.
pub fn push_be(out: &mut Vec<u8>, v: u64, n: usize)
    requires
        n <= 8,
    ensures
        final(out)@ == old(out)@ + be_bytes(v as nat, n as nat),
    decreases n,
{
    if n > 0 {
        assert((v >> 8u64) as nat == v as nat / 256) by (bit_vector);
        assert((v & 0xffu64) as u8 == (v as nat % 256) as u8) by (bit_vector);
        push_be(out, v >> 8u64, n - 1);
        out.push((v & 0xffu64) as u8);
    }
}

/// Appends the shortest big-endian bytes of `v` to `out`.
pub fn push_min_be(out: &mut Vec<u8>, v: u128)
    ensures
        final(out)@ == old(out)@ + min_be(v as nat),
    decreases v,
{
    if v > 0 {
        assert((v >> 8u128) as nat == v as nat / 256) by (bit_vector);
        assert((v & 0xffu128) as u8 == (v as nat % 256) as u8) by (bit_vector);
        assert(v > 0 ==> v >> 8u128 < v) by (bit_vector);
        push_min_be(out, v >> 8u128);
        out.push((v & 0xffu128) as u8);
    }
}

/// Appends the shortest head of major type `major` with argument `arg` to `out`.
pub fn push_head(out: &mut Vec<u8>, major: u8, arg: u64)
    requires
        major < 8,
    ensures
        final(out)@ == old(out)@ + head(major, arg),
{
    let ib: u8 = major * 32;
    let ghost start = out@;
    if arg < 24 {
        out.push(ib + arg as u8);
    } else if arg <= 0xff {
        out.push(ib + 24);
        push_be(out, arg, 1);
    } else if arg <= 0xffff {
        out.push(ib + 25);
        push_be(out, arg, 2);
    } else if arg <= 0xffff_ffff {
        out.push(ib + 26);
        push_be(out, arg, 4);
    } else {
        out.push(ib + 27);
        push_be(out, arg, 8);
    }
    assert(out@ =~= start + head(major, arg));
}

/// The head of major type `major` with argument `arg`, as a new vector.
pub fn head_bytes(major: u8, arg: u64) -> (out: Vec<u8>)
    requires
        major < 8,
    ensures
        out@ == head(major, arg),
{
    let mut out: Vec<u8> = Vec::new();
    push_head(&mut out, major, arg);
    assert(out@ =~= head(major, arg));
    out
}

} // verus!
