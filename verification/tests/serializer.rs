use serde_ipld_dagcbor::{BufWriter, EncodeError, FmtWriter, Serializer, Write};

fn fresh() -> Serializer<BufWriter> {
    Serializer::new(BufWriter::new(Vec::new()))
}

fn bytes_of(s: Serializer<BufWriter>) -> Vec<u8> {
    s.into_inner().into_inner()
}

struct Failing;

impl Write for Failing {
    type Error = &'static str;

    fn push(&mut self, _input: &[u8]) -> Result<(), &'static str> {
        Err("full")
    }
}

/// Accepts a fixed number of pushes, then fails.
struct Limited {
    left: usize,
    got: Vec<u8>,
}

impl Write for Limited {
    type Error = ();

    fn push(&mut self, input: &[u8]) -> Result<(), ()> {
        if self.left == 0 {
            return Err(());
        }
        self.left -= 1;
        self.got.extend_from_slice(input);
        Ok(())
    }
}

#[test]
fn new_and_into_inner_keep_the_sink() {
    let s = Serializer::new(BufWriter::new(vec![1, 2, 3]));
    assert_eq!(bytes_of(s), vec![1, 2, 3]);
}

#[test]
fn bools() {
    let mut s = fresh();
    s.serialize_bool(false).unwrap();
    s.serialize_bool(true).unwrap();
    assert_eq!(bytes_of(s), vec![0xf4, 0xf5]);
}

#[test]
fn unsigned_head_boundaries() {
    let cases: Vec<(u64, Vec<u8>)> = vec![
        (0, vec![0x00]),
        (23, vec![0x17]),
        (24, vec![0x18, 0x18]),
        (255, vec![0x18, 0xff]),
        (256, vec![0x19, 0x01, 0x00]),
        (65535, vec![0x19, 0xff, 0xff]),
        (65536, vec![0x1a, 0x00, 0x01, 0x00, 0x00]),
        (0xffff_ffff, vec![0x1a, 0xff, 0xff, 0xff, 0xff]),
        (0x1_0000_0000, vec![0x1b, 0, 0, 0, 1, 0, 0, 0, 0]),
        (u64::MAX, vec![0x1b, 0xff, 0xff, 0xff, 0xff, 0xff, 0xff, 0xff, 0xff]),
    ];
    for (v, expected) in cases {
        let mut s = fresh();
        s.serialize_u64(v).unwrap();
        assert_eq!(bytes_of(s), expected, "value {}", v);
    }
}

#[test]
fn small_unsigned_types() {
    let mut s = fresh();
    s.serialize_u8(100).unwrap();
    s.serialize_u16(1000).unwrap();
    s.serialize_u32(1_000_000).unwrap();
    assert_eq!(
        bytes_of(s),
        vec![0x18, 0x64, 0x19, 0x03, 0xe8, 0x1a, 0x00, 0x0f, 0x42, 0x40]
    );
}

#[test]
fn signed_integers() {
    let mut s = fresh();
    s.serialize_i8(-1).unwrap();
    s.serialize_i16(-100).unwrap();
    s.serialize_i32(-1000).unwrap();
    s.serialize_i64(10).unwrap();
    s.serialize_i64(i64::MIN).unwrap();
    assert_eq!(
        bytes_of(s),
        vec![
            0x20, 0x38, 0x63, 0x39, 0x03, 0xe7, 0x0a, 0x3b, 0x7f, 0xff, 0xff, 0xff, 0xff, 0xff,
            0xff, 0xff
        ]
    );
}

#[test]
fn i128_in_range_is_plain_integer() {
    let mut s = fresh();
    s.serialize_i128(-18_446_744_073_709_551_616).unwrap();
    s.serialize_i128(18_446_744_073_709_551_615).unwrap();
    assert_eq!(
        bytes_of(s),
        vec![
            0x3b, 0xff, 0xff, 0xff, 0xff, 0xff, 0xff, 0xff, 0xff, 0x1b, 0xff, 0xff, 0xff, 0xff,
            0xff, 0xff, 0xff, 0xff
        ]
    );
}

#[test]
fn u128_bignum() {
    let mut s = fresh();
    s.serialize_u128(1u128 << 64).unwrap();
    assert_eq!(bytes_of(s), vec![0xc2, 0x49, 1, 0, 0, 0, 0, 0, 0, 0, 0]);
    let mut s = fresh();
    s.serialize_u128(u128::MAX).unwrap();
    let mut expected = vec![0xc2, 0x50];
    expected.extend_from_slice(&[0xff; 16]);
    assert_eq!(bytes_of(s), expected);
}

#[test]
fn i128_negative_bignum() {
    let mut s = fresh();
    s.serialize_i128(-(1i128 << 64) - 1).unwrap();
    assert_eq!(bytes_of(s), vec![0xc3, 0x49, 1, 0, 0, 0, 0, 0, 0, 0, 0]);
    let mut s = fresh();
    s.serialize_i128(i128::MIN).unwrap();
    let mut expected = vec![0xc3, 0x50, 0x7f];
    expected.extend_from_slice(&[0xff; 15]);
    assert_eq!(bytes_of(s), expected);
}

#[test]
fn f64_is_always_eight_bytes() {
    let mut s = fresh();
    s.serialize_f64_bits(1.5f64.to_bits()).unwrap();
    assert_eq!(bytes_of(s), vec![0xfb, 0x3f, 0xf8, 0, 0, 0, 0, 0, 0]);
    let mut s = fresh();
    s.serialize_f64_bits(f64::from(0.5f32).to_bits()).unwrap();
    assert_eq!(bytes_of(s), vec![0xfb, 0x3f, 0xe0, 0, 0, 0, 0, 0, 0]);
}

#[test]
fn chars_are_strings() {
    let mut s = fresh();
    s.serialize_char('a').unwrap();
    s.serialize_char('é').unwrap();
    s.serialize_char('€').unwrap();
    s.serialize_char('😀').unwrap();
    assert_eq!(
        bytes_of(s),
        vec![
            0x61, 0x61, 0x62, 0xc3, 0xa9, 0x63, 0xe2, 0x82, 0xac, 0x64, 0xf0, 0x9f, 0x98, 0x80
        ]
    );
    for c in ['a', 'é', '€', '😀', '\u{7f}', '\u{80}', '\u{7ff}', '\u{800}', '\u{ffff}', '\u{10000}', '\u{10ffff}'] {
        let mut buf = [0u8; 4];
        assert_eq!(serde_ipld_dagcbor::char_utf8(c), c.encode_utf8(&mut buf).as_bytes().to_vec());
    }
}

#[test]
fn strings() {
    let mut s = fresh();
    s.serialize_str("").unwrap();
    s.serialize_str("IETF").unwrap();
    assert_eq!(bytes_of(s), vec![0x60, 0x64, 0x49, 0x45, 0x54, 0x46]);
    let long = "x".repeat(24);
    let mut s = fresh();
    s.serialize_str(&long).unwrap();
    let out = bytes_of(s);
    assert_eq!(&out[..2], &[0x78, 24]);
    assert_eq!(out.len(), 26);
}

#[test]
fn byte_strings() {
    let mut s = fresh();
    s.serialize_bytes(&[1, 2, 3, 4]).unwrap();
    s.serialize_bytes(&[]).unwrap();
    assert_eq!(bytes_of(s), vec![0x44, 1, 2, 3, 4, 0x40]);
}

#[test]
fn none_unit_and_unit_struct_are_null() {
    let mut s = fresh();
    s.serialize_none().unwrap();
    s.serialize_unit().unwrap();
    s.serialize_unit_struct("Marker").unwrap();
    assert_eq!(bytes_of(s), vec![0xf6, 0xf6, 0xf6]);
}

#[test]
fn unit_variant_is_its_name() {
    let mut s = fresh();
    s.serialize_unit_variant("E", 3, "Red").unwrap();
    assert_eq!(bytes_of(s), vec![0x63, b'R', b'e', b'd']);
}

#[test]
fn newtype_variant_head() {
    let mut s = fresh();
    s.serialize_newtype_variant("E", 0, "A").unwrap();
    s.serialize_u8(1).unwrap();
    assert_eq!(bytes_of(s), vec![0xa1, 0x61, b'A', 0x01]);
}

#[test]
fn bounded_seq_has_no_break() {
    let mut s = fresh();
    {
        let mut c = s.serialize_seq(Some(2)).unwrap();
        c.serializer().serialize_u8(1).unwrap();
        c.serializer().serialize_u8(2).unwrap();
        c.end().unwrap();
    }
    assert_eq!(bytes_of(s), vec![0x82, 1, 2]);
}

#[test]
fn unbounded_seq_ends_with_break() {
    let mut s = fresh();
    {
        let mut c = s.serialize_seq(None).unwrap();
        c.serializer().serialize_bool(true).unwrap();
        c.end().unwrap();
    }
    assert_eq!(bytes_of(s), vec![0x9f, 0xf5, 0xff]);
}

#[test]
fn maps_bounded_and_unbounded() {
    let mut s = fresh();
    {
        let mut c = s.serialize_map(None).unwrap();
        c.serializer().serialize_str("a").unwrap();
        c.serializer().serialize_u8(1).unwrap();
        c.end().unwrap();
    }
    {
        let c = s.serialize_map(Some(0)).unwrap();
        c.end().unwrap();
    }
    assert_eq!(bytes_of(s), vec![0xbf, 0x61, b'a', 0x01, 0xff, 0xa0]);
}

#[test]
fn tuples() {
    let mut s = fresh();
    {
        let mut c = s.serialize_tuple(2).unwrap();
        c.serializer().serialize_u8(1).unwrap();
        c.serializer().serialize_u8(2).unwrap();
        c.end().unwrap();
    }
    {
        let c = s.serialize_tuple_struct("T", 0).unwrap();
        c.end().unwrap();
    }
    assert_eq!(bytes_of(s), vec![0x82, 1, 2, 0x80]);
}

#[test]
fn tuple_variant() {
    let mut s = fresh();
    {
        let mut c = s.serialize_tuple_variant("E", 1, "V", 1).unwrap();
        c.serializer().serialize_u8(7).unwrap();
        c.end().unwrap();
    }
    assert_eq!(bytes_of(s), vec![0xa1, 0x61, b'V', 0x81, 0x07]);
}

#[test]
fn structs_and_struct_variants() {
    let mut s = fresh();
    {
        let mut c = s.serialize_struct("S", 1).unwrap();
        c.serialize_key("x").unwrap();
        c.serializer().serialize_u8(5).unwrap();
        c.end().unwrap();
    }
    {
        let mut c = s.serialize_struct_variant("E", 2, "W", 1).unwrap();
        c.serialize_key("y").unwrap();
        c.serializer().serialize_bool(false).unwrap();
        c.end().unwrap();
    }
    assert_eq!(
        bytes_of(s),
        vec![0xa1, 0x61, b'x', 0x05, 0xa1, 0x61, b'W', 0xa1, 0x61, b'y', 0xf4]
    );
}

fn entry(key: &str, value: u8) -> Vec<u8> {
    let mut s = fresh();
    s.serialize_str(key).unwrap();
    s.serialize_u8(value).unwrap();
    bytes_of(s)
}

#[test]
fn collect_map_puts_shorter_keys_first() {
    let entries = vec![entry("bb", 1), entry("a", 2), entry("ab", 3), entry("c", 4)];
    let mut s = fresh();
    s.collect_map(entries).unwrap();
    let mut expected = vec![0xa4];
    for e in [entry("a", 2), entry("c", 4), entry("ab", 3), entry("bb", 1)] {
        expected.extend_from_slice(&e);
    }
    assert_eq!(bytes_of(s), expected);
}

#[test]
fn collect_map_ignores_arrival_order() {
    let a = vec![entry("k", 1), entry("long", 2), entry("z", 3)];
    let b = vec![entry("z", 3), entry("k", 1), entry("long", 2)];
    let mut s1 = fresh();
    s1.collect_map(a).unwrap();
    let mut s2 = fresh();
    s2.collect_map(b).unwrap();
    assert_eq!(bytes_of(s1), bytes_of(s2));
}

#[test]
fn collect_map_empty() {
    let mut s = fresh();
    s.collect_map(Vec::new()).unwrap();
    assert_eq!(bytes_of(s), vec![0xa0]);
}

#[test]
fn sort_entries_is_lexicographic() {
    let sorted = serde_ipld_dagcbor::sort_entries(vec![vec![2], vec![1, 5], vec![1], vec![]]);
    assert_eq!(sorted, vec![vec![], vec![1], vec![1, 5], vec![2]]);
    assert!(serde_ipld_dagcbor::lex_le_bytes(&[1], &[1, 0]));
    assert!(!serde_ipld_dagcbor::lex_le_bytes(&[2], &[1, 9]));
    assert!(serde_ipld_dagcbor::lex_le_bytes(&[3, 4], &[3, 4]));
}

#[test]
fn cid_is_tag_42_over_prefixed_bytes() {
    let mut s = fresh();
    s.serialize_cid(&[0x01, 0x71, 0x12]).unwrap();
    assert_eq!(bytes_of(s), vec![0xd8, 0x2a, 0x44, 0x00, 0x01, 0x71, 0x12]);
}

#[test]
fn short_text_is_one_definite_string() {
    let mut s = fresh();
    {
        let mut w = s.collect_str_writer();
        w.write_str("ab").unwrap();
        w.write_str("c").unwrap();
        assert!(!w.is_error());
        w.flush().unwrap();
    }
    assert_eq!(bytes_of(s), vec![0x63, b'a', b'b', b'c']);
}

#[test]
fn text_of_exactly_the_buffer_stays_definite() {
    let piece = "y".repeat(256);
    let mut s = fresh();
    {
        let mut w = s.collect_str_writer();
        w.write_str(&piece).unwrap();
        w.finish(true).unwrap();
    }
    let out = bytes_of(s);
    assert_eq!(&out[..3], &[0x79, 0x01, 0x00]);
    assert_eq!(out.len(), 3 + 256);
}

#[test]
fn long_text_is_chunked() {
    let first = "a".repeat(200);
    let second = "b".repeat(100);
    let mut s = fresh();
    {
        let mut w = s.collect_str_writer();
        w.write_str(&first).unwrap();
        w.write_str(&second).unwrap();
        w.write_str("").unwrap();
        w.flush().unwrap();
    }
    let out = bytes_of(s);
    let mut expected = vec![0x7f, 0x78, 200];
    expected.extend_from_slice(first.as_bytes());
    expected.extend_from_slice(&[0x78, 100]);
    expected.extend_from_slice(second.as_bytes());
    expected.push(0x60);
    expected.push(0xff);
    assert_eq!(out, expected);
}

#[test]
fn finish_reports_a_formatting_failure() {
    let mut sink = BufWriter::new(Vec::new());
    let w = FmtWriter::new(&mut sink);
    assert_eq!(w.finish(false), Err(EncodeError::Format));
}

#[test]
fn text_writer_keeps_the_sink_error() {
    let mut sink = Limited { left: 1, got: Vec::new() };
    let big = "q".repeat(300);
    let mut w = FmtWriter::new(&mut sink);
    assert!(w.write_str(&big).is_err());
    assert!(w.is_error());
    assert!(w.write_str("more").is_err());
    assert_eq!(w.flush(), Err(EncodeError::Write(())));
    assert_eq!(sink.got, vec![0x7f]);
}

#[test]
fn failing_sink_gives_write_error() {
    let mut s = Serializer::new(Failing);
    assert_eq!(s.serialize_u8(1), Err(EncodeError::Write("full")));
    assert_eq!(s.serialize_str("x"), Err(EncodeError::Write("full")));
    assert!(s.serialize_seq(None).is_err());
    assert_eq!(s.collect_map(vec![vec![1]]), Err(EncodeError::Write("full")));
}

#[test]
fn buf_writer_buffer_and_clear() {
    let mut w = BufWriter::new(vec![9]);
    w.push(&[1, 2]).unwrap();
    assert_eq!(w.buffer(), &[9, 1, 2]);
    w.clear();
    assert_eq!(w.buffer(), &[] as &[u8]);
}

#[test]
fn formatting_failure_leaves_sink_untouched() {
    let mut sink = BufWriter::new(vec![7]);
    {
        let mut w = FmtWriter::new(&mut sink);
        w.write_str("abc").unwrap();
        assert_eq!(w.finish(false), Err(EncodeError::Format));
    }
    assert_eq!(sink.buffer(), &[7]);
}

#[test]
fn failing_final_flush_is_a_write_error() {
    let mut sink = Limited { left: 0, got: Vec::new() };
    let mut w = FmtWriter::new(&mut sink);
    w.write_str("short").unwrap();
    assert_eq!(w.finish(true), Err(EncodeError::Write(())));
}

#[test]
fn flush_after_failure_pushes_nothing() {
    let mut sink = Limited { left: 2, got: Vec::new() };
    {
        let mut w = FmtWriter::new(&mut sink);
        assert!(w.write_str(&"z".repeat(300)).is_err());
        assert_eq!(w.finish(true), Err(EncodeError::Write(())));
    }
    assert_eq!(sink.got, vec![0x7f, 0x60]);
}

#[test]
fn text_in_many_pieces_within_the_buffer_is_definite() {
    let mut s1 = fresh();
    {
        let mut w = s1.collect_str_writer();
        for _ in 0..64 {
            w.write_str("abcd").unwrap();
        }
        w.flush().unwrap();
    }
    let mut s2 = fresh();
    s2.serialize_str(&"abcd".repeat(64)).unwrap();
    assert_eq!(bytes_of(s1), bytes_of(s2));
}

#[test]
fn longer_keys_across_head_widths_come_later() {
    let k23 = "a".repeat(23);
    let k24 = "a".repeat(24);
    let k255 = "a".repeat(255);
    let k256 = "a".repeat(256);
    let entries = vec![entry(&k256, 1), entry(&k24, 2), entry(&k255, 3), entry(&k23, 4)];
    let mut s = fresh();
    s.collect_map(entries).unwrap();
    let mut expected = vec![0xa4];
    for e in [entry(&k23, 4), entry(&k24, 2), entry(&k255, 3), entry(&k256, 1)] {
        expected.extend_from_slice(&e);
    }
    assert_eq!(bytes_of(s), expected);
}

/// Accepts one push, then fails with the number of the failing push.
struct Counting {
    pushes: u32,
}

impl Write for Counting {
    type Error = u32;

    fn push(&mut self, _input: &[u8]) -> Result<(), u32> {
        self.pushes += 1;
        if self.pushes > 1 {
            Err(self.pushes)
        } else {
            Ok(())
        }
    }
}

#[test]
fn text_writer_keeps_the_first_sink_error() {
    let mut sink = Counting { pushes: 0 };
    let mut w = FmtWriter::new(&mut sink);
    assert!(w.write_str(&"k".repeat(400)).is_err());
    assert!(w.write_str("later").is_err());
    assert_eq!(w.finish(true), Err(EncodeError::Write(2)));
}

#[test]
fn serializer_returns_the_sink_error() {
    let mut s = Serializer::new(Counting { pushes: 0 });
    s.serialize_u8(1).unwrap();
    assert_eq!(s.serialize_str("x"), Err(EncodeError::Write(2)));
    assert_eq!(s.serialize_bool(true), Err(EncodeError::Write(3)));
}
