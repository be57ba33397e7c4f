//! The serializer: one method per event of the serde data model, each writing the
//! DAG-CBOR bytes of that event into a sink.
use vstd::prelude::*;
use crate::cbor::{
    array_start, bool_item, bytes_item, head, head_bytes, integer_item, map_start, null_item,
    push_head, push_min_be, text_item, BREAK,
};
use crate::write::{reports_sink_error, EncodeError, Write};
use crate::entries::{canonical_order, contents, sort_entries};
use crate::fmt_writer::FmtWriter;
use vstd::utf8::{encode_scalar, encode_utf8};
use vstd::string::StringSliceAdditionalSpecFns;

verus! {

/// Writes DAG-CBOR into a sink of type `W`.
pub struct Serializer<W> {
    writer: W,
}

impl<W> Serializer<W> {
    /// The sink.
    pub closed spec fn sink(&self) -> W {
        self.writer
    }

    /// A serializer over `writer`.
    pub fn new(writer: W) -> (s: Serializer<W>)
        ensures
            s.sink() == writer,
    {
        Serializer { writer }
    }

    /// Gives the sink back.
    pub fn into_inner(self) -> (w: W)
        ensures
            w == self.sink(),
    {
        self.writer
    }
}

impl<W: Write> Serializer<W> {
    /// All bytes the sink holds.
    pub open spec fn written(&self) -> Seq<u8> {
        self.sink().written()
    }

    fn emit(&mut self, bytes: &[u8]) -> (r: Result<(), EncodeError<W::Error>>)
        ensures
            W::obeys_write_spec() && r is Ok ==> final(self).written() == old(self).written() + bytes@,
            W::obeys_write_spec() && W::never_fails() ==> r is Ok,
            r is Err ==> r->Err_0 is Write,
            W::obeys_write_spec() && r is Err ==> reports_sink_error(final(self).sink(), r->Err_0),
    {
        match self.writer.push(bytes) {
            Ok(()) => Ok(()),
            Err(e) => Err(EncodeError::Write(e)),
        }
    }

    fn emit_head(&mut self, major: u8, arg: u64) -> (r: Result<(), EncodeError<W::Error>>)
        requires
            major < 8,
        ensures
            W::obeys_write_spec() && r is Ok ==> final(self).written() == old(self).written() + head(major, arg),
            W::obeys_write_spec() && W::never_fails() ==> r is Ok,
            r is Err ==> r->Err_0 is Write,
            W::obeys_write_spec() && r is Err ==> reports_sink_error(final(self).sink(), r->Err_0),
    {
        let h = head_bytes(major, arg);
        self.emit(h.as_slice())
    }

    /// Writes `false` or `true`.
    pub fn serialize_bool(&mut self, v: bool) -> (r: Result<(), EncodeError<W::Error>>)
        ensures
            W::obeys_write_spec() && r is Ok ==> final(self).written() == old(self).written() + bool_item(v),
            W::obeys_write_spec() && W::never_fails() ==> r is Ok,
            r is Err ==> r->Err_0 is Write,
            W::obeys_write_spec() && r is Err ==> reports_sink_error(final(self).sink(), r->Err_0),
    {
        let b: [u8; 1] = if v { [0xf5u8] } else { [0xf4u8] };
        let r = self.emit(&b);
        assert(b@ =~= bool_item(v));
        r
    }

    fn emit_signed(&mut self, v: i64) -> (r: Result<(), EncodeError<W::Error>>)
        ensures
            W::obeys_write_spec() && r is Ok ==> final(self).written() == old(self).written() + integer_item(v as int),
            W::obeys_write_spec() && W::never_fails() ==> r is Ok,
            r is Err ==> r->Err_0 is Write,
            W::obeys_write_spec() && r is Err ==> reports_sink_error(final(self).sink(), r->Err_0),
    {
        if v >= 0 {
            self.emit_head(0, v as u64)
        } else {
            self.emit_head(1, (-1 - v) as u64)
        }
    }

    /// Writes a bignum: tag `tag` over the shortest big-endian bytes of `n`.
    fn emit_bignum(&mut self, tag: u64, n: u128) -> (r: Result<(), EncodeError<W::Error>>)
        requires
            tag == 2 || tag == 3,
        ensures
            W::obeys_write_spec() && r is Ok ==> final(self).written() == old(self).written() + head(6, tag) + bytes_item(
                crate::cbor::min_be(n as nat),
            ),
            W::obeys_write_spec() && W::never_fails() ==> r is Ok,
            r is Err ==> r->Err_0 is Write,
            W::obeys_write_spec() && r is Err ==> reports_sink_error(final(self).sink(), r->Err_0),
    {
        let mut payload: Vec<u8> = Vec::new();
        push_min_be(&mut payload, n);
        assert(payload@ =~= crate::cbor::min_be(n as nat));
        let mut out = head_bytes(6, tag);
        push_head(&mut out, 2, payload.len() as u64);
        let ghost first = out@;
        let r = self.emit(out.as_slice());
        if r.is_err() {
            return r;
        }
        let r2 = self.emit(payload.as_slice());
        assert(head(6, tag) + bytes_item(crate::cbor::min_be(n as nat)) =~= first + payload@);
        r2
    }

    /// Writes an unsigned integer.
    pub fn serialize_u8(&mut self, v: u8) -> (r: Result<(), EncodeError<W::Error>>)
        ensures
            W::obeys_write_spec() && r is Ok ==> final(self).written() == old(self).written() + integer_item(v as int),
            W::obeys_write_spec() && W::never_fails() ==> r is Ok,
            r is Err ==> r->Err_0 is Write,
            W::obeys_write_spec() && r is Err ==> reports_sink_error(final(self).sink(), r->Err_0),
    {
        self.emit_head(0, v as u64)
    }

    /// Writes an unsigned integer.
    pub fn serialize_u16(&mut self, v: u16) -> (r: Result<(), EncodeError<W::Error>>)
        ensures
            W::obeys_write_spec() && r is Ok ==> final(self).written() == old(self).written() + integer_item(v as int),
            W::obeys_write_spec() && W::never_fails() ==> r is Ok,
            r is Err ==> r->Err_0 is Write,
            W::obeys_write_spec() && r is Err ==> reports_sink_error(final(self).sink(), r->Err_0),
    {
        self.emit_head(0, v as u64)
    }

    /// Writes an unsigned integer.
    pub fn serialize_u32(&mut self, v: u32) -> (r: Result<(), EncodeError<W::Error>>)
        ensures
            W::obeys_write_spec() && r is Ok ==> final(self).written() == old(self).written() + integer_item(v as int),
            W::obeys_write_spec() && W::never_fails() ==> r is Ok,
            r is Err ==> r->Err_0 is Write,
            W::obeys_write_spec() && r is Err ==> reports_sink_error(final(self).sink(), r->Err_0),
    {
        self.emit_head(0, v as u64)
    }

    /// Writes an unsigned integer.
    pub fn serialize_u64(&mut self, v: u64) -> (r: Result<(), EncodeError<W::Error>>)
        ensures
            W::obeys_write_spec() && r is Ok ==> final(self).written() == old(self).written() + integer_item(v as int),
            W::obeys_write_spec() && W::never_fails() ==> r is Ok,
            r is Err ==> r->Err_0 is Write,
            W::obeys_write_spec() && r is Err ==> reports_sink_error(final(self).sink(), r->Err_0),
    {
        self.emit_head(0, v as u64)
    }

    /// Writes a signed integer.
    pub fn serialize_i8(&mut self, v: i8) -> (r: Result<(), EncodeError<W::Error>>)
        ensures
            W::obeys_write_spec() && r is Ok ==> final(self).written() == old(self).written() + integer_item(v as int),
            W::obeys_write_spec() && W::never_fails() ==> r is Ok,
            r is Err ==> r->Err_0 is Write,
            W::obeys_write_spec() && r is Err ==> reports_sink_error(final(self).sink(), r->Err_0),
    {
        self.emit_signed(v as i64)
    }

    /// Writes a signed integer.
    pub fn serialize_i16(&mut self, v: i16) -> (r: Result<(), EncodeError<W::Error>>)
        ensures
            W::obeys_write_spec() && r is Ok ==> final(self).written() == old(self).written() + integer_item(v as int),
            W::obeys_write_spec() && W::never_fails() ==> r is Ok,
            r is Err ==> r->Err_0 is Write,
            W::obeys_write_spec() && r is Err ==> reports_sink_error(final(self).sink(), r->Err_0),
    {
        self.emit_signed(v as i64)
    }

    /// Writes a signed integer.
    pub fn serialize_i32(&mut self, v: i32) -> (r: Result<(), EncodeError<W::Error>>)
        ensures
            W::obeys_write_spec() && r is Ok ==> final(self).written() == old(self).written() + integer_item(v as int),
            W::obeys_write_spec() && W::never_fails() ==> r is Ok,
            r is Err ==> r->Err_0 is Write,
            W::obeys_write_spec() && r is Err ==> reports_sink_error(final(self).sink(), r->Err_0),
    {
        self.emit_signed(v as i64)
    }

    /// Writes a signed integer.
    pub fn serialize_i64(&mut self, v: i64) -> (r: Result<(), EncodeError<W::Error>>)
        ensures
            W::obeys_write_spec() && r is Ok ==> final(self).written() == old(self).written() + integer_item(v as int),
            W::obeys_write_spec() && W::never_fails() ==> r is Ok,
            r is Err ==> r->Err_0 is Write,
            W::obeys_write_spec() && r is Err ==> reports_sink_error(final(self).sink(), r->Err_0),
    {
        self.emit_signed(v as i64)
    }

    /// Writes a float, given by the bit pattern of its double-precision value: DAG-CBOR
    /// always writes floats in 64 bits.
    pub fn serialize_f64_bits(&mut self, bits: u64) -> (r: Result<(), EncodeError<W::Error>>)
        ensures
            W::obeys_write_spec() && r is Ok ==> final(self).written() == old(self).written() + crate::cbor::f64_item(bits),
            W::obeys_write_spec() && W::never_fails() ==> r is Ok,
            r is Err ==> r->Err_0 is Write,
            W::obeys_write_spec() && r is Err ==> reports_sink_error(final(self).sink(), r->Err_0),
    {
        let mut out: Vec<u8> = Vec::new();
        out.push(0xfbu8);
        crate::cbor::push_be(&mut out, bits, 8);
        assert(out@ =~= crate::cbor::f64_item(bits));
        self.emit(out.as_slice())
    }

    /// Writes a text string of definite length whose content is `bytes`.
    fn emit_text(&mut self, bytes: &[u8]) -> (r: Result<(), EncodeError<W::Error>>)
        ensures
            W::obeys_write_spec() && r is Ok ==> final(self).written() == old(self).written() + text_item(bytes@),
            W::obeys_write_spec() && W::never_fails() ==> r is Ok,
            r is Err ==> r->Err_0 is Write,
            W::obeys_write_spec() && r is Err ==> reports_sink_error(final(self).sink(), r->Err_0),
    {
        let r = self.emit_head(3, bytes.len() as u64);
        if r.is_err() {
            return r;
        }
        let r2 = self.emit(bytes);
        assert(old(self).written() + text_item(bytes@) =~= old(self).written() + head(
            3,
            bytes@.len() as u64,
        ) + bytes@);
        r2
    }

    /// Writes a string.
    pub fn serialize_str(&mut self, v: &str) -> (r: Result<(), EncodeError<W::Error>>)
        ensures
            W::obeys_write_spec() && r is Ok ==> final(self).written() == old(self).written() + text_item(v.spec_bytes()),
            W::obeys_write_spec() && W::never_fails() ==> r is Ok,
            r is Err ==> r->Err_0 is Write,
            W::obeys_write_spec() && r is Err ==> reports_sink_error(final(self).sink(), r->Err_0),
    {
        self.emit_text(v.as_bytes())
    }

    /// Writes a character, as the string that holds it alone.
    pub fn serialize_char(&mut self, v: char) -> (r: Result<(), EncodeError<W::Error>>)
        ensures
            W::obeys_write_spec() && r is Ok ==> final(self).written() == old(self).written() + text_item(
                encode_utf8(seq![v]),
            ),
            W::obeys_write_spec() && W::never_fails() ==> r is Ok,
            r is Err ==> r->Err_0 is Write,
            W::obeys_write_spec() && r is Err ==> reports_sink_error(final(self).sink(), r->Err_0),
    {
        let buf = char_utf8(v);
        proof {
            assert(seq![v].drop_first() =~= Seq::<char>::empty());
            assert(encode_utf8(Seq::<char>::empty()) =~= Seq::<u8>::empty());
            assert(encode_utf8(seq![v]) == encode_scalar(v as u32) + encode_utf8(
                seq![v].drop_first(),
            ));
            assert(encode_utf8(seq![v]) =~= encode_scalar(v as u32));
        }
        self.emit_text(buf.as_slice())
    }

    /// Writes a byte string.
    pub fn serialize_bytes(&mut self, v: &[u8]) -> (r: Result<(), EncodeError<W::Error>>)
        ensures
            W::obeys_write_spec() && r is Ok ==> final(self).written() == old(self).written() + bytes_item(v@),
            W::obeys_write_spec() && W::never_fails() ==> r is Ok,
            r is Err ==> r->Err_0 is Write,
            W::obeys_write_spec() && r is Err ==> reports_sink_error(final(self).sink(), r->Err_0),
    {
        let r = self.emit_head(2, v.len() as u64);
        if r.is_err() {
            return r;
        }
        let r2 = self.emit(v);
        assert(old(self).written() + bytes_item(v@) =~= old(self).written() + head(
            2,
            v@.len() as u64,
        ) + v@);
        r2
    }

    /// Writes `null` for an absent optional value.
    pub fn serialize_none(&mut self) -> (r: Result<(), EncodeError<W::Error>>)
        ensures
            W::obeys_write_spec() && r is Ok ==> final(self).written() == old(self).written() + null_item(),
            W::obeys_write_spec() && W::never_fails() ==> r is Ok,
            r is Err ==> r->Err_0 is Write,
            W::obeys_write_spec() && r is Err ==> reports_sink_error(final(self).sink(), r->Err_0),
    {
        let b: [u8; 1] = [0xf6u8];
        assert(b@ =~= null_item());
        self.emit(&b)
    }

    /// Writes `null` for the unit value.
    pub fn serialize_unit(&mut self) -> (r: Result<(), EncodeError<W::Error>>)
        ensures
            W::obeys_write_spec() && r is Ok ==> final(self).written() == old(self).written() + null_item(),
            W::obeys_write_spec() && W::never_fails() ==> r is Ok,
            r is Err ==> r->Err_0 is Write,
            W::obeys_write_spec() && r is Err ==> reports_sink_error(final(self).sink(), r->Err_0),
    {
        let b: [u8; 1] = [0xf6u8];
        assert(b@ =~= null_item());
        self.emit(&b)
    }

    /// Writes `null` for a unit struct; its name is not written.
    pub fn serialize_unit_struct(&mut self, name: &str) -> (r: Result<(), EncodeError<W::Error>>)
        ensures
            W::obeys_write_spec() && r is Ok ==> final(self).written() == old(self).written() + null_item(),
            W::obeys_write_spec() && W::never_fails() ==> r is Ok,
            r is Err ==> r->Err_0 is Write,
            W::obeys_write_spec() && r is Err ==> reports_sink_error(final(self).sink(), r->Err_0),
    {
        self.serialize_unit()
    }

    /// Writes a unit variant as the string of its name.
    pub fn serialize_unit_variant(
        &mut self,
        name: &str,
        variant_index: u32,
        variant: &str,
    ) -> (r: Result<(), EncodeError<W::Error>>)
        ensures
            W::obeys_write_spec() && r is Ok ==> final(self).written() == old(self).written() + text_item(
                variant.spec_bytes(),
            ),
            W::obeys_write_spec() && W::never_fails() ==> r is Ok,
            r is Err ==> r->Err_0 is Write,
            W::obeys_write_spec() && r is Err ==> reports_sink_error(final(self).sink(), r->Err_0),
    {
        self.serialize_str(variant)
    }

    /// Writes a CID: tag 42 over the byte string of the CID's bytes after a zero byte.
    pub fn serialize_cid(&mut self, cid: &[u8]) -> (r: Result<(), EncodeError<W::Error>>)
        ensures
            W::obeys_write_spec() && r is Ok ==> final(self).written() == old(self).written() + crate::cbor::cid_item(cid@),
            W::obeys_write_spec() && W::never_fails() ==> r is Ok,
            r is Err ==> r->Err_0 is Write,
            W::obeys_write_spec() && r is Err ==> reports_sink_error(final(self).sink(), r->Err_0),
    {
        let mut prefixed: Vec<u8> = Vec::new();
        prefixed.push(0u8);
        let mut i: usize = 0;
        while i < cid.len()
            invariant
                i <= cid.len(),
                prefixed@ == seq![0u8] + cid@.subrange(0, i as int),
            decreases cid.len() - i,
        {
            prefixed.push(cid[i]);
            i = i + 1;
            assert(prefixed@ =~= seq![0u8] + cid@.subrange(0, i as int));
        }
        assert(cid@.subrange(0, i as int) =~= cid@);
        let r = self.emit_head(6, crate::cbor::CID_TAG);
        if r.is_err() {
            return r;
        }
        let r2 = self.serialize_bytes(prefixed.as_slice());
        assert(old(self).written() + crate::cbor::cid_item(cid@) =~= old(self).written() + head(
            6,
            crate::cbor::CID_TAG,
        ) + bytes_item(prefixed@));
        r2
    }

    /// Writes the head of a newtype variant: a map of one entry whose key is the
    /// variant's name. The value that follows is the entry's value.
    pub fn serialize_newtype_variant(
        &mut self,
        name: &str,
        variant_index: u32,
        variant: &str,
    ) -> (r: Result<(), EncodeError<W::Error>>)
        ensures
            W::obeys_write_spec() && r is Ok ==> final(self).written() == old(self).written() + map_start(Some(1usize))
                + text_item(variant.spec_bytes()),
            W::obeys_write_spec() && W::never_fails() ==> r is Ok,
            r is Err ==> r->Err_0 is Write,
            W::obeys_write_spec() && r is Err ==> reports_sink_error(final(self).sink(), r->Err_0),
    {
        let r = self.emit_head(5, 1);
        if r.is_err() {
            return r;
        }
        let r2 = self.serialize_str(variant);
        assert(map_start(Some(1usize)) == head(5, 1));
        r2
    }

    /// Starts a sequence: an array of `len` elements, or of unknown length.
    pub fn serialize_seq(&mut self, len: Option<usize>) -> (r: Result<
        Collect<'_, W>,
        EncodeError<W::Error>,
    >)
        ensures
            r is Ok ==> {
                let c = r->Ok_0;
                &&& W::obeys_write_spec() ==> c.ser.written() == old(self).written() + array_start(len)
                &&& c.bounded == (len is Some)
                &&& *final(c.ser) == *final(self)
            },
            W::obeys_write_spec() && W::never_fails() ==> r is Ok,
            r is Err ==> r->Err_0 is Write,
            W::obeys_write_spec() && r is Err ==> reports_sink_error(final(self).sink(), r->Err_0),
    {
        let res = match len {
            Some(n) => self.emit_head(4, n as u64),
            None => {
                let b: [u8; 1] = [crate::cbor::ARRAY_START];
                assert(b@ =~= array_start(len));
                self.emit(&b)
            },
        };
        match res {
            Ok(()) => Ok(Collect { bounded: len.is_some(), ser: self }),
            Err(e) => Err(e),
        }
    }

    /// Starts a tuple: an array of `len` elements.
    pub fn serialize_tuple(&mut self, len: usize) -> (r: Result<
        BoundedCollect<'_, W>,
        EncodeError<W::Error>,
    >)
        ensures
            r is Ok ==> {
                let c = r->Ok_0;
                &&& W::obeys_write_spec() ==> c.ser.written() == old(self).written() + array_start(Some(len))
                &&& *final(c.ser) == *final(self)
            },
            W::obeys_write_spec() && W::never_fails() ==> r is Ok,
            r is Err ==> r->Err_0 is Write,
            W::obeys_write_spec() && r is Err ==> reports_sink_error(final(self).sink(), r->Err_0),
    {
        match self.emit_head(4, len as u64) {
            Ok(()) => Ok(BoundedCollect { ser: self }),
            Err(e) => Err(e),
        }
    }

    /// Starts a tuple struct: an array of `len` fields; the name is not written.
    pub fn serialize_tuple_struct(&mut self, name: &str, len: usize) -> (r: Result<
        BoundedCollect<'_, W>,
        EncodeError<W::Error>,
    >)
        ensures
            r is Ok ==> {
                let c = r->Ok_0;
                &&& W::obeys_write_spec() ==> c.ser.written() == old(self).written() + array_start(Some(len))
                &&& *final(c.ser) == *final(self)
            },
            W::obeys_write_spec() && W::never_fails() ==> r is Ok,
            r is Err ==> r->Err_0 is Write,
            W::obeys_write_spec() && r is Err ==> reports_sink_error(final(self).sink(), r->Err_0),
    {
        self.serialize_tuple(len)
    }

    /// Starts a tuple variant: a map of one entry whose key is the variant's name and
    /// whose value is an array of `len` fields.
    pub fn serialize_tuple_variant(
        &mut self,
        name: &str,
        variant_index: u32,
        variant: &str,
        len: usize,
    ) -> (r: Result<BoundedCollect<'_, W>, EncodeError<W::Error>>)
        ensures
            r is Ok ==> {
                let c = r->Ok_0;
                &&& W::obeys_write_spec() ==> c.ser.written() == old(self).written() + map_start(Some(1usize)) + text_item(
                    variant.spec_bytes(),
                ) + array_start(Some(len))
                &&& *final(c.ser) == *final(self)
            },
            W::obeys_write_spec() && W::never_fails() ==> r is Ok,
            r is Err ==> r->Err_0 is Write,
            W::obeys_write_spec() && r is Err ==> reports_sink_error(final(self).sink(), r->Err_0),
    {
        let r = self.serialize_newtype_variant(name, variant_index, variant);
        if let Err(e) = r {
            return Err(e);
        }
        self.serialize_tuple(len)
    }

    /// Starts a map: a map of `len` entries, or of unknown length.
    pub fn serialize_map(&mut self, len: Option<usize>) -> (r: Result<
        Collect<'_, W>,
        EncodeError<W::Error>,
    >)
        ensures
            r is Ok ==> {
                let c = r->Ok_0;
                &&& W::obeys_write_spec() ==> c.ser.written() == old(self).written() + map_start(len)
                &&& c.bounded == (len is Some)
                &&& *final(c.ser) == *final(self)
            },
            W::obeys_write_spec() && W::never_fails() ==> r is Ok,
            r is Err ==> r->Err_0 is Write,
            W::obeys_write_spec() && r is Err ==> reports_sink_error(final(self).sink(), r->Err_0),
    {
        let res = match len {
            Some(n) => self.emit_head(5, n as u64),
            None => {
                let b: [u8; 1] = [crate::cbor::MAP_START];
                assert(b@ =~= map_start(len));
                self.emit(&b)
            },
        };
        match res {
            Ok(()) => Ok(Collect { bounded: len.is_some(), ser: self }),
            Err(e) => Err(e),
        }
    }

    /// Starts a struct: a map of `len` entries; the name is not written.
    pub fn serialize_struct(&mut self, name: &str, len: usize) -> (r: Result<
        BoundedCollect<'_, W>,
        EncodeError<W::Error>,
    >)
        ensures
            r is Ok ==> {
                let c = r->Ok_0;
                &&& W::obeys_write_spec() ==> c.ser.written() == old(self).written() + map_start(Some(len))
                &&& *final(c.ser) == *final(self)
            },
            W::obeys_write_spec() && W::never_fails() ==> r is Ok,
            r is Err ==> r->Err_0 is Write,
            W::obeys_write_spec() && r is Err ==> reports_sink_error(final(self).sink(), r->Err_0),
    {
        match self.emit_head(5, len as u64) {
            Ok(()) => Ok(BoundedCollect { ser: self }),
            Err(e) => Err(e),
        }
    }

    /// Starts a struct variant: a map of one entry whose key is the variant's name and
    /// whose value is a map of `len` fields.
    pub fn serialize_struct_variant(
        &mut self,
        name: &str,
        variant_index: u32,
        variant: &str,
        len: usize,
    ) -> (r: Result<BoundedCollect<'_, W>, EncodeError<W::Error>>)
        ensures
            r is Ok ==> {
                let c = r->Ok_0;
                &&& W::obeys_write_spec() ==> c.ser.written() == old(self).written() + map_start(Some(1usize)) + text_item(
                    variant.spec_bytes(),
                ) + map_start(Some(len))
                &&& *final(c.ser) == *final(self)
            },
            W::obeys_write_spec() && W::never_fails() ==> r is Ok,
            r is Err ==> r->Err_0 is Write,
            W::obeys_write_spec() && r is Err ==> reports_sink_error(final(self).sink(), r->Err_0),
    {
        let r = self.serialize_newtype_variant(name, variant_index, variant);
        if let Err(e) = r {
            return Err(e);
        }
        self.serialize_struct(name, len)
    }

    /// Writes a map from its entries, each given as the bytes of its key followed by
    /// the bytes of its value: a head with the number of entries, then the entries in
    /// canonical order (byte-wise lexicographic, which for DAG-CBOR's string keys is
    /// shortest key first).
    pub fn collect_map(&mut self, entries: Vec<Vec<u8>>) -> (r: Result<(), EncodeError<W::Error>>)
        ensures
            W::obeys_write_spec() && r is Ok ==> final(self).written() == old(self).written() + map_start(
                Some(entries.len()),
            ) + canonical_order(contents(entries@)).flatten(),
            W::obeys_write_spec() && W::never_fails() ==> r is Ok,
            r is Err ==> r->Err_0 is Write,
            W::obeys_write_spec() && r is Err ==> reports_sink_error(final(self).sink(), r->Err_0),
    {
        let n = entries.len();
        let r = self.emit_head(5, n as u64);
        if r.is_err() {
            return r;
        }
        let ghost w1 = self.written();
        let sorted = sort_entries(entries);
        let ghost sv = contents(sorted@);
        let mut i: usize = 0;
        assert(sv.subrange(0, 0).flatten() =~= Seq::<u8>::empty());
        assert(w1 + Seq::<u8>::empty() =~= w1);
        while i < sorted.len()
            invariant
                i <= sorted.len(),
                sv == contents(sorted@),
                W::obeys_write_spec() ==> self.written() == w1 + sv.subrange(0, i as int).flatten(),
            decreases sorted.len() - i,
        {
            let r = self.emit(sorted[i].as_slice());
            if r.is_err() {
                return r;
            }
            proof {
                assert(sv.subrange(0, i + 1) =~= sv.subrange(0, i as int).push(sv[i as int]));
                sv.subrange(0, i as int).lemma_flatten_push(sv[i as int]);
            }
            i = i + 1;
        }
        assert(sv.subrange(0, i as int) =~= sv);
        assert(map_start(Some(n)) == head(5, n as u64));
        r
    }

    /// A text writer over this serializer's sink, for writing formatted text as one
    /// string.
    pub fn collect_str_writer(&mut self) -> (w: FmtWriter<'_, W>)
        ensures
            w.wf(),
            w.state is Short,
            w.start@ == old(self).written(),
            w.input@ == Seq::<u8>::empty(),
            *final(w.inner) == final(self).sink(),
    {
        FmtWriter::new(&mut self.writer)
    }

    /// Writes a 128-bit unsigned integer: as an ordinary integer where it fits in 64
    /// bits, as a bignum otherwise.
    pub fn serialize_u128(&mut self, v: u128) -> (r: Result<(), EncodeError<W::Error>>)
        ensures
            W::obeys_write_spec() && r is Ok ==> final(self).written() == old(self).written() + integer_item(v as int),
            W::obeys_write_spec() && W::never_fails() ==> r is Ok,
            r is Err ==> r->Err_0 is Write,
            W::obeys_write_spec() && r is Err ==> reports_sink_error(final(self).sink(), r->Err_0),
    {
        if v <= 0xffff_ffff_ffff_ffffu128 {
            self.emit_head(0, v as u64)
        } else {
            self.emit_bignum(2, v)
        }
    }

    /// Writes a 128-bit signed integer: as an ordinary integer where it fits in the
    /// range of major types 0 and 1, as a bignum otherwise.
    pub fn serialize_i128(&mut self, v: i128) -> (r: Result<(), EncodeError<W::Error>>)
        ensures
            W::obeys_write_spec() && r is Ok ==> final(self).written() == old(self).written() + integer_item(v as int),
            W::obeys_write_spec() && W::never_fails() ==> r is Ok,
            r is Err ==> r->Err_0 is Write,
            W::obeys_write_spec() && r is Err ==> reports_sink_error(final(self).sink(), r->Err_0),
    {
        if v >= 0 {
            let u = v as u128;
            if u <= 0xffff_ffff_ffff_ffffu128 {
                self.emit_head(0, u as u64)
            } else {
                self.emit_bignum(2, u)
            }
        } else {
            let n = (-1 - v) as u128;
            if n <= 0xffff_ffff_ffff_ffffu128 {
                self.emit_head(1, n as u64)
            } else {
                self.emit_bignum(3, n)
            }
        }
    }
}

/// A collection under way whose length may be unknown: it ends with a break
/// byte when it is.
pub struct Collect<'a, W> {
    /// Whether the collection's length was written in its head.
    pub bounded: bool,
    /// The serializer that writes the collection.
    pub ser: &'a mut Serializer<W>,
}

impl<'a, W: Write> Collect<'a, W> {
    /// The serializer, to write the next element, key or value with.
    pub fn serializer(&mut self) -> (s: &mut Serializer<W>)
        ensures
            *s == *old(self).ser,
            *final(s) == *final(self).ser,
            *final(final(self).ser) == *final(old(self).ser),
            final(self).bounded == old(self).bounded,
    {
        &mut *self.ser
    }

    /// Ends the collection: a break byte if its length was unknown, nothing if not.
    pub fn end(self) -> (r: Result<(), EncodeError<W::Error>>)
        ensures
            W::obeys_write_spec() && r is Ok ==> final(self.ser).written() == old(self.ser).written() + (if self.bounded {
                Seq::<u8>::empty()
            } else {
                seq![BREAK]
            }),
            W::obeys_write_spec() && W::never_fails() ==> r is Ok,
            r is Err ==> r->Err_0 is Write,
            W::obeys_write_spec() && r is Err ==> reports_sink_error(final(self.ser).sink(), r->Err_0),
    {
        if !self.bounded {
            let b: [u8; 1] = [BREAK];
            let r = self.ser.emit(&b);
            assert(b@ =~= seq![BREAK]);
            r
        } else {
            assert(self.ser.written() + Seq::<u8>::empty() =~= self.ser.written());
            Ok(())
        }
    }
}

/// A collection under way whose length was written in its head: it needs no
/// closing byte.
pub struct BoundedCollect<'a, W> {
    /// The serializer that writes the collection.
    pub ser: &'a mut Serializer<W>,
}

impl<'a, W: Write> BoundedCollect<'a, W> {
    /// The serializer, to write the next element or field value with.
    pub fn serializer(&mut self) -> (s: &mut Serializer<W>)
        ensures
            *s == *old(self).ser,
            *final(s) == *final(self).ser,
            *final(final(self).ser) == *final(old(self).ser),
    {
        &mut *self.ser
    }

    /// Writes the key of a struct field: the field's name as a string.
    pub fn serialize_key(&mut self, key: &str) -> (r: Result<(), EncodeError<W::Error>>)
        ensures
            W::obeys_write_spec() && r is Ok ==> final(self).ser.written() == old(self).ser.written() + text_item(
                key.spec_bytes(),
            ),
            *final(final(self).ser) == *final(old(self).ser),
            W::obeys_write_spec() && W::never_fails() ==> r is Ok,
            r is Err ==> r->Err_0 is Write,
            W::obeys_write_spec() && r is Err ==> reports_sink_error(final(self).ser.sink(), r->Err_0),
    {
        self.ser.serialize_str(key)
    }

    /// Ends the collection; nothing is written.
    pub fn end(self) -> (r: Result<(), EncodeError<W::Error>>)
        ensures
            r is Ok,
            *final(self.ser) == *old(self.ser),
    {
        Ok(())
    }
}

/// Law: a character is written exactly as the string that holds it alone.
pub proof fn lemma_char_is_one_char_string(c: char, s: &str)
    requires
        s@ == seq![c],
    ensures
        text_item(encode_utf8(seq![c])) == text_item(s.spec_bytes()),
{
}

/// The UTF-8 bytes of a character.
pub fn char_utf8(c: char) -> (b: Vec<u8>)
    ensures
        b@ == encode_scalar(c as u32),
{
    let v: u32 = c as u32;
    let mut b: Vec<u8> = Vec::new();
    if v <= 0x7F {
        b.push((v & 0x7F) as u8);
    } else if v <= 0x7FF {
        b.push(0xC0 | ((v >> 6) & 0x1F) as u8);
        b.push(0x80 | (v & 0x3F) as u8);
    } else if v <= 0xFFFF {
        b.push(0xE0 | ((v >> 12) & 0x0F) as u8);
        b.push(0x80 | ((v >> 6) & 0x3F) as u8);
        b.push(0x80 | (v & 0x3F) as u8);
    } else {
        b.push(0xF0 | ((v >> 18) & 0x7) as u8);
        b.push(0x80 | ((v >> 12) & 0x3F) as u8);
        b.push(0x80 | ((v >> 6) & 0x3F) as u8);
        b.push(0x80 | (v & 0x3F) as u8);
    }
    proof {
        vstd::utf8::char_is_scalar(c);
    }
    assert(b@ =~= encode_scalar(v));
    b
}

} // verus!
