//! Streaming text into a sink as one CBOR text string: short text is kept back and
//! written with its length; text that outgrows the buffer is written as a text
//! string of unknown length, one chunk per piece.
use vstd::prelude::*;
use crate::cbor::{
    chunked_text, head_bytes, lemma_text_chunks_push, text_chunks, text_item, BREAK, TEXT_START,
};
use crate::decode::{decode_text, lemma_chunked_text_roundtrip, lemma_text_roundtrip};
use vstd::utf8::{encode_utf8, valid_utf8};
use crate::write::{reports_sink_error, EncodeError, Write};
use vstd::string::StringSliceAdditionalSpecFns;

verus! {

/// How many bytes of text are kept back before the writer turns to chunks.
pub const BUFFER_SIZE: usize = 256;

/// Where a text writer stands.
#[derive(Debug)]
pub enum State<E> {
    /// All text so far is in the buffer; nothing is written yet.
    Short,
    /// A text string of unknown length is open in the sink.
    Segment,
    /// The sink failed; every further write fails.
    Error(E),
}

/// Writes text into `inner` as one CBOR text string.
pub struct FmtWriter<'a, W: Write> {
    /// The sink.
    pub inner: &'a mut W,
    /// The text kept back while the state is `Short`.
    pub buf: Vec<u8>,
    /// Where the writer stands.
    pub state: State<EncodeError<W::Error>>,
    /// What the sink held when the writer was made.
    pub start: Ghost<Seq<u8>>,
    /// All text received so far.
    pub input: Ghost<Seq<u8>>,
    /// The chunks written so far, once the state is `Segment`.
    pub chunks: Ghost<Seq<Seq<u8>>>,
}

/// Writes a text string of definite length with content `bytes` into `inner`.
fn put_text<W: Write>(inner: &mut W, bytes: &[u8]) -> (r: Result<(), EncodeError<W::Error>>)
    ensures
        W::obeys_write_spec() && r is Ok ==> final(inner).written() == old(inner).written() + text_item(bytes@),
        W::obeys_write_spec() && W::never_fails() ==> r is Ok,
        r is Err ==> r->Err_0 is Write,
        W::obeys_write_spec() && r is Err ==> reports_sink_error(*final(inner), r->Err_0),
{
    let h = head_bytes(3, bytes.len() as u64);
    match inner.push(h.as_slice()) {
        Ok(()) => {},
        Err(e) => {
            return Err(EncodeError::Write(e));
        },
    }
    match inner.push(bytes) {
        Ok(()) => {
            assert(old(inner).written() + text_item(bytes@) =~= old(inner).written() + h@
                + bytes@);
            Ok(())
        },
        Err(e) => Err(EncodeError::Write(e)),
    }
}

/// Appends `bytes` to `buf`.
fn append(buf: &mut Vec<u8>, bytes: &[u8])
    ensures
        final(buf)@ == old(buf)@ + bytes@,
{
    let ghost buf0 = buf@;
    let mut i: usize = 0;
    while i < bytes.len()
        invariant
            i <= bytes.len(),
            buf@ == buf0 + bytes@.subrange(0, i as int),
        decreases bytes.len() - i,
    {
        buf.push(bytes[i]);
        i = i + 1;
        assert(buf@ =~= buf0 + bytes@.subrange(0, i as int));
    }
    assert(bytes@.subrange(0, i as int) =~= bytes@);
}

impl<'a, W: Write> FmtWriter<'a, W> {
    /// The writer's invariant. In `Short` the buffer holds all text, which fits in it,
    /// and the sink holds what it held at the start; in `Segment` the text has
    /// outgrown the buffer, the chunks hold all of it, and the sink holds the start of
    /// a text string of unknown length made of those chunks. Every chunk is UTF-8.
    /// What the sink holds is stated for sinks that obey the `Write` contract.
    pub open spec fn wf(&self) -> bool {
        &&& self.buf@.len() <= BUFFER_SIZE
        &&& forall|i: int|
            0 <= i < self.chunks@.len() ==> {
                &&& #[trigger] self.chunks@[i].len() <= u64::MAX
                &&& valid_utf8(self.chunks@[i])
            }
        &&& match self.state {
            State::Short => {
                &&& self.buf@ == self.input@
                &&& valid_utf8(self.buf@)
                &&& W::obeys_write_spec() ==> self.inner.written() == self.start@
            },
            State::Segment => {
                &&& self.chunks@.flatten() == self.input@
                &&& self.input@.len() > BUFFER_SIZE
                &&& W::obeys_write_spec() ==> self.inner.written() == self.start@ + seq![
                    TEXT_START,
                ] + text_chunks(self.chunks@)
            },
            State::Error(e) => {
                &&& e is Write
                &&& W::obeys_write_spec() ==> reports_sink_error(*self.inner, e)
            },
        }
    }

    /// The text string that closing the writer leaves after what the sink held at
    /// the start.
    pub open spec fn closed_text(&self) -> Seq<u8> {
        match self.state {
            State::Short => text_item(self.input@),
            State::Segment => chunked_text(self.chunks@),
            State::Error(_) => Seq::empty(),
        }
    }

    /// Law: whichever way the writer went, the text string it closes reads back as
    /// all the text it received.
    pub proof fn lemma_closed_text_reads_back(&self)
        requires
            self.wf(),
            !(self.state is Error),
        ensures
            decode_text(self.closed_text()) == Some(self.input@),
    {
        match self.state {
            State::Short => {
                lemma_text_roundtrip(self.input@);
            },
            State::Segment => {
                lemma_chunked_text_roundtrip(self.chunks@);
            },
            State::Error(_) => {},
        }
    }

    /// Law: text of at most 256 bytes, however many pieces it came in, is closed
    /// as one text string of definite length; longer text is closed as a text
    /// string of unknown length whose chunks are UTF-8 and hold all of it in order.
    pub proof fn lemma_closed_text_shape(&self)
        requires
            self.wf(),
            !(self.state is Error),
        ensures
            self.input@.len() <= 256 ==> self.state is Short && self.closed_text()
                == text_item(self.input@),
            self.input@.len() > 256 ==> {
                &&& self.state is Segment
                &&& self.closed_text() == chunked_text(self.chunks@)
                &&& self.chunks@.flatten() == self.input@
                &&& forall|i: int| 0 <= i < self.chunks@.len() ==> valid_utf8(#[trigger] self.chunks@[i])
            },
    {
    }

    /// A writer over `inner` that has received no text.
    pub fn new(inner: &'a mut W) -> (w: FmtWriter<'a, W>)
        ensures
            w.wf(),
            w.state is Short,
            w.start@ == old(inner).written(),
            w.input@ == Seq::<u8>::empty(),
            *w.inner == *old(inner),
            *final(w.inner) == *final(inner),
    {
        let ghost start = inner.written();
        proof {
            vstd::utf8::encode_utf8_valid_utf8(Seq::<char>::empty());
            assert(encode_utf8(Seq::<char>::empty()) =~= Seq::<u8>::empty());
        }
        FmtWriter {
            inner,
            buf: Vec::new(),
            state: State::Short,
            start: Ghost(start),
            input: Ghost(Seq::empty()),
            chunks: Ghost(Seq::empty()),
        }
    }

    /// Whether the sink has failed.
    pub fn is_error(&self) -> (b: bool)
        ensures
            b == self.state is Error,
    {
        match &self.state {
            State::Error(_) => true,
            _ => false,
        }
    }

    /// Takes in `input`. While all text fits in the buffer it is kept back. When it
    /// no longer fits, a text string of unknown length is opened with the buffer as
    /// its first chunk and `input` as its second; after that each input is a chunk
    /// of its own. Once the sink has failed, nothing is written and the result is an
    /// error.
    pub fn write_str(&mut self, input: &str) -> (r: Result<(), ()>)
        requires
            old(self).wf(),
        ensures
            final(self).wf(),
            final(self).start@ == old(self).start@,
            *final(final(self).inner) == *final(old(self).inner),
            r is Ok <==> !(final(self).state is Error),
            W::obeys_write_spec() && r is Err && !(old(self).state is Error) ==> reports_sink_error(
                *final(self).inner,
                final(self).state->Error_0,
            ),
            r is Ok ==> final(self).input@ == old(self).input@ + input.spec_bytes(),
            old(self).state is Error ==> *final(self) == *old(self),
            old(self).state is Short && old(self).buf@.len() + input.spec_bytes().len()
                <= BUFFER_SIZE ==> final(self).state is Short,
            old(self).state is Short && old(self).buf@.len() + input.spec_bytes().len()
                > BUFFER_SIZE && r is Ok ==> final(self).state is Segment && final(self).chunks@
                == seq![old(self).buf@, input.spec_bytes()],
            old(self).state is Segment && r is Ok ==> final(self).state is Segment
                && final(self).chunks@ == old(self).chunks@.push(input.spec_bytes()),
            W::obeys_write_spec() && W::never_fails() && !(old(self).state is Error) ==> r is Ok,
    {
        let bytes = input.as_bytes();
        if self.is_error() {
            return Err(());
        }
        if self.is_short() {
            if BUFFER_SIZE - self.buf.len() >= bytes.len() {
                let ghost buf0 = self.buf@;
                append(&mut self.buf, bytes);
                proof {
                    vstd::utf8::encode_utf8_valid_utf8(input@);
                    vstd::utf8::valid_utf8_concat(buf0, bytes@);
                }
                self.input = Ghost(self.input@ + bytes@);
                Ok(())
            } else {
                self.state = State::Segment;
                let start_byte: [u8; 1] = [TEXT_START];
                match self.inner.push(&start_byte) {
                    Ok(()) => {},
                    Err(e) => {
                        self.state = State::Error(EncodeError::Write(e));
                        return Err(());
                    },
                }
                match put_text(self.inner, self.buf.as_slice()) {
                    Ok(()) => {},
                    Err(e) => {
                        self.state = State::Error(e);
                        return Err(());
                    },
                }
                match put_text(self.inner, bytes) {
                    Ok(()) => {},
                    Err(e) => {
                        self.state = State::Error(e);
                        return Err(());
                    },
                }
                let ghost cs = seq![self.buf@, bytes@];
                proof {
                    lemma_text_chunks_push(seq![self.buf@], bytes@);
                    lemma_text_chunks_push(Seq::<Seq<u8>>::empty(), self.buf@);
                    assert(Seq::<Seq<u8>>::empty().push(self.buf@) =~= seq![self.buf@]);
                    assert(seq![self.buf@].push(bytes@) =~= cs);
                    assert(text_chunks(Seq::<Seq<u8>>::empty()) == Seq::<u8>::empty());
                    assert(start_byte@ =~= seq![TEXT_START]);
                    if W::obeys_write_spec() {
                        assert(self.inner.written() =~= self.start@ + seq![TEXT_START]
                            + text_chunks(cs));
                    }
                    vstd::utf8::encode_utf8_valid_utf8(input@);
                    vstd::seq_lib::lemma_flatten_concat(seq![self.buf@], seq![bytes@]);
                    assert(seq![self.buf@] + seq![bytes@] =~= cs);
                    seq![self.buf@].lemma_flatten_one_element();
                    seq![bytes@].lemma_flatten_one_element();
                }
                self.chunks = Ghost(cs);
                self.input = Ghost(self.input@ + bytes@);
                assert(self.chunks@[0].len() <= u64::MAX);
                assert(self.chunks@[1].len() <= u64::MAX);
                assert(valid_utf8(self.chunks@[0]));
                assert(valid_utf8(self.chunks@[1]));
                Ok(())
            }
        } else {
            match put_text(self.inner, bytes) {
                Ok(()) => {},
                Err(e) => {
                    self.state = State::Error(e);
                    return Err(());
                },
            }
            proof {
                lemma_text_chunks_push(self.chunks@, bytes@);
                vstd::seq_lib::lemma_flatten_concat(self.chunks@, seq![bytes@]);
                seq![bytes@].lemma_flatten_one_element();
                assert(self.chunks@ + seq![bytes@] =~= self.chunks@.push(bytes@));
                if W::obeys_write_spec() {
                    assert(self.inner.written() =~= self.start@ + seq![TEXT_START] + text_chunks(
                        self.chunks@.push(bytes@),
                    ));
                }
                vstd::utf8::encode_utf8_valid_utf8(input@);
            }
            let ghost old_chunks = self.chunks@;
            self.chunks = Ghost(self.chunks@.push(bytes@));
            self.input = Ghost(self.input@ + bytes@);
            assert forall|i: int|
                0 <= i < self.chunks@.len() implies #[trigger] self.chunks@[i].len() <= u64::MAX
                && valid_utf8(self.chunks@[i]) by {
                if i < old_chunks.len() {
                    assert(self.chunks@[i] == old_chunks[i]);
                } else {
                    assert(self.chunks@[i] == bytes@);
                    assert(bytes@.len() == bytes.len());
                }
            }
            assert(self.chunks@.flatten() == self.input@);
            Ok(())
        }
    }

    /// Closes the text: the kept-back text as a string of definite length, or the
    /// break byte that closes the string of unknown length. A failed sink gives its
    /// error back.
    pub fn flush(self) -> (r: Result<(), EncodeError<W::Error>>)
        requires
            self.wf(),
        ensures
            W::obeys_write_spec() && r is Ok ==> final(self.inner).written() == self.start@ + self.closed_text(),
            self.state is Error ==> r == Err::<(), EncodeError<W::Error>>(self.state->Error_0),
            self.state is Error ==> *final(self.inner) == *old(self.inner),
            W::obeys_write_spec() && W::never_fails() && !(self.state is Error) ==> r is Ok,
            r is Err ==> r->Err_0 is Write,
            W::obeys_write_spec() && r is Err ==> reports_sink_error(*final(self.inner), r->Err_0),
    {
        match self.state {
            State::Short => put_text(self.inner, self.buf.as_slice()),
            State::Segment => {
                let b: [u8; 1] = [BREAK];
                let r = match self.inner.push(&b) {
                    Ok(()) => Ok(()),
                    Err(e) => Err(EncodeError::Write(e)),
                };
                assert(b@ =~= seq![BREAK]);
                r
            },
            State::Error(err) => Err(err),
        }
    }

    /// Ends a formatting run: if formatting failed while the sink had not, that is a
    /// formatting error; otherwise the text is closed as `flush` does.
    pub fn finish(self, formatted: bool) -> (r: Result<(), EncodeError<W::Error>>)
        requires
            self.wf(),
        ensures
            !formatted && !(self.state is Error) ==> r == Err::<(), EncodeError<W::Error>>(
                EncodeError::Format,
            ),
            r is Ok ==> formatted,
            W::obeys_write_spec() && r is Ok ==> final(self.inner).written() == self.start@
                + self.closed_text(),
            !formatted && !(self.state is Error) ==> *final(self.inner) == *old(self.inner),
            self.state is Error ==> r == Err::<(), EncodeError<W::Error>>(self.state->Error_0),
            self.state is Error ==> *final(self.inner) == *old(self.inner),
            formatted && r is Err ==> r->Err_0 is Write,
            W::obeys_write_spec() && r is Err && (formatted || self.state is Error)
                ==> reports_sink_error(*final(self.inner), r->Err_0),
            formatted && W::obeys_write_spec() && W::never_fails() && !(self.state is Error) ==> r is Ok,
    {
        if !formatted && !self.is_error() {
            return Err(EncodeError::Format);
        }
        self.flush()
    }

    fn is_short(&self) -> (b: bool)
        ensures
            b == self.state is Short,
    {
        match &self.state {
            State::Short => true,
            _ => false,
        }
    }
}

} // verus!
