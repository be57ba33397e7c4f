//! The byte sink that a serializer writes into, and the errors of encoding.
use vstd::prelude::*;

verus! {

/// A sink of bytes. A verified implementor says in `written` what it has received,
/// sets `obeys_write_spec` to promise that `push` appends exactly its input on
/// success, and sets `never_fails` where `push` cannot fail. An implementor that
/// keeps the defaults promises nothing: every clause of `push` is then vacuous, and
/// so is every clause about the sink's contents in the serializer's contracts.
pub trait Write {
    type Error;

    /// Holds of sinks whose `push` keeps the contract below.
    closed spec fn obeys_write_spec() -> bool {
        false
    }

    /// All bytes this sink has accepted so far.
    closed spec fn written(&self) -> Seq<u8> {
        Seq::empty()
    }

    /// The error that the sink's most recent failed `push` returned, if any.
    closed spec fn last_error(&self) -> Option<Self::Error> {
        None
    }

    /// Holds of sinks whose `push` never fails.
    closed spec fn never_fails() -> bool {
        false
    }

    /// Appends `input`. On success the sink holds exactly what it held, then `input`.
    fn push(&mut self, input: &[u8]) -> (r: Result<(), Self::Error>)
        ensures
            Self::obeys_write_spec() ==> (r is Ok ==> final(self).written() == old(
                self,
            ).written() + input@),
            Self::obeys_write_spec() && r is Err ==> final(self).last_error() == Some(r->Err_0),
            Self::obeys_write_spec() && Self::never_fails() ==> r is Ok,
    ;
}

/// Why an encoding stopped.
#[derive(Debug, PartialEq, Eq)]
pub enum EncodeError<E> {
    /// The sink refused bytes.
    Write(E),
    /// Formatting a value into text failed on its own, not in the sink.
    Format,
}

/// `e` is the write error that carries the failure the sink `w` last reported.
pub open spec fn reports_sink_error<W: Write>(w: W, e: EncodeError<W::Error>) -> bool {
    &&& w.last_error() is Some
    &&& e == EncodeError::<W::Error>::Write(w.last_error()->Some_0)
}

/// A sink that keeps what it receives in memory; it never fails.
pub struct BufWriter {
    buf: Vec<u8>,
}

impl BufWriter {
    /// The bytes held.
    pub closed spec fn contents(&self) -> Seq<u8> {
        self.buf@
    }

    /// A sink that starts out holding `buf`.
    pub fn new(buf: Vec<u8>) -> (w: BufWriter)
        ensures
            w.contents() == buf@,
    {
        BufWriter { buf }
    }

    /// The bytes held.
    pub fn buffer(&self) -> (b: &[u8])
        ensures
            b@ == self.contents(),
    {
        self.buf.as_slice()
    }

    /// Forgets all bytes held.
    pub fn clear(&mut self)
        ensures
            final(self).contents() == Seq::<u8>::empty(),
    {
        self.buf.clear();
    }

    /// The bytes held, as a vector.
    pub fn into_inner(self) -> (v: Vec<u8>)
        ensures
            v@ == self.contents(),
    {
        self.buf
    }
}

impl Write for BufWriter {
    type Error = ();

    open spec fn obeys_write_spec() -> bool {
        true
    }

    closed spec fn written(&self) -> Seq<u8> {
        self.buf@
    }

    open spec fn never_fails() -> bool {
        true
    }

    fn push(&mut self, input: &[u8]) -> (r: Result<(), ()>) {
        let ghost start = self.buf@;
        let mut i: usize = 0;
        while i < input.len()
            invariant
                i <= input.len(),
                self.buf@ == start + input@.subrange(0, i as int),
            decreases input.len() - i,
        {
            self.buf.push(input[i]);
            i = i + 1;
            assert(self.buf@ =~= start + input@.subrange(0, i as int));
        }
        assert(input@.subrange(0, i as int) =~= input@);
        Ok(())
    }
}

impl BufWriter {
    /// What the sink has received is what it holds.
    pub proof fn lemma_written_is_contents(&self)
        ensures
            self.written() == self.contents(),
    {
    }
}

} // verus!
