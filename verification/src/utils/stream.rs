//! The transport as a narrow capability: exact reads and flushed writes.

use vstd::prelude::*;

verus! {

/// A reliable, ordered, bidirectional byte stream.
///
/// The model has two byte sequences and one promise. `incoming` holds the
/// bytes that the peer delivers and that have not been read yet; a read
/// that asks for more than it holds fails, and nothing can be read after
/// it. `outgoing` holds every byte accepted for sending. `accepts_writes`
/// says that the transport refuses no write and no flush.
///
/// A transport in memory states all three outright. For a transport over a
/// network `incoming` stands for what the reads to come will deliver; such
/// a transport is implemented outside this library, where the two
/// sequences stay unspecified and no acceptance is promised, and the
/// contracts of the three methods are what the library takes on trust
/// from it.
pub trait ReadWrite {
    /// The bytes still to be read, in order.
    open spec fn incoming(&self) -> Seq<u8> {
        arbitrary()
    }

    /// The bytes written so far, in order.
    open spec fn outgoing(&self) -> Seq<u8> {
        arbitrary()
    }

    /// Whether the transport accepts every write and every flush, now and
    /// later.
    open spec fn accepts_writes(&self) -> bool {
        false
    }

    /// Reads exactly `n` bytes, or fails when fewer than `n` are
    /// delivered. A read that failed ends the input.
    fn read_exact(&mut self, n: usize) -> (result: Option<Vec<u8>>)
        ensures
            final(self).outgoing() == old(self).outgoing(),
            final(self).accepts_writes() == old(self).accepts_writes(),
            match result {
                Some(bytes) => {
                    &&& n <= old(self).incoming().len()
                    &&& bytes@ == old(self).incoming().take(n as int)
                    &&& final(self).incoming() == old(self).incoming().skip(n as int)
                },
                None => n > old(self).incoming().len() && final(self).incoming()
                    == Seq::<u8>::empty(),
            },
    ;

    /// Writes all of `data`; `false` when the transport refuses.
    fn write_all(&mut self, data: &[u8]) -> (ok: bool)
        ensures
            final(self).incoming() == old(self).incoming(),
            final(self).accepts_writes() == old(self).accepts_writes(),
            ok ==> final(self).outgoing() == old(self).outgoing() + data@,
            old(self).accepts_writes() ==> ok,
    ;

    /// Pushes buffered bytes to the peer; `false` when the transport refuses.
    fn flush(&mut self) -> (ok: bool)
        ensures
            final(self).incoming() == old(self).incoming(),
            final(self).outgoing() == old(self).outgoing(),
            final(self).accepts_writes() == old(self).accepts_writes(),
            old(self).accepts_writes() ==> ok,
    ;
}

/// A transport held in memory: the bytes still to be read and a buffer
/// that collects what is written. It accepts every write. A read that
/// asks for more than is left fails and discards what is left.
pub struct MemoryStream {
    input: Vec<u8>,
    output: Vec<u8>,
}

impl MemoryStream {
    /// The bytes that have not been read yet.
    pub closed spec fn unread(&self) -> Seq<u8> {
        self.input@
    }

    /// Everything written so far.
    pub closed spec fn written(&self) -> Seq<u8> {
        self.output@
    }

    /// A stream that will deliver `input` and has nothing written.
    pub fn new(input: Vec<u8>) -> (stream: MemoryStream)
        ensures
            stream.unread() == input@,
            stream.written() == Seq::<u8>::empty(),
    {
        MemoryStream { input, output: Vec::new() }
    }

    /// Appends `data` to the bytes that can be read.
    pub fn feed(&mut self, data: &[u8])
        ensures
            final(self).unread() == old(self).unread() + data@,
            final(self).written() == old(self).written(),
    {
        self.input.extend_from_slice(data);
    }

    /// The bytes written so far.
    pub fn output(&self) -> (out: &Vec<u8>)
        ensures
            out@ == self.written(),
    {
        &self.output
    }

    /// The number of bytes that can still be read.
    pub fn remaining(&self) -> (n: usize)
        ensures
            n == self.unread().len(),
    {
        self.input.len()
    }
}

impl ReadWrite for MemoryStream {
    open spec fn incoming(&self) -> Seq<u8> {
        self.unread()
    }

    open spec fn outgoing(&self) -> Seq<u8> {
        self.written()
    }

    open spec fn accepts_writes(&self) -> bool {
        true
    }

    fn read_exact(&mut self, n: usize) -> (result: Option<Vec<u8>>) {
        if n > self.input.len() {
            self.input.clear();
            return None;
        }
        let mut bytes: Vec<u8> = self.input.split_off(n);
        std::mem::swap(&mut self.input, &mut bytes);
        Some(bytes)
    }

    fn write_all(&mut self, data: &[u8]) -> (ok: bool)
        ensures
            ok,
    {
        self.output.extend_from_slice(data);
        true
    }

    fn flush(&mut self) -> (ok: bool)
        ensures
            ok,
            *final(self) == *old(self),
    {
        true
    }
}

} // verus!
