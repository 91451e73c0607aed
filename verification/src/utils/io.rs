//! Exact reads, CRLF-terminated lines and flushed writes on a transport.

use vstd::prelude::*;
use vstd::utf8::*;
use crate::error::SshError;
use crate::utils::stream::ReadWrite;
use crate::utils::text::string_from_utf8;

verus! {

/// The byte of a carriage return.
pub const CARRIAGE_RETURN: u8 = 13;

/// The byte of a line feed.
pub const LINE_FEED: u8 = 10;

/// Whether a carriage return at `i - 1` and a line feed at `i` end a line.
pub open spec fn crlf_ends_at(bytes: Seq<u8>, i: int) -> bool {
    1 <= i < bytes.len() && bytes[i - 1] == CARRIAGE_RETURN && bytes[i] == LINE_FEED
}

/// The index of the line feed of the first CRLF pair that ends at or after
/// `from`; the length of `bytes` when there is none.
pub open spec fn line_end(bytes: Seq<u8>, from: int) -> int
    decreases bytes.len() - from,
{
    if from < 0 || from >= bytes.len() {
        bytes.len() as int
    } else if crlf_ends_at(bytes, from) {
        from
    } else {
        line_end(bytes, from + 1)
    }
}

/// What reading one line from `bytes` gives: the text before the first CRLF
/// pair and the bytes after the pair.
pub open spec fn spec_read_line(bytes: Seq<u8>) -> Result<(Seq<char>, Seq<u8>), SshError> {
    let end = line_end(bytes, 0);
    if end >= bytes.len() {
        Err(SshError::ShortRead)
    } else if !valid_utf8(bytes.take(end - 1)) {
        Err(SshError::InvalidUtf8)
    } else {
        Ok((decode_utf8(bytes.take(end - 1)), bytes.skip(end + 1)))
    }
}

/// What is left of `bytes` after one line was read from them, or after the
/// attempt: the bytes after the first CRLF pair, and nothing where there
/// is no such pair.
pub open spec fn spec_after_read_line(bytes: Seq<u8>) -> Seq<u8> {
    let end = line_end(bytes, 0);
    if end >= bytes.len() {
        Seq::empty()
    } else {
        bytes.skip(end + 1)
    }
}

/// A line ends at the first CRLF pair: no pair ends before `line_end`, and
/// one ends at it unless it is the length.
pub proof fn lemma_line_end_is_first(bytes: Seq<u8>, from: int)
    requires
        0 <= from,
    ensures
        from <= line_end(bytes, from) || line_end(bytes, from) == bytes.len(),
        line_end(bytes, from) <= bytes.len(),
        line_end(bytes, from) < bytes.len() ==> crlf_ends_at(bytes, line_end(bytes, from)),
        forall|i: int| from <= i < line_end(bytes, from) ==> !crlf_ends_at(bytes, i),
    decreases bytes.len() - from,
{
    if from < bytes.len() && !crlf_ends_at(bytes, from) {
        lemma_line_end_is_first(bytes, from + 1);
    }
}

/// A line that is written with CRLF is read back, whatever follows it:
/// text without a line feed, in UTF-8, then CRLF, reads as that text and
/// leaves what follows.
pub proof fn lemma_line_round_trip(text: Seq<char>, rest: Seq<u8>)
    requires
        forall|i: int| 0 <= i < encode_utf8(text).len() ==> encode_utf8(text)[i] != LINE_FEED,
    ensures
        spec_read_line(encode_utf8(text).push(CARRIAGE_RETURN).push(LINE_FEED) + rest) == Ok::<
            _,
            SshError,
        >((text, rest)),
{
    let bytes = encode_utf8(text);
    let wire = bytes.push(CARRIAGE_RETURN).push(LINE_FEED) + rest;
    let end = line_end(wire, 0);
    let n = bytes.len() as int;
    lemma_line_end_is_first(wire, 0);
    assert(crlf_ends_at(wire, n + 1));
    assert(end == n + 1) by {
        if end < n + 1 {
            assert(crlf_ends_at(wire, end));
            if end < n {
                assert(wire[end] == bytes[end]);
            }
        }
    }
    assert(wire.take(end - 1) == bytes);
    assert(wire.skip(end + 1) == rest);
    encode_utf8_valid_utf8(text);
    encode_utf8_decode_utf8(text);
}

/// Reads exactly `n` bytes. A read that falls short ends the input.
pub fn read_exact<R: ReadWrite>(reader: &mut R, n: usize) -> (result: Result<Vec<u8>, SshError>)
    ensures
        final(reader).outgoing() == old(reader).outgoing(),
        final(reader).accepts_writes() == old(reader).accepts_writes(),
        match result {
            Ok(bytes) => {
                &&& n <= old(reader).incoming().len()
                &&& bytes@ == old(reader).incoming().take(n as int)
                &&& final(reader).incoming() == old(reader).incoming().skip(n as int)
            },
            Err(e) => {
                &&& e == SshError::ShortRead
                &&& n > old(reader).incoming().len()
                &&& final(reader).incoming() == Seq::<u8>::empty()
            },
        },
{
    match reader.read_exact(n) {
        Some(bytes) => Ok(bytes),
        None => Err(SshError::ShortRead),
    }
}

/// Reads one line that ends in CRLF and returns it without the terminator.
///
/// The bytes are consumed one at a time up to and including the first CRLF
/// pair. Without such a pair the read runs into the end of the stream.
pub fn read_line_crlf<R: ReadWrite>(reader: &mut R) -> (result: Result<String, SshError>)
    ensures
        final(reader).outgoing() == old(reader).outgoing(),
        final(reader).accepts_writes() == old(reader).accepts_writes(),
        final(reader).incoming() == spec_after_read_line(old(reader).incoming()),
        match result {
            Ok(line) => spec_read_line(old(reader).incoming()) == Ok::<_, SshError>(
                (line@, final(reader).incoming()),
            ),
            Err(e) => spec_read_line(old(reader).incoming()) == Err::<(Seq<char>, Seq<u8>), _>(e),
        },
{
    let ghost all = reader.incoming();
    let ghost mut consumed: int = 0;
    let mut buf: Vec<u8> = Vec::new();
    let mut prev: Option<u8> = None;
    loop
        invariant
            all == old(reader).incoming(),
            0 <= consumed <= all.len(),
            reader.incoming() == all.skip(consumed),
            reader.outgoing() == old(reader).outgoing(),
            reader.accepts_writes() == old(reader).accepts_writes(),
            buf@ == all.take(consumed),
            prev == (if consumed == 0 {
                None
            } else {
                Some(all[consumed - 1])
            }),
            line_end(all, 0) == line_end(all, consumed),
        decreases reader.incoming().len(),
    {
        match reader.read_exact(1) {
            None => {
                return Err(SshError::ShortRead);
            },
            Some(byte) => {
                let b: u8 = byte[0];
                assert(b == all[consumed]);
                if b == LINE_FEED && prev == Some(CARRIAGE_RETURN) {
                    assert(crlf_ends_at(all, consumed));
                    buf.pop();
                    assert(buf@ == all.take(consumed - 1));
                    assert(reader.incoming() == all.skip(consumed + 1));
                    return match string_from_utf8(buf) {
                        Some(line) => Ok(line),
                        None => Err(SshError::InvalidUtf8),
                    };
                }
                buf.push(b);
                prev = Some(b);
                proof {
                    assert(!crlf_ends_at(all, consumed));
                    assert(buf@ == all.take(consumed + 1));
                    assert(reader.incoming() == all.skip(consumed + 1));
                    consumed = consumed + 1;
                }
            },
        }
    }
}

/// Writes all of `data`, then flushes. It fails only where the transport
/// refuses.
pub fn write_all<W: ReadWrite>(writer: &mut W, data: &[u8]) -> (result: Result<(), SshError>)
    ensures
        final(writer).incoming() == old(writer).incoming(),
        final(writer).accepts_writes() == old(writer).accepts_writes(),
        match result {
            Ok(()) => result == Ok::<(), SshError>(()) && final(writer).outgoing() == old(
                writer,
            ).outgoing() + data@,
            Err(e) => e == SshError::WriteFailed && !old(writer).accepts_writes(),
        },
{
    if !writer.write_all(data) {
        return Err(SshError::WriteFailed);
    }
    if !writer.flush() {
        return Err(SshError::WriteFailed);
    }
    Ok(())
}

} // verus!
