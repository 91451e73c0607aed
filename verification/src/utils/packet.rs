//! The framed packet codec of the unencrypted phases.
//!
//! On the wire a packet is a 4-byte big-endian packet length, one byte of
//! padding length `P`, the payload, and `P` bytes of padding. The packet
//! length counts the padding-length byte, the payload and the padding.

use vstd::prelude::*;
use crate::error::SshError;
use crate::utils::bytes::{
    decode_length_prefixed, encode_length_prefixed, lemma_length_prefixed_len,
    lemma_read_length_prefixed,
    lemma_length_prefixed_round_trip, lemma_u32_be_round_trip, lemma_u32_from_be_bounds,
    length_prefixed, spec_read_length_prefixed, spec_u32_be, spec_u32_from_be, u32_from_be_bytes,
    u32_to_be_bytes,
};
use crate::utils::io::write_all;
use crate::utils::stream::ReadWrite;

verus! {

/// The payload length up to which a reader accepts every packet that was
/// written: 1 MiB.
pub const MAX_PAYLOAD_LEN: usize = 1_048_576;

/// The largest packet length that a reader accepts: the longest payload, the
/// longest padding and the padding-length byte.
pub const MAX_PACKET_LEN: usize = 1_048_585;

/// The longest payload that can be written: with its padding and the
/// padding-length byte it must fit the 32 bits of the packet length.
pub const MAX_WRITTEN_PAYLOAD_LEN: usize = 4_294_967_286;

/// The padding that a payload of the given length gets: between 1 and 8
/// bytes, so that payload and padding together are a multiple of 8.
pub open spec fn padding_len(payload_len: nat) -> nat {
    (8 - payload_len % 8) as nat
}

/// The wire form of a packet with the given payload. The padding is zero.
pub open spec fn frame(payload: Seq<u8>) -> Seq<u8>
    recommends
        payload.len() <= MAX_WRITTEN_PAYLOAD_LEN,
{
    let pad = padding_len(payload.len());
    spec_u32_be((payload.len() + pad + 1) as u32) + seq![pad as u8] + payload + Seq::new(
        pad,
        |i: int| 0u8,
    )
}

/// What reading one packet from `wire` gives: the payload and the number of
/// bytes consumed. Reading fails when `wire` ends too early, when the packet
/// length is smaller than the padding length plus one, and when the packet
/// length is over `MAX_PACKET_LEN`. The padding bytes are not examined.
pub open spec fn spec_read_frame(wire: Seq<u8>) -> Result<(Seq<u8>, int), SshError> {
    if wire.len() < 5 {
        Err(SshError::MalformedFrame)
    } else {
        let packet_len = spec_u32_from_be(wire);
        let pad = wire[4] as int;
        if packet_len < pad + 1 || packet_len > MAX_PACKET_LEN || wire.len() < 4 + packet_len {
            Err(SshError::MalformedFrame)
        } else {
            Ok((wire.subrange(5, 4 + packet_len - pad), 4 + packet_len))
        }
    }
}

/// What is left of `wire` after one packet was read from it, or after the
/// attempt. A packet that was read is consumed whole. A packet length that
/// is refused leaves what follows the first five bytes. A read that falls
/// short ends the input.
pub open spec fn spec_after_read_frame(wire: Seq<u8>) -> Seq<u8> {
    if wire.len() < 5 {
        Seq::empty()
    } else {
        let packet_len = spec_u32_from_be(wire);
        let pad = wire[4] as int;
        if packet_len < pad + 1 || packet_len > MAX_PACKET_LEN {
            wire.skip(5)
        } else if wire.len() < 4 + packet_len {
            Seq::empty()
        } else {
            wire.skip(4 + packet_len)
        }
    }
}

/// The length of a frame: prefix, padding-length byte, payload and padding.
/// Payload and padding together are a multiple of 8, so the frame is 5 more
/// than a multiple of 8.
pub proof fn lemma_frame_len(payload: Seq<u8>)
    requires
        payload.len() <= MAX_WRITTEN_PAYLOAD_LEN,
    ensures
        1 <= padding_len(payload.len()) <= 8,
        (payload.len() + padding_len(payload.len())) % 8 == 0,
        frame(payload).len() == 5 + payload.len() + padding_len(payload.len()),
        frame(payload).len() % 8 == 5,
{
    lemma_u32_be_round_trip(
        (payload.len() + padding_len(payload.len()) + 1) as u32,
        Seq::empty(),
    );
}

/// Reading a written packet gives its payload back and consumes exactly the
/// frame, whatever follows it on the wire. This holds for every payload
/// up to `MAX_PAYLOAD_LEN`; a longer one may exceed the packet length that
/// a reader accepts.
pub proof fn lemma_frame_round_trip(payload: Seq<u8>, rest: Seq<u8>)
    requires
        payload.len() <= MAX_PAYLOAD_LEN,
    ensures
        spec_read_frame(frame(payload) + rest) == Ok::<_, SshError>(
            (payload, frame(payload).len() as int),
        ),
        spec_after_read_frame(frame(payload) + rest) == rest,
{
    let pad = padding_len(payload.len());
    let packet_len = (payload.len() + pad + 1) as u32;
    let wire = frame(payload) + rest;
    let after = seq![pad as u8] + payload + Seq::new(pad, |i: int| 0u8) + rest;
    lemma_frame_len(payload);
    lemma_u32_be_round_trip(packet_len, after);
    assert(wire == spec_u32_be(packet_len) + after);
    assert(wire[4] == pad as u8);
    assert(wire.subrange(5, 4 + packet_len - pad) =~= payload);
    assert(wire.skip(4 + packet_len) =~= rest);
}

/// An unencrypted packet: a payload of bytes.
#[derive(Clone, Debug, PartialEq, Eq)]
pub struct Packet {
    pub payload: Vec<u8>,
}

impl Packet {
    /// A packet with the given payload.
    pub fn new(payload: Vec<u8>) -> (packet: Packet)
        ensures
            packet.payload == payload,
    {
        Packet { payload }
    }

    /// The wire form of the packet. Only a payload over
    /// `MAX_WRITTEN_PAYLOAD_LEN` has none: its packet length does not fit
    /// the four bytes of the prefix.
    pub fn encode(&self) -> (result: Result<Vec<u8>, SshError>)
        ensures
            match result {
                Ok(wire) => self.payload@.len() <= MAX_WRITTEN_PAYLOAD_LEN && wire@ == frame(
                    self.payload@,
                ),
                Err(e) => self.payload@.len() > MAX_WRITTEN_PAYLOAD_LEN && e
                    == SshError::MalformedFrame,
            },
    {
        let len: usize = self.payload.len();
        if len > MAX_WRITTEN_PAYLOAD_LEN {
            return Err(SshError::MalformedFrame);
        }
        let pad: usize = 8 - len % 8;
        let prefix: [u8; 4] = u32_to_be_bytes((len + pad + 1) as u32);
        let mut wire: Vec<u8> = Vec::new();
        wire.extend_from_slice(&prefix);
        wire.push(pad as u8);
        wire.extend_from_slice(self.payload.as_slice());
        let mut i: usize = 0;
        while i < pad
            invariant
                i <= pad,
                wire@ == spec_u32_be((len + pad + 1) as u32) + seq![pad as u8] + self.payload@
                    + Seq::new(i as nat, |j: int| 0u8),
            decreases pad - i,
        {
            wire.push(0u8);
            i = i + 1;
            assert(wire@ == spec_u32_be((len + pad + 1) as u32) + seq![pad as u8] + self.payload@
                + Seq::new(i as nat, |j: int| 0u8));
        }
        Ok(wire)
    }

    /// Reads one packet: the packet length, the padding length, the payload,
    /// and the padding, which is discarded.
    pub fn read<R: ReadWrite>(reader: &mut R) -> (result: Result<Packet, SshError>)
        ensures
            final(reader).outgoing() == old(reader).outgoing(),
            final(reader).accepts_writes() == old(reader).accepts_writes(),
            final(reader).incoming() == spec_after_read_frame(old(reader).incoming()),
            match result {
                Ok(packet) => {
                    &&& spec_read_frame(old(reader).incoming()) matches Ok((payload, consumed))
                    &&& packet.payload@ == payload
                    &&& final(reader).incoming() == old(reader).incoming().skip(consumed)
                },
                Err(e) => e == SshError::MalformedFrame && spec_read_frame(
                    old(reader).incoming(),
                ) is Err,
            },
            old(reader).incoming().len() >= 5 && spec_u32_from_be(old(reader).incoming()) < old(
                reader,
            ).incoming()[4] + 1 ==> result == Err::<Packet, _>(SshError::MalformedFrame),
    {
        let ghost wire = reader.incoming();
        let prefix: Vec<u8> = match reader.read_exact(4) {
            Some(bytes) => bytes,
            None => {
                return Err(SshError::MalformedFrame);
            },
        };
        let packet_len: usize = u32_from_be_bytes(prefix.as_slice()) as usize;
        let pad_byte: Vec<u8> = match reader.read_exact(1) {
            Some(bytes) => bytes,
            None => {
                return Err(SshError::MalformedFrame);
            },
        };
        let pad: usize = pad_byte[0] as usize;
        assert(packet_len == spec_u32_from_be(wire)) by {
            assert(prefix@.take(4) == wire.take(4));
            lemma_u32_from_be_bounds(prefix@, wire);
        }
        assert(pad == wire[4]);
        if packet_len < pad + 1 || packet_len > MAX_PACKET_LEN {
            return Err(SshError::MalformedFrame);
        }
        assert(reader.incoming() == wire.skip(5));
        let payload: Vec<u8> = match reader.read_exact(packet_len - pad - 1) {
            Some(bytes) => bytes,
            None => {
                return Err(SshError::MalformedFrame);
            },
        };
        assert(payload@ == wire.subrange(5, 4 + packet_len - pad));
        assert(reader.incoming() == wire.skip(4 + packet_len - pad));
        match reader.read_exact(pad) {
            Some(_) => {},
            None => {
                return Err(SshError::MalformedFrame);
            },
        }
        assert(reader.incoming() == wire.skip(4 + packet_len));
        Ok(Packet { payload })
    }

    /// Writes the packet in its wire form, then flushes.
    ///
    /// A payload over `MAX_WRITTEN_PAYLOAD_LEN` is refused before anything
    /// is written. Every other payload is written, unless the transport
    /// refuses.
    pub fn write<W: ReadWrite>(&self, writer: &mut W) -> (result: Result<(), SshError>)
        ensures
            final(writer).incoming() == old(writer).incoming(),
            final(writer).accepts_writes() == old(writer).accepts_writes(),
            if self.payload@.len() > MAX_WRITTEN_PAYLOAD_LEN {
                &&& result == Err::<(), _>(SshError::MalformedFrame)
                &&& final(writer).outgoing() == old(writer).outgoing()
            } else {
                match result {
                    Ok(()) => result == Ok::<(), SshError>(()) && final(writer).outgoing()
                        == old(writer).outgoing() + frame(self.payload@),
                    Err(e) => e == SshError::WriteFailed && !old(writer).accepts_writes(),
                }
            },
    {
        let wire: Vec<u8> = self.encode()?;
        write_all(writer, wire.as_slice())
    }
}

/// The field length up to which a reader accepts every field packet that
/// was written.
pub const MAX_FIELD_LEN: usize = 1_048_572;

/// The longest field that can be written as the payload of one packet.
pub const MAX_WRITTEN_FIELD_LEN: usize = 4_294_967_282;

/// The wire form of a packet whose payload is one length-prefixed field.
pub open spec fn field_frame(data: Seq<u8>) -> Seq<u8>
    recommends
        data.len() <= MAX_WRITTEN_FIELD_LEN,
{
    frame(length_prefixed(data))
}

/// What reading one packet from `wire` and the field at the start of its
/// payload gives: the field and the number of bytes that the packet takes.
pub open spec fn spec_read_field(wire: Seq<u8>) -> Result<(Seq<u8>, int), SshError> {
    match spec_read_frame(wire) {
        Ok((payload, consumed)) => match spec_read_length_prefixed(payload) {
            Some(field) => Ok((field, consumed)),
            None => Err(SshError::MalformedFrame),
        },
        Err(e) => Err(e),
    }
}

/// The length of a field packet: 9 bytes of framing and at most 8 of
/// padding around the field.
pub proof fn lemma_field_frame_len(data: Seq<u8>)
    requires
        data.len() <= MAX_WRITTEN_FIELD_LEN,
    ensures
        field_frame(data).len() == 9 + data.len() + padding_len(4 + data.len()),
        field_frame(data).len() > 0,
{
    lemma_length_prefixed_len(data);
    lemma_frame_len(length_prefixed(data));
}

/// Reading a written field packet gives the field back and consumes
/// exactly the packet, whatever follows it on the wire. This holds for
/// every field up to `MAX_FIELD_LEN`.
pub proof fn lemma_field_round_trip(data: Seq<u8>, rest: Seq<u8>)
    requires
        data.len() <= MAX_FIELD_LEN,
    ensures
        spec_read_field(field_frame(data) + rest) == Ok::<_, SshError>(
            (data, field_frame(data).len() as int),
        ),
        spec_after_read_frame(field_frame(data) + rest) == rest,
{
    lemma_length_prefixed_len(data);
    lemma_frame_round_trip(length_prefixed(data), rest);
    assert(length_prefixed(data) + Seq::<u8>::empty() == length_prefixed(data));
    lemma_length_prefixed_round_trip(data, Seq::empty());
}

/// A field that was read came in a packet that the reader accepts, so it
/// is shorter than the longest packet length.
pub proof fn lemma_read_field_len(wire: Seq<u8>)
    ensures
        spec_read_field(wire) matches Ok((field, _)) ==> field.len() + 5 <= MAX_PACKET_LEN,
{
    if let Ok((payload, _)) = spec_read_frame(wire) {
        lemma_read_length_prefixed(payload);
    }
}

/// Reads one packet and the length-prefixed field that its payload starts
/// with.
pub fn read_field<R: ReadWrite>(reader: &mut R) -> (result: Result<Vec<u8>, SshError>)
    ensures
        final(reader).outgoing() == old(reader).outgoing(),
        final(reader).accepts_writes() == old(reader).accepts_writes(),
        final(reader).incoming() == spec_after_read_frame(old(reader).incoming()),
        match result {
            Ok(field) => {
                &&& spec_read_field(old(reader).incoming()) matches Ok((data, consumed))
                &&& field@ == data
                &&& final(reader).incoming() == old(reader).incoming().skip(consumed)
            },
            Err(e) => e == SshError::MalformedFrame && spec_read_field(old(reader).incoming())
                is Err,
        },
{
    let packet: Packet = Packet::read(reader)?;
    match decode_length_prefixed(packet.payload.as_slice()) {
        Some(field) => Ok(field),
        None => Err(SshError::MalformedFrame),
    }
}

/// Writes `data` as the length-prefixed payload of one packet.
///
/// A field over `MAX_WRITTEN_FIELD_LEN` fits no packet and is refused
/// before anything is written. Every other field is written, unless the
/// transport refuses.
pub fn write_field<W: ReadWrite>(writer: &mut W, data: &[u8]) -> (result: Result<(), SshError>)
    ensures
        final(writer).incoming() == old(writer).incoming(),
        final(writer).accepts_writes() == old(writer).accepts_writes(),
        if data@.len() > MAX_WRITTEN_FIELD_LEN {
            &&& result == Err::<(), _>(SshError::MalformedFrame)
            &&& final(writer).outgoing() == old(writer).outgoing()
        } else {
            match result {
                Ok(()) => result == Ok::<(), SshError>(()) && final(writer).outgoing() == old(
                    writer,
                ).outgoing() + field_frame(data@),
                Err(e) => e == SshError::WriteFailed && !old(writer).accepts_writes(),
            }
        },
{
    if data.len() > MAX_WRITTEN_FIELD_LEN {
        return Err(SshError::MalformedFrame);
    }
    proof {
        lemma_length_prefixed_len(data@);
    }
    match encode_length_prefixed(data) {
        Some(payload) => Packet::new(payload).write(writer),
        None => Err(SshError::MalformedFrame),
    }
}

} // verus!
