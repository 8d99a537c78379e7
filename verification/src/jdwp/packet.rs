//! Framing: the header that every packet starts with, and whole packets as bytes.

use super::bytes::{
    be_bytes, be_value, lemma_be_bytes_len, lemma_be_value_bound, lemma_decode_encode,
    lemma_pow256_values, pow256,
};
use super::codec::{read_be, write_be, write_bytes};
use crate::Error;
use vstd::prelude::*;
use vstd::slice::{slice_subrange, slice_to_vec};

verus! {

/// The number of bytes in a packet header.
pub const HEADER_LEN: u32 = 11;

/// The flag that marks a packet as a reply.
pub const REPLY_FLAG: u8 = 0x80;

/// The fixed part at the start of each packet.
#[derive(Clone, Copy, Debug, PartialEq, Eq, Structural)]
pub struct Header {
    /// The length of the whole packet, header included.
    pub len: u32,
    /// The request that the packet makes or answers.
    pub id: u32,
    /// `0x80` is set on a reply.
    pub flags: u8,
    /// The first byte after the flags: the command set of a command packet, the high
    /// byte of the error code of a reply.
    pub hi: u8,
    /// The second byte after the flags: the command of a command packet, the low byte
    /// of the error code of a reply.
    pub lo: u8,
}

/// The eleven bytes of a header.
pub open spec fn header_bytes(h: Header) -> Seq<u8> {
    be_bytes(h.len as nat, 4) + be_bytes(h.id as nat, 4) + seq![h.flags, h.hi, h.lo]
}

/// The header that the first eleven bytes of `input` spell.
pub open spec fn parse_header(input: Seq<u8>) -> Header
    recommends
        input.len() >= 11,
{
    Header {
        len: be_value(input.subrange(0, 4)) as u32,
        id: be_value(input.subrange(4, 8)) as u32,
        flags: input[8],
        hi: input[9],
        lo: input[10],
    }
}

/// What reading a header from the front of `input` gives.
pub open spec fn take_header(input: Seq<u8>) -> Result<(Header, Seq<u8>), Error> {
    if input.len() < 11 {
        Err(Error::TransportFailure)
    } else if parse_header(input).len < 11 {
        Err(Error::MalformedPacket)
    } else {
        Ok((parse_header(input), input.skip(11)))
    }
}

impl Header {
    /// Whether the header announces a reply.
    pub open spec fn is_reply(self) -> bool {
        self.flags & 0x80 != 0
    }

    /// The number of payload bytes that follow the header.
    pub open spec fn payload_len(self) -> nat
        recommends
            self.len >= 11,
    {
        (self.len - 11) as nat
    }

    /// Reads a header from the front of `reader` and moves `reader` past it.
    /// Fewer than eleven bytes are a `TransportFailure`; a declared length below
    /// eleven is a `MalformedPacket`. Either way `reader` stays where it was.
    pub fn read<'a>(reader: &mut &'a [u8]) -> (r: Result<Header, Error>)
        ensures
            match take_header(old(reader)@) {
                Ok((h, rest)) => r == Ok::<Header, Error>(h) && final(reader)@ == rest,
                Err(e) => r == Err::<Header, Error>(e) && final(reader)@ == old(reader)@,
            },
    {
        let start: &'a [u8] = *reader;
        if start.len() < HEADER_LEN as usize {
            return Err(Error::TransportFailure);
        }
        proof {
            assert(start@.skip(4).take(4) =~= start@.subrange(4, 8));
        }
        let len = match read_be(reader, 4) {
            Ok(v) => v as u32,
            Err(_) => {
                return Err(Error::TransportFailure);
            },
        };
        let id = match read_be(reader, 4) {
            Ok(v) => v as u32,
            Err(_) => {
                *reader = start;
                return Err(Error::TransportFailure);
            },
        };
        let rest: &'a [u8] = *reader;
        let flags = rest[0];
        let hi = rest[1];
        let lo = rest[2];
        if len < HEADER_LEN {
            *reader = start;
            return Err(Error::MalformedPacket);
        }
        *reader = slice_subrange(rest, 3, rest.len());
        Ok(Header { len, id, flags, hi, lo })
    }

    /// Appends the eleven bytes of the header to `writer`.
    pub fn write(&self, writer: &mut Vec<u8>)
        ensures
            final(writer)@ == old(writer)@ + header_bytes(*self),
    {
        write_be(writer, self.len as u64, 4);
        write_be(writer, self.id as u64, 4);
        writer.push(self.flags);
        writer.push(self.hi);
        writer.push(self.lo);
    }
}

/// One unit of traffic: a command, or the reply to one.
#[derive(Debug, PartialEq, Eq)]
pub enum Packet {
    Command { id: u32, set: u8, cmd: u8, data: Vec<u8> },
    Reply { id: u32, error: u16, data: Vec<u8> },
}

/// A packet as a mathematical value: the payload is a sequence of bytes.
pub enum PacketView {
    Command { id: u32, set: u8, cmd: u8, data: Seq<u8> },
    Reply { id: u32, error: u16, data: Seq<u8> },
}

impl View for Packet {
    type V = PacketView;

    open spec fn view(&self) -> PacketView {
        match self {
            Packet::Command { id, set, cmd, data } => PacketView::Command {
                id: *id,
                set: *set,
                cmd: *cmd,
                data: data@,
            },
            Packet::Reply { id, error, data } => PacketView::Reply {
                id: *id,
                error: *error,
                data: data@,
            },
        }
    }
}

impl Clone for Packet {
    fn clone(&self) -> (copy: Packet)
        ensures
            copy@ == self@,
    {
        match self {
            Packet::Command { id, set, cmd, data } => Packet::Command {
                id: *id,
                set: *set,
                cmd: *cmd,
                data: data.clone(),
            },
            Packet::Reply { id, error, data } => Packet::Reply {
                id: *id,
                error: *error,
                data: data.clone(),
            },
        }
    }
}

/// The length that a packet with `payload_len` bytes of payload declares: the payload
/// and the header together, as far as four bytes can say it.
pub open spec fn declared_len(payload_len: nat) -> u32 {
    ((payload_len + 11) % 0x1_0000_0000) as u32
}

impl PacketView {
    /// The request that the packet makes or answers.
    pub open spec fn id(self) -> u32 {
        match self {
            PacketView::Command { id, .. } => id,
            PacketView::Reply { id, .. } => id,
        }
    }

    /// The payload.
    pub open spec fn data(self) -> Seq<u8> {
        match self {
            PacketView::Command { data, .. } => data,
            PacketView::Reply { data, .. } => data,
        }
    }

    /// The header that goes in front of the payload.
    pub open spec fn header(self) -> Header {
        match self {
            PacketView::Command { id, set, cmd, data } => Header {
                len: declared_len(data.len()),
                id,
                flags: 0,
                hi: set,
                lo: cmd,
            },
            PacketView::Reply { id, error, data } => Header {
                len: declared_len(data.len()),
                id,
                flags: 0x80,
                hi: (error / 256) as u8,
                lo: (error % 256) as u8,
            },
        }
    }

    /// The packet on the wire: header, then payload.
    pub open spec fn frame(self) -> Seq<u8> {
        header_bytes(self.header()) + self.data()
    }

    /// The packet that a header and the payload after it make up.
    pub open spec fn assemble(h: Header, data: Seq<u8>) -> PacketView {
        if h.is_reply() {
            PacketView::Reply { id: h.id, error: (h.hi * 256 + h.lo) as u16, data }
        } else {
            PacketView::Command { id: h.id, set: h.hi, cmd: h.lo, data }
        }
    }

    /// Whether the length of the packet, header included, fits the four bytes
    /// that declare it.
    pub open spec fn fits_wire(self) -> bool {
        self.data().len() + 11 <= u32::MAX
    }
}

/// What reading a packet from the front of `input` gives: the packet and the input
/// after it. The payload is not interpreted.
pub open spec fn take_packet(input: Seq<u8>) -> Result<(PacketView, Seq<u8>), Error> {
    match take_header(input) {
        Err(e) => Err(e),
        Ok((h, rest)) => {
            if rest.len() < h.payload_len() {
                Err(Error::TransportFailure)
            } else {
                Ok(
                    (
                        PacketView::assemble(h, rest.take(h.payload_len() as int)),
                        rest.skip(h.payload_len() as int),
                    ),
                )
            }
        },
    }
}

impl Packet {
    /// Appends the packet to `writer`: the header, then the payload untouched.
    pub fn write(&self, writer: &mut Vec<u8>)
        ensures
            final(writer)@ == old(writer)@ + self@.frame(),
    {
        match self {
            Packet::Command { id, set, cmd, data } => {
                let header = Header {
                    len: wire_len(data.len()),
                    id: *id,
                    flags: 0,
                    hi: *set,
                    lo: *cmd,
                };
                header.write(writer);
                write_bytes(writer, data.as_slice());
            },
            Packet::Reply { id, error, data } => {
                let header = Header {
                    len: wire_len(data.len()),
                    id: *id,
                    flags: REPLY_FLAG,
                    hi: (*error / 256) as u8,
                    lo: (*error % 256) as u8,
                };
                header.write(writer);
                write_bytes(writer, data.as_slice());
            },
        }
    }

    /// Reads one packet from the front of `reader` and moves `reader` past it.
    /// An input that ends inside the packet is a `TransportFailure`, a declared
    /// length below eleven a `MalformedPacket`; either way `reader` stays where it was.
    pub fn read<'a>(reader: &mut &'a [u8]) -> (r: Result<Packet, Error>)
        ensures
            match take_packet(old(reader)@) {
                Ok((packet, rest)) => r is Ok && r->Ok_0@ == packet && final(reader)@ == rest,
                Err(e) => r == Err::<Packet, Error>(e) && final(reader)@ == old(reader)@,
            },
            r matches Ok(packet) ==> packet@.fits_wire(),
    {
        let start: &'a [u8] = *reader;
        let header = match Header::read(reader) {
            Ok(h) => h,
            Err(e) => {
                return Err(e);
            },
        };
        let datalen: usize = (header.len - HEADER_LEN) as usize;
        let rest: &'a [u8] = *reader;
        if rest.len() < datalen {
            *reader = start;
            return Err(Error::TransportFailure);
        }
        let data = slice_to_vec(slice_subrange(rest, 0, datalen));
        *reader = slice_subrange(rest, datalen, rest.len());
        if (header.flags & REPLY_FLAG) != 0u8 {
            Ok(
                Packet::Reply {
                    id: header.id,
                    error: (header.hi as u16) * 256 + header.lo as u16,
                    data,
                },
            )
        } else {
            Ok(Packet::Command { id: header.id, set: header.hi, cmd: header.lo, data })
        }
    }
}

/// The length field for a payload of `payload_len` bytes.
fn wire_len(payload_len: usize) -> (len: u32)
    ensures
        len == declared_len(payload_len as nat),
{
    let low: u64 = (payload_len as u64) % 0x1_0000_0000;
    ((low + HEADER_LEN as u64) % 0x1_0000_0000) as u32
}

/// A header has eleven bytes.
pub proof fn lemma_header_len(h: Header)
    ensures
        header_bytes(h).len() == 11,
{
    lemma_be_bytes_len(h.len as nat, 4);
    lemma_be_bytes_len(h.id as nat, 4);
}

/// The bytes of a header, whatever follows them, spell that header again.
pub proof fn lemma_parse_header_of_written(h: Header, rest: Seq<u8>)
    ensures
        parse_header(header_bytes(h) + rest) == h,
        (header_bytes(h) + rest).skip(11) == rest,
{
    let input = header_bytes(h) + rest;
    lemma_be_bytes_len(h.len as nat, 4);
    lemma_be_bytes_len(h.id as nat, 4);
    lemma_pow256_values();
    assert(input.subrange(0, 4) =~= be_bytes(h.len as nat, 4));
    assert(input.subrange(4, 8) =~= be_bytes(h.id as nat, 4));
    lemma_decode_encode(h.len as nat, 4);
    lemma_decode_encode(h.id as nat, 4);
}

/// A header that was written is read back, provided that it declares a length which a
/// packet can have.
pub proof fn lemma_header_round_trip(h: Header, rest: Seq<u8>)
    requires
        h.len >= 11,
    ensures
        take_header(header_bytes(h) + rest) == Ok::<(Header, Seq<u8>), Error>((h, rest)),
{
    lemma_header_len(h);
    lemma_parse_header_of_written(h, rest);
}

/// On the wire a packet is eleven bytes longer than its payload.
pub proof fn lemma_frame_len(packet: PacketView)
    ensures
        packet.frame().len() == packet.data().len() + 11,
{
    lemma_header_len(packet.header());
}

/// The length that a packet declares in its first four bytes is the length of its
/// payload plus the eleven bytes of the header, for every packet whose length four
/// bytes can hold.
pub proof fn lemma_declared_length(packet: PacketView)
    requires
        packet.fits_wire(),
    ensures
        packet.header().len == packet.data().len() + 11,
        be_value(packet.frame().subrange(0, 4)) == packet.data().len() + 11,
        be_value(packet.frame().subrange(0, 4)) == packet.frame().len(),
{
    lemma_frame_len(packet);
    lemma_parse_header_of_written(packet.header(), packet.data());
    lemma_be_value_bound(packet.frame().subrange(0, 4));
    lemma_pow256_values();
}

/// Writing a packet and reading it back gives the same packet, command or reply,
/// with or without payload, and leaves what followed it.
pub proof fn lemma_packet_round_trip(packet: PacketView, rest: Seq<u8>)
    requires
        packet.fits_wire(),
    ensures
        take_packet(packet.frame() + rest) == Ok::<(PacketView, Seq<u8>), Error>((packet, rest)),
{
    let h = packet.header();
    let data = packet.data();
    let input = packet.frame() + rest;
    assert(input =~= header_bytes(h) + (data + rest));
    lemma_header_round_trip(h, data + rest);
    assert((data + rest).take(data.len() as int) =~= data);
    assert((data + rest).skip(data.len() as int) =~= rest);
    assert(0u8 & 0x80 == 0) by (bit_vector);
    assert(0x80u8 & 0x80 != 0) by (bit_vector);
}

/// A packet that is read takes at least the eleven bytes of its header from the input.
pub proof fn lemma_take_packet_moves(input: Seq<u8>)
    ensures
        take_packet(input) matches Ok((packet, rest)) ==> rest.len() + packet.data().len() + 11
            == input.len(),
{
}

/// Framing loses nothing: two packets with the same bytes on the wire are the same
/// packet.
pub proof fn lemma_frame_injective(a: PacketView, b: PacketView)
    requires
        a.fits_wire(),
        b.fits_wire(),
        a.frame() == b.frame(),
    ensures
        a == b,
{
    lemma_packet_round_trip(a, Seq::empty());
    lemma_packet_round_trip(b, Seq::empty());
}

} // verus!
