//! Checksummed frames, and the choice between them and plain frames.

use vstd::prelude::*;

use crate::checksum::{checksum, crc32c};
use crate::packet::{
    code_in, encodable, layout, parse, seq_num_in, view_of, CorruptedPacket, Packet, PacketType,
    PacketView, SeqNum,
};
use crate::wire::{le_bytes, le_value, read_le, splice, write_le};
use crate::{CRC_BYTES, MAX_PAYLOAD_SIZE, MSS};

verus! {

/// The bytes of a checksummed frame: the CRC-32C of the packet's layout, least
/// significant byte first, and the layout.
pub open spec fn checked_frame(p: PacketView) -> Seq<u8> {
    le_bytes(crc32c(layout(p))) + layout(p)
}

/// The part of a checksummed frame that the checksum covers.
pub open spec fn body(bytes: Seq<u8>) -> Seq<u8> {
    bytes.skip(CRC_BYTES as int)
}

/// A `Data` packet starts the part of a frame that the checksum covers.
pub open spec fn claims_data(bytes: Seq<u8>) -> bool {
    bytes.len() > CRC_BYTES && code_in(body(bytes)) == PacketType::Data.code()
}

/// What a checksummed frame gives when `computed` is the checksum of its body: the packet
/// if the checksums agree, otherwise no packet, but for `Data` the number of the packet
/// to ask for again.
pub open spec fn checked_parse(bytes: Seq<u8>, computed: u32) -> Result<
    Option<PacketView>,
    CorruptedPacket,
> {
    if computed == le_value(bytes) {
        Ok(parse(body(bytes)))
    } else if claims_data(bytes) {
        Err(CorruptedPacket(seq_num_in(body(bytes))))
    } else {
        Ok(None)
    }
}

/// The frame holds a checksum and, if it is a `Data` packet that fails it, a sequence number.
pub open spec fn checkable(bytes: Seq<u8>, computed: u32) -> bool {
    &&& bytes.len() >= CRC_BYTES
    &&& computed != le_value(bytes) && claims_data(bytes) ==> bytes.len() >= CRC_BYTES + 4
}

/// What the result of reading a frame says.
pub open spec fn outcome(r: Result<Option<Packet>, CorruptedPacket>) -> Result<
    Option<PacketView>,
    CorruptedPacket,
> {
    match r {
        Ok(p) => Ok(view_of(p)),
        Err(e) => Err(e),
    }
}

/// Writes `checksum` to the front of a frame.
pub fn put_checksum(checksum: u32, buf: &mut [u8; MSS])
    ensures
        final(buf)@ == splice(old(buf)@, 0, le_bytes(checksum)),
{
    let frame: &mut [u8] = buf;
    write_le(frame, 0, checksum);
}

impl<'a> Packet<'a> {
    /// Writes this packet and its checksum to the front of `buf` and gives the length of
    /// the frame.
    pub fn serialize_checked(&self, buf: &mut [u8; MSS]) -> (len: usize)
        requires
            encodable(self@, MSS - CRC_BYTES),
        ensures
            len == CRC_BYTES + layout(self@).len(),
            final(buf)@ == splice(old(buf)@, 0, checked_frame(self@)),
    {
        let ghost before = buf@;
        let frame: &mut [u8] = buf;
        let (_, rest) = frame.split_at_mut(CRC_BYTES);
        let len: usize = self.write_layout(rest);
        let written: &[u8] = buf;
        let covered = vstd::slice::slice_subrange(written, CRC_BYTES, CRC_BYTES + len);
        assert(covered@ =~= layout(self@));
        let c: u32 = checksum(covered);
        put_checksum(c, buf);
        assert(buf@ =~= splice(before, 0, checked_frame(self@)));
        CRC_BYTES + len
    }

    /// Reads a checksummed frame whose body has the checksum `computed`.
    pub fn deserialize_against(bytes: &'a [u8], computed: u32) -> (r: Result<
        Option<Packet<'a>>,
        CorruptedPacket,
    >)
        requires
            checkable(bytes@, computed),
        ensures
            outcome(r) == checked_parse(bytes@, computed),
    {
        assert(bytes@.skip(0) =~= bytes@);
        let covered = vstd::slice::slice_subrange(bytes, CRC_BYTES, bytes.len());
        assert(covered@ =~= body(bytes@));
        if computed != read_le(bytes, 0) {
            if covered.len() == 0 || covered[0] / 16 * 16 != PacketType::Data.discriminant() {
                return Ok(None);
            }
            return match Self::decode_sequence(covered) {
                Some(s) => Err(CorruptedPacket(s)),
                None => Ok(None),
            };
        }
        Ok(Self::deserialize_inner(covered))
    }

    /// Reads a checksummed frame.
    pub fn deserialize_checked(bytes: &'a [u8]) -> (r: Result<Option<Packet<'a>>, CorruptedPacket>)
        requires
            checkable(bytes@, crc32c(body(bytes@))),
        ensures
            outcome(r) == checked_parse(bytes@, crc32c(body(bytes@))),
    {
        let covered = vstd::slice::slice_subrange(bytes, CRC_BYTES, bytes.len());
        assert(covered@ =~= body(bytes@));
        let computed: u32 = checksum(covered);
        Self::deserialize_against(bytes, computed)
    }
}

/// Why a frame gave no answer to what it holds.
#[derive(Debug, Clone, Copy, PartialEq, Eq, Structural)]
pub enum FrameError {
    /// Too short for its checksum, or for the sequence number of a `Data` packet that
    /// fails its checksum.
    Malformed,
    /// The checksum of this `Data` packet does not match.
    Corrupted(SeqNum),
}

/// The kind of frame that two hosts agree on.
#[derive(Debug, Clone, Copy, PartialEq, Eq, Structural)]
pub struct Codec {
    /// Frames carry a checksum.
    pub checksums: bool,
}

impl Codec {
    /// Bytes of a datagram that are left to the layout of a packet.
    pub open spec fn room(self) -> int {
        if self.checksums {
            MSS - CRC_BYTES
        } else {
            MSS as int
        }
    }

    /// The frame of a packet.
    pub open spec fn frame(self, p: PacketView) -> Seq<u8> {
        if self.checksums {
            checked_frame(p)
        } else {
            layout(p)
        }
    }

    /// What a frame holds.
    pub open spec fn read(self, bytes: Seq<u8>) -> Result<Option<PacketView>, FrameError> {
        if !self.checksums {
            Ok(parse(bytes))
        } else if !checkable(bytes, crc32c(body(bytes))) {
            Err(FrameError::Malformed)
        } else {
            match checked_parse(bytes, crc32c(body(bytes))) {
                Ok(p) => Ok(p),
                Err(CorruptedPacket(s)) => Err(FrameError::Corrupted(s)),
            }
        }
    }

    /// Largest number of message bytes that a `Data` packet can carry in such a frame.
    pub fn max_payload_size(&self) -> (n: u16)
        ensures
            n == self.room() - 4,
            self.checksums ==> n == 1464,
            !self.checksums ==> n == 1468,
    {
        if self.checksums {
            MAX_PAYLOAD_SIZE - CRC_BYTES as u16
        } else {
            MAX_PAYLOAD_SIZE
        }
    }

    /// Writes a packet to the front of `buf` and gives the length of its frame.
    pub fn encode(&self, packet: &Packet, buf: &mut [u8; MSS]) -> (len: usize)
        requires
            encodable(packet@, self.room()),
        ensures
            len == self.frame(packet@).len(),
            final(buf)@ == splice(old(buf)@, 0, self.frame(packet@)),
    {
        if self.checksums {
            packet.serialize_checked(buf)
        } else {
            packet.serialize(buf)
        }
    }

    /// Reads a frame.
    pub fn decode<'a>(&self, bytes: &'a [u8]) -> (r: Result<Option<Packet<'a>>, FrameError>)
        ensures
            (match r {
                Ok(p) => Ok::<Option<PacketView>, FrameError>(view_of(p)),
                Err(e) => Err(e),
            }) == self.read(bytes@),
    {
        if !self.checksums {
            return Ok(Packet::deserialize_inner(bytes));
        }
        if bytes.len() < CRC_BYTES {
            return Err(FrameError::Malformed);
        }
        assert(bytes@.skip(0) =~= bytes@);
        let covered = vstd::slice::slice_subrange(bytes, CRC_BYTES, bytes.len());
        assert(covered@ =~= body(bytes@));
        if 0 < covered.len() && covered.len() < 4 && covered[0] / 16 * 16
            == PacketType::Data.discriminant() && checksum(covered) != read_le(bytes, 0) {
            return Err(FrameError::Malformed);
        }
        match Packet::deserialize_checked(bytes) {
            Ok(p) => Ok(p),
            Err(e) => Err(FrameError::Corrupted(e.0)),
        }
    }
}

} // verus!
