//! Packets and the frames that carry them.
//!
//! A plain frame is the layout of one packet, see [`layout`]. The module `frame`
//! puts a checksum in front of it.

use vstd::prelude::*;
use vstd::utf8::{decode_utf8, encode_utf8, valid_utf8};

use crate::text::text_of;
use crate::wire::{
    be_bytes, be_value, le_bytes, le_value, lemma_first_nul_is, nul_terminated, read_be, read_le,
    splice, write_bytes, write_le, write_zeros, zero_padded,
};
use crate::MSS;

verus! {

/// Sequence numbers take 28 bits of a packet.
pub const SEQ_NUM_LIMIT: u32 = 0x1000_0000;

/// Payload sizes take 11 bits of a packet.
pub const PAYLOAD_SIZE_LIMIT: u16 = 0x800;

/// Bytes of the field that holds the name in an `Init` packet.
pub const NAME_BYTES: usize = 22;

/// Position of a `Data` packet within its transfer.
#[derive(Debug, Clone, Copy, PartialEq, Eq, PartialOrd, Ord, Hash, Structural)]
pub struct SeqNum(pub u32);

impl SeqNum {
    pub fn new(n: u32) -> (s: SeqNum)
        ensures
            s == SeqNum(n),
    {
        SeqNum(n)
    }

    pub fn get(self) -> (n: u32)
        ensures
            n == self.0,
    {
        self.0
    }
}

impl core::ops::AddAssign for SeqNum {
    /// Addition wraps around at the end of the `u32` range.
    fn add_assign(&mut self, rhs: SeqNum)
        ensures
            final(self).0 == (old(self).0 + rhs.0) % 0x1_0000_0000,
    {
        self.0 = self.0.wrapping_add(rhs.0);
    }
}

#[derive(Debug, Clone, PartialEq, Eq)]
pub enum Packet<'a> {
    Conn(ConnPacket),
    Send(SendPacket<'a>),
    Recv(RecvPacket),
}

#[derive(Debug, Copy, Clone, PartialEq, Eq, Structural)]
pub enum ConnPacket {
    Syn,
    SynAck(SeqNum),
    SynAckAck(SeqNum),
    KeepAlive,
    KeepAliveOk,
}

/// Packet that Sender sends to Receiver
#[derive(Debug, Copy, Clone, PartialEq, Eq)]
pub enum SendPacket<'a> {
    Init { payload_size: u16, transfer: u32, name: Option<&'a str> },
    Data { seq_num: SeqNum, data: &'a [u8] },
    Fin,
    FinOkOk,
}

/// Packet that Receiver sends to Sender
#[derive(Debug, Copy, Clone, PartialEq, Eq, Structural)]
pub enum RecvPacket {
    DataAck(SeqNum),
    Nak(SeqNum),
    InitOk,
    FinOk,
}

/// What a [`Packet`] says, free of the memory that it borrows.
pub ghost enum PacketView {
    Conn(ConnPacket),
    Send(SendPacketView),
    Recv(RecvPacket),
}

/// What a [`SendPacket`] says, free of the memory that it borrows.
pub ghost enum SendPacketView {
    Init { payload_size: u16, transfer: u32, name: Option<Seq<char>> },
    Data { seq_num: SeqNum, data: Seq<u8> },
    Fin,
    FinOkOk,
}

impl<'a> View for SendPacket<'a> {
    type V = SendPacketView;

    open spec fn view(&self) -> SendPacketView {
        match *self {
            SendPacket::Init { payload_size, transfer, name } => SendPacketView::Init {
                payload_size,
                transfer,
                name: text_of(name),
            },
            SendPacket::Data { seq_num, data } => SendPacketView::Data { seq_num, data: data@ },
            SendPacket::Fin => SendPacketView::Fin,
            SendPacket::FinOkOk => SendPacketView::FinOkOk,
        }
    }
}

impl<'a> View for Packet<'a> {
    type V = PacketView;

    open spec fn view(&self) -> PacketView {
        match *self {
            Packet::Conn(p) => PacketView::Conn(p),
            Packet::Send(p) => PacketView::Send(p@),
            Packet::Recv(p) => PacketView::Recv(p),
        }
    }
}

/// The type of a packet, which the upper four bits of its first byte tell.
#[derive(Debug, Clone, Copy, PartialEq, Eq, PartialOrd, Ord, Hash, Structural)]
pub enum PacketType {
    Syn,
    SynAck,
    SynAckAck,
    Init,
    Data,
    DataOk,
    Nak,
    KeepAlive,
    InitOk,
    KeepAliveOk,
    Fin,
    FinOk,
    FinOkOk,
}

impl PacketType {
    /// The bits of a packet's first byte that tell its type.
    pub const DISCRIMINANT_MASK: u8 = 0xF0;

    /// The first byte of a packet of this type, its lower four bits left zero.
    pub open spec fn code(self) -> u8 {
        match self {
            PacketType::Syn => 0b0111_0000,
            PacketType::SynAck => 0b1000_0000,
            PacketType::SynAckAck => 0b1011_0000,
            PacketType::Init => 0b0000_0000,
            PacketType::Data => 0b0001_0000,
            PacketType::DataOk => 0b0101_0000,
            PacketType::Nak => 0b0110_0000,
            PacketType::KeepAlive => 0b0010_0000,
            PacketType::InitOk => 0b0011_0000,
            PacketType::KeepAliveOk => 0b0100_0000,
            PacketType::Fin => 0b1001_0000,
            PacketType::FinOk => 0b1010_0000,
            PacketType::FinOkOk => 0b1100_0000,
        }
    }

    /// The byte that [`PacketType::code`] tells.
    pub fn discriminant(self) -> (d: u8)
        ensures
            d == self.code(),
    {
        match self {
            PacketType::Syn => 0b0111_0000,
            PacketType::SynAck => 0b1000_0000,
            PacketType::SynAckAck => 0b1011_0000,
            PacketType::Init => 0b0000_0000,
            PacketType::Data => 0b0001_0000,
            PacketType::DataOk => 0b0101_0000,
            PacketType::Nak => 0b0110_0000,
            PacketType::KeepAlive => 0b0010_0000,
            PacketType::InitOk => 0b0011_0000,
            PacketType::KeepAliveOk => 0b0100_0000,
            PacketType::Fin => 0b1001_0000,
            PacketType::FinOk => 0b1010_0000,
            PacketType::FinOkOk => 0b1100_0000,
        }
    }
}

/// The packet type with the code `value`, if there is one.
pub open spec fn type_of_code(value: u8) -> Option<PacketType> {
    match value {
        0b0111_0000 => Some(PacketType::Syn),
        0b1000_0000 => Some(PacketType::SynAck),
        0b1011_0000 => Some(PacketType::SynAckAck),
        0b0000_0000 => Some(PacketType::Init),
        0b0001_0000 => Some(PacketType::Data),
        0b0101_0000 => Some(PacketType::DataOk),
        0b0110_0000 => Some(PacketType::Nak),
        0b0010_0000 => Some(PacketType::KeepAlive),
        0b0011_0000 => Some(PacketType::InitOk),
        0b0100_0000 => Some(PacketType::KeepAliveOk),
        0b1001_0000 => Some(PacketType::Fin),
        0b1010_0000 => Some(PacketType::FinOk),
        0b1100_0000 => Some(PacketType::FinOkOk),
        _ => None,
    }
}

/// Every packet type is told by its code, and by that code alone, which leaves
/// the lower four bits free.
pub proof fn assert_constants(t: PacketType, value: u8)
    ensures
        type_of_code(value) == Some(t) <==> value == t.code(),
        t.code() % 16 == 0,
{
}

/// The packet type whose code is `value`.
pub fn try_from(value: u8) -> (r: Result<PacketType, ()>)
    ensures
        r == (match type_of_code(value) {
            Some(t) => Ok::<PacketType, ()>(t),
            None => Err(()),
        }),
{
    match value {
        0b0111_0000 => Ok(PacketType::Syn),
        0b1000_0000 => Ok(PacketType::SynAck),
        0b1011_0000 => Ok(PacketType::SynAckAck),
        0b0000_0000 => Ok(PacketType::Init),
        0b0001_0000 => Ok(PacketType::Data),
        0b0101_0000 => Ok(PacketType::DataOk),
        0b0110_0000 => Ok(PacketType::Nak),
        0b0010_0000 => Ok(PacketType::KeepAlive),
        0b0011_0000 => Ok(PacketType::InitOk),
        0b0100_0000 => Ok(PacketType::KeepAliveOk),
        0b1001_0000 => Ok(PacketType::Fin),
        0b1010_0000 => Ok(PacketType::FinOk),
        0b1100_0000 => Ok(PacketType::FinOkOk),
        _ => Err(()),
    }
}

impl TryFrom<u8> for PacketType {
    type Error = ();

    fn try_from(value: u8) -> (r: Result<PacketType, ()>) {
        self::try_from(value)
    }
}

impl vstd::std_specs::convert::TryFromSpecImpl<u8> for PacketType {
    open spec fn obeys_try_from_spec() -> bool {
        true
    }

    open spec fn try_from_spec(value: u8) -> Result<PacketType, ()> {
        match type_of_code(value) {
            Some(t) => Ok(t),
            None => Err(()),
        }
    }
}

/// The sequence number in the first four bytes of a packet.
pub open spec fn seq_num_in(bytes: Seq<u8>) -> SeqNum {
    SeqNum(be_value(bytes) % SEQ_NUM_LIMIT)
}

/// The type code in the first byte of a packet.
pub open spec fn code_in(bytes: Seq<u8>) -> u8 {
    (bytes[0] / 16 * 16) as u8
}

/// The four bytes of a packet that holds a sequence number.
pub open spec fn numbered(t: PacketType, s: SeqNum) -> Seq<u8> {
    be_bytes((t.code() * 0x100_0000 + s.0) as u32)
}

/// A packet type joins a sequence number in the upper half of its first byte.
pub proof fn lemma_numbered(t: PacketType, s: SeqNum)
    requires
        s.0 < SEQ_NUM_LIMIT,
    ensures
        be_bytes(s.0)[0] < 16,
        numbered(t, s) == be_bytes(s.0).update(0, (t.code() + be_bytes(s.0)[0]) as u8),
{
    let c = t.code();
    let n = s.0;
    assert(c <= 0xC0);
    let x = (c * 0x100_0000 + n) as u32;
    assert(x == c * 0x100_0000 + n);
    assert(x / 0x100_0000 == c + n / 0x100_0000);
    assert(x / 0x1_0000 == c * 0x100 + n / 0x1_0000);
    assert(x / 0x100 == c * 0x1_0000 + n / 0x100);
    assert(x / 0x1_0000 % 0x100 == n / 0x1_0000 % 0x100);
    assert(x / 0x100 % 0x100 == n / 0x100 % 0x100);
    assert(x % 0x100 == n % 0x100);
    assert(numbered(t, s) =~= be_bytes(n).update(0, (c + be_bytes(n)[0]) as u8));
}

/// The UTF-8 bytes of a name; a packet without a name holds none.
pub open spec fn name_bytes(name: Option<Seq<char>>) -> Seq<u8> {
    match name {
        Some(n) => encode_utf8(n),
        None => seq![],
    }
}

/// The bytes of a packet.
///
/// - `Init`: 4 bits of type, 11 bits of payload size, a zero bit, the transfer size
///   (least significant byte first), and the name, zero-padded.
/// - `Data`: 4 bits of type, 28 bits of sequence number, and the data.
/// - Packets with a sequence number alone: 4 bits of type, 28 bits of sequence number.
/// - All others: 4 bits of type and 4 zero bits.
pub open spec fn layout(p: PacketView) -> Seq<u8> {
    match p {
        PacketView::Send(SendPacketView::Init { payload_size, transfer, name }) => seq![
            (PacketType::Init.code() + payload_size / 128) as u8,
            (payload_size % 128 * 2) as u8,
        ] + le_bytes(transfer) + zero_padded(name_bytes(name), NAME_BYTES as nat),
        PacketView::Send(SendPacketView::Data { seq_num, data }) => numbered(
            PacketType::Data,
            seq_num,
        ) + data,
        PacketView::Recv(RecvPacket::DataAck(s)) => numbered(PacketType::DataOk, s),
        PacketView::Recv(RecvPacket::Nak(s)) => numbered(PacketType::Nak, s),
        PacketView::Conn(ConnPacket::SynAck(s)) => numbered(PacketType::SynAck, s),
        PacketView::Conn(ConnPacket::SynAckAck(s)) => numbered(PacketType::SynAckAck, s),
        PacketView::Conn(ConnPacket::KeepAlive) => seq![PacketType::KeepAlive.code()],
        PacketView::Conn(ConnPacket::KeepAliveOk) => seq![PacketType::KeepAliveOk.code()],
        PacketView::Conn(ConnPacket::Syn) => seq![PacketType::Syn.code()],
        PacketView::Recv(RecvPacket::InitOk) => seq![PacketType::InitOk.code()],
        PacketView::Recv(RecvPacket::FinOk) => seq![PacketType::FinOk.code()],
        PacketView::Send(SendPacketView::Fin) => seq![PacketType::Fin.code()],
        PacketView::Send(SendPacketView::FinOkOk) => seq![PacketType::FinOkOk.code()],
    }
}

/// Each field of `p` fits the bits that its layout gives it, and the layout fits `room` bytes.
pub open spec fn encodable(p: PacketView, room: int) -> bool {
    &&& layout(p).len() <= room
    &&& match p {
        PacketView::Send(SendPacketView::Init { payload_size, transfer, name }) => {
            &&& payload_size < PAYLOAD_SIZE_LIMIT
            &&& name_bytes(name).len() <= NAME_BYTES
        },
        PacketView::Send(SendPacketView::Data { seq_num, .. }) => seq_num.0 < SEQ_NUM_LIMIT,
        PacketView::Recv(RecvPacket::DataAck(s)) => s.0 < SEQ_NUM_LIMIT,
        PacketView::Recv(RecvPacket::Nak(s)) => s.0 < SEQ_NUM_LIMIT,
        PacketView::Conn(ConnPacket::SynAck(s)) => s.0 < SEQ_NUM_LIMIT,
        PacketView::Conn(ConnPacket::SynAckAck(s)) => s.0 < SEQ_NUM_LIMIT,
        _ => true,
    }
}

/// The `Init` packet that `bytes` hold: 28 bytes whose name is valid UTF-8.
pub open spec fn parse_init(bytes: Seq<u8>) -> Option<PacketView> {
    let name = nul_terminated(bytes.subrange(6, 28));
    if bytes.len() != 28 || !valid_utf8(name) {
        None
    } else {
        Some(
            PacketView::Send(
                SendPacketView::Init {
                    payload_size: (bytes[0] % 16 * 128 + bytes[1] / 2) as u16,
                    transfer: le_value(bytes.skip(2)),
                    name: if name.len() == 0 {
                        None
                    } else {
                        Some(decode_utf8(name))
                    },
                },
            ),
        )
    }
}

/// The packet that `bytes` hold, if they hold one. What follows a packet of fixed length
/// is ignored, but for `Init`, which takes up a frame exactly.
pub open spec fn parse(bytes: Seq<u8>) -> Option<PacketView> {
    if bytes.len() == 0 {
        None
    } else {
        let s = seq_num_in(bytes);
        let numbered = bytes.len() >= 4;
        match type_of_code(code_in(bytes)) {
            None => None,
            Some(PacketType::KeepAlive) => Some(PacketView::Conn(ConnPacket::KeepAlive)),
            Some(PacketType::KeepAliveOk) => Some(PacketView::Conn(ConnPacket::KeepAliveOk)),
            Some(PacketType::Syn) => Some(PacketView::Conn(ConnPacket::Syn)),
            Some(PacketType::InitOk) => Some(PacketView::Recv(RecvPacket::InitOk)),
            Some(PacketType::FinOk) => Some(PacketView::Recv(RecvPacket::FinOk)),
            Some(PacketType::Fin) => Some(PacketView::Send(SendPacketView::Fin)),
            Some(PacketType::FinOkOk) => Some(PacketView::Send(SendPacketView::FinOkOk)),
            Some(PacketType::Init) => parse_init(bytes),
            Some(PacketType::Data) => if numbered {
                Some(
                    PacketView::Send(SendPacketView::Data { seq_num: s, data: bytes.skip(4) }),
                )
            } else {
                None
            },
            Some(PacketType::DataOk) => if numbered {
                Some(PacketView::Recv(RecvPacket::DataAck(s)))
            } else {
                None
            },
            Some(PacketType::Nak) => if numbered {
                Some(PacketView::Recv(RecvPacket::Nak(s)))
            } else {
                None
            },
            Some(PacketType::SynAck) => if numbered {
                Some(PacketView::Conn(ConnPacket::SynAck(s)))
            } else {
                None
            },
            Some(PacketType::SynAckAck) => if numbered {
                Some(PacketView::Conn(ConnPacket::SynAckAck(s)))
            } else {
                None
            },
        }
    }
}

/// What an optional packet says.
pub open spec fn view_of(p: Option<Packet>) -> Option<PacketView> {
    match p {
        Some(p) => Some(p@),
        None => None,
    }
}

/// Reads the text in front of the first zero byte of `buf`; no text is no name.
pub fn string_from_null_terminated(buf: &[u8]) -> (r: Result<Option<&str>, core::str::Utf8Error>)
    ensures
        r is Ok <==> valid_utf8(nul_terminated(buf@)),
        r matches Ok(name) ==> text_of(name) == (if nul_terminated(buf@).len() == 0 {
            None
        } else {
            Some(decode_utf8(nul_terminated(buf@)))
        }),
{
    let n: usize = buf.len();
    let mut end: usize = 0;
    while end < n && buf[end] != 0
        invariant
            end <= n,
            n == buf@.len(),
            forall|i: int| 0 <= i < end ==> buf@[i] != 0,
        decreases n - end,
    {
        end = end + 1;
    }
    proof {
        lemma_first_nul_is(buf@, end as int);
    }
    if end == 0 {
        return Ok(None);
    }
    let text = vstd::slice::slice_subrange(buf, 0, end);
    assert(text@ =~= nul_terminated(buf@));
    match core::str::from_utf8(text) {
        Ok(s) => Ok(Some(s)),
        Err(e) => Err(e),
    }
}

/// A frame whose checksum does not match, and the `Data` packet that it says it carries.
#[derive(Debug, Clone, Copy, PartialEq, Eq, Structural)]
pub struct CorruptedPacket(pub SeqNum);

impl<'a> Packet<'a> {
    /// Reads the 28 bits of a sequence number:
    ///
    /// |0123456789abcdef|
    /// |----------------|
    /// |0000ssssssssssss|
    /// |ssssssssssssssss|
    pub fn decode_sequence(bytes: &[u8]) -> (r: Option<SeqNum>)
        ensures
            r == (if bytes@.len() < 4 {
                None
            } else {
                Some(seq_num_in(bytes@))
            }),
    {
        if bytes.len() < 4 {
            return None;
        }
        assert(bytes@.skip(0) =~= bytes@);
        Some(SeqNum(read_be(bytes, 0) % SEQ_NUM_LIMIT))
    }

    /// Reads the packet that `bytes` hold.
    pub fn deserialize_inner(bytes: &'a [u8]) -> (r: Option<Packet<'a>>)
        ensures
            view_of(r) == parse(bytes@),
    {
        if bytes.len() == 0 {
            return None;
        }
        let ptype = match self::try_from(bytes[0] / 16 * 16) {
            Ok(t) => t,
            Err(_) => {
                return None;
            },
        };
        match ptype {
            PacketType::KeepAlive => Some(Packet::Conn(ConnPacket::KeepAlive)),
            PacketType::InitOk => Some(Packet::Recv(RecvPacket::InitOk)),
            PacketType::KeepAliveOk => Some(Packet::Conn(ConnPacket::KeepAliveOk)),
            PacketType::Syn => Some(Packet::Conn(ConnPacket::Syn)),
            PacketType::Fin => Some(Packet::Send(SendPacket::Fin)),
            PacketType::FinOk => Some(Packet::Recv(RecvPacket::FinOk)),
            PacketType::FinOkOk => Some(Packet::Send(SendPacket::FinOkOk)),
            PacketType::Init => {
                if bytes.len() != 28 {
                    return None;
                }
                let payload_size: u16 = bytes[0] as u16 % 16 * 128 + bytes[1] as u16 / 2;
                let transfer: u32 = read_le(bytes, 2);
                let field = vstd::slice::slice_subrange(bytes, 6, 28);
                match string_from_null_terminated(field) {
                    Ok(name) => Some(
                        Packet::Send(SendPacket::Init { payload_size, transfer, name }),
                    ),
                    Err(_) => None,
                }
            },
            _ => {
                let seq_num = match Self::decode_sequence(bytes) {
                    Some(s) => s,
                    None => {
                        return None;
                    },
                };
                match ptype {
                    PacketType::Data => {
                        let data = vstd::slice::slice_subrange(bytes, 4, bytes.len());
                        assert(data@ =~= bytes@.skip(4));
                        Some(Packet::Send(SendPacket::Data { seq_num, data }))
                    },
                    PacketType::DataOk => Some(Packet::Recv(RecvPacket::DataAck(seq_num))),
                    PacketType::Nak => Some(Packet::Recv(RecvPacket::Nak(seq_num))),
                    PacketType::SynAck => Some(Packet::Conn(ConnPacket::SynAck(seq_num))),
                    _ => Some(Packet::Conn(ConnPacket::SynAckAck(seq_num))),
                }
            },
        }
    }

    /// Writes a sequence number, most significant byte first.
    pub fn encode_sequence(sequence: SeqNum, buf: &mut [u8])
        requires
            old(buf)@.len() == 4,
        ensures
            final(buf)@ == be_bytes(sequence.0),
    {
        let n: u32 = sequence.0;
        buf[0] = (n / 0x100_0000) as u8;
        buf[1] = (n / 0x1_0000 % 0x100) as u8;
        buf[2] = (n / 0x100 % 0x100) as u8;
        buf[3] = (n % 0x100) as u8;
        assert(buf@ =~= be_bytes(n));
    }

    /// Writes the layout of this packet to the front of `buf` and gives its length.
    pub(crate) fn write_layout(&self, buf: &mut [u8]) -> (len: usize)
        requires
            encodable(self@, old(buf)@.len() as int),
        ensures
            len == layout(self@).len(),
            final(buf)@ == splice(old(buf)@, 0, layout(self@)),
    {
        let ghost before = buf@;
        let ptype = match self {
            Packet::Send(SendPacket::Init { .. }) => PacketType::Init,
            Packet::Send(SendPacket::Data { .. }) => PacketType::Data,
            Packet::Recv(RecvPacket::DataAck(_)) => PacketType::DataOk,
            Packet::Recv(RecvPacket::Nak(_)) => PacketType::Nak,
            Packet::Conn(ConnPacket::KeepAlive) => PacketType::KeepAlive,
            Packet::Recv(RecvPacket::InitOk) => PacketType::InitOk,
            Packet::Conn(ConnPacket::KeepAliveOk) => PacketType::KeepAliveOk,
            Packet::Conn(ConnPacket::Syn) => PacketType::Syn,
            Packet::Conn(ConnPacket::SynAck(_)) => PacketType::SynAck,
            Packet::Conn(ConnPacket::SynAckAck(_)) => PacketType::SynAckAck,
            Packet::Send(SendPacket::Fin) => PacketType::Fin,
            Packet::Recv(RecvPacket::FinOk) => PacketType::FinOk,
            Packet::Send(SendPacket::FinOkOk) => PacketType::FinOkOk,
        };
        match *self {
            Packet::Send(SendPacket::Init { payload_size, transfer, name }) => {
                buf[0] = ptype.discriminant() + (payload_size / 128) as u8;
                buf[1] = (payload_size % 128 * 2) as u8;
                write_le(buf, 2, transfer);
                write_zeros(buf, 6, NAME_BYTES);
                if let Some(name) = name {
                    write_bytes(buf, 6, name.as_bytes());
                }
                assert(buf@ =~= splice(before, 0, layout(self@)));
                28
            },
            Packet::Send(SendPacket::Data { seq_num, data }) => {
                Self::write_numbered(ptype, seq_num, buf);
                write_bytes(buf, 4, data);
                assert(buf@ =~= splice(before, 0, layout(self@)));
                4 + data.len()
            },
            Packet::Conn(ConnPacket::SynAckAck(seq_num))
            | Packet::Conn(ConnPacket::SynAck(seq_num))
            | Packet::Recv(RecvPacket::DataAck(seq_num))
            | Packet::Recv(RecvPacket::Nak(seq_num)) => {
                Self::write_numbered(ptype, seq_num, buf);
                4
            },
            _ => {
                buf[0] = ptype.discriminant();
                assert(buf@ =~= splice(before, 0, layout(self@)));
                1
            },
        }
    }

    /// Writes the four bytes of a packet type and a sequence number.
    fn write_numbered(ptype: PacketType, seq_num: SeqNum, buf: &mut [u8])
        requires
            seq_num.0 < SEQ_NUM_LIMIT,
            old(buf)@.len() >= 4,
        ensures
            final(buf)@ == splice(old(buf)@, 0, numbered(ptype, seq_num)),
    {
        let (head, _) = buf.split_at_mut(4);
        Self::encode_sequence(seq_num, head);
        proof {
            lemma_numbered(ptype, seq_num);
        }
        buf[0] = ptype.discriminant() + buf[0];
        assert(buf@ =~= splice(old(buf)@, 0, numbered(ptype, seq_num)));
    }

    /// Writes this packet to the front of `buf` and gives the length of its frame.
    pub fn serialize(&self, buf: &mut [u8; MSS]) -> (len: usize)
        requires
            encodable(self@, MSS as int),
        ensures
            len == layout(self@).len(),
            final(buf)@ == splice(old(buf)@, 0, layout(self@)),
    {
        let frame: &mut [u8] = buf;
        self.write_layout(frame)
    }

    /// Reads the packet that a frame without checksum holds. Such a frame has nothing
    /// that could tell a corrupted one.
    pub fn deserialize(bytes: &'a [u8]) -> (r: Result<Option<Packet<'a>>, CorruptedPacket>)
        ensures
            r matches Ok(p) && view_of(p) == parse(bytes@),
    {
        Ok(Self::deserialize_inner(bytes))
    }
}

impl<'a> SendPacket<'a> {
    pub fn serialize(&self, buf: &mut [u8; MSS]) -> (len: usize)
        requires
            encodable(PacketView::Send(self@), MSS as int),
        ensures
            len == layout(PacketView::Send(self@)).len(),
            final(buf)@ == splice(old(buf)@, 0, layout(PacketView::Send(self@))),
    {
        Packet::Send(*self).serialize(buf)
    }
}

impl RecvPacket {
    pub fn serialize(self, buf: &mut [u8; MSS]) -> (len: usize)
        requires
            encodable(PacketView::Recv(self), MSS as int),
        ensures
            len == layout(PacketView::Recv(self)).len(),
            final(buf)@ == splice(old(buf)@, 0, layout(PacketView::Recv(self))),
    {
        Packet::Recv(self).serialize(buf)
    }
}

impl ConnPacket {
    pub fn serialize(self, buf: &mut [u8; MSS]) -> (len: usize)
        requires
            encodable(PacketView::Conn(self), MSS as int),
        ensures
            len == layout(PacketView::Conn(self)).len(),
            final(buf)@ == splice(old(buf)@, 0, layout(PacketView::Conn(self))),
    {
        Packet::Conn(self).serialize(buf)
    }
}

} // verus!
