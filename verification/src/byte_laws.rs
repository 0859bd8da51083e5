//! The bytes of frames, in plain numbers: what is written for each packet, and what is read
//! from any bytes.

use vstd::prelude::*;
use vstd::utf8::{decode_utf8, encode_utf8, valid_utf8};

use crate::checksum::{crc32c, crc_bit, crc_byte, crc_register};
use crate::frame::{checkable, checked_parse, Codec, FrameError};
use crate::packet::{
    encodable, layout, lemma_numbered, parse, seq_num_in, type_of_code, ConnPacket, CorruptedPacket,
    PacketType, PacketView, RecvPacket, SendPacketView, SeqNum,
};
use crate::wire::{
    be_bytes, be_value, le_bytes, le_value, lemma_first_nul_is, nul_terminated, splice, zero_padded,
};

verus! {

/// The upper four bits of the first byte of a packet.
pub open spec fn upper(p: PacketView) -> int {
    match p {
        PacketView::Conn(ConnPacket::Syn) => 0b0111,
        PacketView::Conn(ConnPacket::SynAck(_)) => 0b1000,
        PacketView::Conn(ConnPacket::SynAckAck(_)) => 0b1011,
        PacketView::Send(SendPacketView::Init { .. }) => 0b0000,
        PacketView::Send(SendPacketView::Data { .. }) => 0b0001,
        PacketView::Recv(RecvPacket::DataAck(_)) => 0b0101,
        PacketView::Recv(RecvPacket::Nak(_)) => 0b0110,
        PacketView::Conn(ConnPacket::KeepAlive) => 0b0010,
        PacketView::Recv(RecvPacket::InitOk) => 0b0011,
        PacketView::Conn(ConnPacket::KeepAliveOk) => 0b0100,
        PacketView::Send(SendPacketView::Fin) => 0b1001,
        PacketView::Recv(RecvPacket::FinOk) => 0b1010,
        PacketView::Send(SendPacketView::FinOkOk) => 0b1100,
    }
}

/// The number that a packet tells, if it tells one.
pub open spec fn number(p: PacketView) -> Option<u32> {
    match p {
        PacketView::Conn(ConnPacket::SynAck(s)) => Some(s.0),
        PacketView::Conn(ConnPacket::SynAckAck(s)) => Some(s.0),
        PacketView::Send(SendPacketView::Data { seq_num, .. }) => Some(seq_num.0),
        PacketView::Recv(RecvPacket::DataAck(s)) => Some(s.0),
        PacketView::Recv(RecvPacket::Nak(s)) => Some(s.0),
        _ => None,
    }
}

/// Part of a sequence overwritten: the rest stays, and so does the length.
pub proof fn law_overwriting(base: Seq<u8>, at: int, part: Seq<u8>, i: int)
    requires
        0 <= at,
        at + part.len() <= base.len(),
        0 <= i < base.len(),
    ensures
        splice(base, at, part).len() == base.len(),
        splice(base, at, part)[i] == (if at <= i < at + part.len() {
            part[i - at]
        } else {
            base[i]
        }),
{
}

/// The text in front of the first zero byte, which is the `k`th, or of all bytes, if none is
/// zero.
pub proof fn law_text_in_front_of_zero(s: Seq<u8>, k: int)
    requires
        0 <= k <= s.len(),
        forall|i: int| 0 <= i < k ==> s[i] != 0,
        k < s.len() ==> s[k] == 0,
    ensures
        nul_terminated(s) == s.subrange(0, k),
{
    lemma_first_nul_is(s, k);
    assert(nul_terminated(s) =~= s.subrange(0, k));
}

/// A text padded with zeros: its bytes stay in front, and all behind them are zero.
pub proof fn law_padding(s: Seq<u8>, len: nat, i: int)
    requires
        s.len() <= len,
        0 <= i < len,
    ensures
        zero_padded(s, len).len() == len,
        zero_padded(s, len)[i] == (if i < s.len() {
            s[i]
        } else {
            0
        }),
{
}

/// The bytes of a number in both orders, and the number of any bytes.
pub proof fn law_byte_orders(x: u32, b: Seq<u8>)
    ensures
        be_bytes(x).len() == 4,
        be_bytes(x)[0] * 0x100_0000 + be_bytes(x)[1] * 0x1_0000 + be_bytes(x)[2] * 0x100 + be_bytes(
            x,
        )[3] == x,
        le_bytes(x).len() == 4,
        le_bytes(x)[0] + le_bytes(x)[1] * 0x100 + le_bytes(x)[2] * 0x1_0000 + le_bytes(x)[3]
            * 0x100_0000 == x,
        be_value(b) == b[0] * 0x100_0000 + b[1] * 0x1_0000 + b[2] * 0x100 + b[3],
        le_value(b) == b[0] + b[1] * 0x100 + b[2] * 0x1_0000 + b[3] * 0x100_0000,
        seq_num_in(b).0 == b[0] % 16 * 0x100_0000 + b[1] * 0x1_0000 + b[2] * 0x100 + b[3],
{
    let v = be_value(b);
    assert(v == b[0] * 0x100_0000 + b[1] * 0x1_0000 + b[2] * 0x100 + b[3]);
    assert(v % 0x1000_0000 == b[0] % 16 * 0x100_0000 + b[1] * 0x1_0000 + b[2] * 0x100 + b[3]);
}

/// The bytes that are the code of a packet type: the multiples of sixteen up to twelve times
/// that. The code of each type is that byte from which, and from which alone, the type is read.
pub proof fn law_codes(value: u8, t: PacketType)
    ensures
        type_of_code(value) is None <==> value % 16 != 0 || value > 12 * 16,
        type_of_code(value) == Some(t) <==> value == t.code(),
        value == 0 ==> type_of_code(value) == Some(PacketType::Init),
        value == 1 * 16 ==> type_of_code(value) == Some(PacketType::Data),
        value == 2 * 16 ==> type_of_code(value) == Some(PacketType::KeepAlive),
        value == 3 * 16 ==> type_of_code(value) == Some(PacketType::InitOk),
        value == 4 * 16 ==> type_of_code(value) == Some(PacketType::KeepAliveOk),
        value == 5 * 16 ==> type_of_code(value) == Some(PacketType::DataOk),
        value == 6 * 16 ==> type_of_code(value) == Some(PacketType::Nak),
        value == 7 * 16 ==> type_of_code(value) == Some(PacketType::Syn),
        value == 8 * 16 ==> type_of_code(value) == Some(PacketType::SynAck),
        value == 9 * 16 ==> type_of_code(value) == Some(PacketType::Fin),
        value == 10 * 16 ==> type_of_code(value) == Some(PacketType::FinOk),
        value == 11 * 16 ==> type_of_code(value) == Some(PacketType::SynAckAck),
        value == 12 * 16 ==> type_of_code(value) == Some(PacketType::FinOkOk),
{
}

/// What packets can be written: numbers below 2^28, payload sizes below 2^11, names of at most
/// 22 bytes, and as much data as there is room for behind four bytes.
pub proof fn law_what_can_be_written(p: PacketView, room: int)
    requires
        room >= 28,
    ensures
        encodable(p, room) <==> match p {
            PacketView::Send(SendPacketView::Init { payload_size, name, .. }) => {
                &&& payload_size < 0x800
                &&& name matches Some(n) ==> encode_utf8(n).len() <= 22
            },
            PacketView::Send(SendPacketView::Data { seq_num, data }) => {
                seq_num.0 < 0x1000_0000 && 4 + data.len() <= room
            },
            _ => number(p) matches Some(n) ==> n < 0x1000_0000,
        },
{
}

/// The bytes of a packet that tells a number: its type in four bits, the number in 28, most
/// significant byte first, and behind them data, if it carries any.
pub proof fn law_bytes_of_numbered(p: PacketView)
    requires
        number(p) is Some,
        number(p).unwrap() < 0x1000_0000,
    ensures
        ({
            let n = number(p).unwrap();
            let b = layout(p);
            &&& b.len() >= 4
            &&& b[0] == upper(p) * 16 + n / 0x100_0000
            &&& b[1] == n / 0x1_0000 % 0x100
            &&& b[2] == n / 0x100 % 0x100
            &&& b[3] == n % 0x100
            &&& b.skip(4) == (match p {
                PacketView::Send(SendPacketView::Data { data, .. }) => data,
                _ => Seq::empty(),
            })
        }),
{
    let n = number(p).unwrap();
    let t = match p {
        PacketView::Conn(ConnPacket::SynAck(_)) => PacketType::SynAck,
        PacketView::Conn(ConnPacket::SynAckAck(_)) => PacketType::SynAckAck,
        PacketView::Send(SendPacketView::Data { .. }) => PacketType::Data,
        PacketView::Recv(RecvPacket::DataAck(_)) => PacketType::DataOk,
        _ => PacketType::Nak,
    };
    lemma_numbered(t, SeqNum(n));
    if let PacketView::Send(SendPacketView::Data { data, .. }) = p {
        assert(layout(p).skip(4) =~= data);
    } else {
        assert(layout(p).skip(4) =~= Seq::empty());
    }
}

/// The bytes of an announcement: its type in four bits, the payload size in eleven, a zero bit,
/// the size of the transfer in four bytes, least significant first, and the name in 22 bytes,
/// the rest of which is zero.
pub proof fn law_bytes_of_announcement(
    payload_size: u16,
    transfer: u32,
    name: Option<Seq<char>>,
    i: int,
)
    requires
        payload_size < 0x800,
        name matches Some(n) ==> encode_utf8(n).len() <= 22,
        0 <= i < 22,
    ensures
        ({
            let b = layout(PacketView::Send(SendPacketView::Init { payload_size, transfer, name }));
            let text = match name {
                Some(n) => encode_utf8(n),
                None => Seq::empty(),
            };
            &&& b.len() == 28
            &&& b[0] * 0x100 + b[1] == payload_size * 2
            &&& b[2] + b[3] * 0x100 + b[4] * 0x1_0000 + b[5] * 0x100_0000 == transfer
            &&& b[6 + i] == (if i < text.len() {
                text[i]
            } else {
                0
            })
        }),
{
}

/// All other packets are one byte, its lower four bits zero.
pub proof fn law_bytes_of_others(p: PacketView)
    requires
        number(p) is None,
        !(p matches PacketView::Send(SendPacketView::Init { .. })),
    ensures
        layout(p).len() == 1,
        layout(p)[0] == upper(p) * 16,
{
}

/// What is read from bytes whose first byte tells a packet of one byte: that packet, whatever
/// else there is.
pub proof fn law_reading_short_packets(b: Seq<u8>)
    requires
        b.len() > 0,
    ensures
        ({
            let u = b[0] / 16;
            &&& u == 0b0111 ==> parse(b) == Some(PacketView::Conn(ConnPacket::Syn))
            &&& u == 0b0010 ==> parse(b) == Some(PacketView::Conn(ConnPacket::KeepAlive))
            &&& u == 0b0100 ==> parse(b) == Some(PacketView::Conn(ConnPacket::KeepAliveOk))
            &&& u == 0b0011 ==> parse(b) == Some(PacketView::Recv(RecvPacket::InitOk))
            &&& u == 0b1010 ==> parse(b) == Some(PacketView::Recv(RecvPacket::FinOk))
            &&& u == 0b1001 ==> parse(b) == Some(PacketView::Send(SendPacketView::Fin))
            &&& u == 0b1100 ==> parse(b) == Some(PacketView::Send(SendPacketView::FinOkOk))
            &&& u > 0b1100 ==> parse(b) is None
        }),
{
}

/// Nothing is read from no bytes.
pub proof fn law_reading_nothing()
    ensures
        parse(Seq::empty()) is None,
{
}

/// What is read from bytes whose first byte tells a packet with a number: that packet, if there
/// are four bytes, its number being 28 bits of them, and its data what follows.
pub proof fn law_reading_numbered_packets(b: Seq<u8>)
    requires
        b.len() > 0,
    ensures
        ({
            let u = b[0] / 16;
            let n = SeqNum(
                (b[0] % 16 * 0x100_0000 + b[1] * 0x1_0000 + b[2] * 0x100 + b[3]) as u32,
            );
            let whole = b.len() >= 4;
            &&& u == 0b1000 && whole ==> parse(b) == Some(PacketView::Conn(ConnPacket::SynAck(n)))
            &&& u == 0b1011 && whole ==> parse(b) == Some(
                PacketView::Conn(ConnPacket::SynAckAck(n)),
            )
            &&& u == 0b0101 && whole ==> parse(b) == Some(PacketView::Recv(RecvPacket::DataAck(n)))
            &&& u == 0b0110 && whole ==> parse(b) == Some(PacketView::Recv(RecvPacket::Nak(n)))
            &&& u == 0b0001 && whole ==> parse(b) == Some(
                PacketView::Send(
                    SendPacketView::Data { seq_num: n, data: b.subrange(4, b.len() as int) },
                ),
            )
            &&& !whole && (u == 0b1000 || u == 0b1011 || u == 0b0101 || u == 0b0110 || u == 0b0001)
                ==> parse(b) is None
        }),
{
    if b.len() >= 4 {
        let v = be_value(b);
        assert(v == b[0] * 0x100_0000 + b[1] * 0x1_0000 + b[2] * 0x100 + b[3]);
        assert(v % 0x1000_0000 == b[0] % 16 * 0x100_0000 + b[1] * 0x1_0000 + b[2] * 0x100 + b[3]);
        assert(b.skip(4) =~= b.subrange(4, b.len() as int));
    }
}

/// What is read from bytes whose first byte tells an announcement: that announcement, if there
/// are exactly 28 bytes and those in front of the first zero byte of the name, `k` of them, are
/// valid UTF-8; without any of them it has no name.
pub proof fn law_reading_announcements(b: Seq<u8>, k: int)
    requires
        b.len() > 0,
        b[0] / 16 == 0,
        0 <= k <= 22,
        b.len() == 28 ==> forall|i: int| 6 <= i < 6 + k ==> b[i] != 0,
        b.len() == 28 && k < 22 ==> b[6 + k] == 0,
    ensures
        ({
            let text = b.subrange(6, 6 + k);
            &&& b.len() != 28 || !valid_utf8(text) ==> parse(b) is None
            &&& b.len() == 28 && valid_utf8(text) ==> parse(b) == Some(
                PacketView::Send(
                    SendPacketView::Init {
                        payload_size: ((b[0] * 0x100 + b[1]) / 2) as u16,
                        transfer: (b[2] + b[3] * 0x100 + b[4] * 0x1_0000 + b[5] * 0x100_0000) as u32,
                        name: if k == 0 {
                            None
                        } else {
                            Some(decode_utf8(text))
                        },
                    },
                ),
            )
        }),
{
    if b.len() == 28 {
        let field = b.subrange(6, 28);
        assert forall|i: int| 0 <= i < k implies field[i] != 0 by {
            assert(field[i] == b[6 + i]);
        }
        if k < 22 {
            assert(field[k] == b[6 + k]);
        }
        lemma_first_nul_is(field, k);
        assert(nul_terminated(field) =~= b.subrange(6, 6 + k));
        let rest = b.skip(2);
        assert(rest[0] == b[2] && rest[1] == b[3] && rest[2] == b[4] && rest[3] == b[5]);
        assert(b[0] % 16 * 128 + b[1] / 2 == (b[0] * 0x100 + b[1]) / 2);
    }
}

/// Four bytes of a number, least significant first, in front of others.
proof fn lemma_sum_in_front(sum: u32, b: Seq<u8>)
    ensures
        ({
            let f = le_bytes(sum) + b;
            &&& f.len() == 4 + b.len()
            &&& f[0] + f[1] * 0x100 + f[2] * 0x1_0000 + f[3] * 0x100_0000 == sum
            &&& f.subrange(4, f.len() as int) == b
        }),
{
    let f = le_bytes(sum) + b;
    assert(f[0] == le_bytes(sum)[0] && f[1] == le_bytes(sum)[1]);
    assert(f[2] == le_bytes(sum)[2] && f[3] == le_bytes(sum)[3]);
    assert(f.subrange(4, f.len() as int) =~= b);
}

/// A frame without checksum is the bytes of its packet; one with a checksum has in front of them
/// their CRC-32C in four bytes, least significant first.
pub proof fn law_bytes_of_frame(codec: Codec, p: PacketView)
    ensures
        ({
            let f = codec.frame(p);
            &&& !codec.checksums ==> f == layout(p)
            &&& codec.checksums ==> {
                &&& f.len() == 4 + layout(p).len()
                &&& f[0] + f[1] * 0x100 + f[2] * 0x1_0000 + f[3] * 0x100_0000 == crc32c(layout(p))
                &&& f.subrange(4, f.len() as int) == layout(p)
            }
        }),
{
    lemma_sum_in_front(crc32c(layout(p)), layout(p));
}

/// What is read from a frame: without checksums what its bytes hold; with checksums, nothing
/// that can be told from fewer than four bytes; what the bytes behind the first four hold, if
/// the first four are their CRC-32C; and otherwise nothing, but of a `Data` packet its number,
/// if it is whole.
pub proof fn law_reading_frames(codec: Codec, b: Seq<u8>)
    ensures
        ({
            let r = codec.read(b);
            let rest = b.subrange(4, b.len() as int);
            let sum = b[0] + b[1] * 0x100 + b[2] * 0x1_0000 + b[3] * 0x100_0000;
            let data = b.len() > 4 && b[4] / 16 == 1;
            let n = SeqNum(
                (b[4] % 16 * 0x100_0000 + b[5] * 0x1_0000 + b[6] * 0x100 + b[7]) as u32,
            );
            &&& !codec.checksums ==> r == Ok::<Option<PacketView>, FrameError>(parse(b))
            &&& codec.checksums && b.len() < 4 ==> r == Err::<Option<PacketView>, FrameError>(
                FrameError::Malformed,
            )
            &&& codec.checksums && b.len() >= 4 && crc32c(rest) == sum ==> r == Ok::<
                Option<PacketView>,
                FrameError,
            >(parse(rest))
            &&& codec.checksums && b.len() >= 4 && crc32c(rest) != sum && !data ==> r == Ok::<
                Option<PacketView>,
                FrameError,
            >(None)
            &&& codec.checksums && crc32c(rest) != sum && data && b.len() < 8 ==> r == Err::<
                Option<PacketView>,
                FrameError,
            >(FrameError::Malformed)
            &&& codec.checksums && crc32c(rest) != sum && data && b.len() >= 8 ==> r == Err::<
                Option<PacketView>,
                FrameError,
            >(FrameError::Corrupted(n))
        }),
{
    lemma_checked_bytes(b);
}

/// What the specification functions of a checksummed frame say of its bytes.
proof fn lemma_checked_bytes(b: Seq<u8>)
    ensures
        b.len() >= 4 ==> {
            &&& b.skip(4) == b.subrange(4, b.len() as int)
            &&& le_value(b) == b[0] + b[1] * 0x100 + b[2] * 0x1_0000 + b[3] * 0x100_0000
        },
        b.len() > 4 ==> b.skip(4)[0] == b[4],
        b.len() >= 8 ==> seq_num_in(b.skip(4)).0 == b[4] % 16 * 0x100_0000 + b[5]
            * 0x1_0000 + b[6] * 0x100 + b[7],
{
    if b.len() >= 4 {
        assert(b.skip(4) =~= b.subrange(4, b.len() as int));
    }
    if b.len() >= 8 {
        let c = b.skip(4);
        assert(c[0] == b[4] && c[1] == b[5] && c[2] == b[6] && c[3] == b[7]);
        let v = be_value(c);
        assert(v == c[0] * 0x100_0000 + c[1] * 0x1_0000 + c[2] * 0x100 + c[3]);
        assert(v % 0x1000_0000 == c[0] % 16 * 0x100_0000 + c[1] * 0x1_0000 + c[2] * 0x100 + c[3]);
    }
}

/// A frame can be held against a checksum of its body if it has four bytes, or eight if it is a
/// `Data` packet that fails; what comes of it goes by whether the two checksums agree.
pub proof fn law_reading_against_a_checksum(b: Seq<u8>, computed: u32)
    ensures
        ({
            let rest = b.subrange(4, b.len() as int);
            let sum = b[0] + b[1] * 0x100 + b[2] * 0x1_0000 + b[3] * 0x100_0000;
            let data = b.len() > 4 && b[4] / 16 == 1;
            let n = SeqNum(
                (b[4] % 16 * 0x100_0000 + b[5] * 0x1_0000 + b[6] * 0x100 + b[7]) as u32,
            );
            &&& checkable(b, computed) <==> b.len() >= 4 && (computed == sum || !data || b.len()
                >= 8)
            &&& checkable(b, computed) && computed == sum ==> checked_parse(b, computed) == Ok::<
                Option<PacketView>,
                CorruptedPacket,
            >(parse(rest))
            &&& checkable(b, computed) && computed != sum && data ==> checked_parse(b, computed)
                == Err::<Option<PacketView>, CorruptedPacket>(CorruptedPacket(n))
            &&& checkable(b, computed) && computed != sum && !data ==> checked_parse(b, computed)
                == Ok::<Option<PacketView>, CorruptedPacket>(None)
        }),
{
    lemma_checked_bytes(b);
}

/// Different registers stay different, whatever byte they are shifted by.
proof fn lemma_shift_is_one_to_one(c: u32, d: u32)
    requires
        c != d,
    ensures
        crc_byte(c) != crc_byte(d),
{
    lemma_bit_is_one_to_one(c, d);
    let (c1, d1) = (crc_bit(c), crc_bit(d));
    lemma_bit_is_one_to_one(c1, d1);
    let (c2, d2) = (crc_bit(c1), crc_bit(d1));
    lemma_bit_is_one_to_one(c2, d2);
    let (c3, d3) = (crc_bit(c2), crc_bit(d2));
    lemma_bit_is_one_to_one(c3, d3);
    let (c4, d4) = (crc_bit(c3), crc_bit(d3));
    lemma_bit_is_one_to_one(c4, d4);
    let (c5, d5) = (crc_bit(c4), crc_bit(d4));
    lemma_bit_is_one_to_one(c5, d5);
    let (c6, d6) = (crc_bit(c5), crc_bit(d5));
    lemma_bit_is_one_to_one(c6, d6);
    let (c7, d7) = (crc_bit(c6), crc_bit(d6));
    lemma_bit_is_one_to_one(c7, d7);
}

proof fn lemma_bit_is_one_to_one(c: u32, d: u32)
    requires
        c != d,
    ensures
        crc_bit(c) != crc_bit(d),
{
    assert(c != d ==> crc_bit(c) != crc_bit(d)) by (bit_vector);
}

/// Two sequences that differ in just one byte have different checksums: a packet of which one
/// byte was garbled on its way does not match the checksum that it was sent with.
pub proof fn law_one_garbled_byte_is_noticed(x: Seq<u8>, y: Seq<u8>, k: int)
    requires
        x.len() == y.len(),
        0 <= k < x.len(),
        x[k] != y[k],
        forall|i: int| 0 <= i < x.len() && i != k ==> x[i] == y[i],
    ensures
        crc32c(x) != crc32c(y),
{
    lemma_registers_differ(x, y, k);
    let (a, b) = (crc_register(x), crc_register(y));
    assert(a != b ==> a ^ 0xFFFF_FFFFu32 != b ^ 0xFFFF_FFFFu32) by (bit_vector);
}

proof fn lemma_registers_differ(x: Seq<u8>, y: Seq<u8>, k: int)
    requires
        x.len() == y.len(),
        0 <= k < x.len(),
        x[k] != y[k],
        forall|i: int| 0 <= i < x.len() && i != k ==> x[i] == y[i],
    ensures
        crc_register(x) != crc_register(y),
    decreases x.len(),
{
    let n = x.len() - 1;
    let (p, q) = (crc_register(x.drop_last()), crc_register(y.drop_last()));
    let (a, b) = (x.last() as u32, y.last() as u32);
    if k == n {
        assert(x.drop_last() =~= y.drop_last());
        assert(a != b ==> p ^ a != p ^ b) by (bit_vector);
    } else {
        lemma_registers_differ(x.drop_last(), y.drop_last(), k);
        assert(p != q ==> p ^ a != q ^ a) by (bit_vector);
    }
    lemma_shift_is_one_to_one(p ^ a, q ^ b);
}

} // verus!
