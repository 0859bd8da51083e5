//! What holds between writing a packet and reading it.

use vstd::prelude::*;
use vstd::utf8::{
    decode_utf8_encode_utf8, encode_scalar, encode_utf8, encode_utf8_decode_utf8,
    encode_utf8_valid_utf8,
};

use crate::checksum::crc32c;
use crate::frame::{body, checked_frame, claims_data, Codec, FrameError};
use crate::packet::{
    assert_constants, code_in, encodable, layout, lemma_numbered, name_bytes, numbered, parse,
    parse_init, seq_num_in, type_of_code, ConnPacket, PacketType, PacketView, RecvPacket,
    SendPacketView, SeqNum, NAME_BYTES, SEQ_NUM_LIMIT,
};
use crate::wire::{
    be_bytes, law_be_round_trip, law_le_round_trip, law_padded_text_round_trip, le_bytes, le_value,
    lemma_first_nul, nul_terminated, zero_padded,
};
use crate::{CRC_BYTES, MSS};

verus! {

/// The name of an `Init` packet, if it has one, is not empty and has no zero character:
/// the field that holds it has no other way to tell its end.
pub open spec fn name_survives(p: PacketView) -> bool {
    p matches PacketView::Send(SendPacketView::Init { name: Some(n), .. }) ==> {
        &&& n.len() > 0
        &&& !n.contains('\0')
    }
}

/// The packet's layout may be followed by other bytes in its frame.
pub open spec fn self_delimiting(p: PacketView) -> bool {
    match p {
        PacketView::Send(SendPacketView::Init { .. }) => false,
        PacketView::Send(SendPacketView::Data { .. }) => false,
        _ => true,
    }
}

/// UTF-8 has a zero byte for the zero character only.
proof fn lemma_no_zero_byte(chars: Seq<char>)
    requires
        !chars.contains('\0'),
    ensures
        forall|i: int| 0 <= i < encode_utf8(chars).len() ==> encode_utf8(chars)[i] != 0,
    decreases chars.len(),
{
    if chars.len() != 0 {
        let c = chars[0] as u32;
        let head = encode_scalar(c);
        let rest = chars.drop_first();
        assert(chars[0] != '\0');
        vstd::utf8::char_is_scalar(chars[0]);
        vstd::utf8::char_u32_cast(chars[0], c);
        vstd::utf8::char_u32_cast('\0', '\0' as u32);
        assert('\0' as u32 == 0);
        assert(c != 0);
        assert(0 < c && c <= 0x7f ==> (c & 0x7f) as u8 != 0) by (bit_vector);
        assert(0xC0u8 | ((c >> 6) & 0x1F) as u8 != 0) by (bit_vector);
        assert(0xE0u8 | ((c >> 12) & 0x0F) as u8 != 0) by (bit_vector);
        assert(0xF0u8 | ((c >> 18) & 0x7) as u8 != 0) by (bit_vector);
        assert(0x80u8 | (c & 0x3F) as u8 != 0) by (bit_vector);
        assert(0x80u8 | ((c >> 6) & 0x3F) as u8 != 0) by (bit_vector);
        assert(0x80u8 | ((c >> 12) & 0x3F) as u8 != 0) by (bit_vector);
        assert(forall|i: int| 0 <= i < head.len() ==> head[i] != 0);
        assert(!rest.contains('\0')) by {
            assert forall|j: int| 0 <= j < rest.len() implies rest[j] != '\0' by {
                assert(rest[j] == chars[j + 1]);
            }
        }
        lemma_no_zero_byte(rest);
        assert(encode_utf8(chars) == head + encode_utf8(rest));
    }
}

/// A packet type and a sequence number read back from their four bytes.
proof fn lemma_numbered_reads_back(t: PacketType, s: SeqNum, rest: Seq<u8>)
    requires
        s.0 < SEQ_NUM_LIMIT,
    ensures
        type_of_code(code_in(numbered(t, s) + rest)) == Some(t),
        seq_num_in(numbered(t, s) + rest) == s,
{
    let b = numbered(t, s) + rest;
    let x = (t.code() * 0x100_0000 + s.0) as u32;
    assert_constants(t, t.code());
    assert(t.code() <= 0xC0);
    assert(x == t.code() * 0x100_0000 + s.0);
    law_be_round_trip(x, rest);
    assert(b[0] == be_bytes(x)[0]);
    assert(x / 0x100_0000 == t.code() + s.0 / 0x100_0000);
    assert(code_in(b) == t.code());
    assert(x % SEQ_NUM_LIMIT == s.0);
}

/// A sequence number below the limit reads back from the bytes that it was written to.
pub proof fn law_sequence_round_trip(s: SeqNum, rest: Seq<u8>)
    requires
        s.0 < SEQ_NUM_LIMIT,
    ensures
        seq_num_in(be_bytes(s.0) + rest) == s,
{
    law_be_round_trip(s.0, rest);
}

proof fn lemma_init_reads_back(payload_size: u16, transfer: u32, name: Option<Seq<char>>)
    requires
        ({
            let p = PacketView::Send(SendPacketView::Init { payload_size, transfer, name });
            encodable(p, 28) && name_survives(p)
        }),
    ensures
        ({
            let p = PacketView::Send(SendPacketView::Init { payload_size, transfer, name });
            layout(p).len() == 28 && parse(layout(p)) == Some(p)
        }),
{
    let p = PacketView::Send(SendPacketView::Init { payload_size, transfer, name });
    let b = layout(p);
    let text = name_bytes(name);
    let field = b.subrange(6, 28);
    assert(b.len() == 28);
    assert(b[0] == payload_size / 128);
    assert(b[1] == payload_size % 128 * 2);
    assert(b.skip(2) =~= le_bytes(transfer) + zero_padded(text, NAME_BYTES as nat));
    law_le_round_trip(transfer, zero_padded(text, NAME_BYTES as nat));
    assert(field =~= zero_padded(text, NAME_BYTES as nat));
    if let Some(n) = name {
        lemma_no_zero_byte(n);
        encode_utf8_valid_utf8(n);
        encode_utf8_decode_utf8(n);
        assert(text.len() > 0) by {
            assert(encode_scalar(n[0] as u32).len() > 0);
        }
    }
    law_padded_text_round_trip(text, NAME_BYTES as nat);
    assert(nul_terminated(field) == text);
    assert(parse_init(b) == Some(p));
}

/// Reading a plain frame gives the packet that was written to it.
pub proof fn law_round_trip(p: PacketView)
    requires
        encodable(p, MSS as int),
        name_survives(p),
    ensures
        parse(layout(p)) == Some(p),
{
    if self_delimiting(p) {
        law_trailing_bytes(p, seq![]);
        assert(layout(p) + seq![] =~= layout(p));
    } else {
        match p {
            PacketView::Send(SendPacketView::Init { payload_size, transfer, name }) => {
                assert(layout(p).len() == 28);
                lemma_init_reads_back(payload_size, transfer, name);
            },
            PacketView::Send(SendPacketView::Data { seq_num, data }) => {
                lemma_numbered_reads_back(PacketType::Data, seq_num, data);
                assert(layout(p).skip(4) =~= data);
            },
            _ => {},
        }
    }
}

/// Packets other than `Init` and `Data` read back from a frame that goes on behind them.
pub proof fn law_trailing_bytes(p: PacketView, rest: Seq<u8>)
    requires
        encodable(p, MSS as int),
        self_delimiting(p),
    ensures
        parse(layout(p) + rest) == Some(p),
{
    let b = layout(p) + rest;
    match p {
        PacketView::Recv(RecvPacket::DataAck(s)) => {
            lemma_numbered_reads_back(PacketType::DataOk, s, rest);
        },
        PacketView::Recv(RecvPacket::Nak(s)) => {
            lemma_numbered_reads_back(PacketType::Nak, s, rest);
        },
        PacketView::Conn(ConnPacket::SynAck(s)) => {
            lemma_numbered_reads_back(PacketType::SynAck, s, rest);
        },
        PacketView::Conn(ConnPacket::SynAckAck(s)) => {
            lemma_numbered_reads_back(PacketType::SynAckAck, s, rest);
        },
        _ => {
            assert(b[0] == layout(p)[0]);
        },
    }
}

/// Reading a frame of either kind gives the packet that was written to it.
pub proof fn law_frame_round_trip(codec: Codec, p: PacketView)
    requires
        encodable(p, codec.room()),
        name_survives(p),
    ensures
        codec.read(codec.frame(p)) == Ok::<Option<PacketView>, FrameError>(Some(p)),
        codec.frame(p).len() <= MSS,
{
    law_round_trip(p);
    if codec.checksums {
        let f = checked_frame(p);
        assert(body(f) =~= layout(p));
        law_le_round_trip(crc32c(layout(p)), layout(p));
    }
}

/// A frame whose checksum does not match is never read as a packet: a `Data` packet is
/// reported by its number, everything else is dropped.
pub proof fn law_corruption_is_caught(bytes: Seq<u8>)
    requires
        bytes.len() >= CRC_BYTES,
        crc32c(body(bytes)) != le_value(bytes),
    ensures
        ({
            let r = (Codec { checksums: true }).read(bytes);
            &&& !(r matches Ok(Some(_)))
            &&& claims_data(bytes) && bytes.len() >= CRC_BYTES + 4 ==> r == Err::<
                Option<PacketView>,
                FrameError,
            >(FrameError::Corrupted(seq_num_in(body(bytes))))
            &&& !claims_data(bytes) ==> r == Ok::<Option<PacketView>, FrameError>(None)
        }),
{
}

/// No two packets have the same frame.
pub proof fn law_frames_differ(p: PacketView, q: PacketView)
    requires
        encodable(p, MSS as int),
        encodable(q, MSS as int),
        name_survives(p),
        name_survives(q),
        layout(p) == layout(q),
    ensures
        p == q,
{
    law_round_trip(p);
    law_round_trip(q);
}

/// The acknowledgement of a `Data` packet is the packet's own first four bytes with one
/// bit of the type set.
pub proof fn law_acknowledge_in_place(s: SeqNum, data: Seq<u8>)
    requires
        s.0 < SEQ_NUM_LIMIT,
    ensures
        ({
            let packet = layout(PacketView::Send(SendPacketView::Data { seq_num: s, data }));
            let ack = layout(PacketView::Recv(RecvPacket::DataAck(s)));
            ack == packet.take(4).update(0, packet[0] | 0b0100_0000)
        }),
{
    let packet = layout(PacketView::Send(SendPacketView::Data { seq_num: s, data }));
    let ack = layout(PacketView::Recv(RecvPacket::DataAck(s)));
    lemma_numbered(PacketType::Data, s);
    lemma_numbered(PacketType::DataOk, s);
    let h = be_bytes(s.0)[0];
    let b = (0x10 + h) as u8;
    assert(packet[0] == b);
    assert(0x10 <= b && b < 0x20 ==> (b | 0b0100_0000) == b + 0x40) by (bit_vector);
    assert(ack =~= packet.take(4).update(0, b | 0b0100_0000));
}

/// Every packet that is read from a frame can be written to one of that length.
pub proof fn law_read_packet_can_be_written(bytes: Seq<u8>, p: PacketView)
    requires
        parse(bytes) == Some(p),
    ensures
        encodable(p, bytes.len() as int),
{
    match p {
        PacketView::Send(SendPacketView::Init { name: Some(n), .. }) => {
            let field = bytes.subrange(6, 28);
            lemma_first_nul(field);
            decode_utf8_encode_utf8(nul_terminated(field));
        },
        PacketView::Send(SendPacketView::Init { name: None, .. }) => {
            assert(name_bytes(None).len() == 0);
        },
        _ => {},
    }
}

} // verus!
