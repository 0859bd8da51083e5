//! Packets and their plain frames.

use protocol::packet::{
    string_from_null_terminated, try_from, ConnPacket, Packet, PacketType, RecvPacket, SendPacket,
    SeqNum,
};
use protocol::wire::{read_be, read_le, write_bytes, write_le, write_zeros};
use protocol::MSS;

#[test]
fn encodings_decodings() {
    let check = |n| {
        let mut buf = [0; 4];
        Packet::encode_sequence(SeqNum::new(n), &mut buf);
        assert_eq!(buf[0] & PacketType::DISCRIMINANT_MASK, 0, "Test malformed");
        assert_eq!(Some(SeqNum::new(n)), Packet::decode_sequence(&buf));
    };
    check(0x0F_FF_FF_0F);
    check(0x0A_BB_CC_0F);
    check(0x01_23_45_0F);
}

#[test]
fn test_parse_init() {
    let mut bytes = [0u8; MSS];
    bytes[0..6].copy_from_slice(&[
        0b0000_1000,
        0b1000_0000,
        // revesed because of endianness
        0b1000_1111,
        0b0110_0011,
        0b0000_0101,
        0b0000_0000,
    ]);
    bytes[6..11].copy_from_slice(b"hello");
    let packet = Packet::deserialize(&bytes[..28]).unwrap().unwrap();
    if let Packet::Send(SendPacket::Init {
        payload_size,
        transfer: transfer_size,
        name,
    }) = packet
    {
        assert_eq!(payload_size, 0b100_0100_0000);
        assert_eq!(name.unwrap(), "hello");
        assert_eq!(transfer_size, 0b0000_0000_0000_0101_0110_0011_1000_1111);
    } else {
        panic!("Unexpected packet type");
    }
}

#[test]
fn test_parse_data() {
    let mut bytes = [0u8; 9];
    bytes[0..4].copy_from_slice(&[0b0001_0000, 0b0000_0000, 0b1000_0000, 0b1111_1111]);
    bytes[4..9].copy_from_slice(b"data!");
    let packet = Packet::deserialize(&bytes).unwrap().unwrap();
    if let Packet::Send(SendPacket::Data {
        seq_num: sequence,
        data,
    }) = packet
    {
        assert_eq!(sequence.0, 0b0000_1000_0000_1111_1111);
        assert_eq!(data, b"data!");
    } else {
        panic!("Unexpected packet type");
    }
}

#[test]
fn test_init_packet() {
    let packet = Packet::Send(SendPacket::Init {
        payload_size: 512,
        transfer: 10000,
        name: Some("testfile"),
    });

    let mut buf = [0; MSS];
    packet.serialize(&mut buf);
    let received_packet = Packet::deserialize(&buf[..28]).unwrap().unwrap();

    assert_eq!(packet, received_packet);
}

#[test]
fn test_data_packet() {
    let data = vec![1, 2, 3, 4, 5];
    let mut buf = [0; MSS];

    let packet = SendPacket::Data {
        seq_num: SeqNum::new(5),
        data: &data,
    };

    let len = packet.serialize(&mut buf);
    let Packet::Send(received_packet) = Packet::deserialize(&buf[..len]).unwrap().unwrap() else {
        panic!("Unexpected packet type");
    };

    assert_eq!(packet, received_packet);
}

#[test]
fn test_ack_packet() {
    let packet = RecvPacket::DataAck(SeqNum::new(10));

    let mut buf = [0; MSS];
    packet.serialize(&mut buf);
    let Packet::Recv(received_packet) = Packet::deserialize(&buf).unwrap().unwrap() else {
        panic!("Unexpected packet type");
    };

    assert_eq!(packet, received_packet);
}

#[test]
fn test_nack_packet() {
    let packet = RecvPacket::Nak(SeqNum::new(20));

    let mut buf = [0; MSS];
    packet.serialize(&mut buf);
    let Packet::Recv(received_packet) = Packet::deserialize(&buf).unwrap().unwrap() else {
        panic!("Unexpected packet type");
    };

    assert_eq!(packet, received_packet);
}

#[test]
fn test_syn_ack_ack_packet() {
    let packet = ConnPacket::SynAckAck(SeqNum::new(10));

    let mut buf = [0; MSS];
    packet.serialize(&mut buf);
    let Packet::Conn(received_packet) = Packet::deserialize(&buf).unwrap().unwrap() else {
        panic!("Unexpected packet type");
    };

    assert_eq!(packet, received_packet);
}

#[test]
fn test_keep_alive_packet() {
    let packet = Packet::Conn(ConnPacket::KeepAlive);

    let mut buf = [0; MSS];
    packet.serialize(&mut buf);
    let received_packet = Packet::deserialize(&buf).unwrap().unwrap();

    assert_eq!(packet, received_packet);
}

#[test]
fn test_init_ok_packet() {
    let packet = Packet::Recv(RecvPacket::InitOk);

    let mut buf = [0; MSS];
    packet.serialize(&mut buf);
    let received_packet = Packet::deserialize(&buf).unwrap().unwrap();

    assert_eq!(packet, received_packet);
}

#[test]
fn test_ka_ok_packet() {
    let packet = Packet::Conn(ConnPacket::KeepAliveOk);

    let mut buf = [0; MSS];
    packet.serialize(&mut buf);
    let received_packet = Packet::deserialize(&buf).unwrap().unwrap();

    assert_eq!(packet, received_packet);
}

const TYPES: [(PacketType, u8); 13] = [
    (PacketType::Syn, 0b0111),
    (PacketType::SynAck, 0b1000),
    (PacketType::SynAckAck, 0b1011),
    (PacketType::Init, 0b0000),
    (PacketType::Data, 0b0001),
    (PacketType::DataOk, 0b0101),
    (PacketType::Nak, 0b0110),
    (PacketType::KeepAlive, 0b0010),
    (PacketType::InitOk, 0b0011),
    (PacketType::KeepAliveOk, 0b0100),
    (PacketType::Fin, 0b1001),
    (PacketType::FinOk, 0b1010),
    (PacketType::FinOkOk, 0b1100),
];

#[test]
fn discriminants() {
    for (t, upper) in TYPES {
        assert_eq!(t.discriminant(), upper << 4);
        assert_eq!(t.discriminant() & !PacketType::DISCRIMINANT_MASK, 0);
        assert_eq!(try_from(upper << 4), Ok(t));
        assert_eq!(PacketType::try_from(upper << 4), Ok(t));
    }
}

#[test]
fn bytes_without_a_type() {
    for value in 0..=255u8 {
        let known = TYPES.iter().any(|(_, upper)| upper << 4 == value);
        assert_eq!(try_from(value).is_ok(), known);
    }
    assert_eq!(try_from(0b1101_0000), Err(()));
    assert_eq!(Packet::deserialize(&[0b1111_0000]).unwrap(), None);
}

fn all_packets(data: &[u8]) -> Vec<Packet<'_>> {
    let top = SeqNum::new(0x0FFF_FFFF);
    vec![
        Packet::Conn(ConnPacket::Syn),
        Packet::Conn(ConnPacket::SynAck(SeqNum::new(0))),
        Packet::Conn(ConnPacket::SynAckAck(top)),
        Packet::Conn(ConnPacket::KeepAlive),
        Packet::Conn(ConnPacket::KeepAliveOk),
        Packet::Recv(RecvPacket::DataAck(SeqNum::new(0x0102_0304))),
        Packet::Recv(RecvPacket::Nak(top)),
        Packet::Recv(RecvPacket::InitOk),
        Packet::Recv(RecvPacket::FinOk),
        Packet::Send(SendPacket::Fin),
        Packet::Send(SendPacket::FinOkOk),
        Packet::Send(SendPacket::Data { seq_num: top, data }),
        Packet::Send(SendPacket::Data { seq_num: SeqNum::new(1), data: &[] }),
        Packet::Send(SendPacket::Init { payload_size: 0x7FF, transfer: u32::MAX, name: None }),
        Packet::Send(SendPacket::Init {
            payload_size: 1,
            transfer: 0,
            name: Some("exactly_22_bytes_long!"),
        }),
        Packet::Send(SendPacket::Init { payload_size: 129, transfer: 7, name: Some("имя.txt") }),
    ]
}

#[test]
fn every_packet_reads_back() {
    let data = vec![0xAB; MSS - 4];
    let packets = all_packets(&data);
    let mut frames = Vec::new();
    for packet in &packets {
        let mut buf = [0xFF; MSS];
        let len = packet.serialize(&mut buf);
        assert_eq!(Packet::deserialize(&buf[..len]).unwrap().as_ref(), Some(packet));
        assert!(buf[len..].iter().all(|b| *b == 0xFF));
        frames.push(buf[..len].to_vec());
    }
    for i in 0..frames.len() {
        for j in 0..i {
            assert_ne!(frames[i], frames[j]);
        }
    }
}

#[test]
fn bytes_of_frames() {
    let mut buf = [0xFF; MSS];

    let len = Packet::Recv(RecvPacket::DataAck(SeqNum::new(0x0102_0304))).serialize(&mut buf);
    assert_eq!(buf[..len], [0x51, 0x02, 0x03, 0x04]);

    let len = ConnPacket::Syn.serialize(&mut buf);
    assert_eq!(buf[..len], [0x70]);

    let len = SendPacket::Data { seq_num: SeqNum::new(5), data: &[9, 8] }.serialize(&mut buf);
    assert_eq!(buf[..len], [0x10, 0, 0, 5, 9, 8]);

    let init = SendPacket::Init { payload_size: 0x4C3, transfer: 0x0102_0304, name: Some("ab") };
    let len = init.serialize(&mut buf);
    let mut expected = vec![0x09, 0x86, 4, 3, 2, 1, b'a', b'b'];
    expected.resize(28, 0);
    assert_eq!(buf[..len], expected[..]);
}

#[test]
fn one_byte_packets_leave_no_stale_bits() {
    let mut buf = [0xFF; MSS];
    let len = SendPacket::Fin.serialize(&mut buf);
    assert_eq!(len, 1);
    assert_eq!(buf[0], 0b1001_0000);
}

#[test]
fn what_follows_a_short_packet_is_ignored() {
    let mut bytes = vec![0x51, 0, 0, 1];
    bytes.extend([7; 100]);
    let ack = Packet::Recv(RecvPacket::DataAck(SeqNum::new(0x0100_0001)));
    assert_eq!(Packet::deserialize(&bytes).unwrap(), Some(ack));
    assert_eq!(
        Packet::deserialize(&[0x7A, 1, 2]).unwrap(),
        Some(Packet::Conn(ConnPacket::Syn)),
    );
}

#[test]
fn truncated_packets_are_not_read() {
    assert_eq!(Packet::deserialize(&[]).unwrap(), None);
    assert_eq!(Packet::decode_sequence(&[1, 2, 3]), None);
    for upper in [0b0001, 0b0101, 0b0110, 0b1000, 0b1011] {
        assert_eq!(Packet::deserialize(&[upper << 4, 0, 0]).unwrap(), None);
        assert!(Packet::deserialize(&[upper << 4, 0, 0, 0]).unwrap().is_some());
    }
    assert_eq!(Packet::deserialize(&[0; 27]).unwrap(), None);
    assert!(Packet::deserialize(&[0; 28]).unwrap().is_some());
    assert_eq!(Packet::deserialize(&[0; 29]).unwrap(), None);
}

#[test]
fn names() {
    assert_eq!(string_from_null_terminated(b"abc\0def"), Ok(Some("abc")));
    assert_eq!(string_from_null_terminated(b"abc"), Ok(Some("abc")));
    assert_eq!(string_from_null_terminated(b"\0abc"), Ok(None));
    assert_eq!(string_from_null_terminated(b""), Ok(None));
    assert!(string_from_null_terminated(b"a\xFFb").is_err());
    assert_eq!(string_from_null_terminated(b"ab\0\xFF"), Ok(Some("ab")));

    let mut init = [0u8; 28];
    init[6] = 0xFF;
    assert_eq!(Packet::deserialize(&init).unwrap(), None);
}

#[test]
fn an_empty_name_is_no_name() {
    let mut buf = [0; MSS];
    let packet = SendPacket::Init { payload_size: 1, transfer: 2, name: Some("") };
    let len = packet.serialize(&mut buf);
    assert_eq!(
        Packet::deserialize(&buf[..len]).unwrap(),
        Some(Packet::Send(SendPacket::Init { payload_size: 1, transfer: 2, name: None })),
    );
}

#[test]
fn sequence_numbers_wrap_around() {
    let mut n = SeqNum::new(5);
    n += SeqNum::new(7);
    assert_eq!(n.get(), 12);
    n += SeqNum::new(u32::MAX);
    assert_eq!(n.get(), 11);
}

#[test]
fn data_becomes_its_acknowledgement_by_one_bit() {
    let mut data = [0; MSS];
    SendPacket::Data { seq_num: SeqNum::new(0x0ABC_DEF0), data: &[1, 2, 3] }.serialize(&mut data);
    data[0] |= PacketType::DataOk.discriminant() & !PacketType::Data.discriminant();
    let mut ack = [0; MSS];
    RecvPacket::DataAck(SeqNum::new(0x0ABC_DEF0)).serialize(&mut ack);
    assert_eq!(data[..4], ack[..4]);
}

#[test]
fn integers_and_runs_of_bytes() {
    let bytes = [0xFF, 1, 2, 3, 4];
    assert_eq!(read_be(&bytes, 1), 0x0102_0304);
    assert_eq!(read_le(&bytes, 1), 0x0403_0201);

    let mut buf = [9u8; 8];
    write_le(&mut buf, 2, 0x0102_0304);
    assert_eq!(buf, [9, 9, 4, 3, 2, 1, 9, 9]);
    write_zeros(&mut buf, 3, 2);
    assert_eq!(buf, [9, 9, 4, 0, 0, 1, 9, 9]);
    write_bytes(&mut buf, 5, &[5, 6, 7]);
    assert_eq!(buf, [9, 9, 4, 0, 0, 5, 6, 7]);
}

#[test]
fn what_was_read_can_be_written() {
    let mut bytes = [0u8; 28];
    bytes[6..].copy_from_slice(b"exactly_22_bytes_long!");
    for first in 0..=255u8 {
        bytes[0] = first;
        bytes[1] = first.reverse_bits();
        let Some(packet) = Packet::deserialize(&bytes).unwrap() else {
            continue;
        };
        let mut buf = [0; MSS];
        let len = packet.serialize(&mut buf);
        assert!(len <= bytes.len());
        assert_eq!(Packet::deserialize(&buf[..len]).unwrap(), Some(packet));
    }
}
