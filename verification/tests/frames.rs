//! Checksummed frames, and the choice between them and plain frames.

use protocol::frame::{put_checksum, Codec, FrameError};
use protocol::packet::{ConnPacket, CorruptedPacket, Packet, RecvPacket, SendPacket, SeqNum};
use protocol::{CRC_BYTES, MAX_PAYLOAD_SIZE, MSS};

const PLAIN: Codec = Codec { checksums: false };
const CHECKED: Codec = Codec { checksums: true };

#[test]
fn checksum_of_a_known_text() {
    let mut frame = 0xE306_9283u32.to_le_bytes().to_vec();
    frame.extend(b"123456789");
    assert_eq!(CHECKED.decode(&frame), Ok(Some(Packet::Recv(RecvPacket::InitOk))));
    assert_eq!(Packet::deserialize_checked(&frame), Ok(Some(Packet::Recv(RecvPacket::InitOk))));
    frame[0] ^= 1;
    assert_eq!(CHECKED.decode(&frame), Ok(None));
    assert_eq!(Packet::deserialize_checked(&frame), Ok(None));
}

#[test]
fn bytes_of_checksummed_frames() {
    let mut buf = [0xFF; MSS];
    let len = Packet::Conn(ConnPacket::Syn).serialize_checked(&mut buf);
    assert_eq!(buf[..len], [0x5C, 0x07, 0xE5, 0x23, 0x70]);

    let data = Packet::Send(SendPacket::Data { seq_num: SeqNum::new(5), data: &[1, 2, 3, 4, 5] });
    let len = data.serialize_checked(&mut buf);
    assert_eq!(buf[..len], [0x8C, 0x5E, 0x08, 0x85, 0x10, 0, 0, 5, 1, 2, 3, 4, 5]);
    assert!(buf[len..].iter().all(|b| *b == 0xFF));
}

#[test]
fn frames_of_both_kinds_read_back() {
    let packets = [
        Packet::Conn(ConnPacket::SynAck(SeqNum::new(4))),
        Packet::Recv(RecvPacket::Nak(SeqNum::new(77))),
        Packet::Send(SendPacket::Init { payload_size: 512, transfer: 10, name: Some("name") }),
        Packet::Send(SendPacket::Data { seq_num: SeqNum::new(3), data: &[7; MSS - 8] }),
        Packet::Send(SendPacket::Fin),
    ];
    for codec in [PLAIN, CHECKED] {
        for packet in &packets {
            let mut buf = [0; MSS];
            let len = codec.encode(packet, &mut buf);
            assert_eq!(codec.decode(&buf[..len]), Ok(Some(packet.clone())));
        }
    }
}

#[test]
fn corrupted_data_is_reported_by_its_number() {
    let data = Packet::Send(SendPacket::Data { seq_num: SeqNum::new(0x0123_4567), data: b"data" });
    let mut buf = [0; MSS];
    let len = CHECKED.encode(&data, &mut buf);
    buf[len - 1] ^= 0x40;
    assert_eq!(
        CHECKED.decode(&buf[..len]),
        Err(FrameError::Corrupted(SeqNum::new(0x0123_4567))),
    );
    assert_eq!(
        Packet::deserialize_checked(&buf[..len]),
        Err(CorruptedPacket(SeqNum::new(0x0123_4567))),
    );
}

#[test]
fn other_corrupted_packets_are_dropped() {
    for packet in [
        Packet::Conn(ConnPacket::SynAckAck(SeqNum::new(9))),
        Packet::Recv(RecvPacket::DataAck(SeqNum::new(9))),
        Packet::Send(SendPacket::Init { payload_size: 1, transfer: 1, name: None }),
        Packet::Send(SendPacket::FinOkOk),
    ] {
        let mut buf = [0; MSS];
        let len = CHECKED.encode(&packet, &mut buf);
        buf[1] ^= 0x10;
        assert_eq!(CHECKED.decode(&buf[..len]), Ok(None));
    }
}

#[test]
fn malformed_frames() {
    for len in 0..CRC_BYTES {
        assert_eq!(CHECKED.decode(&vec![0x10; len]), Err(FrameError::Malformed));
    }
    // A `Data` packet that fails its checksum and is too short for a sequence number.
    assert_eq!(CHECKED.decode(&[1, 2, 3, 4, 0x10, 0, 0]), Err(FrameError::Malformed));
    assert_eq!(
        CHECKED.decode(&[1, 2, 3, 4, 0x10, 0, 0, 0]),
        Err(FrameError::Corrupted(SeqNum::new(0))),
    );
    // The checksum of nothing is zero, and nothing is no packet.
    assert_eq!(CHECKED.decode(&[0; CRC_BYTES]), Ok(None));
    assert_eq!(CHECKED.decode(&[1; CRC_BYTES]), Ok(None));
    assert_eq!(PLAIN.decode(&[]), Ok(None));
}

#[test]
fn frames_against_a_given_checksum() {
    let mut frame = [0u8; 8];
    frame[..4].copy_from_slice(&0x0102_0304u32.to_le_bytes());
    frame[4..].copy_from_slice(&[0x16, 0, 0, 2]);
    assert_eq!(
        Packet::deserialize_against(&frame, 0x0102_0304),
        Ok(Some(Packet::Send(SendPacket::Data { seq_num: SeqNum::new(0x0600_0002), data: &[] }))),
    );
    assert_eq!(
        Packet::deserialize_against(&frame, 0x0102_0305),
        Err(CorruptedPacket(SeqNum::new(0x0600_0002))),
    );
    frame[4] = 0x76;
    assert_eq!(Packet::deserialize_against(&frame, 0), Ok(None));
}

#[test]
fn checksum_stands_in_front() {
    let mut buf = [7; MSS];
    put_checksum(0x0102_0304, &mut buf);
    assert_eq!(buf[..5], [4, 3, 2, 1, 7]);
}

#[test]
fn room_for_payloads() {
    assert_eq!(MSS, 1472);
    assert_eq!(MAX_PAYLOAD_SIZE, 1468);
    assert_eq!(PLAIN.max_payload_size(), 1468);
    assert_eq!(CHECKED.max_payload_size(), 1464);
    for codec in [PLAIN, CHECKED] {
        let data = vec![1; codec.max_payload_size() as usize];
        let packet = Packet::Send(SendPacket::Data { seq_num: SeqNum::new(0), data: &data });
        let mut buf = [0; MSS];
        assert_eq!(codec.encode(&packet, &mut buf), MSS);
        assert_eq!(codec.decode(&buf), Ok(Some(packet)));
    }
}
