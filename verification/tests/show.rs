//! How packets are shown.

use protocol::packet::{SendPacket, SeqNum};
use protocol::show::{push_decimal, show_init};

#[test]
fn packets_are_shown_without_their_data() {
    let data = SendPacket::Data { seq_num: SeqNum::new(1203), data: &[1, 2, 3] };
    assert_eq!(data.debug_text(), "SendPacket::Data { seq_num: SeqNum(1203), data.len: 3 }");
    assert_eq!(SendPacket::Fin.debug_text(), "SendPacket::Fin");
    assert_eq!(SendPacket::FinOkOk.debug_text(), "SendPacket::FinOkOk");
}

#[test]
fn announcements_are_shown_with_their_names() {
    let init = |name| SendPacket::Init { payload_size: 512, transfer: 10000, name };
    assert_eq!(
        init(Some("a\"b")).debug_text(),
        "SendPacket::Init { payload_size: 512, transfer: 10000, name: Some(\"a\\\"b\") }",
    );
    assert_eq!(
        init(None).debug_text(),
        "SendPacket::Init { payload_size: 512, transfer: 10000, name: None }",
    );
    assert_eq!(
        show_init(1, 0, Some("x")),
        "SendPacket::Init { payload_size: 1, transfer: 0, name: Some(x) }",
    );
}

#[test]
fn decimal_digits() {
    for n in [0, 7, 10, 99, 1_234_567_890, u64::MAX] {
        let mut s = "n=".to_string();
        push_decimal(&mut s, n);
        assert_eq!(s, format!("n={}", n));
    }
}
