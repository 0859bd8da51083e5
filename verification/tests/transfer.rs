//! Connections, and whole transfers between two of them.

use std::collections::{BTreeMap, VecDeque};

use protocol::event_loop::EventLoop;
use protocol::frame::{Codec, FrameError};
use protocol::handshake::{handshake_active, ActiveAction, ActiveSignal, Handshake};
use protocol::message::{Message, MessageData};
use protocol::packet::{ConnPacket, Packet, RecvPacket, SendPacket, SeqNum};
use protocol::sender::{is_transferable, WINDOW_SIZE};
use protocol::signal::{
    Action, ConnSig, Delay, Expired, RecvSig, SendSig, Sig, SocketError, TimerId,
};
use protocol::MSS;

const PLAIN: Codec = Codec { checksums: false };
const CHECKED: Codec = Codec { checksums: true };

fn handshake() -> Handshake {
    let answer = Packet::Conn(ConnPacket::SynAck(SeqNum::new(4)));
    match handshake_active(ActiveSignal::Packet(answer)) {
        ActiveAction::Finish(_, handshake) => handshake,
        other => panic!("Unexpected action {:?}", other),
    }
}

fn connection(codec: Codec) -> EventLoop {
    EventLoop::new(codec, handshake())
}

fn step(host: &mut EventLoop, sig: Sig) -> Vec<Action> {
    assert!(host.accepts(&sig), "Refused {:?}", sig);
    let (actions, message) = host.step(sig);
    assert_eq!(message, None);
    actions
}

fn start_sending(host: &mut EventLoop, message: Message) -> Vec<Action> {
    step(host, Sig::Send(SendSig::StartSendingFile(message)))
}

fn got(host: &mut EventLoop, packet: RecvPacket) -> Vec<Action> {
    step(host, Sig::Send(SendSig::Packet(packet)))
}

fn ack(host: &mut EventLoop, seq_num: u32) -> Vec<Action> {
    got(host, RecvPacket::DataAck(SeqNum::new(seq_num)))
}

fn arrive(host: &mut EventLoop, packet: SendPacket) -> Vec<Action> {
    step(host, Sig::Recv(RecvSig::Packet(packet)))
}

fn file(len: usize, payload_size: u16) -> Message {
    let payload = (0..len).map(|i| (i % 251) as u8).collect();
    Message::file(payload, payload_size, "Ivakura.txt".to_string())
}

fn timer(id: TimerId, expired: Expired, delay: Delay) -> Action {
    Action::StartTimer { id, expired, delay }
}

fn data(n: u32) -> Action {
    Action::SendData(SeqNum::new(n))
}

fn ack_timer(id: TimerId, n: u32) -> Action {
    timer(id, Expired::Ack(SeqNum::new(n)), Delay::AckTimeout)
}

#[test]
fn announcement_and_first_window() {
    let mut host = connection(PLAIN);
    let actions = start_sending(&mut host, file(5, 2));
    assert_eq!(
        actions,
        vec![Action::SendInit, timer(0, Expired::Init, Delay::AckTimeout)],
    );
    let mut buf = [0; MSS];
    let len = host.encode(Action::SendInit, &mut buf).unwrap();
    assert_eq!(
        Packet::deserialize(&buf[..len]).unwrap(),
        Some(Packet::Send(SendPacket::Init {
            payload_size: 2,
            transfer: 5,
            name: Some("Ivakura.txt"),
        })),
    );
    assert_eq!(
        step(&mut host, Sig::Send(SendSig::InitExpired)),
        vec![Action::SendInit, timer(1, Expired::Init, Delay::AckTimeout)],
    );
    assert_eq!(
        got(&mut host, RecvPacket::InitOk),
        vec![
            Action::CancelTimer(1),
            data(0),
            ack_timer(2, 0),
            data(1),
            ack_timer(3, 1),
            data(2),
            ack_timer(4, 2),
        ],
    );
    // The answer once more makes the first parts be sent once more.
    assert_eq!(
        got(&mut host, RecvPacket::InitOk),
        vec![
            data(0),
            ack_timer(5, 0),
            Action::CancelTimer(2),
            data(1),
            ack_timer(6, 1),
            Action::CancelTimer(3),
            data(2),
            ack_timer(7, 2),
            Action::CancelTimer(4),
        ],
    );
    let len = host.encode(data(2), &mut buf).unwrap();
    assert_eq!(buf[..len], [0x10, 0, 0, 2, 4]);
    assert_eq!(host.encode(data(3), &mut buf), None);
}

#[test]
fn window_slides_on_any_acknowledgement() {
    let mut host = connection(PLAIN);
    start_sending(&mut host, file(WINDOW_SIZE + 2, 1));
    let actions = got(&mut host, RecvPacket::InitOk);
    let sent = actions.iter().filter(|a| matches!(a, Action::SendData(_))).count();
    assert_eq!(sent, WINDOW_SIZE);
    assert_eq!(ack(&mut host, 77), vec![Action::CancelTimer(78), data(128), ack_timer(129, 128)]);
    assert_eq!(ack(&mut host, 128), vec![Action::CancelTimer(129), data(129), ack_timer(130, 129)]);
    assert_eq!(ack(&mut host, 0), vec![Action::CancelTimer(1)]);
    assert_eq!(ack(&mut host, 0), vec![]);
    let state = host.sender.as_ref().unwrap();
    assert_eq!(state.timeout_keys.len(), WINDOW_SIZE - 1);
    assert_eq!(state.seq_num_count(), WINDOW_SIZE + 2);
}

#[test]
fn repeated_acknowledgements_do_not_widen_the_window() {
    let mut host = connection(PLAIN);
    start_sending(&mut host, file(200, 1));
    got(&mut host, RecvPacket::InitOk);
    assert_eq!(ack(&mut host, 0), vec![Action::CancelTimer(1), data(128), ack_timer(129, 128)]);
    for _ in 0..5 {
        assert_eq!(ack(&mut host, 0), vec![]);
    }
    // Parts that were not sent yet cannot have arrived.
    assert_eq!(ack(&mut host, 150), vec![]);
    // The window has no room, so what is asked for is sent, but not waited for.
    assert_eq!(got(&mut host, RecvPacket::Nak(SeqNum::new(150))), vec![data(150)]);
    assert_eq!(got(&mut host, RecvPacket::Nak(SeqNum::new(0))), vec![data(0)]);
    let again = got(&mut host, RecvPacket::InitOk);
    for n in 0..WINDOW_SIZE as u32 {
        assert!(again.contains(&data(n)));
    }
    assert!(!again.contains(&ack_timer(130, 0)));
    assert!(again.contains(&ack_timer(130, 1)));
    let state = host.sender.as_ref().unwrap();
    assert_eq!(state.timeout_keys.len(), WINDOW_SIZE);
    assert_eq!(state.next_to_send, SeqNum::new(129));
}

#[test]
fn fin_goes_out_once_until_its_timer_runs_out() {
    let mut host = connection(PLAIN);
    start_sending(&mut host, file(1, 1));
    got(&mut host, RecvPacket::InitOk);
    assert_eq!(
        ack(&mut host, 0),
        vec![
            Action::CancelTimer(1),
            Action::SendFin,
            timer(2, Expired::Fin, Delay::TenAckTimeouts),
        ],
    );
    assert_eq!(ack(&mut host, 0), vec![]);
    assert_eq!(got(&mut host, RecvPacket::InitOk), vec![data(0)]);
    assert_eq!(got(&mut host, RecvPacket::Nak(SeqNum::new(0))), vec![data(0)]);
    assert_eq!(ack(&mut host, 0), vec![]);
    assert_eq!(
        got(&mut host, RecvPacket::FinOk),
        vec![
            Action::SendFinOkOk,
            Action::CancelTimer(2),
            timer(3, Expired::TimeWaitToClose, Delay::TenAckTimeouts),
        ],
    );
    assert!(!host.accepts(&Sig::Send(SendSig::FinExpired)));
    step(&mut host, Sig::Send(SendSig::TimeWaitToCloseExpired));

    // Nothing of the first message is left to disturb the second.
    start_sending(&mut host, file(1, 1));
    assert!(!host.accepts(&Sig::Send(SendSig::FinExpired)));
    assert!(!host.accepts(&Sig::Send(SendSig::TimeWaitToCloseExpired)));
    assert_eq!(ack(&mut host, 0), vec![]);
    assert_eq!(got(&mut host, RecvPacket::FinOk), vec![]);
    assert!(host.sender.is_some());
}

#[test]
fn parts_make_the_transfer() {
    for (len, payload_size, count) in [(0, 5, 0), (1, 5, 1), (5, 5, 1), (6, 5, 2), (1000, 7, 143)] {
        let mut host = connection(PLAIN);
        start_sending(&mut host, file(len, payload_size));
        let state = host.sender.as_ref().unwrap();
        assert_eq!(state.seq_num_count(), count);
        let mut joined: Vec<u8> = vec![];
        for n in 0..count as u32 {
            let SendPacket::Data { seq_num, data } = state.data_packet(SeqNum::new(n)) else {
                panic!("Unexpected packet type");
            };
            assert_eq!(seq_num, SeqNum::new(n));
            assert!(!data.is_empty() && data.len() <= payload_size as usize);
            assert!(n as usize == count - 1 || data.len() == payload_size as usize);
            joined.extend(data);
        }
        assert_eq!(joined, state.transfer);
    }
}

#[test]
fn lost_and_refused_parts_are_repeated() {
    let mut host = connection(PLAIN);
    start_sending(&mut host, file(3, 1));
    got(&mut host, RecvPacket::InitOk);
    // The timer of the part has run out, so there is none to cancel.
    assert_eq!(
        step(&mut host, Sig::Send(SendSig::AckExpired(SeqNum::new(1)))),
        vec![data(1), ack_timer(4, 1)],
    );
    assert_eq!(
        got(&mut host, RecvPacket::Nak(SeqNum::new(1))),
        vec![data(1), ack_timer(5, 1), Action::CancelTimer(4)],
    );
    // A part that was acknowledged is sent again too, and waited for while there is room.
    assert_eq!(ack(&mut host, 0), vec![Action::CancelTimer(1)]);
    assert_eq!(
        got(&mut host, RecvPacket::Nak(SeqNum::new(0))),
        vec![data(0), ack_timer(6, 0)],
    );
    assert_eq!(ack(&mut host, 0), vec![Action::CancelTimer(6)]);
}

#[test]
fn end_of_transfer() {
    let mut host = connection(PLAIN);
    start_sending(&mut host, file(2, 1));
    got(&mut host, RecvPacket::InitOk);
    assert_eq!(ack(&mut host, 1), vec![Action::CancelTimer(2)]);
    assert_eq!(
        ack(&mut host, 0),
        vec![
            Action::CancelTimer(1),
            Action::SendFin,
            timer(3, Expired::Fin, Delay::TenAckTimeouts),
        ],
    );
    assert_eq!(
        step(&mut host, Sig::Send(SendSig::FinExpired)),
        vec![Action::SendFin, timer(4, Expired::Fin, Delay::TenAckTimeouts)],
    );
    assert_eq!(
        got(&mut host, RecvPacket::FinOk),
        vec![
            Action::SendFinOkOk,
            Action::CancelTimer(4),
            timer(5, Expired::TimeWaitToClose, Delay::TenAckTimeouts),
        ],
    );
    assert_eq!(
        got(&mut host, RecvPacket::FinOk),
        vec![
            Action::SendFinOkOk,
            Action::CancelTimer(5),
            timer(6, Expired::TimeWaitToClose, Delay::TenAckTimeouts),
        ],
    );
    assert_eq!(
        step(&mut host, Sig::Send(SendSig::TimeWaitToCloseExpired)),
        vec![Action::NotifySender],
    );
    assert!(host.sender.is_none());
    // Late packets find nothing on its way.
    assert_eq!(got(&mut host, RecvPacket::FinOk), vec![]);
    assert_eq!(ack(&mut host, 0), vec![]);
}

#[test]
fn receiving_a_text() {
    let mut host = connection(PLAIN);
    let init = SendPacket::Init { payload_size: 4, transfer: 6, name: None };
    assert_eq!(arrive(&mut host, init), vec![Action::SendRecv(RecvPacket::InitOk)]);
    for (n, part) in [(1, &b"lo"[..]), (0, &b"hell"[..]), (1, &b"o!"[..])] {
        let packet = SendPacket::Data { seq_num: SeqNum::new(n), data: part };
        assert_eq!(
            arrive(&mut host, packet),
            vec![Action::SendRecv(RecvPacket::DataAck(SeqNum::new(n)))],
        );
    }
    assert!(!host.accepts(&Sig::Recv(RecvSig::Packet(SendPacket::FinOkOk))));
    assert_eq!(
        arrive(&mut host, SendPacket::Fin),
        vec![
            Action::SendRecv(RecvPacket::FinOk),
            timer(0, Expired::FinOk, Delay::AckTimeout),
        ],
    );
    assert_eq!(
        arrive(&mut host, SendPacket::Fin),
        vec![
            Action::CancelTimer(0),
            Action::SendRecv(RecvPacket::FinOk),
            timer(1, Expired::FinOk, Delay::AckTimeout),
        ],
    );
    assert_eq!(
        step(&mut host, Sig::Recv(RecvSig::FinOkExpired)),
        vec![
            Action::SendRecv(RecvPacket::FinOk),
            timer(2, Expired::FinOk, Delay::AckTimeout),
        ],
    );
    let end = Sig::Recv(RecvSig::Packet(SendPacket::FinOkOk));
    assert!(host.accepts(&end));
    let (actions, message) = host.step(end);
    assert_eq!(actions, vec![Action::CancelTimer(2)]);
    assert_eq!(
        message,
        Some(Message { data: MessageData::Text("hello!".to_string()), payload_size: 4 }),
    );
    assert!(host.reader.is_none());
    assert_eq!(arrive(&mut host, SendPacket::Fin), vec![]);
    assert_eq!(step(&mut host, Sig::Recv(RecvSig::FinOkExpired)), vec![]);
}

#[test]
fn announcements_while_a_message_arrives() {
    let mut host = connection(PLAIN);
    let init = |payload_size, transfer, name| SendPacket::Init { payload_size, transfer, name };
    arrive(&mut host, init(2, 4, Some("a")));
    let part = SendPacket::Data { seq_num: SeqNum::new(0), data: &[7, 7] };
    arrive(&mut host, part);
    assert_eq!(arrive(&mut host, init(2, 4, Some("b"))), vec![]);
    assert_eq!(arrive(&mut host, init(3, 4, Some("a"))), vec![]);
    assert_eq!(arrive(&mut host, init(2, 5, Some("a"))), vec![]);
    assert_eq!(host.reader.as_ref().unwrap().recv_bytes, vec![7, 7, 0, 0]);
    // The same announcement once more is answered, and what has arrived is kept.
    assert_eq!(
        arrive(&mut host, init(2, 4, Some("a"))),
        vec![Action::SendRecv(RecvPacket::InitOk)],
    );
    assert_eq!(host.reader.as_ref().unwrap().recv_bytes, vec![7, 7, 0, 0]);
    assert_eq!(
        arrive(&mut host, init(2, 4, None)),
        vec![Action::SendRecv(RecvPacket::InitOk)],
    );
    assert_eq!(host.reader.as_ref().unwrap().name, None);
    assert_eq!(host.reader.as_ref().unwrap().recv_bytes, vec![7, 7, 0, 0]);
}

#[test]
fn late_announcement_takes_nothing_away() {
    let mut host = connection(PLAIN);
    let init = SendPacket::Init { payload_size: 1, transfer: 1, name: Some("a") };
    arrive(&mut host, init);
    arrive(&mut host, SendPacket::Data { seq_num: SeqNum::new(0), data: &[7] });
    arrive(&mut host, init);
    arrive(&mut host, SendPacket::Fin);
    arrive(&mut host, init);
    let (_, message) = host.step(Sig::Recv(RecvSig::Packet(SendPacket::FinOkOk)));
    assert_eq!(message, Some(Message::file(vec![7], 1, "a".to_string())));
}

#[test]
fn signals_that_a_connection_refuses() {
    let mut host = connection(CHECKED);
    let refused = Sig::Conn(ConnSig::SocketError(SocketError::ConnectionRefused));
    assert!(!host.accepts(&refused));
    // Payloads that leave no room for the checksum.
    let large = Sig::Send(SendSig::StartSendingFile(file(1, 1465)));
    assert!(!host.accepts(&large));
    assert!(connection(PLAIN).accepts(&large));
    let none = Sig::Send(SendSig::StartSendingFile(file(1, 0)));
    assert!(!host.accepts(&none));

    start_sending(&mut host, file(2, 1));
    assert!(!host.accepts(&Sig::Send(SendSig::StartSendingFile(file(2, 1)))));
    // Parts that the message does not have.
    assert!(!host.accepts(&Sig::Send(SendSig::Packet(RecvPacket::Nak(SeqNum::new(2))))));
    assert!(host.accepts(&Sig::Send(SendSig::Packet(RecvPacket::Nak(SeqNum::new(1))))));
    // Timers that do not run.
    assert!(host.accepts(&Sig::Send(SendSig::InitExpired)));
    assert!(!host.accepts(&Sig::Send(SendSig::AckExpired(SeqNum::new(1)))));
    assert!(!host.accepts(&Sig::Send(SendSig::FinExpired)));
    assert!(!host.accepts(&Sig::Send(SendSig::TimeWaitToCloseExpired)));
    got(&mut host, RecvPacket::InitOk);
    assert!(!host.accepts(&Sig::Send(SendSig::InitExpired)));
    assert!(host.accepts(&Sig::Send(SendSig::AckExpired(SeqNum::new(1)))));
    assert!(!host.accepts(&Sig::Send(SendSig::AckExpired(SeqNum::new(2)))));

    arrive(&mut host, SendPacket::Init { payload_size: 2, transfer: 3, name: None });
    let part = |n, data| {
        Sig::Recv(RecvSig::Packet(SendPacket::Data { seq_num: SeqNum::new(n), data }))
    };
    assert!(!host.accepts(&Sig::Recv(RecvSig::FinOkExpired)));
    assert!(host.accepts(&part(1, &[1])));
    assert!(!host.accepts(&part(1, &[1, 2])));
    assert!(!host.accepts(&part(0, &[1, 2, 3])));
    assert!(!host.accepts(&part(2, &[1])));

    // A text that is not UTF-8 cannot be handed out.
    arrive(&mut host, SendPacket::Data { seq_num: SeqNum::new(0), data: &[0xFF, 0xFF] });
    arrive(&mut host, SendPacket::Fin);
    assert!(!host.accepts(&Sig::Recv(RecvSig::Packet(SendPacket::FinOkOk))));

    host.next_timer = u64::MAX;
    assert!(!host.accepts(&Sig::Conn(ConnSig::KeepAlive)));
}

#[test]
fn messages_that_can_be_transferred() {
    let named = |name: &str| Message::file(vec![1], 1, name.to_string());
    assert!(is_transferable(&named("exactly_22_bytes_long!")));
    assert!(!is_transferable(&named("more than 22 bytes long")));
    assert!(is_transferable(&file(0, 1)));
    assert!(!is_transferable(&file(1, 0)));
    assert!(!is_transferable(&Message {
        data: MessageData::Text("a".to_string()),
        payload_size: 1469,
    }));
}

#[test]
fn payload_sizes_of_texts() {
    for (len, payload_size) in [(0, 1), (1, 1), (13, 13), (1464, 1464), (1465, 1464), (70_000, 1464)] {
        let message = Message::text("x".repeat(len)).unwrap();
        assert_eq!(message.payload_size, payload_size);
        assert_eq!(message.data, MessageData::Text("x".repeat(len)));
        assert!(is_transferable(&message));
    }
    assert_eq!(Message::text("ёж".to_string()).unwrap().payload_size, 4);
}

#[test]
fn keep_alives() {
    let mut host = connection(PLAIN);
    assert_eq!(step(&mut host, Sig::Conn(ConnSig::Packet(ConnPacket::KeepAliveOk))), vec![]);
    assert_eq!(
        step(&mut host, Sig::Conn(ConnSig::KeepAlive)),
        vec![
            Action::SendConn(ConnPacket::KeepAlive),
            timer(0, Expired::KeepAlive, Delay::KaTimeout),
        ],
    );
    assert_eq!(
        step(&mut host, Sig::Conn(ConnSig::Packet(ConnPacket::KeepAlive))),
        vec![Action::SendConn(ConnPacket::KeepAliveOk)],
    );
    // Another gives the first no more time.
    assert_eq!(
        step(&mut host, Sig::Conn(ConnSig::KeepAlive)),
        vec![Action::SendConn(ConnPacket::KeepAlive)],
    );
    assert_eq!(
        step(&mut host, Sig::Conn(ConnSig::Packet(ConnPacket::KeepAliveOk))),
        vec![Action::CancelTimer(0)],
    );
    assert_eq!(step(&mut host, Sig::Conn(ConnSig::Packet(ConnPacket::KeepAliveOk))), vec![]);
    assert_eq!(
        step(&mut host, Sig::Conn(ConnSig::KeepAlive)),
        vec![
            Action::SendConn(ConnPacket::KeepAlive),
            timer(1, Expired::KeepAlive, Delay::KaTimeout),
        ],
    );
    assert_eq!(step(&mut host, Sig::Conn(ConnSig::KeepAliveExpired)), vec![Action::Close]);
}

#[test]
fn packets_of_the_handshake_in_a_connection() {
    let mut host = connection(PLAIN);
    let seq_num = SeqNum::new(4);
    assert_eq!(
        step(&mut host, Sig::Conn(ConnSig::Packet(ConnPacket::SynAck(seq_num)))),
        vec![Action::SendConn(ConnPacket::SynAckAck(seq_num))],
    );
    assert_eq!(step(&mut host, Sig::Conn(ConnSig::Packet(ConnPacket::Syn))), vec![]);
    assert_eq!(
        step(&mut host, Sig::Conn(ConnSig::Packet(ConnPacket::SynAckAck(seq_num)))),
        vec![],
    );
}

#[test]
fn errors_of_the_socket() {
    for (error, action) in [
        (SocketError::ConnectionReset, Action::Close),
        (SocketError::ConnectionAborted, Action::Close),
        (SocketError::Other, Action::Fail),
    ] {
        let mut host = connection(PLAIN);
        assert_eq!(step(&mut host, Sig::Conn(ConnSig::SocketError(error))), vec![action]);
    }
}

#[test]
fn signals_of_timers() {
    let seq_num = SeqNum::new(3);
    assert!(matches!(
        Sig::of_timer(Expired::Ack(seq_num)),
        Sig::Send(SendSig::AckExpired(SeqNum(3))),
    ));
    assert!(matches!(Sig::of_timer(Expired::Init), Sig::Send(SendSig::InitExpired)));
    assert!(matches!(Sig::of_timer(Expired::Fin), Sig::Send(SendSig::FinExpired)));
    assert!(matches!(Sig::of_timer(Expired::FinOk), Sig::Recv(RecvSig::FinOkExpired)));
    assert!(matches!(
        Sig::of_timer(Expired::TimeWaitToClose),
        Sig::Send(SendSig::TimeWaitToCloseExpired),
    ));
    assert!(matches!(Sig::of_timer(Expired::KeepAlive), Sig::Conn(ConnSig::KeepAliveExpired)));
}

#[test]
fn signals_of_datagrams() {
    let host = connection(CHECKED);
    let mut buf = [0; MSS];
    let len = host.encode(Action::SendRecv(RecvPacket::InitOk), &mut buf).unwrap();
    assert!(matches!(
        host.signal(&buf[..len]),
        Ok(Some(Sig::Send(SendSig::Packet(RecvPacket::InitOk)))),
    ));
    assert!(matches!(host.signal(&[1, 2, 3, 4, 0x70]), Ok(None)));
    assert!(matches!(host.signal(&[1]), Err(FrameError::Malformed)));
    assert!(matches!(
        host.signal(&[1, 2, 3, 4, 0x10, 0, 0, 9]),
        Err(FrameError::Corrupted(SeqNum(9))),
    ));
    assert_eq!(host.encode(Action::NotifySender, &mut buf), None);
    assert_eq!(host.encode(Action::SendInit, &mut buf), None);
}

/// A host whose timers run on a clock that the test turns.
struct Host {
    connection: EventLoop,
    timers: BTreeMap<TimerId, (u64, Expired)>,
    messages: Vec<Message>,
    notified: bool,
}

impl Host {
    fn new(codec: Codec) -> Host {
        Host {
            connection: connection(codec),
            timers: BTreeMap::new(),
            messages: vec![],
            notified: false,
        }
    }

    fn react(&mut self, sig: Sig, now: u64, out: &mut Vec<Vec<u8>>) {
        assert!(self.connection.accepts(&sig), "Refused {:?}", sig);
        let (actions, message) = self.connection.step(sig);
        self.messages.extend(message);
        for action in actions {
            match action {
                Action::StartTimer { id, expired, delay } => {
                    let delay = match delay {
                        Delay::AckTimeout => 50,
                        Delay::TenAckTimeouts => 500,
                        Delay::KaTimeout => 5_000,
                    };
                    assert!(self.timers.insert(id, (now + delay, expired)).is_none());
                }
                Action::CancelTimer(id) => assert!(self.timers.remove(&id).is_some()),
                Action::NotifySender => self.notified = true,
                Action::Close | Action::Fail => panic!("Connection ended"),
                _ => {
                    let mut buf = [0; MSS];
                    let len = self.connection.encode(action, &mut buf).unwrap();
                    out.push(buf[..len].to_vec());
                }
            }
        }
    }

    fn earliest(&self) -> Option<(u64, TimerId)> {
        self.timers.iter().map(|(id, (at, _))| (*at, *id)).min()
    }
}

/// What a network does to a datagram.
enum Fate {
    Deliver,
    Lose,
    /// Deliver it, and once more behind everything that is on the way.
    Repeat,
}

/// Sends a message from one host to the other over a network that treats datagrams as `fate`
/// says, and gives what arrives.
fn transfer(codec: Codec, message: Message, mut fate: impl FnMut(u64, &mut Vec<u8>) -> Fate) -> Message {
    let mut hosts = [Host::new(codec), Host::new(codec)];
    let mut wire: VecDeque<(usize, Vec<u8>)> = VecDeque::new();
    let mut now = 0;
    let mut count = 0;
    let mut out = vec![];
    hosts[0].react(Sig::Send(SendSig::StartSendingFile(message)), now, &mut out);
    wire.extend(out.drain(..).map(|bytes| (1, bytes)));
    while !hosts[0].notified || hosts[1].messages.is_empty() {
        if let Some((to, mut bytes)) = wire.pop_front() {
            count += 1;
            match fate(count, &mut bytes) {
                Fate::Deliver => {}
                Fate::Lose => continue,
                Fate::Repeat => wire.push_back((to, bytes.clone())),
            }
            if !hosts[1].messages.is_empty() && to == 1 {
                continue;
            }
            let Ok(Some(sig)) = hosts[to].connection.signal(&bytes) else {
                continue;
            };
            hosts[to].react(sig, now, &mut out);
            wire.extend(out.drain(..).map(|bytes| (1 - to, bytes)));
            if let Some(state) = &hosts[0].connection.sender {
                assert!(state.timeout_keys.len() <= WINDOW_SIZE);
            }
            continue;
        }
        let due = (0..2).filter_map(|i| hosts[i].earliest().map(|(at, id)| (at, i, id))).min();
        let (at, i, id) = due.expect("Nothing is left to wait for");
        now = at;
        let (_, expired) = hosts[i].timers.remove(&id).unwrap();
        hosts[i].react(Sig::of_timer(expired), now, &mut out);
        wire.extend(out.drain(..).map(|bytes| (1 - i, bytes)));
    }
    assert!(hosts[0].connection.sender.is_none());
    assert!(hosts[0].timers.is_empty());
    assert!(hosts[1].connection.reader.is_none());
    assert!(hosts[1].timers.is_empty());
    assert_eq!(hosts[1].messages.len(), 1);
    hosts[1].messages.pop().unwrap()
}

fn untouched(_: u64, _: &mut Vec<u8>) -> Fate {
    Fate::Deliver
}

/// Picks about one of `every` numbers, without a pattern that a transfer could fall in with.
fn picks(n: u64, every: u64) -> bool {
    let mut x = n.wrapping_mul(0x9E37_79B9_7F4A_7C15);
    x ^= x >> 29;
    x = x.wrapping_mul(0xBF58_476D_1CE4_E5B9);
    (x >> 32) % every == 0
}

fn lossy(n: u64, every: u64) -> Fate {
    if picks(n, every) {
        Fate::Lose
    } else {
        Fate::Deliver
    }
}

#[test]
fn text_arrives() {
    for codec in [PLAIN, CHECKED] {
        let message = Message::text("Hello, world!".to_string()).unwrap();
        assert_eq!(transfer(codec, message.clone(), untouched), message);
    }
}

#[test]
fn large_file_arrives() {
    for codec in [PLAIN, CHECKED] {
        let message = file(1 << 20, codec.max_payload_size());
        assert_eq!(transfer(codec, message.clone(), untouched), message);
    }
}

#[test]
fn file_arrives_despite_losses() {
    for codec in [PLAIN, CHECKED] {
        for every in [2, 3, 7, 11] {
            let message = file(100_000, 100);
            let arrived = transfer(codec, message.clone(), |n, _| lossy(n, every));
            assert_eq!(arrived, message);
        }
    }
}

#[test]
fn text_of_many_parts_arrives_despite_losses() {
    let message = Message::text("снег ".repeat(5_000)).unwrap();
    assert_eq!(transfer(CHECKED, message.clone(), |n, _| lossy(n, 5)), message);
}

#[test]
fn garbled_frames_do_no_harm_with_checksums() {
    let message = file(50_000, 500);
    let arrived = transfer(CHECKED, message.clone(), |n, bytes| {
        if picks(n, 3) {
            let at = n as usize % bytes.len();
            bytes[at] ^= 0x55;
        }
        Fate::Deliver
    });
    assert_eq!(arrived, message);
}

#[test]
fn nameless_file_arrives_as_text() {
    let message = Message::file(b"abc".to_vec(), 2, String::new());
    let arrived = transfer(PLAIN, message, untouched);
    assert_eq!(
        arrived,
        Message { data: MessageData::Text("abc".to_string()), payload_size: 2 },
    );
}

#[test]
fn file_arrives_despite_losses_and_repetitions() {
    for codec in [PLAIN, CHECKED] {
        for (lost, repeated) in [(3, 2), (5, 3), (7, 7), (1_000, 2)] {
            let message = file(50_000, 100);
            let arrived = transfer(codec, message.clone(), |n, _| {
                if picks(n, lost) {
                    Fate::Lose
                } else if picks(n ^ 0xABCD, repeated) {
                    Fate::Repeat
                } else {
                    Fate::Deliver
                }
            });
            assert_eq!(arrived, message);
        }
    }
}

#[test]
fn messages_arrive_one_after_the_other_and_both_ways() {
    let mut hosts = [Host::new(CHECKED), Host::new(CHECKED)];
    let mut wire: VecDeque<(usize, Vec<u8>)> = VecDeque::new();
    let mut now = 0;
    let mut out = vec![];
    let messages = [file(3_000, 10), file(0, 1), Message::text("again".to_string()).unwrap()];
    for round in 0..messages.len() {
        for from in 0..2 {
            hosts[from].notified = false;
            let message = messages[(round + from) % messages.len()].clone();
            hosts[from].react(Sig::Send(SendSig::StartSendingFile(message)), now, &mut out);
            hosts[from].react(Sig::Conn(ConnSig::KeepAlive), now, &mut out);
            wire.extend(out.drain(..).map(|bytes| (1 - from, bytes)));
        }
        while !(hosts[0].notified && hosts[1].notified) {
            if let Some((to, bytes)) = wire.pop_front() {
                let sig = hosts[to].connection.signal(&bytes).unwrap().unwrap();
                hosts[to].react(sig, now, &mut out);
                wire.extend(out.drain(..).map(|bytes| (1 - to, bytes)));
                continue;
            }
            let due = (0..2).filter_map(|i| hosts[i].earliest().map(|(at, id)| (at, i, id))).min();
            let (at, i, id) = due.expect("Nothing is left to wait for");
            now = at;
            let (_, expired) = hosts[i].timers.remove(&id).unwrap();
            hosts[i].react(Sig::of_timer(expired), now, &mut out);
            wire.extend(out.drain(..).map(|bytes| (1 - i, bytes)));
        }
        for to in 0..2 {
            let expected = messages[(round + 1 - to) % messages.len()].clone();
            assert_eq!(hosts[to].messages.pop(), Some(expected));
            assert!(hosts[to].messages.is_empty());
        }
    }
}

#[test]
fn empty_messages_arrive() {
    for codec in [PLAIN, CHECKED] {
        for message in [file(0, 10), Message::text(String::new()).unwrap()] {
            assert_eq!(transfer(codec, message.clone(), untouched), message);
            assert_eq!(transfer(codec, message.clone(), |n, _| lossy(n, 2)), message);
        }
    }
}
