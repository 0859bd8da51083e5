//! How two hosts come to a connection.

use protocol::handshake::{
    handshake_active, handshake_passive, handshake_passive_sm, passive_accepts, passive_signal,
    ActiveAction, ActiveSignal, PassiveAction, PassiveSignal, PeerAddr, StatePassive,
};
use protocol::packet::{ConnPacket, Packet, RecvPacket, SeqNum};
use protocol::signal::SocketError;

fn host(port: u16) -> PeerAddr {
    PeerAddr { v6: false, ip: 0x7F00_0001, port, flow_info: 0, scope_id: 0 }
}

type Passive = fn(StatePassive, PassiveSignal) -> (StatePassive, PassiveAction);

fn waiting(seq_num: u32) -> StatePassive {
    StatePassive::GotSynSentSynAckWaitingForAck(SeqNum::new(seq_num), host(1))
}

fn packet(p: ConnPacket, port: u16) -> PassiveSignal {
    PassiveSignal::Packet(p, host(port))
}

fn establish(passive: Passive, number: u32) {
    assert!(matches!(handshake_active(ActiveSignal::Connected), ActiveAction::SendSyn));
    let (state, action) = passive(StatePassive::Listening, packet(ConnPacket::Syn, 1));
    assert_eq!(state, waiting(number));
    let PassiveAction::SendSynAck { seq_num, addr, restart_timeout } = action else {
        panic!("No answer to Syn");
    };
    assert_eq!((seq_num.get(), addr, restart_timeout), (number, host(1), true));
    let answer = Packet::Conn(ConnPacket::SynAck(seq_num));
    let ActiveAction::Finish(back, _) = handshake_active(ActiveSignal::Packet(answer)) else {
        panic!("No answer to SynAck");
    };
    assert_eq!(back, seq_num);
    let (_, action) = passive(state, packet(ConnPacket::SynAckAck(back), 1));
    let PassiveAction::Finish(addr, _) = action else {
        panic!("Not connected");
    };
    assert_eq!(addr, host(1));
}

#[test]
fn hosts_connect() {
    establish(handshake_passive, 4);
    establish(handshake_passive_sm, 5);
}

#[test]
fn active_host_repeats_itself() {
    assert!(matches!(handshake_active(ActiveSignal::Timeout), ActiveAction::SendSyn));
    let other = Packet::Recv(RecvPacket::InitOk);
    assert!(matches!(handshake_active(ActiveSignal::Packet(other)), ActiveAction::Wait));
    let syn = Packet::Conn(ConnPacket::Syn);
    assert!(matches!(handshake_active(ActiveSignal::Packet(syn)), ActiveAction::Wait));
    assert!(matches!(
        handshake_active(ActiveSignal::Error(SocketError::ConnectionRefused)),
        ActiveAction::Fail,
    ));
}

fn resends(passive: Passive, number: u32, signal: PassiveSignal, restart: bool) {
    let (state, action) = passive(waiting(number), signal);
    assert_eq!(state, waiting(number));
    let PassiveAction::SendSynAck { seq_num, addr, restart_timeout } = action else {
        panic!("Not sent again");
    };
    assert_eq!((seq_num.get(), addr, restart_timeout), (number, host(1), restart));
}

#[test]
fn passive_host_repeats_itself() {
    resends(handshake_passive, 4, PassiveSignal::Timeout, true);
    resends(handshake_passive_sm, 5, PassiveSignal::Timeout, true);
    resends(handshake_passive, 4, packet(ConnPacket::Syn, 1), false);
    resends(handshake_passive_sm, 5, packet(ConnPacket::Syn, 1), true);
    // Another host's `Syn` is answered to the host that is waited for, or not at all.
    resends(handshake_passive, 4, packet(ConnPacket::Syn, 2), false);
    let (state, action) = handshake_passive_sm(waiting(5), packet(ConnPacket::Syn, 2));
    assert_eq!(state, waiting(5));
    assert!(matches!(action, PassiveAction::Wait));
}

#[test]
fn only_the_right_answer_completes() {
    for (passive, number) in [(handshake_passive as Passive, 4), (handshake_passive_sm as Passive, 5)] {
        for (answer, port) in [(number + 1, 1), (number, 2)] {
            let ack = ConnPacket::SynAckAck(SeqNum::new(answer));
            let (state, action) = passive(waiting(number), packet(ack, port));
            assert_eq!(state, waiting(number));
            assert!(matches!(action, PassiveAction::Wait));
        }
        let ack = ConnPacket::SynAckAck(SeqNum::new(number));
        let (state, action) = passive(StatePassive::Listening, packet(ack, 1));
        assert_eq!(state, StatePassive::Listening);
        assert!(matches!(action, PassiveAction::Wait));
        let (_, action) = passive(waiting(number), packet(ConnPacket::KeepAlive, 1));
        assert!(matches!(action, PassiveAction::Wait));
    }
}

#[test]
fn errors_of_the_passive_socket() {
    for (passive, number) in [(handshake_passive as Passive, 4), (handshake_passive_sm as Passive, 5)] {
        for error in [SocketError::ConnectionReset, SocketError::ConnectionAborted] {
            let (state, action) = passive(waiting(number), PassiveSignal::Error(error));
            assert_eq!(state, StatePassive::Listening);
            assert!(matches!(action, PassiveAction::Listen));
        }
        let other = PassiveSignal::Error(SocketError::Other);
        let (state, action) = passive(waiting(number), other);
        assert_eq!(state, waiting(number));
        assert!(matches!(action, PassiveAction::Fail));
    }
    let error = PassiveSignal::Error(SocketError::ConnectionReset);
    assert!(matches!(handshake_passive(StatePassive::Listening, error).1, PassiveAction::Wait));
    assert!(matches!(handshake_passive_sm(StatePassive::Listening, error).1, PassiveAction::Fail));
}

#[test]
fn signals_that_make_no_sense() {
    let refused = PassiveSignal::Error(SocketError::ConnectionRefused);
    assert!(!passive_accepts(StatePassive::Listening, PassiveSignal::Timeout));
    assert!(passive_accepts(StatePassive::Listening, refused));
    assert!(passive_accepts(waiting(4), PassiveSignal::Timeout));
    assert!(!passive_accepts(waiting(4), refused));
    assert!(passive_accepts(waiting(4), packet(ConnPacket::Syn, 1)));
}

#[test]
fn only_packets_of_the_connection_are_signals() {
    assert_eq!(
        passive_signal(Packet::Conn(ConnPacket::Syn), host(3)),
        Some(packet(ConnPacket::Syn, 3)),
    );
    assert_eq!(passive_signal(Packet::Recv(RecvPacket::FinOk), host(3)), None);
}
