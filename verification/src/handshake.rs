//! How two hosts come to a connection.
//!
//! The active host sends `Syn`, the passive host answers `SynAck` with a number of its
//! own, and the active host answers `SynAckAck` with that number. Each sends again what
//! was not answered in time.

use vstd::prelude::*;

use crate::packet::{ConnPacket, Packet, PacketView, SeqNum};
use crate::signal::SocketError;

verus! {

/// Keeps a [`Handshake`] from being made outside this module.
#[derive(Debug, Clone, Copy)]
pub struct PrivateZst;

/// The proof that a handshake was completed.
#[derive(Debug, Clone, Copy)]
pub struct Handshake(PrivateZst);

/// The address of a host.
#[derive(Debug, Clone, Copy, PartialEq, Eq, Structural)]
pub struct PeerAddr {
    /// The address is of IP version 6.
    pub v6: bool,
    /// The bits of the IP address.
    pub ip: u128,
    pub port: u16,
    /// The flow of an address of version 6, otherwise zero.
    pub flow_info: u32,
    /// The scope of an address of version 6, otherwise zero.
    pub scope_id: u32,
}

/// What the active host reacts to.
#[derive(Debug)]
pub enum ActiveSignal<'a> {
    /// The socket was connected to the passive host.
    Connected,
    Packet(Packet<'a>),
    Error(SocketError),
    Timeout,
}

/// What the active host does.
#[derive(Debug)]
pub enum ActiveAction {
    /// Go on waiting until the timeout.
    Wait,
    /// Send `Syn` and set the timeout anew.
    SendSyn,
    /// Send `SynAckAck` with this number; the handshake is complete then.
    Finish(SeqNum, Handshake),
    /// Give up with the error of the socket.
    Fail,
}

/// What an [`ActiveSignal`] says.
pub ghost enum ActiveSignalView {
    Connected,
    Packet(PacketView),
    Error(SocketError),
    Timeout,
}

/// What an [`ActiveAction`] says.
pub ghost enum ActiveMove {
    Wait,
    SendSyn,
    Finish(SeqNum),
    Fail,
}

impl<'a> View for ActiveSignal<'a> {
    type V = ActiveSignalView;

    open spec fn view(&self) -> ActiveSignalView {
        match *self {
            ActiveSignal::Connected => ActiveSignalView::Connected,
            ActiveSignal::Packet(p) => ActiveSignalView::Packet(p@),
            ActiveSignal::Error(e) => ActiveSignalView::Error(e),
            ActiveSignal::Timeout => ActiveSignalView::Timeout,
        }
    }
}

impl View for ActiveAction {
    type V = ActiveMove;

    open spec fn view(&self) -> ActiveMove {
        match *self {
            ActiveAction::Wait => ActiveMove::Wait,
            ActiveAction::SendSyn => ActiveMove::SendSyn,
            ActiveAction::Finish(s, _) => ActiveMove::Finish(s),
            ActiveAction::Fail => ActiveMove::Fail,
        }
    }
}

/// The active host sends `Syn` until `SynAck` arrives.
pub open spec fn active_step(signal: ActiveSignalView) -> ActiveMove {
    match signal {
        ActiveSignalView::Connected => ActiveMove::SendSyn,
        ActiveSignalView::Timeout => ActiveMove::SendSyn,
        ActiveSignalView::Error(_) => ActiveMove::Fail,
        ActiveSignalView::Packet(PacketView::Conn(ConnPacket::SynAck(s))) => ActiveMove::Finish(s),
        ActiveSignalView::Packet(_) => ActiveMove::Wait,
    }
}

/// The reaction of the active host.
pub fn handshake_active(signal: ActiveSignal) -> (r: ActiveAction)
    ensures
        r@ == active_step(signal@),
{
    match signal {
        ActiveSignal::Connected => ActiveAction::SendSyn,
        ActiveSignal::Timeout => ActiveAction::SendSyn,
        ActiveSignal::Error(_) => ActiveAction::Fail,
        ActiveSignal::Packet(Packet::Conn(ConnPacket::SynAck(seq_num))) => ActiveAction::Finish(
            seq_num,
            Handshake(PrivateZst),
        ),
        ActiveSignal::Packet(_) => ActiveAction::Wait,
    }
}

/// How far the passive host has come.
#[derive(Debug, Clone, Copy, PartialEq, Eq, Structural)]
pub enum StatePassive {
    Listening,
    /// `SynAck` with this number was sent to this host and awaits its answer.
    GotSynSentSynAckWaitingForAck(SeqNum, PeerAddr),
}

/// What the passive host reacts to.
#[derive(Debug, Clone, Copy, PartialEq, Eq, Structural)]
pub enum PassiveSignal {
    Packet(ConnPacket, PeerAddr),
    Error(SocketError),
    Timeout,
}

/// What the passive host does.
#[derive(Debug)]
pub enum PassiveAction {
    /// Go on waiting until the timeout, if there is one.
    Wait,
    /// Send `SynAck` with this number to this host; set the timeout anew if told so.
    SendSynAck { seq_num: SeqNum, addr: PeerAddr, restart_timeout: bool },
    /// Go on waiting without a timeout.
    Listen,
    /// Connect the socket to this host; the handshake is complete then.
    Finish(PeerAddr, Handshake),
    /// Give up with the error of the socket.
    Fail,
}

/// What a [`PassiveAction`] says.
pub ghost enum PassiveMove {
    Wait,
    SendSynAck { seq_num: SeqNum, addr: PeerAddr, restart_timeout: bool },
    Listen,
    Finish(PeerAddr),
    Fail,
}

impl View for PassiveAction {
    type V = PassiveMove;

    open spec fn view(&self) -> PassiveMove {
        match *self {
            PassiveAction::Wait => PassiveMove::Wait,
            PassiveAction::SendSynAck { seq_num, addr, restart_timeout } => {
                PassiveMove::SendSynAck { seq_num, addr, restart_timeout }
            },
            PassiveAction::Listen => PassiveMove::Listen,
            PassiveAction::Finish(addr, _) => PassiveMove::Finish(addr),
            PassiveAction::Fail => PassiveMove::Fail,
        }
    }
}

/// The signal of a packet from a host, if it makes one.
pub open spec fn signal_from(p: PacketView, addr: PeerAddr) -> Option<PassiveSignal> {
    match p {
        PacketView::Conn(c) => Some(PassiveSignal::Packet(c, addr)),
        _ => None,
    }
}

/// The signal of a packet from a host: only packets that concern the connection make one.
pub fn passive_signal(packet: Packet, addr: PeerAddr) -> (r: Option<PassiveSignal>)
    ensures
        r == (match packet@ {
            PacketView::Conn(p) => Some(PassiveSignal::Packet(p, addr)),
            _ => None,
        }),
        r == signal_from(packet@, addr),
{
    match packet {
        Packet::Conn(p) => Some(PassiveSignal::Packet(p, addr)),
        _ => None,
    }
}

/// The number that `handshake_passive` hands out.
pub const PASSIVE_SEQ_NUM: u32 = 4;

/// The number that `handshake_passive_sm` hands out.
pub const PASSIVE_SM_SEQ_NUM: u32 = 5;

/// The signals that a passive host can be given: there is no timeout while it listens, and
/// a refused connection makes no sense while it waits for an answer.
pub open spec fn passive_admits(state: StatePassive, signal: PassiveSignal) -> bool {
    match state {
        StatePassive::Listening => !(signal is Timeout),
        StatePassive::GotSynSentSynAckWaitingForAck(_, _) => signal != PassiveSignal::Error(
            SocketError::ConnectionRefused,
        ),
    }
}

/// The passive host that overlooks errors while it listens, and that answers `Syn` from
/// anyone while it waits, without giving the host that it waits for more time.
pub open spec fn passive_step(state: StatePassive, signal: PassiveSignal) -> (
    StatePassive,
    PassiveMove,
) {
    match (state, signal) {
        (StatePassive::Listening, PassiveSignal::Packet(ConnPacket::Syn, from)) => (
            StatePassive::GotSynSentSynAckWaitingForAck(SeqNum(PASSIVE_SEQ_NUM), from),
            PassiveMove::SendSynAck { seq_num: SeqNum(PASSIVE_SEQ_NUM), addr: from, restart_timeout: true },
        ),
        (StatePassive::Listening, _) => (state, PassiveMove::Wait),
        (
            StatePassive::GotSynSentSynAckWaitingForAck(seq_num, addr),
            PassiveSignal::Packet(ConnPacket::SynAckAck(s), from),
        ) => if s == seq_num && from == addr {
            (state, PassiveMove::Finish(addr))
        } else {
            (state, PassiveMove::Wait)
        },
        (
            StatePassive::GotSynSentSynAckWaitingForAck(seq_num, addr),
            PassiveSignal::Packet(ConnPacket::Syn, _),
        ) => (state, PassiveMove::SendSynAck { seq_num, addr, restart_timeout: false }),
        (
            StatePassive::GotSynSentSynAckWaitingForAck(seq_num, addr),
            PassiveSignal::Timeout,
        ) => (state, PassiveMove::SendSynAck { seq_num, addr, restart_timeout: true }),
        (_, PassiveSignal::Error(SocketError::ConnectionReset)) => (
            StatePassive::Listening,
            PassiveMove::Listen,
        ),
        (_, PassiveSignal::Error(SocketError::ConnectionAborted)) => (
            StatePassive::Listening,
            PassiveMove::Listen,
        ),
        (_, PassiveSignal::Error(_)) => (state, PassiveMove::Fail),
        (_, PassiveSignal::Packet(_, _)) => (state, PassiveMove::Wait),
    }
}

/// The passive host that gives up on errors while it listens, and that answers `Syn` only
/// from the host that it waits for, giving that host more time.
pub open spec fn passive_sm_step(state: StatePassive, signal: PassiveSignal) -> (
    StatePassive,
    PassiveMove,
) {
    let answer = |addr: PeerAddr|
        (
            StatePassive::GotSynSentSynAckWaitingForAck(SeqNum(PASSIVE_SM_SEQ_NUM), addr),
            PassiveMove::SendSynAck { seq_num: SeqNum(PASSIVE_SM_SEQ_NUM), addr, restart_timeout: true },
        );
    match (state, signal) {
        (StatePassive::Listening, PassiveSignal::Packet(ConnPacket::Syn, from)) => answer(from),
        (StatePassive::Listening, PassiveSignal::Error(_)) => (state, PassiveMove::Fail),
        (StatePassive::Listening, _) => (state, PassiveMove::Wait),
        (
            StatePassive::GotSynSentSynAckWaitingForAck(seq_num, addr),
            PassiveSignal::Packet(ConnPacket::SynAckAck(s), from),
        ) => if s == seq_num && from == addr {
            (state, PassiveMove::Finish(addr))
        } else {
            (state, PassiveMove::Wait)
        },
        (
            StatePassive::GotSynSentSynAckWaitingForAck(_, addr),
            PassiveSignal::Packet(ConnPacket::Syn, from),
        ) => if from == addr {
            answer(addr)
        } else {
            (state, PassiveMove::Wait)
        },
        (
            StatePassive::GotSynSentSynAckWaitingForAck(_, addr),
            PassiveSignal::Timeout,
        ) => answer(addr),
        (_, PassiveSignal::Error(SocketError::ConnectionReset)) => (
            StatePassive::Listening,
            PassiveMove::Listen,
        ),
        (_, PassiveSignal::Error(SocketError::ConnectionAborted)) => (
            StatePassive::Listening,
            PassiveMove::Listen,
        ),
        (_, PassiveSignal::Error(_)) => (state, PassiveMove::Fail),
        (_, PassiveSignal::Packet(_, _)) => (state, PassiveMove::Wait),
    }
}

/// Whether a passive host can be given the signal.
pub fn passive_accepts(state: StatePassive, signal: PassiveSignal) -> (b: bool)
    ensures
        b == passive_admits(state, signal),
{
    match (state, signal) {
        (StatePassive::Listening, PassiveSignal::Timeout) => false,
        (StatePassive::Listening, _) => true,
        (_, PassiveSignal::Error(SocketError::ConnectionRefused)) => false,
        _ => true,
    }
}

/// The reaction of the passive host, and the state that it comes to.
pub fn handshake_passive(state: StatePassive, signal: PassiveSignal) -> (r: (
    StatePassive,
    PassiveAction,
))
    requires
        passive_admits(state, signal),
    ensures
        (r.0, r.1@) == passive_step(state, signal),
{
    match (state, signal) {
        (StatePassive::Listening, PassiveSignal::Packet(ConnPacket::Syn, from)) => {
            let seq_num: SeqNum = SeqNum(PASSIVE_SEQ_NUM);
            (
                StatePassive::GotSynSentSynAckWaitingForAck(seq_num, from),
                PassiveAction::SendSynAck { seq_num, addr: from, restart_timeout: true },
            )
        },
        (StatePassive::Listening, _) => (state, PassiveAction::Wait),
        (
            StatePassive::GotSynSentSynAckWaitingForAck(seq_num, addr),
            PassiveSignal::Packet(ConnPacket::SynAckAck(s), from),
        ) => {
            if s == seq_num && from == addr {
                (state, PassiveAction::Finish(addr, Handshake(PrivateZst)))
            } else {
                (state, PassiveAction::Wait)
            }
        },
        (
            StatePassive::GotSynSentSynAckWaitingForAck(seq_num, addr),
            PassiveSignal::Packet(ConnPacket::Syn, _),
        ) => (state, PassiveAction::SendSynAck { seq_num, addr, restart_timeout: false }),
        (
            StatePassive::GotSynSentSynAckWaitingForAck(seq_num, addr),
            PassiveSignal::Timeout,
        ) => (state, PassiveAction::SendSynAck { seq_num, addr, restart_timeout: true }),
        (_, PassiveSignal::Error(SocketError::ConnectionReset)) => (
            StatePassive::Listening,
            PassiveAction::Listen,
        ),
        (_, PassiveSignal::Error(SocketError::ConnectionAborted)) => (
            StatePassive::Listening,
            PassiveAction::Listen,
        ),
        (_, PassiveSignal::Error(_)) => (state, PassiveAction::Fail),
        (_, PassiveSignal::Packet(_, _)) => (state, PassiveAction::Wait),
    }
}

/// The reaction of the passive host that insists on one peer, and the state that it comes to.
pub fn handshake_passive_sm(state: StatePassive, signal: PassiveSignal) -> (r: (
    StatePassive,
    PassiveAction,
))
    requires
        passive_admits(state, signal),
    ensures
        (r.0, r.1@) == passive_sm_step(state, signal),
{
    let answer_to: PeerAddr = match (state, signal) {
        (
            StatePassive::GotSynSentSynAckWaitingForAck(seq_num, addr),
            PassiveSignal::Packet(ConnPacket::SynAckAck(s), from),
        ) => {
            if s != seq_num || from != addr {
                return (state, PassiveAction::Wait);
            }
            return (state, PassiveAction::Finish(addr, Handshake(PrivateZst)));
        },
        (
            StatePassive::GotSynSentSynAckWaitingForAck(_, addr),
            PassiveSignal::Packet(ConnPacket::Syn, from),
        ) => {
            if from != addr {
                return (state, PassiveAction::Wait);
            }
            addr
        },
        (StatePassive::Listening, PassiveSignal::Packet(ConnPacket::Syn, from)) => from,
        (StatePassive::GotSynSentSynAckWaitingForAck(_, addr), PassiveSignal::Timeout) => addr,
        (StatePassive::Listening, PassiveSignal::Error(_)) => {
            return (state, PassiveAction::Fail);
        },
        (_, PassiveSignal::Error(SocketError::ConnectionReset))
        | (_, PassiveSignal::Error(SocketError::ConnectionAborted)) => {
            return (StatePassive::Listening, PassiveAction::Listen);
        },
        (_, PassiveSignal::Error(_)) => {
            return (state, PassiveAction::Fail);
        },
        _ => {
            return (state, PassiveAction::Wait);
        },
    };
    let seq_num: SeqNum = SeqNum(PASSIVE_SM_SEQ_NUM);
    (
        StatePassive::GotSynSentSynAckWaitingForAck(seq_num, answer_to),
        PassiveAction::SendSynAck { seq_num, addr: answer_to, restart_timeout: true },
    )
}

/// The number that a waiting passive host handed out is its own.
pub open spec fn passive_wf(state: StatePassive, own: SeqNum) -> bool {
    state matches StatePassive::GotSynSentSynAckWaitingForAck(s, _) ==> s == own
}

/// A passive host waits for its own number only, whatever it reacts to.
pub proof fn law_passive_number_is_kept(state: StatePassive, signal: PassiveSignal)
    ensures
        passive_wf(state, SeqNum(PASSIVE_SEQ_NUM)) ==> passive_wf(
            passive_step(state, signal).0,
            SeqNum(PASSIVE_SEQ_NUM),
        ),
        passive_wf(state, SeqNum(PASSIVE_SM_SEQ_NUM)) ==> passive_wf(
            passive_sm_step(state, signal).0,
            SeqNum(PASSIVE_SM_SEQ_NUM),
        ),
{
}

/// The handshake, none of its packets lost: `Syn`, the answer `SynAck`, the answer
/// `SynAckAck` with the number of `SynAck`, and both hosts are done, the passive host
/// with the host that sent `Syn`.
pub proof fn law_handshake_completes(from: PeerAddr)
    ensures
        active_step(ActiveSignalView::Connected) == ActiveMove::SendSyn,
        ({
            let syn = PassiveSignal::Packet(ConnPacket::Syn, from);
            let (waiting, answer) = passive_step(StatePassive::Listening, syn);
            &&& answer matches PassiveMove::SendSynAck { seq_num, addr, .. } && addr == from && {
                let got = ActiveSignalView::Packet(PacketView::Conn(ConnPacket::SynAck(seq_num)));
                let ack = PassiveSignal::Packet(ConnPacket::SynAckAck(seq_num), from);
                &&& active_step(got) == ActiveMove::Finish(seq_num)
                &&& passive_step(waiting, ack).1 == PassiveMove::Finish(from)
            }
        }),
        ({
            let syn = PassiveSignal::Packet(ConnPacket::Syn, from);
            let (waiting, answer) = passive_sm_step(StatePassive::Listening, syn);
            &&& answer matches PassiveMove::SendSynAck { seq_num, addr, .. } && addr == from && {
                let got = ActiveSignalView::Packet(PacketView::Conn(ConnPacket::SynAck(seq_num)));
                let ack = PassiveSignal::Packet(ConnPacket::SynAckAck(seq_num), from);
                &&& active_step(got) == ActiveMove::Finish(seq_num)
                &&& passive_sm_step(waiting, ack).1 == PassiveMove::Finish(from)
            }
        }),
{
}

/// A passive host is done only when the host that it answered sends the number back that it
/// was given.
pub proof fn law_only_the_answer_completes(
    state: StatePassive,
    signal: PassiveSignal,
    addr: PeerAddr,
)
    ensures
        passive_step(state, signal).1 == PassiveMove::Finish(addr) <==> (state matches
            StatePassive::GotSynSentSynAckWaitingForAck(s, a) && a == addr && signal
            == PassiveSignal::Packet(ConnPacket::SynAckAck(s), addr)),
        passive_sm_step(state, signal).1 == PassiveMove::Finish(addr) <==> (state matches
            StatePassive::GotSynSentSynAckWaitingForAck(s, a) && a == addr && signal
            == PassiveSignal::Packet(ConnPacket::SynAckAck(s), addr)),
{
}

/// What was not answered in time is sent again, to the host that it was sent to, and so it
/// is when that host sends `Syn` again; the passive host goes on waiting for the same answer.
pub proof fn law_handshake_is_repeated(addr: PeerAddr)
    ensures
        active_step(ActiveSignalView::Timeout) == ActiveMove::SendSyn,
        ({
            let seq_num = SeqNum(PASSIVE_SEQ_NUM);
            let waiting = StatePassive::GotSynSentSynAckWaitingForAck(seq_num, addr);
            let again = PassiveMove::SendSynAck { seq_num, addr, restart_timeout: true };
            let hasty = PassiveMove::SendSynAck { seq_num, addr, restart_timeout: false };
            &&& passive_step(waiting, PassiveSignal::Timeout) == (waiting, again)
            &&& passive_step(waiting, PassiveSignal::Packet(ConnPacket::Syn, addr)) == (waiting, hasty)
        }),
        ({
            let seq_num = SeqNum(PASSIVE_SM_SEQ_NUM);
            let waiting = StatePassive::GotSynSentSynAckWaitingForAck(seq_num, addr);
            let again = PassiveMove::SendSynAck { seq_num, addr, restart_timeout: true };
            &&& passive_sm_step(waiting, PassiveSignal::Timeout) == (waiting, again)
            &&& passive_sm_step(waiting, PassiveSignal::Packet(ConnPacket::Syn, addr)) == (
                waiting,
                again,
            )
        }),
{
}

} // verus!
