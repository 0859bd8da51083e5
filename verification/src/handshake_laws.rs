//! What holds of both sides of a handshake on every signal and over every history.

use vstd::prelude::*;

use crate::frame::{Codec, FrameError};
use crate::handshake::{
    active_step, passive_admits, passive_sm_step, passive_step, signal_from, ActiveMove,
    ActiveSignalView, PassiveMove, PassiveSignal, PeerAddr, StatePassive,
};
use crate::packet::{ConnPacket, PacketView, SeqNum};
use crate::packet_laws::law_frame_round_trip;
use crate::signal::SocketError;

verus! {

/// The active host sends `Syn` when it is connected and whenever its time is up, completes the
/// handshake on `SynAck`, whatever number it brings, by sending that number back, gives up on
/// every error, and on no other packet does anything.
pub proof fn law_active_host(s: SeqNum, p: PacketView, e: SocketError)
    ensures
        active_step(ActiveSignalView::Connected) is SendSyn,
        active_step(ActiveSignalView::Timeout) is SendSyn,
        active_step(
            ActiveSignalView::Packet(PacketView::Conn(ConnPacket::SynAck(s))),
        ) == ActiveMove::Finish(s),
        active_step(ActiveSignalView::Error(e)) is Fail,
        !(p matches PacketView::Conn(ConnPacket::SynAck(_))) ==> active_step(
            ActiveSignalView::Packet(p),
        ) is Wait,
{
}

/// The signals that a passive host can be given: all, but for a timeout while it listens and a
/// refused connection while it waits.
pub proof fn law_what_a_passive_host_takes(state: StatePassive, signal: PassiveSignal)
    ensures
        passive_admits(state, signal) <==> {
            ||| state is Listening && !(signal is Timeout)
            ||| !(state is Listening) && !(signal matches PassiveSignal::Error(
                SocketError::ConnectionRefused,
            ))
        },
{
}

/// The answer to `Syn` while a passive host listens: `SynAck`, to the host that sent it, with a
/// timeout, and that host's answer is waited for. Everything else that comes in while it
/// listens leaves it listening; errors are overlooked by the one host and end the other.
pub proof fn law_listening(from: PeerAddr, p: ConnPacket, e: SocketError)
    ensures
        ({
            let s = SeqNum(4);
            passive_step(
                StatePassive::Listening,
                PassiveSignal::Packet(ConnPacket::Syn, from),
            ) == (
                StatePassive::GotSynSentSynAckWaitingForAck(s, from),
                PassiveMove::SendSynAck { seq_num: s, addr: from, restart_timeout: true },
            )
        }),
        ({
            let s = SeqNum(5);
            passive_sm_step(
                StatePassive::Listening,
                PassiveSignal::Packet(ConnPacket::Syn, from),
            ) == (
                StatePassive::GotSynSentSynAckWaitingForAck(s, from),
                PassiveMove::SendSynAck { seq_num: s, addr: from, restart_timeout: true },
            )
        }),
        !(p is Syn) ==> {
            let other = PassiveSignal::Packet(p, from);
            let unmoved = (StatePassive::Listening, PassiveMove::Wait);
            &&& passive_step(StatePassive::Listening, other) == unmoved
            &&& passive_sm_step(StatePassive::Listening, other) == unmoved
        },
        passive_step(StatePassive::Listening, PassiveSignal::Error(e)) == (
            StatePassive::Listening,
            PassiveMove::Wait,
        ),
        passive_sm_step(StatePassive::Listening, PassiveSignal::Error(e)).1 is Fail,
{
}

/// While a passive host waits for an answer: the number that it gave, from the host that it
/// gave it to, completes the handshake; when its time is up, `SynAck` is sent again, to that
/// host, with a new timeout; `Syn` from that host makes it be sent again; other packets from
/// that host, wrong numbers and answers of other hosts change nothing; a connection that was
/// reset or aborted makes it listen again, and other errors end it.
pub proof fn law_waiting(s: SeqNum, addr: PeerAddr, from: PeerAddr, n: SeqNum, p: ConnPacket)
    ensures
        ({
            let waiting = StatePassive::GotSynSentSynAckWaitingForAck(s, addr);
            let again = PassiveMove::SendSynAck { seq_num: s, addr, restart_timeout: true };
            let answer = PassiveSignal::Packet(ConnPacket::SynAckAck(n), from);
            let syn = PassiveSignal::Packet(ConnPacket::Syn, from);
            let other = PassiveSignal::Packet(p, from);
            let reset = PassiveSignal::Error(SocketError::ConnectionReset);
            let aborted = PassiveSignal::Error(SocketError::ConnectionAborted);
            let error = PassiveSignal::Error(SocketError::Other);
            let anew = (StatePassive::Listening, PassiveMove::Listen);
            &&& n == s && from == addr ==> passive_step(waiting, answer) == (
                waiting,
                PassiveMove::Finish(addr),
            )
            &&& n != s || from != addr ==> passive_step(waiting, answer) == (
                waiting,
                PassiveMove::Wait,
            )
            &&& passive_step(waiting, PassiveSignal::Timeout) == (waiting, again)
            &&& passive_step(waiting, syn) == (
                waiting,
                PassiveMove::SendSynAck { seq_num: s, addr, restart_timeout: false },
            )
            &&& !(p is Syn) && !(p is SynAckAck) ==> passive_step(waiting, other) == (
                waiting,
                PassiveMove::Wait,
            )
            &&& passive_step(waiting, reset) == anew
            &&& passive_step(waiting, aborted) == anew
            &&& passive_step(waiting, error).1 is Fail
        }),
        ({
            let waiting = StatePassive::GotSynSentSynAckWaitingForAck(s, addr);
            let five = SeqNum(5);
            let renewed = StatePassive::GotSynSentSynAckWaitingForAck(five, addr);
            let again = PassiveMove::SendSynAck { seq_num: five, addr, restart_timeout: true };
            let answer = PassiveSignal::Packet(ConnPacket::SynAckAck(n), from);
            let syn = PassiveSignal::Packet(ConnPacket::Syn, from);
            let other = PassiveSignal::Packet(p, from);
            let reset = PassiveSignal::Error(SocketError::ConnectionReset);
            let aborted = PassiveSignal::Error(SocketError::ConnectionAborted);
            let error = PassiveSignal::Error(SocketError::Other);
            let anew = (StatePassive::Listening, PassiveMove::Listen);
            let unmoved = (waiting, PassiveMove::Wait);
            &&& n == s && from == addr ==> passive_sm_step(waiting, answer) == (
                waiting,
                PassiveMove::Finish(addr),
            )
            &&& n != s || from != addr ==> passive_sm_step(waiting, answer) == unmoved
            &&& passive_sm_step(waiting, PassiveSignal::Timeout) == (renewed, again)
            &&& from == addr ==> passive_sm_step(waiting, syn) == (renewed, again)
            &&& from != addr ==> passive_sm_step(waiting, syn) == unmoved
            &&& !(p is Syn) && !(p is SynAckAck) ==> passive_sm_step(waiting, other) == unmoved
            &&& passive_sm_step(waiting, reset) == anew
            &&& passive_sm_step(waiting, aborted) == anew
            &&& passive_sm_step(waiting, error).1 is Fail
        }),
{
}

/// Only packets that concern the connection are signals to a passive host, each with the host
/// that it came from.
pub proof fn law_signal_from(p: PacketView, addr: PeerAddr)
    ensures
        match p {
            PacketView::Conn(c) => signal_from(p, addr) == Some(PassiveSignal::Packet(c, addr)),
            PacketView::Send(_) => signal_from(p, addr) is None,
            PacketView::Recv(_) => signal_from(p, addr) is None,
        },
{
}

/// A packet is read from its frame as it was sent.
#[verifier::opaque]
pub open spec fn arrives(codec: Codec, p: PacketView) -> bool {
    codec.read(codec.frame(p)) == Ok::<Option<PacketView>, FrameError>(Some(p))
}

/// The packets of a connection arrive.
proof fn lemma_arrives(codec: Codec, p: PacketView)
    requires
        p is Conn,
        p matches PacketView::Conn(ConnPacket::SynAck(s)) ==> s.0 < 0x1000_0000,
        p matches PacketView::Conn(ConnPacket::SynAckAck(s)) ==> s.0 < 0x1000_0000,
    ensures
        arrives(codec, p),
{
    reveal(arrives);
    law_frame_round_trip(codec, p);
}

/// The handshake over the wire: every packet of it is read from its frame as it was sent, the
/// answers are those that the other host waits for, and at its end the passive host has the host
/// that sent `Syn`.
pub proof fn law_handshake_over_the_wire(codec: Codec, from: PeerAddr)
    ensures
        ({
            let syn = PacketView::Conn(ConnPacket::Syn);
            let heard = signal_from(syn, from).unwrap();
            let (waiting, answer) = passive_step(StatePassive::Listening, heard);
            let (sm_waiting, sm_answer) = passive_sm_step(StatePassive::Listening, heard);
            &&& arrives(codec, syn) && signal_from(syn, from) is Some
            &&& answer matches PassiveMove::SendSynAck { seq_num, addr, .. } && addr == from && {
                let syn_ack = PacketView::Conn(ConnPacket::SynAck(seq_num));
                &&& arrives(codec, syn_ack)
                &&& active_step(ActiveSignalView::Packet(syn_ack)) matches ActiveMove::Finish(n) && {
                    let ack = PacketView::Conn(ConnPacket::SynAckAck(n));
                    &&& arrives(codec, ack)
                    &&& signal_from(ack, from) matches Some(signal) && passive_step(
                        waiting,
                        signal,
                    ).1 == PassiveMove::Finish(from)
                }
            }
            &&& sm_answer matches PassiveMove::SendSynAck { seq_num, addr, .. } && addr == from && {
                let syn_ack = PacketView::Conn(ConnPacket::SynAck(seq_num));
                &&& arrives(codec, syn_ack)
                &&& active_step(ActiveSignalView::Packet(syn_ack)) matches ActiveMove::Finish(n) && {
                    let ack = PacketView::Conn(ConnPacket::SynAckAck(n));
                    &&& arrives(codec, ack)
                    &&& signal_from(ack, from) matches Some(signal) && passive_sm_step(
                        sm_waiting,
                        signal,
                    ).1 == PassiveMove::Finish(from)
                }
            }
        }),
{
    lemma_arrives(codec, PacketView::Conn(ConnPacket::Syn));
    lemma_arrives(codec, PacketView::Conn(ConnPacket::SynAck(SeqNum(4))));
    lemma_arrives(codec, PacketView::Conn(ConnPacket::SynAckAck(SeqNum(4))));
    lemma_arrives(codec, PacketView::Conn(ConnPacket::SynAck(SeqNum(5))));
    lemma_arrives(codec, PacketView::Conn(ConnPacket::SynAckAck(SeqNum(5))));
}

/// Whether a timeout is set once a passive host has done what it does about a signal, if one
/// was set before. A timeout that is the signal is set no more.
pub open spec fn timeout_set(before: bool, signal: PassiveSignal, done: PassiveMove) -> bool {
    match done {
        PassiveMove::SendSynAck { restart_timeout: true, .. } => true,
        PassiveMove::Listen => false,
        _ => before && !(signal is Timeout),
    }
}

/// A passive host that waits for an answer has a timeout set, and one that listens has none,
/// whatever comes: so `SynAck` is sent again until it is answered, and no timeout comes while a
/// host listens.
pub proof fn law_timeout_while_waiting(state: StatePassive, signal: PassiveSignal)
    requires
        passive_admits(state, signal),
    ensures
        ({
            let set = !(state is Listening);
            let (next, done) = passive_step(state, signal);
            let (sm_next, sm_done) = passive_sm_step(state, signal);
            &&& timeout_set(set, signal, done) <==> !(next is Listening)
            &&& timeout_set(set, signal, sm_done) <==> !(sm_next is Listening)
            &&& signal is Timeout ==> set
        }),
{
}

} // verus!
