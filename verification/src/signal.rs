//! What a connection reacts to, and what it asks to be done.

use vstd::prelude::*;

use crate::message::{Message, MessageView};
use crate::packet::{ConnPacket, Packet, PacketView, RecvPacket, SendPacket, SendPacketView, SeqNum};

verus! {

/// Tells the timers of a connection apart.
pub type TimerId = u64;

/// What a connection reacts to.
#[derive(Debug)]
pub enum Sig<'a> {
    Conn(ConnSig),
    Recv(RecvSig<'a>),
    Send(SendSig),
}

/// Signals that concern the connection itself.
#[derive(Debug, Clone, Copy, PartialEq, Eq, Structural)]
pub enum ConnSig {
    Packet(ConnPacket),
    SocketError(SocketError),
    /// Nothing has arrived for as long as a connection may be silent.
    KeepAlive,
    /// A keep-alive was not answered in time.
    KeepAliveExpired,
}

/// Signals that concern the message being received.
#[derive(Debug)]
pub enum RecvSig<'a> {
    Packet(SendPacket<'a>),
    FinOkExpired,
}

/// Signals that concern the message being sent.
#[derive(Debug)]
pub enum SendSig {
    Packet(RecvPacket),
    InitExpired,
    FinExpired,
    TimeWaitToCloseExpired,
    AckExpired(SeqNum),
    StartSendingFile(Message),
}

/// The kinds of error of a socket that make a difference.
#[derive(Debug, Clone, Copy, PartialEq, Eq, Structural)]
pub enum SocketError {
    ConnectionReset,
    ConnectionAborted,
    ConnectionRefused,
    Other,
}

/// What a timer was started for.
#[derive(Debug, Clone, Copy, PartialEq, Eq, Structural)]
pub enum Expired {
    Ack(SeqNum),
    Fin,
    FinOk,
    TimeWaitToClose,
    KeepAlive,
    Init,
}

/// How long a timer runs.
#[derive(Debug, Clone, Copy, PartialEq, Eq, Structural)]
pub enum Delay {
    /// The time within which a packet is to be acknowledged.
    AckTimeout,
    /// Ten times that.
    TenAckTimeouts,
    /// The time within which a keep-alive is to be answered.
    KaTimeout,
}

/// What is to be done, in the order given.
#[derive(Debug, Clone, Copy, PartialEq, Eq, Structural)]
pub enum Action {
    SendConn(ConnPacket),
    SendRecv(RecvPacket),
    /// Announce the message being sent.
    SendInit,
    /// Send this part of the message being sent.
    SendData(SeqNum),
    SendFin,
    SendFinOkOk,
    StartTimer { id: TimerId, expired: Expired, delay: Delay },
    CancelTimer(TimerId),
    /// Tell whoever is sending that the message has arrived.
    NotifySender,
    /// End the connection and give the socket back.
    Close,
    /// End the connection with the error of the socket.
    Fail,
}

/// What a [`Sig`] says.
pub ghost enum SigView {
    Conn(ConnSig),
    Recv(RecvSigView),
    Send(SendSigView),
}

/// What a [`RecvSig`] says.
pub ghost enum RecvSigView {
    Packet(SendPacketView),
    FinOkExpired,
}

/// What a [`SendSig`] says.
pub ghost enum SendSigView {
    Packet(RecvPacket),
    InitExpired,
    FinExpired,
    TimeWaitToCloseExpired,
    AckExpired(SeqNum),
    StartSendingFile(MessageView),
}

impl<'a> View for RecvSig<'a> {
    type V = RecvSigView;

    open spec fn view(&self) -> RecvSigView {
        match *self {
            RecvSig::Packet(p) => RecvSigView::Packet(p@),
            RecvSig::FinOkExpired => RecvSigView::FinOkExpired,
        }
    }
}

impl View for SendSig {
    type V = SendSigView;

    open spec fn view(&self) -> SendSigView {
        match *self {
            SendSig::Packet(p) => SendSigView::Packet(p),
            SendSig::InitExpired => SendSigView::InitExpired,
            SendSig::FinExpired => SendSigView::FinExpired,
            SendSig::TimeWaitToCloseExpired => SendSigView::TimeWaitToCloseExpired,
            SendSig::AckExpired(s) => SendSigView::AckExpired(s),
            SendSig::StartSendingFile(m) => SendSigView::StartSendingFile(m@),
        }
    }
}

impl<'a> View for Sig<'a> {
    type V = SigView;

    open spec fn view(&self) -> SigView {
        match *self {
            Sig::Conn(s) => SigView::Conn(s),
            Sig::Recv(s) => SigView::Recv(s@),
            Sig::Send(s) => SigView::Send(s@),
        }
    }
}

/// The signal of a packet that arrived: who sends a message gets the receiver's packets,
/// and the other way round.
pub open spec fn signal_of_packet(p: PacketView) -> SigView {
    match p {
        PacketView::Conn(p) => SigView::Conn(ConnSig::Packet(p)),
        PacketView::Send(p) => SigView::Recv(RecvSigView::Packet(p)),
        PacketView::Recv(p) => SigView::Send(SendSigView::Packet(p)),
    }
}

/// The signal of a timer that ran out.
pub open spec fn signal_of_timer(e: Expired) -> SigView {
    match e {
        Expired::Ack(s) => SigView::Send(SendSigView::AckExpired(s)),
        Expired::Init => SigView::Send(SendSigView::InitExpired),
        Expired::Fin => SigView::Send(SendSigView::FinExpired),
        Expired::FinOk => SigView::Recv(RecvSigView::FinOkExpired),
        Expired::TimeWaitToClose => SigView::Send(SendSigView::TimeWaitToCloseExpired),
        Expired::KeepAlive => SigView::Conn(ConnSig::KeepAliveExpired),
    }
}

impl<'a> Sig<'a> {
    pub fn of_packet(packet: Packet<'a>) -> (sig: Sig<'a>)
        ensures
            sig@ == signal_of_packet(packet@),
    {
        match packet {
            Packet::Conn(p) => Sig::Conn(ConnSig::Packet(p)),
            Packet::Send(p) => Sig::Recv(RecvSig::Packet(p)),
            Packet::Recv(p) => Sig::Send(SendSig::Packet(p)),
        }
    }

    pub fn of_timer(expired: Expired) -> (sig: Sig<'a>)
        ensures
            sig@ == signal_of_timer(expired),
    {
        match expired {
            Expired::Ack(s) => Sig::Send(SendSig::AckExpired(s)),
            Expired::Init => Sig::Send(SendSig::InitExpired),
            Expired::Fin => Sig::Send(SendSig::FinExpired),
            Expired::FinOk => Sig::Recv(RecvSig::FinOkExpired),
            Expired::TimeWaitToClose => Sig::Send(SendSig::TimeWaitToCloseExpired),
            Expired::KeepAlive => Sig::Conn(ConnSig::KeepAliveExpired),
        }
    }
}

} // verus!
