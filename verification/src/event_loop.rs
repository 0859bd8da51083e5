//! A connection: how it reacts to packets, timers, its socket and its user.

use vstd::prelude::*;

use crate::frame::{Codec, FrameError};
use crate::handshake::Handshake;
use crate::message::{Message, MessageView};
use crate::packet::{
    encodable, ConnPacket, Packet, PacketView, RecvPacket, SendPacket, SendPacketView, SeqNum,
    SEQ_NUM_LIMIT,
};
use crate::receiver::{
    handle_receive, reader_view, receive_accepts, receiving_admits, receiving_step, ReceiveState,
    ReceiveStateView,
};
use crate::sender::{
    burst, cancel, cancel_timer, first_window, handle_send, lemma_burst, lemma_packet_count,
    lemma_repeated, lemma_sending_wf, opened, repeated, send_accepts, sender_view, sending_admits,
    sending_step, sending_wf, start, start_timer, timers_left, SendState, SendStateView,
    WINDOW_SIZE,
};
use crate::signal::{
    signal_of_packet, Action, ConnSig, Delay, Expired, SendSig, SendSigView, Sig, SigView,
    SocketError, TimerId,
};
use crate::wire::splice;
use crate::MSS;

verus! {

/// A connection between two hosts that have shaken hands.
#[derive(Debug)]
pub struct EventLoop {
    /// The kind of frame that the hosts exchange.
    pub codec: Codec,
    /// The message that is arriving.
    pub reader: Option<ReceiveState>,
    /// The message on its way.
    pub sender: Option<SendState>,
    /// The timer of the keep-alive that awaits its answer.
    pub keep_alive_key: Option<TimerId>,
    /// The number of the next timer.
    pub next_timer: TimerId,
}

/// What an [`EventLoop`] says.
#[verifier::ext_equal]
pub ghost struct LoopView {
    pub codec: Codec,
    pub reader: Option<ReceiveStateView>,
    pub sender: Option<SendStateView>,
    pub keep_alive_key: Option<TimerId>,
    pub next_timer: TimerId,
}

/// What a connection does about a signal: its new state, what is to be done, and the
/// message that has arrived.
#[verifier::ext_equal]
pub ghost struct Step {
    pub next: LoopView,
    pub actions: Seq<Action>,
    pub message: Option<MessageView>,
}

impl View for EventLoop {
    type V = LoopView;

    open spec fn view(&self) -> LoopView {
        LoopView {
            codec: self.codec,
            reader: reader_view(self.reader),
            sender: sender_view(self.sender),
            keep_alive_key: self.keep_alive_key,
            next_timer: self.next_timer,
        }
    }
}

impl LoopView {
    /// What holds of a connection at any time.
    pub open spec fn wf(self) -> bool {
        &&& sending_wf(self.sender)
        &&& self.sender matches Some(s) ==> s.payload_size + 4 <= self.codec.room()
    }

    /// The signals that the connection can be given.
    pub open spec fn admits(self, sig: SigView) -> bool {
        &&& timers_left(self.next_timer)
        &&& match sig {
            SigView::Conn(ConnSig::Packet(ConnPacket::SynAck(s))) => s.0 < SEQ_NUM_LIMIT,
            SigView::Conn(ConnSig::SocketError(e)) => e != SocketError::ConnectionRefused,
            SigView::Conn(_) => true,
            SigView::Send(s) => {
                &&& sending_admits(self.sender, s)
                &&& s matches SendSigView::StartSendingFile(m) ==> m.payload_size + 4
                    <= self.codec.room()
            },
            SigView::Recv(s) => receiving_admits(self.reader, s),
        }
    }

    /// What the connection does about a signal that concerns itself.
    pub open spec fn conn_step(self, sig: ConnSig) -> Step {
        let t = self.next_timer;
        let stay = Step { next: self, actions: seq![], message: None };
        match sig {
            ConnSig::Packet(ConnPacket::Syn) => stay,
            ConnSig::Packet(ConnPacket::SynAckAck(_)) => stay,
            ConnSig::Packet(ConnPacket::SynAck(s)) => Step {
                actions: seq![Action::SendConn(ConnPacket::SynAckAck(s))],
                ..stay
            },
            ConnSig::Packet(ConnPacket::KeepAlive) => Step {
                actions: seq![Action::SendConn(ConnPacket::KeepAliveOk)],
                ..stay
            },
            ConnSig::Packet(ConnPacket::KeepAliveOk) => Step {
                next: LoopView { keep_alive_key: None, ..self },
                actions: cancel(self.keep_alive_key),
                message: None,
            },
            // One that awaits its answer keeps its time.
            ConnSig::KeepAlive => if self.keep_alive_key is Some {
                Step { actions: seq![Action::SendConn(ConnPacket::KeepAlive)], ..stay }
            } else {
                Step {
                    next: LoopView {
                        keep_alive_key: Some(t),
                        next_timer: (t + 1) as u64,
                        ..self
                    },
                    actions: seq![
                        Action::SendConn(ConnPacket::KeepAlive),
                        start(t, Expired::KeepAlive, Delay::KaTimeout),
                    ],
                    message: None,
                }
            },
            ConnSig::KeepAliveExpired => Step {
                next: LoopView { keep_alive_key: None, ..self },
                actions: seq![Action::Close],
                message: None,
            },
            ConnSig::SocketError(SocketError::ConnectionReset) => Step {
                actions: seq![Action::Close],
                ..stay
            },
            ConnSig::SocketError(SocketError::ConnectionAborted) => Step {
                actions: seq![Action::Close],
                ..stay
            },
            ConnSig::SocketError(_) => Step { actions: seq![Action::Fail], ..stay },
        }
    }

    /// What the connection does about a signal.
    pub open spec fn step(self, sig: SigView) -> Step {
        match sig {
            SigView::Conn(s) => self.conn_step(s),
            SigView::Send(s) => {
                let r = sending_step(self.sender, self.next_timer, s);
                Step {
                    next: LoopView { sender: r.sender, next_timer: r.next_timer, ..self },
                    actions: r.actions,
                    message: None,
                }
            },
            SigView::Recv(s) => {
                let r = receiving_step(self.reader, self.next_timer, s);
                Step {
                    next: LoopView { reader: r.reader, next_timer: r.next_timer, ..self },
                    actions: r.actions,
                    message: r.message,
                }
            },
        }
    }

    /// The packet that an action sends, if it sends one.
    pub open spec fn packet(self, action: Action) -> Option<PacketView> {
        match action {
            Action::SendConn(p) => Some(PacketView::Conn(p)),
            Action::SendRecv(p) => Some(PacketView::Recv(p)),
            Action::SendFin => Some(PacketView::Send(SendPacketView::Fin)),
            Action::SendFinOkOk => Some(PacketView::Send(SendPacketView::FinOkOk)),
            Action::SendInit => match self.sender {
                Some(s) => Some(s.init()),
                None => None,
            },
            Action::SendData(seq) => match self.sender {
                Some(s) => if seq.0 < s.count() {
                    Some(s.data(seq))
                } else {
                    None
                },
                None => None,
            },
            _ => None,
        }
    }

    /// The packet that an action sends, if it sends one, fits its frame.
    pub open spec fn can_do(self, action: Action) -> bool {
        self.packet(action) matches Some(p) ==> encodable(p, self.codec.room())
    }
}

/// The packets of a message on its way fit their frames.
proof fn lemma_packets_fit(s: SendStateView, codec: Codec, seq: SeqNum)
    requires
        s.sound(),
        s.payload_size + 4 <= codec.room(),
    ensures
        encodable(s.init(), codec.room()),
        seq.0 < s.count() ==> encodable(s.data(seq), codec.room()),
{
    lemma_packet_count(s.transfer.len(), s.payload_size, seq.0 as int);
}

/// An action that sending the first parts of a message asks for.
pub proof fn lemma_burst_actions(s: SendStateView, t: TimerId, n: nat, i: int)
    requires
        n <= SEQ_NUM_LIMIT,
        t + n <= u64::MAX,
        0 <= i < burst(s, t, n).actions.len(),
    ensures
        burst(s, t, n).actions[i] matches Action::SendData(q) ==> q.0 < n,
        match burst(s, t, n).actions[i] {
            Action::SendData(_) => true,
            Action::StartTimer { .. } => true,
            Action::CancelTimer(_) => true,
            _ => false,
        },
    decreases n,
{
    if n > 0 {
        let before = burst(s, t, (n - 1) as nat);
        lemma_burst(s, t, (n - 1) as nat);
        if i < before.actions.len() {
            lemma_burst_actions(s, t, (n - 1) as nat, i);
        }
    }
}

/// An action that sending the first parts of a message once more asks for.
pub proof fn lemma_repeated_actions(s: SendStateView, t: TimerId, n: nat, i: int)
    requires
        s.wf(),
        n <= SEQ_NUM_LIMIT,
        t + n <= u64::MAX,
        0 <= i < repeated(s, t, n).actions.len(),
    ensures
        repeated(s, t, n).actions[i] matches Action::SendData(q) ==> q.0 < n,
        match repeated(s, t, n).actions[i] {
            Action::SendData(_) => true,
            Action::StartTimer { .. } => true,
            Action::CancelTimer(_) => true,
            _ => false,
        },
    decreases n,
{
    if n > 0 {
        let before = repeated(s, t, (n - 1) as nat);
        lemma_repeated(s, t, (n - 1) as nat);
        if i < before.actions.len() {
            lemma_repeated_actions(s, t, (n - 1) as nat, i);
        }
    }
}

/// Every packet that a connection asks to be sent exists and fits its frame.
pub proof fn law_packets_fit(l: LoopView, sig: SigView, i: int)
    requires
        l.wf(),
        l.admits(sig),
        0 <= i < l.step(sig).actions.len(),
    ensures
        ({
            let next = l.step(sig).next;
            let action = l.step(sig).actions[i];
            &&& next.can_do(action)
            &&& action is SendInit || action is SendData ==> next.packet(action) is Some
        }),
{
    let next = l.step(sig).next;
    let action = l.step(sig).actions[i];
    law_wf_is_kept(l, sig);
    if let Some(s) = next.sender {
        if let Action::SendData(seq) = action {
            lemma_packets_fit(s, l.codec, seq);
        } else {
            lemma_packets_fit(s, l.codec, SeqNum(0));
        }
    }
    if let SigView::Send(SendSigView::Packet(RecvPacket::InitOk)) = sig {
        if let Some(s) = l.sender {
            let skip = cancel(s.init_timeout_key).len();
            lemma_packet_count(s.transfer.len(), s.payload_size, 0);
            lemma_burst(opened(s), l.next_timer, first_window(s));
            if s.init_timeout_key is Some && s.count() > 0 && i >= skip {
                lemma_burst_actions(opened(s), l.next_timer, first_window(s), i - skip);
            }
            if s.init_timeout_key is None {
                lemma_repeated(s, l.next_timer, first_window(s));
                lemma_repeated_actions(s, l.next_timer, first_window(s), i);
            }
        }
    }
}

/// What holds of a connection at any time is kept by everything that it reacts to.
pub proof fn law_wf_is_kept(l: LoopView, sig: SigView)
    requires
        l.wf(),
        l.admits(sig),
    ensures
        l.step(sig).next.wf(),
{
    if let SigView::Send(s) = sig {
        lemma_sending_wf(l.sender, l.next_timer, s);
        if let Some(s0) = l.sender {
            lemma_burst(opened(s0), l.next_timer, first_window(s0));
            if s0.init_timeout_key is None {
                lemma_packet_count(s0.transfer.len(), s0.payload_size, 0);
                lemma_repeated(s0, l.next_timer, first_window(s0));
            }
        }
    }
}

impl EventLoop {
    /// A connection of two hosts that have shaken hands, with nothing on its way in either
    /// direction.
    pub fn new(codec: Codec, _handshake: Handshake) -> (l: EventLoop)
        ensures
            l@.wf(),
            l@ == (LoopView {
                codec,
                reader: None,
                sender: None,
                keep_alive_key: None,
                next_timer: 0,
            }),
    {
        EventLoop { codec, reader: None, sender: None, keep_alive_key: None, next_timer: 0 }
    }

    /// Whether the connection can be given the signal.
    pub fn accepts(&self, sig: &Sig) -> (b: bool)
        requires
            self@.wf(),
        ensures
            b == self@.admits(sig@),
    {
        if self.next_timer > u64::MAX - WINDOW_SIZE as u64 {
            return false;
        }
        match sig {
            Sig::Conn(ConnSig::Packet(ConnPacket::SynAck(s))) => s.0 < SEQ_NUM_LIMIT,
            Sig::Conn(ConnSig::SocketError(SocketError::ConnectionRefused)) => false,
            Sig::Conn(_) => true,
            Sig::Send(s) => {
                let fits: bool = match s {
                    SendSig::StartSendingFile(m) => m.payload_size
                        <= self.codec.max_payload_size(),
                    _ => true,
                };
                fits && send_accepts(&self.sender, s)
            },
            Sig::Recv(s) => receive_accepts(&self.reader, s),
        }
    }

    /// Reacts to a signal: gives what is to be done and the message that has arrived.
    pub fn step(&mut self, sig: Sig) -> (r: (Vec<Action>, Option<Message>))
        requires
            old(self)@.wf(),
            old(self)@.admits(sig@),
        ensures
            final(self)@.wf(),
            ({
                let step = old(self)@.step(sig@);
                &&& final(self)@ == step.next
                &&& r.0@ == step.actions
                &&& match r.1 {
                    Some(m) => step.message == Some(m@),
                    None => step.message is None,
                }
            }),
            forall|i: int| 0 <= i < r.0@.len() ==> final(self)@.can_do(#[trigger] r.0@[i]),
    {
        let ghost before = self@;
        let ghost step = self@.step(sig@);
        let ghost view = sig@;
        let mut out: Vec<Action> = Vec::new();
        let mut message: Option<Message> = None;
        match sig {
            Sig::Conn(sig) => {
                self.conn(sig, &mut out);
            },
            Sig::Send(sig) => {
                let sender = self.sender.take();
                self.sender = handle_send(sender, sig, &mut self.next_timer, &mut out);
            },
            Sig::Recv(sig) => {
                let reader = self.reader.take();
                let (reader, arrived) = handle_receive(
                    reader,
                    sig,
                    &mut self.next_timer,
                    &mut out,
                );
                self.reader = reader;
                message = arrived;
            },
        }
        assert(out@ =~= step.actions);
        assert(self@ =~= step.next);
        proof {
            law_wf_is_kept(before, view);
            assert forall|i: int| 0 <= i < out@.len() implies self@.can_do(#[trigger] out@[i]) by {
                law_packets_fit(before, view, i);
            }
        }
        (out, message)
    }

    /// Reacts to a signal that concerns the connection itself.
    fn conn(&mut self, sig: ConnSig, out: &mut Vec<Action>)
        requires
            old(self)@.admits(SigView::Conn(sig)),
        ensures
            final(self)@ == old(self)@.conn_step(sig).next,
            final(out)@ == old(out)@ + old(self)@.conn_step(sig).actions,
    {
        let ghost step = self@.conn_step(sig);
        match sig {
            ConnSig::Packet(ConnPacket::Syn) | ConnSig::Packet(ConnPacket::SynAckAck(_)) => {},
            ConnSig::Packet(ConnPacket::SynAck(seq_num)) => {
                out.push(Action::SendConn(ConnPacket::SynAckAck(seq_num)));
            },
            ConnSig::Packet(ConnPacket::KeepAlive) => {
                out.push(Action::SendConn(ConnPacket::KeepAliveOk));
            },
            ConnSig::KeepAliveExpired => {
                self.keep_alive_key = None;
                out.push(Action::Close);
            },
            ConnSig::KeepAlive => {
                out.push(Action::SendConn(ConnPacket::KeepAlive));
                if self.keep_alive_key.is_none() {
                    let key: TimerId = start_timer(
                        &mut self.next_timer,
                        Expired::KeepAlive,
                        Delay::KaTimeout,
                        out,
                    );
                    self.keep_alive_key = Some(key);
                }
            },
            ConnSig::Packet(ConnPacket::KeepAliveOk) => {
                cancel_timer(self.keep_alive_key.take(), out);
            },
            ConnSig::SocketError(SocketError::ConnectionReset) => {
                out.push(Action::Close);
            },
            ConnSig::SocketError(SocketError::ConnectionAborted) => {
                out.push(Action::Close);
            },
            ConnSig::SocketError(_) => {
                out.push(Action::Fail);
            },
        }
        assert(out@ =~= old(out)@ + step.actions);
        assert(self@ =~= step.next);
    }

    /// Writes the frame that an action sends to the front of `buf` and gives its length;
    /// `None` if the action sends nothing.
    pub fn encode(&self, action: Action, buf: &mut [u8; MSS]) -> (r: Option<usize>)
        requires
            self@.wf(),
            self@.can_do(action),
        ensures
            match self@.packet(action) {
                Some(p) => {
                    &&& r == Some(self@.codec.frame(p).len() as usize)
                    &&& self@.codec.frame(p).len() <= MSS
                    &&& final(buf)@ == splice(old(buf)@, 0, self@.codec.frame(p))
                },
                None => r is None && final(buf)@ == old(buf)@,
            },
    {
        let packet = match action {
            Action::SendConn(p) => Packet::Conn(p),
            Action::SendRecv(p) => Packet::Recv(p),
            Action::SendFin => Packet::Send(SendPacket::Fin),
            Action::SendFinOkOk => Packet::Send(SendPacket::FinOkOk),
            Action::SendInit => match &self.sender {
                Some(s) => Packet::Send(s.init_packet()),
                None => {
                    return None;
                },
            },
            Action::SendData(seq_num) => match &self.sender {
                Some(s) => {
                    if seq_num.0 as usize >= s.seq_num_count() {
                        return None;
                    }
                    Packet::Send(s.data_packet(seq_num))
                },
                None => {
                    return None;
                },
            },
            _ => {
                return None;
            },
        };
        Some(self.codec.encode(&packet, buf))
    }

    /// Reads the signal in a datagram that arrived, if there is one.
    pub fn signal<'a>(&self, bytes: &'a [u8]) -> (r: Result<Option<Sig<'a>>, FrameError>)
        ensures
            match self@.codec.read(bytes@) {
                Ok(Some(p)) => r matches Ok(Some(sig)) && sig@ == signal_of_packet(p),
                Ok(None) => r matches Ok(None),
                Err(e) => r matches Err(f) && f == e,
            },
    {
        match self.codec.decode(bytes) {
            Ok(Some(p)) => Ok(Some(Sig::of_packet(p))),
            Ok(None) => Ok(None),
            Err(e) => Err(e),
        }
    }
}

} // verus!
