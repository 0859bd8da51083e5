//! What holds of one transfer at both hosts together, whatever the network does to their
//! datagrams.

use vstd::prelude::*;
use vstd::utf8::{encode_utf8_decode_utf8, encode_utf8_valid_utf8, valid_utf8};

use crate::event_loop::{
    law_packets_fit, law_wf_is_kept, lemma_burst_actions, lemma_repeated_actions, LoopView,
};
use crate::frame::{Codec, FrameError};
use crate::message::{MessageDataView, MessageView};
use crate::packet::{PacketView, RecvPacket, SendPacketView, SeqNum, SEQ_NUM_LIMIT};
use crate::packet_laws::law_frame_round_trip;
use crate::receiver::ReceiveStateView;
use crate::sender::{
    burst, cancel, chunk, first_window, lemma_burst, lemma_packet_count, lemma_repeated,
    lemma_resent, opened, sending_admits, sending_step, timers_left, transferable,
    SendStateView, WINDOW_SIZE,
};
use crate::signal::{
    signal_of_packet, signal_of_timer, Action, ConnSig, Expired, SendSigView, SigView, TimerId,
};
use crate::timer_laws::held;
use crate::transfer_laws::{
    accounted, acked_after, deliverable, law_fin_comes_last, law_first_window,
    law_no_part_is_forgotten, law_parts_are_admitted, law_window_slides, lemma_fin_stage,
    lemma_part_of_byte, part_of_byte,
};

verus! {

/// Two hosts, one of which sends the other a message, and the network between them. The
/// receiver of the message may itself be sending messages to its sender.
pub ghost struct World {
    pub sender: LoopView,
    pub receiver: LoopView,
    /// The packets to the receiver that were sent so far. Each may arrive never, once, or any
    /// number of times, and at any time.
    pub to_receiver: Set<PacketView>,
    /// The packets to the sender that were sent so far.
    pub to_sender: Set<PacketView>,
    /// The first message that the receiver has handed out.
    pub message: Option<MessageView>,
    /// The sender's user was told that the message has arrived.
    pub told: bool,
}

/// What can happen.
pub ghost enum Event {
    PacketAtReceiver(PacketView),
    TimerAtReceiver(Expired),
    /// The receiver has been silent for as long as it may be.
    SilenceAtReceiver,
    /// The receiver's user gives it a message of its own.
    MessageAtReceiver(MessageView),
    PacketAtSender(PacketView),
    TimerAtSender(Expired),
    /// The sender has been silent for as long as it may be.
    SilenceAtSender,
}

/// The packets that actions send.
pub open spec fn packets(l: LoopView, actions: Seq<Action>) -> Set<PacketView> {
    Set::new(
        |p: PacketView|
            exists|i: int| 0 <= i < actions.len() && #[trigger] l.packet(actions[i]) == Some(p),
    )
}

/// The message can be sent over frames of this kind.
pub open spec fn can_be_sent(m: MessageView, codec: Codec) -> bool {
    transferable(m) && m.payload_size + 4 <= codec.room() && deliverable(m)
}

/// Two connected hosts, one of which can be given the message: it sends nothing yet, and the
/// other receives nothing. No packet of an earlier transfer in this direction is still on its
/// way. Of everything else, such as messages in the other direction, there may be any.
pub open spec fn ready(w: World, m: MessageView) -> bool {
    &&& w.sender.wf() && w.receiver.wf()
    &&& w.sender.codec == w.receiver.codec
    &&& w.sender.sender is None
    &&& w.receiver.reader is None
    &&& timers_left(w.sender.next_timer)
    &&& can_be_sent(m, w.sender.codec)
    &&& w.message is None
    &&& !w.told
    &&& forall|p: PacketView| #[trigger] w.to_receiver.contains(p) ==> !(p is Send)
    &&& forall|p: PacketView| #[trigger] w.to_sender.contains(p) ==> !(p is Recv)
}

/// The sender's user has given it the message.
pub open spec fn outset(w: World, m: MessageView) -> World {
    let step = w.sender.step(SigView::Send(SendSigView::StartSendingFile(m)));
    World {
        sender: step.next,
        to_receiver: w.to_receiver + packets(step.next, step.actions),
        ..w
    }
}

/// What an event is to the host that it happens at.
pub open spec fn signal(e: Event) -> SigView {
    match e {
        Event::PacketAtReceiver(p) => signal_of_packet(p),
        Event::TimerAtReceiver(x) => signal_of_timer(x),
        Event::SilenceAtReceiver => SigView::Conn(ConnSig::KeepAlive),
        Event::MessageAtReceiver(m) => SigView::Send(SendSigView::StartSendingFile(m)),
        Event::PacketAtSender(p) => signal_of_packet(p),
        Event::TimerAtSender(x) => signal_of_timer(x),
        Event::SilenceAtSender => SigView::Conn(ConnSig::KeepAlive),
    }
}

/// It happens at the receiver.
pub open spec fn at_receiver(e: Event) -> bool {
    match e {
        Event::PacketAtReceiver(_) => true,
        Event::TimerAtReceiver(_) => true,
        Event::SilenceAtReceiver => true,
        Event::MessageAtReceiver(_) => true,
        _ => false,
    }
}

/// The host that it happens at.
pub open spec fn host(w: World, e: Event) -> LoopView {
    if at_receiver(e) {
        w.receiver
    } else {
        w.sender
    }
}

/// It concerns the message that is being sent, and not the connection or a message in the
/// other direction.
pub open spec fn of_transfer(e: Event) -> bool {
    if at_receiver(e) {
        signal(e) is Recv
    } else {
        signal(e) is Send
    }
}

/// A packet can arrive that was sent, any number of times, and a timer can run out that runs,
/// but for that of a keep-alive: the connection stays up. What does not concern the message is
/// such that the host can be given it.
pub open spec fn possible(w: World, e: Event) -> bool {
    &&& timers_left(host(w, e).next_timer)
    &&& !of_transfer(e) ==> host(w, e).admits(signal(e))
    &&& match e {
        Event::PacketAtReceiver(p) => w.to_receiver.contains(p),
        Event::PacketAtSender(p) => w.to_sender.contains(p),
        Event::TimerAtReceiver(x) => held(w.receiver, x) is Some && x != Expired::KeepAlive,
        Event::TimerAtSender(x) => held(w.sender, x) is Some && x != Expired::KeepAlive,
        _ => true,
    }
}

/// What an event makes of the world.
pub open spec fn next(w: World, e: Event) -> World {
    let step = host(w, e).step(signal(e));
    if at_receiver(e) {
        World {
            receiver: step.next,
            to_sender: w.to_sender + packets(step.next, step.actions),
            message: match w.message {
                Some(x) => Some(x),
                None => step.message,
            },
            ..w
        }
    } else {
        World {
            sender: step.next,
            to_receiver: w.to_receiver + packets(step.next, step.actions),
            told: w.told || step.actions.contains(Action::NotifySender),
            ..w
        }
    }
}

/// The world after a number of events.
pub open spec fn run(w: World, m: MessageView, events: Seq<Event>) -> World
    decreases events.len(),
{
    if events.len() == 0 {
        outset(w, m)
    } else {
        next(run(w, m, events.drop_last()), events.last())
    }
}

/// Each of the events was possible when it happened.
pub open spec fn all_possible(w: World, m: MessageView, events: Seq<Event>) -> bool
    decreases events.len(),
{
    events.len() == 0 || {
        &&& all_possible(w, m, events.drop_last())
        &&& possible(run(w, m, events.drop_last()), events.last())
    }
}

/// The message as its sender has it on its way.
pub open spec fn sending(m: MessageView) -> SendStateView {
    SendStateView::announced(m, 0)
}

/// The acknowledgement of a part.
pub open spec fn ack(q: u32) -> PacketView {
    PacketView::Recv(RecvPacket::DataAck(SeqNum(q)))
}

/// The parts that the receiver has acknowledged.
pub open spec fn acked(w: World) -> Set<u32> {
    Set::new(|q: u32| w.to_sender.contains(ack(q)))
}

spec fn init_ok() -> PacketView {
    PacketView::Recv(RecvPacket::InitOk)
}

spec fn fin() -> PacketView {
    PacketView::Send(SendPacketView::Fin)
}

spec fn fin_ok() -> PacketView {
    PacketView::Recv(RecvPacket::FinOk)
}

spec fn fin_ok_ok() -> PacketView {
    PacketView::Send(SendPacketView::FinOkOk)
}

/// What the sender of a message sends of it.
spec fn from_sender(m: MessageView, p: PacketView) -> bool {
    match p {
        PacketView::Send(SendPacketView::Init { .. }) => p == sending(m).init(),
        PacketView::Send(SendPacketView::Data { seq_num, .. }) => {
            seq_num.0 < sending(m).count() && p == sending(m).data(seq_num)
        },
        _ => true,
    }
}

/// What the receiver of a message answers.
spec fn from_receiver(m: MessageView, p: PacketView) -> bool {
    match p {
        PacketView::Recv(RecvPacket::DataAck(q)) => q.0 < sending(m).count(),
        PacketView::Recv(RecvPacket::Nak(_)) => false,
        _ => true,
    }
}

/// Byte `j` of the message has arrived if its part was acknowledged.
spec fn in_place(m: MessageView, w: World, r: ReceiveStateView) -> bool {
    forall|j: int|
        0 <= j < m.transfer().len() && acked(w).contains(part_of_byte(sending(m), j) as u32)
            ==> #[trigger] r.recv_bytes[j] == m.transfer()[j]
}

/// What the sender knows of the message on its way.
spec fn on_its_way(m: MessageView, w: World, s: SendStateView) -> bool {
    &&& s.transfer == m.transfer()
    &&& s.payload_size == m.payload_size
    &&& s.filename == m.name()
    &&& accounted(s, acked(w))
    &&& s.init_timeout_key is None ==> w.to_sender.contains(init_ok())
    &&& forall|q: u32| q < s.next_to_send.0 ==> w.to_receiver.contains(#[trigger] part_packet(m, q))
    &&& s.fin_timeout_key is Some ==> w.to_receiver.contains(fin())
    &&& w.to_receiver.contains(fin()) ==> s.fin_timeout_key is Some || s.time_wait_key is Some
    &&& s.time_wait_key is Some <==> w.to_receiver.contains(fin_ok_ok())
}

/// The packet that carries part `q`.
spec fn part_packet(m: MessageView, q: u32) -> PacketView {
    sending(m).data(SeqNum(q))
}

spec fn sender_side(m: MessageView, w: World) -> bool {
    &&& w.sender.wf()
    &&& w.sender.codec == w.receiver.codec
    &&& forall|p: PacketView| #[trigger] w.to_receiver.contains(p) ==> from_sender(m, p)
    &&& w.to_receiver.contains(sending(m).init())
    &&& w.to_receiver.contains(fin()) ==> forall|q: u32|
        q < sending(m).count() ==> #[trigger] acked(w).contains(q)
    &&& w.to_receiver.contains(fin_ok_ok()) ==> w.to_sender.contains(fin_ok())
    &&& w.told ==> w.to_receiver.contains(fin_ok_ok())
    &&& match w.sender.sender {
        Some(s) => !w.told && on_its_way(m, w, s),
        None => w.told,
    }
}

spec fn receiver_side(m: MessageView, w: World) -> bool {
    &&& w.receiver.wf()
    &&& forall|p: PacketView| #[trigger] w.to_sender.contains(p) ==> from_receiver(m, p)
    &&& w.to_sender.contains(fin_ok()) ==> w.to_receiver.contains(fin())
    &&& match w.message {
        Some(x) => x == m && w.to_receiver.contains(fin_ok_ok()),
        None => match w.receiver.reader {
            Some(r) => {
                &&& r.recv_bytes.len() == m.transfer().len()
                &&& r.payload_size == m.payload_size
                &&& r.name == m.name()
                &&& in_place(m, w, r)
                &&& w.to_sender.contains(fin_ok()) <==> r.fin_ok_timeout_key is Some
            },
            None => {
                &&& !w.to_sender.contains(init_ok())
                &&& !w.to_sender.contains(fin_ok())
                &&& forall|q: u32| !(#[trigger] acked(w).contains(q))
            },
        },
    }
}

spec fn inv(m: MessageView, w: World) -> bool {
    &&& can_be_sent(m, w.sender.codec)
    &&& sender_side(m, w)
    &&& receiver_side(m, w)
}

/// All parts of the message have arrived at the receiver, so it has the message.
proof fn lemma_all_in_place(m: MessageView, w: World, r: ReceiveStateView)
    requires
        inv(m, w),
        w.message is None,
        w.receiver.reader == Some(r),
        w.to_receiver.contains(fin()),
    ensures
        r.recv_bytes == m.transfer(),
        r.message() == m,
        r.name is None ==> valid_utf8(r.recv_bytes),
{
    assert forall|j: int| 0 <= j < m.transfer().len() implies r.recv_bytes[j] == m.transfer()[j] by {
        lemma_part_of_byte(sending(m), j);
        assert(acked(w).contains(part_of_byte(sending(m), j) as u32));
    }
    assert(r.recv_bytes =~= m.transfer());
    if let MessageDataView::Text(text) = m.data {
        encode_utf8_valid_utf8(text);
        encode_utf8_decode_utf8(text);
    }
}

/// Whatever can happen is something that the host can be given.
proof fn lemma_admitted(m: MessageView, w: World, e: Event)
    requires
        inv(m, w),
        possible(w, e),
    ensures
        at_receiver(e) && (w.message is None || w.receiver.reader is None) ==> w.receiver.admits(
            signal(e),
        ),
        !at_receiver(e) ==> w.sender.admits(signal(e)),
{
    if let Event::PacketAtReceiver(p) = e {
        assert(from_sender(m, p));
        if let (Some(r), None) = (w.receiver.reader, w.message) {
            match p {
                PacketView::Send(SendPacketView::Data { seq_num, .. }) => {
                    law_parts_are_admitted(r, sending(m), seq_num);
                },
                PacketView::Send(SendPacketView::FinOkOk) => {
                    assert(p == fin_ok_ok());
                    lemma_all_in_place(m, w, r);
                },
                _ => {},
            }
        }
    }
    if let Event::PacketAtSender(p) = e {
        assert(from_receiver(m, p));
    }
}

/// A part that arrives is in place, and those that were stay so.
proof fn lemma_filled(m: MessageView, w: World, v: World, r: ReceiveStateView, seq: SeqNum)
    requires
        transferable(m),
        seq.0 < sending(m).count(),
        r.recv_bytes.len() == m.transfer().len(),
        r.payload_size == m.payload_size,
        in_place(m, w, r),
        acked(v) == acked(w).insert(seq.0),
    ensures
        ({
            let data = chunk(m.transfer(), m.payload_size, seq.0 as int);
            &&& in_place(m, v, r.filled(seq, data))
            &&& r.filled(seq, data).recv_bytes.len() == m.transfer().len()
        }),
{
    let s = sending(m);
    let data = chunk(m.transfer(), m.payload_size, seq.0 as int);
    let q = r.filled(seq, data);
    let at = seq.0 * m.payload_size;
    lemma_packet_count(m.transfer().len(), m.payload_size, seq.0 as int);
    assert forall|j: int|
        0 <= j < m.transfer().len() && acked(v).contains(
            part_of_byte(s, j) as u32,
        ) implies #[trigger] q.recv_bytes[j] == m.transfer()[j] by {
        lemma_part_of_byte(s, j);
        if at <= j < at + data.len() {
            assert(q.recv_bytes[j] == data[j - at]);
        } else {
            assert(q.recv_bytes[j] == r.recv_bytes[j]);
            assert(part_of_byte(s, j) != seq.0);
        }
    }
}

/// An event of the transfer at the receiver keeps what holds.
proof fn lemma_receiver_step(m: MessageView, w: World, e: Event)
    requires
        inv(m, w),
        possible(w, e),
        at_receiver(e),
        of_transfer(e),
    ensures
        inv(m, next(w, e)),
{
    lemma_admitted(m, w, e);
    let step = w.receiver.step(signal(e));
    let v = next(w, e);
    let sent = packets(step.next, step.actions);
    if let Event::PacketAtReceiver(p) = e {
        assert(from_sender(m, p));
    }
    assert(step.actions.len() <= 3);
    assert forall|x: PacketView| sent.contains(x) implies {
        ||| step.actions.len() > 0 && step.next.packet(step.actions[0]) == Some(x)
        ||| step.actions.len() > 1 && step.next.packet(step.actions[1]) == Some(x)
        ||| step.actions.len() > 2 && step.next.packet(step.actions[2]) == Some(x)
    } by {
        let i = choose|i: int|
            0 <= i < step.actions.len() && #[trigger] step.next.packet(step.actions[i]) == Some(x);
        assert(i == 0 || i == 1 || i == 2);
    }
    match e {
        Event::PacketAtReceiver(PacketView::Send(SendPacketView::Data { seq_num, data })) => {
            if let Some(r) = w.receiver.reader {
                assert(step.next.packet(step.actions[0]) == Some(ack(seq_num.0)));
                assert(sent =~= set![ack(seq_num.0)]);
                assert(acked(v) =~= acked(w).insert(seq_num.0));
                if w.message is None {
                    lemma_filled(m, w, v, r, seq_num);
                }
            } else {
                assert(sent =~= Set::empty());
                assert(acked(v) =~= acked(w));
            }
        },
        _ => {
            assert forall|q: u32| !sent.contains(#[trigger] ack(q)) by {}
            assert(acked(v) =~= acked(w));
            if let Event::PacketAtReceiver(PacketView::Send(SendPacketView::FinOkOk)) = e {
                if let (Some(r), None) = (w.receiver.reader, w.message) {
                    assert(w.to_receiver.contains(fin_ok_ok()));
                    lemma_all_in_place(m, w, r);
                }
            }
        },
    }
}

/// What a step of a sending side asks to be sent: packets of the message on its way, and
/// `FinOkOk` only as an answer to `FinOk`.
proof fn lemma_sending_actions(l: LoopView, c: SendSigView, i: int)
    requires
        l.wf(),
        l.admits(SigView::Send(c)),
        0 <= i < l.step(SigView::Send(c)).actions.len(),
    ensures
        match l.step(SigView::Send(c)).actions[i] {
            Action::SendConn(_) => false,
            Action::SendRecv(_) => false,
            Action::SendFinOkOk => c == SendSigView::Packet(RecvPacket::FinOk) && l.sender
                is Some && (l.sender.unwrap().fin_timeout_key is Some
                || l.sender.unwrap().time_wait_key is Some),
            Action::NotifySender => c == SendSigView::TimeWaitToCloseExpired,
            _ => true,
        },
{
    if let Some(s) = l.sender {
        let n = first_window(s);
        lemma_packet_count(s.transfer.len(), s.payload_size, 0);
        lemma_burst(opened(s), l.next_timer, n);
        if let SendSigView::Packet(RecvPacket::InitOk) = c {
            let skip = cancel(s.init_timeout_key).len();
            if s.init_timeout_key is Some && s.count() > 0 && i >= skip {
                lemma_burst_actions(opened(s), l.next_timer, n, i - skip);
                assert(l.step(SigView::Send(c)).actions[i] == burst(
                    opened(s),
                    l.next_timer,
                    n,
                ).actions[i - skip]);
            }
            if s.init_timeout_key is None {
                lemma_repeated_actions(s, l.next_timer, n, i);
            }
        }
    }
}

/// An event that does not concern the transfer keeps what holds.
proof fn lemma_other_step(m: MessageView, w: World, e: Event)
    requires
        inv(m, w),
        possible(w, e),
        !of_transfer(e),
    ensures
        inv(m, next(w, e)),
{
    let l = host(w, e);
    let sig = signal(e);
    let step = l.step(sig);
    let v = next(w, e);
    let sent = packets(step.next, step.actions);
    law_wf_is_kept(l, sig);
    assert forall|x: PacketView| #[trigger] sent.contains(x) implies if at_receiver(e) {
        !(x is Recv)
    } else {
        !(x is Send)
    } by {
        let i = choose|i: int|
            0 <= i < step.actions.len() && #[trigger] step.next.packet(step.actions[i]) == Some(x);
        if let SigView::Send(c) = sig {
            lemma_sending_actions(l, c, i);
        }
    }
    if at_receiver(e) {
        assert(v.receiver.reader == w.receiver.reader);
        assert(acked(v) =~= acked(w));
    } else {
        assert(v.sender.sender == w.sender.sender);
        assert(!step.actions.contains(Action::NotifySender));
        assert(acked(v) =~= acked(w));
    }
}

/// What a step of the sending side leaves of the message on its way.
proof fn lemma_same_message(s: SendStateView, t: TimerId, c: SendSigView)
    requires
        s.wf(),
        timers_left(t),
        sending_admits(Some(s), c),
    ensures
        sending_step(Some(s), t, c).sender matches Some(next) ==> {
            let actions = sending_step(Some(s), t, c).actions;
            &&& next.transfer == s.transfer
            &&& next.payload_size == s.payload_size
            &&& next.filename == s.filename
            &&& next.init_timeout_key is None ==> s.init_timeout_key is None || c
                == SendSigView::Packet(RecvPacket::InitOk)
            &&& next.fin_timeout_key is Some ==> s.fin_timeout_key is Some || actions.contains(
                Action::SendFin,
            )
            &&& s.fin_timeout_key is Some || s.time_wait_key is Some ==> next.fin_timeout_key
                is Some || next.time_wait_key is Some
            &&& s.time_wait_key is Some ==> next.time_wait_key is Some
            &&& next.time_wait_key is Some ==> s.time_wait_key is Some || (c
                == SendSigView::Packet(RecvPacket::FinOk) && actions.contains(
                Action::SendFinOkOk,
            ))
            &&& c == SendSigView::Packet(RecvPacket::FinOk) && actions.contains(
                Action::SendFinOkOk,
            ) ==> next.time_wait_key is Some
        },
        sending_step(Some(s), t, c).sender is None ==> c == SendSigView::TimeWaitToCloseExpired
            && sending_step(Some(s), t, c).actions.contains(Action::NotifySender),
{
    let step = sending_step(Some(s), t, c);
    let n = first_window(s);
    lemma_packet_count(s.transfer.len(), s.payload_size, 0);
    lemma_burst(opened(s), t, n);
    lemma_repeated(s, t, n);
    match c {
        SendSigView::Packet(RecvPacket::Nak(q)) => {
            lemma_resent(s, t, q);
        },
        SendSigView::Packet(RecvPacket::FinOk) => {
            if s.fin_timeout_key is Some || s.time_wait_key is Some {
                assert(step.actions[0] == Action::SendFinOkOk);
            }
        },
        SendSigView::Packet(RecvPacket::InitOk) => {
            if s.init_timeout_key is Some && s.count() == 0 {
                assert(step.actions[1] == Action::SendFin);
            }
        },
        SendSigView::Packet(RecvPacket::DataAck(q)) => {
            if let Some(next) = step.sender {
                if next.fin_timeout_key is Some && s.fin_timeout_key is None {
                    assert(step.actions[1] == Action::SendFin);
                }
            }
        },
        SendSigView::TimeWaitToCloseExpired => {
            assert(step.actions[0] == Action::NotifySender);
        },
        _ => {},
    }
}

/// Parts whose turn a step has come to are sent by it.
proof fn lemma_turn_is_sent(s: SendStateView, t: TimerId, c: SendSigView, q: u32)
    requires
        s.wf(),
        timers_left(t),
        sending_admits(Some(s), c),
        sending_step(Some(s), t, c).sender is Some,
        s.next_to_send.0 <= q < sending_step(Some(s), t, c).sender.unwrap().next_to_send.0,
    ensures
        sending_step(Some(s), t, c).actions.contains(Action::SendData(SeqNum(q))),
{
    let n = first_window(s);
    lemma_packet_count(s.transfer.len(), s.payload_size, 0);
    lemma_burst(opened(s), t, n);
    lemma_repeated(s, t, n);
    match c {
        SendSigView::Packet(RecvPacket::InitOk) => {
            law_first_window(s, t, q);
        },
        SendSigView::Packet(RecvPacket::DataAck(a)) => {
            law_window_slides(s, t, a);
        },
        SendSigView::Packet(RecvPacket::Nak(a)) => {
            lemma_resent(s, t, a);
        },
        _ => {},
    }
}

/// An event of the transfer at the sender keeps what holds.
#[verifier::rlimit(60)]
proof fn lemma_sender_step(m: MessageView, w: World, e: Event)
    requires
        inv(m, w),
        possible(w, e),
        !at_receiver(e),
        of_transfer(e),
    ensures
        inv(m, next(w, e)),
{
    lemma_admitted(m, w, e);
    if let Event::PacketAtSender(p) = e {
        assert(from_receiver(m, p));
    }
    let sig = signal(e);
    let step = w.sender.step(sig);
    let v = next(w, e);
    let sent = packets(step.next, step.actions);
    law_wf_is_kept(w.sender, sig);
    let c = sig->Send_0;
    assert(!(c is StartSendingFile));
    assert(acked(v) =~= acked(w));
    if let Some(s) = w.sender.sender {
        let t = w.sender.next_timer;
        lemma_same_message(s, t, c);
        law_no_part_is_forgotten(s, t, c, acked(w));
        assert(acked_after(acked(w), c) =~= acked(w)) by {
            if let SendSigView::Packet(RecvPacket::DataAck(q)) = c {
                assert(w.to_sender.contains(ack(q.0)));
            }
        }
        assert forall|x: PacketView| #[trigger] sent.contains(x) implies {
            &&& from_sender(m, x)
            &&& x == fin() ==> step.actions.contains(Action::SendFin)
            &&& x == fin_ok_ok() ==> w.to_sender.contains(fin_ok()) && c == SendSigView::Packet(
                RecvPacket::FinOk,
            ) && step.actions.contains(Action::SendFinOkOk)
        } by {
            let i = choose|i: int|
                0 <= i < step.actions.len() && #[trigger] step.next.packet(step.actions[i])
                    == Some(x);
            lemma_sending_actions(w.sender, c, i);
            law_packets_fit(w.sender, sig, i);
        }
        assert forall|x: PacketView| #[trigger] v.to_receiver.contains(x) implies from_sender(
            m,
            x,
        ) by {
            assert(w.to_receiver.contains(x) || sent.contains(x));
        }
        if step.actions.contains(Action::SendFin) {
            law_fin_comes_last(s, t, c, acked(w));
            lemma_fin_stage(s, t, c);
            lemma_is_sent(step.next, step.actions, Action::SendFin, fin());
        }
        if step.actions.contains(Action::SendFinOkOk) {
            lemma_is_sent(step.next, step.actions, Action::SendFinOkOk, fin_ok_ok());
        }
        if step.actions.contains(Action::NotifySender) {
            let i = choose|i: int|
                0 <= i < step.actions.len() && step.actions[i] == Action::NotifySender;
            lemma_sending_actions(w.sender, c, i);
        }
        if let Some(x) = step.next.sender {
            assert forall|q: u32| q < x.next_to_send.0 implies v.to_receiver.contains(
                #[trigger] part_packet(m, q),
            ) by {
                if q >= s.next_to_send.0 {
                    lemma_turn_is_sent(s, t, c, q);
                    lemma_is_sent(
                        step.next,
                        step.actions,
                        Action::SendData(SeqNum(q)),
                        part_packet(m, q),
                    );
                }
            }
        }
    } else {
        assert(step.actions =~= seq![]);
        assert(sent =~= Set::empty());
        assert(v.to_receiver =~= w.to_receiver);
    }
}

/// The packet of an action is among those that are sent.
proof fn lemma_is_sent(l: LoopView, actions: Seq<Action>, a: Action, p: PacketView)
    requires
        actions.contains(a),
        l.packet(a) == Some(p),
    ensures
        packets(l, actions).contains(p),
{
    let i = choose|i: int| 0 <= i < actions.len() && actions[i] == a;
    assert(l.packet(actions[i]) == Some(p));
}

/// What holds of both hosts at any time.
proof fn lemma_inv(w: World, m: MessageView, events: Seq<Event>)
    requires
        ready(w, m),
        all_possible(w, m, events),
    ensures
        inv(m, run(w, m, events)),
    decreases events.len(),
{
    if events.len() == 0 {
        let v = outset(w, m);
        let start = SigView::Send(SendSigView::StartSendingFile(m));
        law_wf_is_kept(w.sender, start);
        let step = w.sender.step(start);
        assert(step.actions[0] == Action::SendInit);
        lemma_is_sent(step.next, step.actions, Action::SendInit, sending(m).init());
        assert forall|x: PacketView| #[trigger] packets(
            step.next,
            step.actions,
        ).contains(x) implies x == sending(m).init() by {
            let i = choose|i: int|
                0 <= i < step.actions.len() && #[trigger] step.next.packet(step.actions[i])
                    == Some(x);
            assert(i == 0 || i == 1);
        }
        assert forall|q: u32| !(#[trigger] acked(v).contains(q)) by {
            assert(!w.to_sender.contains(ack(q)));
        }
        assert(!w.to_sender.contains(init_ok()) && !w.to_sender.contains(fin_ok()));
        assert(!w.to_receiver.contains(fin()) && !w.to_receiver.contains(fin_ok_ok()));
    } else {
        let front = events.drop_last();
        lemma_inv(w, m, front);
        lemma_step(m, run(w, m, front), events.last());
    }
}

/// Whatever happens keeps what holds.
proof fn lemma_step(m: MessageView, w: World, e: Event)
    requires
        inv(m, w),
        possible(w, e),
    ensures
        inv(m, next(w, e)),
{
    if !of_transfer(e) {
        lemma_other_step(m, w, e);
    } else if at_receiver(e) {
        lemma_receiver_step(m, w, e);
    } else {
        lemma_sender_step(m, w, e);
    }
}

/// A message arrives as it was sent, whatever happens to the datagrams of its transfer: each of
/// them, the announcement, the parts, the end and all their answers, may be lost, repeated and
/// delayed, timers may run out at any time, keep-alives may be exchanged, and messages may be
/// sent in the other direction.
///
/// - What the receiver hands out first is the message that was sent.
/// - When the sender's user is told that the message has arrived, the receiver has it whole.
/// - The receiver hands it out when the first `FinOkOk` arrives.
/// - Each packet of the transfer is what the other host reads from its frame.
/// - The sender is never given what it cannot be given, nor is the receiver, be it that the
///   message is still to be handed out or that it was and nothing is arriving.
/// - The parts that await their acknowledgement fit the window.
#[verifier::rlimit(40)]
pub proof fn law_message_arrives(w: World, m: MessageView, events: Seq<Event>)
    requires
        ready(w, m),
        all_possible(w, m, events),
    ensures
        ({
            let v = run(w, m, events);
            let codec = v.sender.codec;
            let end = Event::PacketAtReceiver(PacketView::Send(SendPacketView::FinOkOk));
            &&& v.message matches Some(x) ==> x == m
            &&& v.told && v.message is None ==> (v.receiver.reader matches Some(r) && r.message()
                == m)
            &&& possible(v, end) && v.message is None ==> next(v, end).message == Some(m)
            &&& forall|p: PacketView|
                (v.to_receiver.contains(p) && p is Send) || (v.to_sender.contains(p) && p is Recv)
                    ==> #[trigger] codec.read(codec.frame(p)) == Ok::<
                    Option<PacketView>,
                    FrameError,
                >(Some(p))
            &&& forall|e: Event| #[trigger]
                possible(v, e) && (at_receiver(e) ==> v.message is None || v.receiver.reader is None)
                    ==> host(v, e).admits(signal(e))
            &&& v.sender.wf() && v.receiver.wf() && v.receiver.codec == codec
            &&& v.sender.sender matches Some(s) ==> s.timeout_keys.len() <= WINDOW_SIZE
        }),
{
    let v = run(w, m, events);
    let codec = v.sender.codec;
    let end = Event::PacketAtReceiver(PacketView::Send(SendPacketView::FinOkOk));
    lemma_inv(w, m, events);
    if v.message is None && v.to_sender.contains(fin_ok()) {
        lemma_all_in_place(m, v, v.receiver.reader.unwrap());
    }
    if possible(v, end) {
        assert(v.to_receiver.contains(fin_ok_ok()));
    }
    assert forall|p: PacketView|
        (v.to_receiver.contains(p) && p is Send) || (v.to_sender.contains(p) && p is Recv) implies
        #[trigger] codec.read(codec.frame(p)) == Ok::<Option<PacketView>, FrameError>(Some(p)) by {
        assert(v.to_receiver.contains(p) && from_sender(m, p) || v.to_sender.contains(p)
            && from_receiver(m, p));
        if let PacketView::Send(SendPacketView::Data { seq_num, .. }) = p {
            lemma_packet_count(m.transfer().len(), m.payload_size, seq_num.0 as int);
        }
        law_frame_round_trip(codec, p);
    }
    assert forall|e: Event| #[trigger]
        possible(v, e) && (at_receiver(e) ==> v.message is None || v.receiver.reader is None)
        implies host(v, e).admits(signal(e)) by {
        lemma_admitted(m, v, e);
    }
}

/// `Fin` goes out only when the receiver has acknowledged every part, and then all of them are
/// in place.
pub proof fn law_fin_means_all_arrived(w: World, m: MessageView, events: Seq<Event>)
    requires
        ready(w, m),
        all_possible(w, m, events),
        run(w, m, events).to_receiver.contains(PacketView::Send(SendPacketView::Fin)),
    ensures
        ({
            let v = run(w, m, events);
            &&& forall|q: u32| q < sending(m).count() ==> #[trigger] v.to_sender.contains(ack(q))
            &&& v.message is None ==> (v.receiver.reader matches Some(r) ==> r.recv_bytes
                == m.transfer())
        }),
{
    let v = run(w, m, events);
    lemma_inv(w, m, events);
    assert forall|q: u32| q < sending(m).count() implies #[trigger] v.to_sender.contains(ack(q)) by {
        assert(acked(v).contains(q));
    }
    if v.message is None {
        if let Some(r) = v.receiver.reader {
            lemma_all_in_place(m, v, r);
        }
    }
}

/// How far a transfer is from its end: an upper bound on the timers that it still takes.
spec fn distance(w: World) -> nat {
    match w.sender.sender {
        None => if w.message is None {
            1
        } else {
            0
        },
        Some(s) => if s.time_wait_key is Some {
            if w.message is None {
                3
            } else {
                2
            }
        } else if s.fin_timeout_key is Some {
            5
        } else if s.init_timeout_key is None {
            (6 + (s.count() - s.next_to_send.0) + s.timeout_keys.len()) as nat
        } else {
            (6 + s.count() + WINDOW_SIZE + 1) as nat
        },
    }
}

/// There are timer numbers for what the transfer still takes.
spec fn numbers_left(w: World) -> bool {
    &&& w.sender.next_timer + distance(w) + WINDOW_SIZE <= u64::MAX
    &&& w.receiver.next_timer + distance(w) + WINDOW_SIZE <= u64::MAX
}

/// One event more.
proof fn lemma_push(w: World, m: MessageView, events: Seq<Event>, e: Event)
    requires
        all_possible(w, m, events),
        possible(run(w, m, events), e),
    ensures
        all_possible(w, m, events.push(e)),
        run(w, m, events.push(e)) == next(run(w, m, events), e),
{
    assert(events.push(e).drop_last() =~= events);
    assert(events.push(e).last() == e);
}

/// The next two events of a transfer whose announcement awaits its answer: it arrives, and so
/// does the answer.
proof fn lemma_announce(m: MessageView, w: World)
    requires
        inv(m, w),
        numbers_left(w),
        w.sender.sender matches Some(s) && s.init_timeout_key is Some,
    ensures
        ({
            let e1 = Event::PacketAtReceiver(sending(m).init());
            let e2 = Event::PacketAtSender(init_ok());
            let v = next(next(w, e1), e2);
            &&& possible(w, e1)
            &&& possible(next(w, e1), e2)
            &&& numbers_left(v)
            &&& distance(v) < distance(w)
        }),
{
    let e1 = Event::PacketAtReceiver(sending(m).init());
    let e2 = Event::PacketAtSender(init_ok());
    let s = w.sender.sender.unwrap();
    let u = next(w, e1);
    assert(w.message is None);
    lemma_step(m, w, e1);
    let step = w.receiver.step(signal(e1));
    assert(step.actions[0] == Action::SendRecv(RecvPacket::InitOk));
    lemma_is_sent(step.next, step.actions, step.actions[0], init_ok());
    assert(possible(u, e2));
    lemma_step(m, u, e2);
    let v = next(u, e2);
    lemma_packet_count(s.transfer.len(), s.payload_size, 0);
    lemma_burst(opened(s), w.sender.next_timer, first_window(s));
}

/// The next two events of a transfer with a part in flight: it arrives, and so does its
/// acknowledgement.
proof fn lemma_one_part(m: MessageView, w: World, q: u32)
    requires
        inv(m, w),
        numbers_left(w),
        w.sender.sender matches Some(s) && s.timeout_keys.contains_key(q),
    ensures
        ({
            let e1 = Event::PacketAtReceiver(part_packet(m, q));
            let e2 = Event::PacketAtSender(ack(q));
            let v = next(next(w, e1), e2);
            &&& possible(w, e1)
            &&& possible(next(w, e1), e2)
            &&& numbers_left(v)
            &&& distance(v) < distance(w)
        }),
{
    let e1 = Event::PacketAtReceiver(part_packet(m, q));
    let e2 = Event::PacketAtSender(ack(q));
    let s = w.sender.sender.unwrap();
    let u = next(w, e1);
    assert(w.message is None);
    assert(w.receiver.reader is Some);
    assert(w.to_receiver.contains(part_packet(m, q)));
    lemma_step(m, w, e1);
    let step = w.receiver.step(signal(e1));
    assert(step.actions[0] == Action::SendRecv(RecvPacket::DataAck(SeqNum(q))));
    lemma_is_sent(step.next, step.actions, step.actions[0], ack(q));
    assert(possible(u, e2));
    lemma_step(m, u, e2);
    let keys = s.timeout_keys;
    let rest = keys.remove(q);
    let n = s.next_to_send.0;
    assert(rest.dom() =~= keys.dom().remove(q));
    assert(rest.insert(n, w.sender.next_timer).dom() =~= rest.dom().insert(n));
    assert(keys.len() == rest.len() + 1);
}

/// The next two events of a transfer whose `Fin` awaits its answer.
proof fn lemma_end(m: MessageView, w: World)
    requires
        inv(m, w),
        numbers_left(w),
        w.sender.sender matches Some(s) && s.fin_timeout_key is Some,
    ensures
        ({
            let e1 = Event::PacketAtReceiver(fin());
            let e2 = Event::PacketAtSender(fin_ok());
            let v = next(next(w, e1), e2);
            &&& possible(w, e1)
            &&& possible(next(w, e1), e2)
            &&& numbers_left(v)
            &&& distance(v) < distance(w)
        }),
{
    let e1 = Event::PacketAtReceiver(fin());
    let e2 = Event::PacketAtSender(fin_ok());
    let u = next(w, e1);
    assert(w.message is None);
    assert(w.receiver.reader is Some);
    lemma_step(m, w, e1);
    let step = w.receiver.step(signal(e1));
    let r = w.receiver.reader.unwrap();
    let k = cancel(r.fin_ok_timeout_key).len() as int;
    assert(step.actions[k] == Action::SendRecv(RecvPacket::FinOk));
    lemma_is_sent(step.next, step.actions, step.actions[k], fin_ok());
    assert(possible(u, e2));
    lemma_step(m, u, e2);
}

/// The next event of a transfer whose end the sender waits for or has waited for, the receiver
/// having handed out nothing.
proof fn lemma_hand_out(m: MessageView, w: World)
    requires
        inv(m, w),
        numbers_left(w),
        w.message is None,
        w.sender.sender matches Some(s) ==> s.time_wait_key is Some,
    ensures
        ({
            let e = Event::PacketAtReceiver(fin_ok_ok());
            &&& possible(w, e)
            &&& numbers_left(next(w, e))
            &&& distance(next(w, e)) < distance(w)
        }),
{
    let e = Event::PacketAtReceiver(fin_ok_ok());
    assert(w.to_receiver.contains(fin_ok_ok()));
    lemma_step(m, w, e);
    lemma_all_in_place(m, w, w.receiver.reader.unwrap());
    assert(next(w, e).message == Some(m));
}

/// The last event of a transfer whose message was handed out.
proof fn lemma_close(m: MessageView, w: World)
    requires
        inv(m, w),
        numbers_left(w),
        w.message is Some,
        w.sender.sender matches Some(s) && s.time_wait_key is Some,
    ensures
        ({
            let e = Event::TimerAtSender(Expired::TimeWaitToClose);
            &&& possible(w, e)
            &&& numbers_left(next(w, e))
            &&& distance(next(w, e)) < distance(w)
        }),
{
    lemma_step(m, w, Event::TimerAtSender(Expired::TimeWaitToClose));
}

/// One event, or two in turn, make `u` of `w`.
#[verifier::opaque]
spec fn makes(w: World, es: Seq<Event>, u: World) -> bool {
    ||| es.len() == 1 && possible(w, es[0]) && u == next(w, es[0])
    ||| es.len() == 2 && possible(w, es[0]) && possible(next(w, es[0]), es[1]) && u == next(
        next(w, es[0]),
        es[1],
    )
}

/// The transfer is at a distance from its end, and there are timer numbers for what it takes.
#[verifier::opaque]
spec fn at_distance(w: World, d: nat) -> bool {
    numbers_left(w) && distance(w) == d
}

/// The events make `v` of the two hosts.
#[verifier::opaque]
spec fn reached(w: World, m: MessageView, events: Seq<Event>, v: World) -> bool {
    ready(w, m) && all_possible(w, m, events) && run(w, m, events) == v
}

/// One event, or two in turn, that make `u` of `w`.
proof fn lemma_makes(w: World, e: Event, f: Option<Event>) -> (r: (Seq<Event>, World))
    requires
        possible(w, e),
        f matches Some(f) ==> possible(next(w, e), f),
    ensures
        makes(w, r.0, r.1),
        r.1 == (match f {
            Some(f) => next(next(w, e), f),
            None => next(w, e),
        }),
{
    reveal(makes);
    match f {
        Some(f) => (seq![e, f], next(next(w, e), f)),
        None => (seq![e], next(w, e)),
    }
}

/// One or two events that bring a transfer nearer to its end, and what they make of it.
proof fn lemma_advance(m: MessageView, w: World, d: nat) -> (r: (Seq<Event>, World, nat))
    requires
        inv(m, w),
        at_distance(w, d),
        d > 0,
    ensures
        makes(w, r.0, r.1),
        at_distance(r.1, r.2),
        r.2 < d,
{
    reveal(at_distance);
    let end = Event::PacketAtReceiver(fin_ok_ok());
    let (e, f) = match w.sender.sender {
        None => {
            lemma_hand_out(m, w);
            (end, None)
        },
        Some(s) => if s.init_timeout_key is Some {
            lemma_announce(m, w);
            (Event::PacketAtReceiver(sending(m).init()), Some(Event::PacketAtSender(init_ok())))
        } else if s.fin_timeout_key is Some {
            lemma_end(m, w);
            (Event::PacketAtReceiver(fin()), Some(Event::PacketAtSender(fin_ok())))
        } else if s.time_wait_key is Some {
            if w.message is None {
                lemma_hand_out(m, w);
                (end, None)
            } else {
                lemma_close(m, w);
                (Event::TimerAtSender(Expired::TimeWaitToClose), None)
            }
        } else {
            assert(exists|q: u32| s.timeout_keys.contains_key(q)) by {
                if forall|q: u32| !s.timeout_keys.contains_key(q) {
                    assert(s.timeout_keys =~= Map::empty());
                }
            }
            let q = choose|q: u32| s.timeout_keys.contains_key(q);
            lemma_one_part(m, w, q);
            (Event::PacketAtReceiver(part_packet(m, q)), Some(Event::PacketAtSender(ack(q))))
        },
    };
    let (es, u) = lemma_makes(w, e, f);
    (es, u, distance(u))
}

/// Events that are added to those so far.
proof fn lemma_reached(
    w: World,
    m: MessageView,
    events: Seq<Event>,
    v: World,
    es: Seq<Event>,
    u: World,
)
    requires
        reached(w, m, events, v),
        makes(v, es, u),
    ensures
        reached(w, m, events + es, u),
{
    reveal(reached);
    reveal(makes);
    let one = events.push(es[0]);
    lemma_push(w, m, events, es[0]);
    if es.len() == 1 {
        assert(events + es =~= one);
    } else {
        lemma_push(w, m, one, es[1]);
        assert(events + es =~= one.push(es[1]));
    }
}

/// What holds of both hosts wherever events have led.
proof fn lemma_reached_inv(w: World, m: MessageView, events: Seq<Event>, v: World)
    requires
        reached(w, m, events, v),
    ensures
        inv(m, v),
{
    reveal(reached);
    lemma_inv(w, m, events);
}

/// At no distance from its end the transfer is done.
proof fn lemma_done(m: MessageView, v: World)
    requires
        inv(m, v),
        at_distance(v, 0),
    ensures
        v.message == Some(m),
        v.told,
{
    reveal(at_distance);
}

/// The events that bring a transfer to its end.
proof fn lemma_arrival(w: World, m: MessageView, events: Seq<Event>, v: World, d: nat) -> (r: (
    Seq<Event>,
    World,
))
    requires
        reached(w, m, events, v),
        at_distance(v, d),
    ensures
        reached(w, m, events + r.0, r.1),
        at_distance(r.1, 0),
    decreases d,
{
    if d == 0 {
        assert(events + Seq::<Event>::empty() =~= events);
        (Seq::empty(), v)
    } else {
        lemma_reached_inv(w, m, events, v);
        let (es, u, c) = lemma_advance(m, v, d);
        lemma_reached(w, m, events, v, es, u);
        let (rest, x) = lemma_arrival(w, m, events + es, u, c);
        assert(events + (es + rest) =~= events + es + rest);
        (es + rest, x)
    }
}

/// A message can still arrive, whatever has happened: some further events, each of them
/// possible, make the receiver hand it out and the sender tell its user, as long as there are
/// numbers for the timers that this takes.
pub proof fn law_message_can_still_arrive(w: World, m: MessageView, events: Seq<Event>)
    requires
        ready(w, m),
        all_possible(w, m, events),
        run(w, m, events).sender.next_timer + 2 * SEQ_NUM_LIMIT <= u64::MAX,
        run(w, m, events).receiver.next_timer + 2 * SEQ_NUM_LIMIT <= u64::MAX,
    ensures
        exists|more: Seq<Event>|
            #![trigger all_possible(w, m, events + more)]
            all_possible(w, m, events + more) && run(w, m, events + more).message == Some(m) && run(
                w,
                m,
                events + more,
            ).told,
{
    let v = run(w, m, events);
    let d = distance(v);
    assert(reached(w, m, events, v)) by {
        reveal(reached);
    }
    lemma_reached_inv(w, m, events, v);
    assert(at_distance(v, d)) by {
        reveal(at_distance);
    }
    let (more, x) = lemma_arrival(w, m, events, v, d);
    lemma_reached_inv(w, m, events + more, x);
    lemma_done(m, x);
    assert(all_possible(w, m, events + more) && run(w, m, events + more) == x) by {
        reveal(reached);
    }
}

/// The same two hosts once the packets of the transfer are gone from the network.
pub open spec fn settled(w: World) -> World {
    World {
        to_receiver: w.to_receiver.filter(|p: PacketView| !(p is Send)),
        to_sender: w.to_sender.filter(|p: PacketView| !(p is Recv)),
        message: None,
        told: false,
        ..w
    }
}

/// One message after the other can be sent over a connection: when the transfer is over at both
/// hosts and its packets are gone from the network, they are ready for the next.
pub proof fn law_next_message(w: World, m: MessageView, events: Seq<Event>, n: MessageView)
    requires
        ready(w, m),
        all_possible(w, m, events),
        run(w, m, events).told,
        run(w, m, events).receiver.reader is None,
        timers_left(run(w, m, events).sender.next_timer),
        can_be_sent(n, w.sender.codec),
    ensures
        ready(settled(run(w, m, events)), n),
{
    lemma_inv(w, m, events);
    lemma_codec(w, m, events);
}

/// The kind of frame stays what it was.
proof fn lemma_codec(w: World, m: MessageView, events: Seq<Event>)
    ensures
        run(w, m, events).sender.codec == w.sender.codec,
    decreases events.len(),
{
    if events.len() > 0 {
        lemma_codec(w, m, events.drop_last());
    }
}

} // verus!
