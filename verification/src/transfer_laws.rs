//! What holds of a transfer as a whole.

use vstd::prelude::*;
use vstd::utf8::{encode_utf8_decode_utf8, encode_utf8_valid_utf8, valid_utf8};

use crate::event_loop::{
    law_packets_fit, lemma_burst_actions, lemma_repeated_actions, LoopView,
};
use crate::frame::{Codec, FrameError};
use crate::message::{MessageDataView, MessageView};
use crate::packet::{
    ConnPacket, PacketView, RecvPacket, SendPacketView, SeqNum, SEQ_NUM_LIMIT,
};
use crate::packet_laws::{law_frame_round_trip, name_survives};
use crate::receiver::{receiving_admits, receiving_step, ReceiveStateView};
use crate::sender::{
    awaits_again, burst, cancel, chunk, first_window, lemma_burst, lemma_burst_keys,
    lemma_packet_count, lemma_repeated, lemma_resent, lemma_sending_wf, lookup, opened,
    packet_count, repeated, sending_admits, sending_step, stay, timers_left, transferable, Sending,
    SendStateView, WINDOW_SIZE,
};
use crate::signal::{Action, ConnSig, Delay, Expired, RecvSigView, SendSigView, SigView, TimerId};
use crate::wire::splice;
use crate::MSS;

verus! {

/// The parts in front of part `n`, one behind the other.
pub open spec fn joined(transfer: Seq<u8>, payload_size: u16, n: nat) -> Seq<u8>
    decreases n,
{
    if n == 0 {
        seq![]
    } else {
        joined(transfer, payload_size, (n - 1) as nat) + chunk(
            transfer,
            payload_size,
            n - 1,
        )
    }
}

proof fn lemma_joined(transfer: Seq<u8>, payload_size: u16, n: nat)
    requires
        payload_size > 0,
        n <= packet_count(transfer.len(), payload_size),
    ensures
        joined(transfer, payload_size, n) == transfer.take(
            if n * payload_size <= transfer.len() {
                n * payload_size
            } else {
                transfer.len() as int
            },
        ),
    decreases n,
{
    let p = payload_size as int;
    if n == 0 {
        assert(n * p == 0) by (nonlinear_arith)
            requires
                n == 0,
        ;
        assert(joined(transfer, payload_size, n) =~= transfer.take(0));
    } else {
        lemma_joined(transfer, payload_size, (n - 1) as nat);
        lemma_packet_count(transfer.len(), payload_size, n - 1);
        assert(n * p == (n - 1) * p + p) by (nonlinear_arith);
        let end = if n * p <= transfer.len() {
            n * p
        } else {
            transfer.len() as int
        };
        assert(joined(transfer, payload_size, n) =~= transfer.take(end));
    }
}

/// The parts of a transfer, one behind the other, are the transfer: nothing is left out and
/// nothing is sent twice. Each part has the payload size, but for the last, which may be
/// shorter, but is not empty.
pub proof fn law_parts_make_the_transfer(transfer: Seq<u8>, payload_size: u16)
    requires
        payload_size > 0,
    ensures
        joined(
            transfer,
            payload_size,
            packet_count(transfer.len(), payload_size) as nat,
        ) == transfer,
        forall|i: int|
            0 <= i < packet_count(transfer.len(), payload_size) ==> 1 <= (#[trigger] chunk(
                transfer,
                payload_size,
                i,
            )).len() <= payload_size,
        forall|i: int|
            0 <= i < packet_count(transfer.len(), payload_size) - 1 ==> (#[trigger] chunk(
                transfer,
                payload_size,
                i,
            )).len() == payload_size,
{
    let n = packet_count(transfer.len(), payload_size);
    lemma_packet_count(transfer.len(), payload_size, 0);
    lemma_packet_count(transfer.len(), payload_size, n);
    lemma_joined(transfer, payload_size, n as nat);
    assert(transfer.take(transfer.len() as int) =~= transfer);
    assert forall|i: int| 0 <= i < n implies 1 <= (#[trigger] chunk(
        transfer,
        payload_size,
        i,
    )).len() <= payload_size by {
        lemma_packet_count(transfer.len(), payload_size, i);
    }
    assert forall|i: int| 0 <= i < n - 1 implies (#[trigger] chunk(
        transfer,
        payload_size,
        i,
    )).len() == payload_size by {
        lemma_packet_count(transfer.len(), payload_size, i);
        lemma_packet_count(transfer.len(), payload_size, i + 1);
        assert((i + 1) * payload_size == i * payload_size + payload_size) by (nonlinear_arith);
    }
}

/// The signal of part `seq` of a message on its way.
pub open spec fn part(s: SendStateView, seq: SeqNum) -> RecvSigView {
    RecvSigView::Packet(
        SendPacketView::Data {
            seq_num: seq,
            data: chunk(s.transfer, s.payload_size, seq.0 as int),
        },
    )
}

/// The receiving side after the parts of `order` have arrived, one after the other.
pub open spec fn arrived(
    r: ReceiveStateView,
    t: TimerId,
    s: SendStateView,
    order: Seq<SeqNum>,
) -> ReceiveStateView
    decreases order.len(),
{
    if order.len() == 0 {
        r
    } else {
        receiving_step(
            Some(arrived(r, t, s, order.drop_last())),
            t,
            part(s, order.last()),
        ).reader.unwrap()
    }
}

/// All numbers of `order` belong to parts of the message.
pub open spec fn parts_of(s: SendStateView, order: Seq<SeqNum>) -> bool {
    forall|i: int| 0 <= i < order.len() ==> (#[trigger] order[i]).0 < s.count()
}

/// Every part of the message occurs in `order`.
pub open spec fn complete(s: SendStateView, order: Seq<SeqNum>) -> bool {
    forall|n: u32| n < s.count() ==> #[trigger] order.contains(SeqNum(n))
}

/// The part that byte `j` of a transfer belongs to.
pub open spec fn part_of_byte(s: SendStateView, j: int) -> int {
    j / (s.payload_size as int)
}

/// Every byte of a transfer belongs to one of its parts.
pub proof fn lemma_part_of_byte(s: SendStateView, j: int)
    requires
        s.sound(),
        0 <= j < s.transfer.len(),
    ensures
        ({
            let n = part_of_byte(s, j);
            &&& 0 <= n < s.count()
            &&& n * s.payload_size <= j < n * s.payload_size + s.payload_size
        }),
{
    let p = s.payload_size as int;
    let n = part_of_byte(s, j);
    vstd::arithmetic::div_mod::lemma_fundamental_div_mod(j, p);
    assert(j == p * n + j % p);
    assert(n * p == p * n) by (nonlinear_arith);
    assert(0 <= n) by (nonlinear_arith)
        requires
            j == p * n + j % p,
            0 <= j % p < p,
            0 <= j,
            p > 0,
    ;
    lemma_packet_count(s.transfer.len(), s.payload_size, n);
}

/// What the parts of `order` leave at each byte.
proof fn lemma_arrived(r: ReceiveStateView, t: TimerId, s: SendStateView, order: Seq<SeqNum>)
    requires
        s.sound(),
        parts_of(s, order),
        r.recv_bytes.len() == s.transfer.len(),
        r.payload_size == s.payload_size,
    ensures
        ({
            let q = arrived(r, t, s, order);
            &&& q == (ReceiveStateView { recv_bytes: q.recv_bytes, ..r })
            &&& q.recv_bytes.len() == s.transfer.len()
            &&& forall|i: int, j: int|
                0 <= i < order.len() && 0 <= j < s.transfer.len() && part_of_byte(s, j)
                    == #[trigger] order[i].0 ==> #[trigger] q.recv_bytes[j] == s.transfer[j]
        }),
    decreases order.len(),
{
    if order.len() > 0 {
        let front = order.drop_last();
        let seq = order.last();
        assert(seq == order[order.len() - 1]);
        assert forall|i: int| 0 <= i < front.len() implies (#[trigger] front[i]).0 < s.count() by {
            assert(front[i] == order[i]);
        }
        lemma_arrived(r, t, s, front);
        let before = arrived(r, t, s, front);
        let q = arrived(r, t, s, order);
        let p = s.payload_size as int;
        let at = seq.0 * p;
        let data = chunk(s.transfer, s.payload_size, seq.0 as int);
        lemma_packet_count(s.transfer.len(), s.payload_size, seq.0 as int);
        assert(q.recv_bytes == splice(before.recv_bytes, at, data));
        assert forall|i: int, j: int|
            0 <= i < order.len() && 0 <= j < s.transfer.len() && part_of_byte(s, j)
                == #[trigger] order[i].0 implies #[trigger] q.recv_bytes[j] == s.transfer[j] by {
            lemma_part_of_byte(s, j);
            if at <= j < at + data.len() {
                assert(q.recv_bytes[j] == data[j - at]);
            } else {
                assert(q.recv_bytes[j] == before.recv_bytes[j]);
                if order[i] == seq {
                    assert(false);
                } else {
                    assert(front[i] == order[i]);
                }
            }
        }
    }
}

/// Every part of a message on its way can be given to a receiving side that has room for it.
pub proof fn law_parts_are_admitted(r: ReceiveStateView, s: SendStateView, seq: SeqNum)
    requires
        s.sound(),
        seq.0 < s.count(),
        r.recv_bytes.len() == s.transfer.len(),
        r.payload_size == s.payload_size,
    ensures
        receiving_admits(Some(r), part(s, seq)),
{
    lemma_packet_count(s.transfer.len(), s.payload_size, seq.0 as int);
}

/// Once every part has arrived, in any order and any number of times, the received bytes
/// are those of the transfer.
pub proof fn law_reassembly(
    r: ReceiveStateView,
    t: TimerId,
    s: SendStateView,
    order: Seq<SeqNum>,
)
    requires
        s.sound(),
        parts_of(s, order),
        complete(s, order),
        r.recv_bytes.len() == s.transfer.len(),
        r.payload_size == s.payload_size,
    ensures
        arrived(r, t, s, order) == (ReceiveStateView { recv_bytes: s.transfer, ..r }),
{
    lemma_arrived(r, t, s, order);
    let q = arrived(r, t, s, order);
    assert forall|j: int| 0 <= j < s.transfer.len() implies q.recv_bytes[j] == s.transfer[j] by {
        lemma_part_of_byte(s, j);
        let n = SeqNum(part_of_byte(s, j) as u32);
        assert(order.contains(n));
        let i = choose|i: int| 0 <= i < order.len() && order[i] == n;
        assert(part_of_byte(s, j) == order[i].0);
    }
    assert(q.recv_bytes =~= s.transfer);
}

/// The name of a file, which its announcement carries, survives the announcement.
pub open spec fn deliverable(m: MessageView) -> bool {
    m.data matches MessageDataView::File { name, .. } ==> name.len() > 0 && !name.contains('\0')
}

/// A message arrives when nothing disturbs it. The announcement and the parts read back from
/// their frames; the announcement opens the message at a host that is receiving nothing; the
/// host can be given the parts; and once every part has arrived there, in any order and any
/// number of times, the end of the transfer makes the host hand out the message that was sent.
pub proof fn law_complete_message_is_handed_out(
    m: MessageView,
    codec: Codec,
    sent: TimerId,
    t: TimerId,
    order: Seq<SeqNum>,
)
    requires
        transferable(m),
        m.payload_size + 4 <= codec.room(),
        deliverable(m),
        parts_of(SendStateView::announced(m, sent), order),
        complete(SendStateView::announced(m, sent), order),
    ensures
        ({
            let s = SendStateView::announced(m, sent);
            let init = SendPacketView::Init {
                payload_size: m.payload_size,
                transfer: m.transfer().len() as u32,
                name: m.name(),
            };
            let opened = receiving_step(None, t, RecvSigView::Packet(init));
            &&& s.init() == PacketView::Send(init)
            &&& codec.read(codec.frame(s.init())) == Ok::<Option<PacketView>, FrameError>(
                Some(s.init()),
            )
            &&& forall|seq: SeqNum|
                seq.0 < s.count() ==> codec.read(#[trigger] codec.frame(s.data(seq))) == Ok::<
                    Option<PacketView>,
                    FrameError,
                >(Some(s.data(seq)))
            &&& opened.actions == seq![Action::SendRecv(RecvPacket::InitOk)]
            &&& opened.reader is Some
            &&& forall|i: int|
                0 <= i < order.len() ==> receiving_admits(
                    Some(arrived(opened.reader.unwrap(), t, s, #[trigger] order.take(i))),
                    part(s, order[i]),
                )
            &&& {
                let fin = RecvSigView::Packet(SendPacketView::Fin);
                let fin_ok_ok = RecvSigView::Packet(SendPacketView::FinOkOk);
                let all = arrived(opened.reader.unwrap(), t, s, order);
                let asked = receiving_step(Some(all), t, fin);
                &&& receiving_admits(Some(all), fin)
                &&& receiving_admits(asked.reader, fin_ok_ok)
                &&& receiving_step(asked.reader, asked.next_timer, fin_ok_ok).message == Some(m)
            }
        }),
{
    let s = SendStateView::announced(m, sent);
    let init = SendPacketView::Init {
        payload_size: m.payload_size,
        transfer: m.transfer().len() as u32,
        name: m.name(),
    };
    let opened = receiving_step(None, t, RecvSigView::Packet(init));
    lemma_packet_count(m.transfer().len(), m.payload_size, 0);
    assert(s.wf());
    law_frame_round_trip(codec, s.init());
    assert forall|seq: SeqNum| seq.0 < s.count() implies codec.read(
        #[trigger] codec.frame(s.data(seq)),
    ) == Ok::<Option<PacketView>, FrameError>(Some(s.data(seq))) by {
        lemma_packet_count(s.transfer.len(), s.payload_size, seq.0 as int);
        law_frame_round_trip(codec, s.data(seq));
    }
    let r = opened.reader.unwrap();
    assert forall|i: int| 0 <= i < order.len() implies receiving_admits(
        Some(arrived(r, t, s, #[trigger] order.take(i))),
        part(s, order[i]),
    ) by {
        let front = order.take(i);
        assert forall|j: int| 0 <= j < front.len() implies (#[trigger] front[j]).0 < s.count() by {
            assert(front[j] == order[j]);
        }
        lemma_arrived(r, t, s, front);
        law_parts_are_admitted(arrived(r, t, s, front), s, order[i]);
    }
    law_reassembly(r, t, s, order);
    if let MessageDataView::Text(text) = m.data {
        encode_utf8_valid_utf8(text);
        encode_utf8_decode_utf8(text);
    }
}

/// Every packet that a connection asks to be sent is what a host with the same kind of frame
/// reads.
pub proof fn law_what_is_sent_is_read(l: LoopView, sig: SigView, i: int, p: PacketView)
    requires
        l.wf(),
        l.admits(sig),
        0 <= i < l.step(sig).actions.len(),
        l.step(sig).next.packet(l.step(sig).actions[i]) == Some(p),
        name_survives(p),
    ensures
        l.codec.frame(p).len() <= MSS,
        l.codec.read(l.codec.frame(p)) == Ok::<Option<PacketView>, FrameError>(Some(p)),
{
    law_packets_fit(l, sig, i);
    law_frame_round_trip(l.codec, p);
}

/// The end of a transfer. A host that gets `Fin` answers `FinOk`, to which the sender of `Fin`
/// answers `FinOkOk`; on that the receiver hands out the message and is ready for the next, and
/// the sender, having waited, tells its user and is ready for the next.
pub proof fn law_end_of_transfer(
    r: ReceiveStateView,
    s: SendStateView,
    t: TimerId,
    u: TimerId,
)
    requires
        r.name is None ==> valid_utf8(r.recv_bytes),
        s.fin_timeout_key is Some || s.time_wait_key is Some,
    ensures
        ({
            let asked = receiving_step(Some(r), t, RecvSigView::Packet(SendPacketView::Fin));
            let answered = sending_step(
                Some(s),
                u,
                SendSigView::Packet(RecvPacket::FinOk),
            );
            let done = RecvSigView::Packet(SendPacketView::FinOkOk);
            let closed = receiving_step(asked.reader, asked.next_timer, done);
            let waited = sending_step(
                answered.sender,
                answered.next_timer,
                SendSigView::TimeWaitToCloseExpired,
            );
            &&& asked.actions.contains(Action::SendRecv(RecvPacket::FinOk))
            &&& asked.message is None
            &&& answered.actions.contains(Action::SendFinOkOk)
            &&& receiving_admits(asked.reader, done)
            &&& closed.message == Some(r.message())
            &&& closed.reader is None
            &&& waited.actions == seq![Action::NotifySender]
            &&& waited.sender is None
        }),
{
    let asked = receiving_step(Some(r), t, RecvSigView::Packet(SendPacketView::Fin));
    let n = cancel(r.fin_ok_timeout_key).len() as int;
    assert(asked.actions[n] == Action::SendRecv(RecvPacket::FinOk));
    let answered = sending_step(Some(s), u, SendSigView::Packet(RecvPacket::FinOk));
    assert(answered.actions[0] == Action::SendFinOkOk);
}

/// `FinOk` and `Fin` that got lost are sent again when their timers run out.
pub proof fn law_end_is_repeated(r: ReceiveStateView, s: SendStateView, t: TimerId)
    ensures
        receiving_step(Some(r), t, RecvSigView::FinOkExpired).actions == seq![
            Action::SendRecv(RecvPacket::FinOk),
            Action::StartTimer { id: t, expired: Expired::FinOk, delay: Delay::AckTimeout },
        ],
        sending_step(Some(s), t, SendSigView::FinExpired).actions == seq![
            Action::SendFin,
            Action::StartTimer { id: t, expired: Expired::Fin, delay: Delay::TenAckTimeouts },
        ],
        sending_step(Some(s), t, SendSigView::InitExpired).actions == seq![
            Action::SendInit,
            Action::StartTimer { id: t, expired: Expired::Init, delay: Delay::AckTimeout },
        ],
{
    assert(receiving_step(Some(r), t, RecvSigView::FinOkExpired).actions =~= seq![
        Action::SendRecv(RecvPacket::FinOk),
        Action::StartTimer { id: t, expired: Expired::FinOk, delay: Delay::AckTimeout },
    ]);
}

/// A part that was not acknowledged in time is sent again, with a timer of its own.
pub proof fn law_lost_part_is_repeated(s: SendStateView, t: TimerId, seq: SeqNum)
    ensures
        ({
            let step = sending_step(Some(s), t, SendSigView::AckExpired(seq));
            &&& step.actions == seq![
                Action::SendData(seq),
                Action::StartTimer {
                    id: t,
                    expired: Expired::Ack(seq),
                    delay: Delay::AckTimeout,
                },
            ]
            &&& step.sender.unwrap().timeout_keys == s.timeout_keys.insert(seq.0, t)
        }),
{
    let step = sending_step(Some(s), t, SendSigView::AckExpired(seq));
    assert(step.actions =~= seq![
        Action::SendData(seq),
        Action::StartTimer { id: t, expired: Expired::Ack(seq), delay: Delay::AckTimeout },
    ]);
    assert(step.sender.unwrap().timeout_keys =~= s.timeout_keys.insert(seq.0, t));
}

/// Any part in flight that arrives makes room for the next one, whichever it is: parts in front
/// of it that are still missing hold nothing up.
pub proof fn law_window_slides(s: SendStateView, t: TimerId, acked: SeqNum)
    requires
        s.wf(),
        s.next_to_send.0 < s.count(),
        s.timeout_keys.contains_key(acked.0),
    ensures
        ({
            let step = sending_step(
                Some(s),
                t,
                SendSigView::Packet(RecvPacket::DataAck(acked)),
            );
            &&& step.actions.contains(Action::SendData(s.next_to_send))
            &&& step.sender.unwrap().next_to_send.0 == s.next_to_send.0 + 1
            &&& step.sender.unwrap().timeout_keys.contains_key(s.next_to_send.0)
        }),
{
    let step = sending_step(Some(s), t, SendSigView::Packet(RecvPacket::DataAck(acked)));
    let n = cancel(lookup(s.timeout_keys, acked.0)).len() as int;
    assert(step.actions[n] == Action::SendData(s.next_to_send));
}

/// Answers that come once more do nothing: the acknowledgement of a part that is not in flight,
/// and an answer to `Fin` that was not sent.
pub proof fn law_repeated_answers_do_nothing(s: SendStateView, t: TimerId, q: SeqNum)
    ensures
        !s.timeout_keys.contains_key(q.0) ==> sending_step(
            Some(s),
            t,
            SendSigView::Packet(RecvPacket::DataAck(q)),
        ) == stay(s, t),
        s.fin_timeout_key is None && s.time_wait_key is None ==> sending_step(
            Some(s),
            t,
            SendSigView::Packet(RecvPacket::FinOk),
        ) == stay(s, t),
{
}

/// A part that is asked for is sent again, whether it is in flight or not. It awaits its
/// acknowledgement if it did so already, or if it was acknowledged while other parts were not
/// and the window has room for it.
pub proof fn law_refused_part_is_sent_again(s: SendStateView, t: TimerId, q: SeqNum)
    requires
        s.wf(),
        t < u64::MAX,
    ensures
        ({
            let step = sending_step(Some(s), t, SendSigView::Packet(RecvPacket::Nak(q)));
            &&& step.actions.len() > 0 && step.actions[0] == Action::SendData(q)
            &&& step.sender matches Some(next) && next == (SendStateView {
                timeout_keys: if awaits_again(s, q) {
                    s.timeout_keys.insert(q.0, t)
                } else {
                    s.timeout_keys
                },
                ..s
            })
        }),
{
}

/// Every part that was sent is in flight or was acknowledged.
pub open spec fn accounted(s: SendStateView, acked: Set<u32>) -> bool {
    forall|q: u32|
        q < s.next_to_send.0 ==> #[trigger] lookup(s.timeout_keys, q) is Some || acked.contains(q)
}

/// The parts that were acknowledged once `sig` is taken into account.
pub open spec fn acked_after(acked: Set<u32>, sig: SendSigView) -> Set<u32> {
    match sig {
        SendSigView::Packet(RecvPacket::DataAck(q)) => acked.insert(q.0),
        _ => acked,
    }
}

/// No part is forgotten: whatever happens, every part that was sent stays in flight until it
/// is acknowledged.
pub proof fn law_no_part_is_forgotten(
    s: SendStateView,
    t: TimerId,
    sig: SendSigView,
    acked: Set<u32>,
)
    requires
        s.wf(),
        timers_left(t),
        sending_admits(Some(s), sig),
        accounted(s, acked),
    ensures
        sending_step(Some(s), t, sig).sender matches Some(next) ==> accounted(
            next,
            acked_after(acked, sig),
        ),
{
    let step = sending_step(Some(s), t, sig);
    let now = acked_after(acked, sig);
    let n = first_window(s);
    lemma_packet_count(s.transfer.len(), s.payload_size, 0);
    lemma_burst(opened(s), t, n);
    lemma_repeated(s, t, n);
    if let SendSigView::Packet(RecvPacket::Nak(a)) = sig {
        lemma_resent(s, t, a);
    }
    if let Some(next) = step.sender {
        assert forall|q: u32| q < next.next_to_send.0 implies #[trigger] lookup(
            next.timeout_keys,
            q,
        ) is Some || now.contains(q) by {
            lemma_burst_keys(opened(s), t, n, q);
            assert(q < s.next_to_send.0 ==> lookup(s.timeout_keys, q) is Some || acked.contains(q));
        }
    }
}

/// `Fin` is sent only when every part was sent and has arrived, whatever makes it be sent: with
/// none in flight, all parts were acknowledged.
pub proof fn law_fin_comes_last(
    s: SendStateView,
    t: TimerId,
    sig: SendSigView,
    acked: Set<u32>,
)
    requires
        s.wf(),
        timers_left(t),
        sending_admits(Some(s), sig),
        accounted(s, acked),
        sending_step(Some(s), t, sig).actions.contains(Action::SendFin),
    ensures
        sending_step(Some(s), t, sig).sender matches Some(next) && next.all_arrived(),
        forall|q: u32| q < s.count() ==> #[trigger] acked_after(acked, sig).contains(q),
{
    let step = sending_step(Some(s), t, sig);
    let now = acked_after(acked, sig);
    lemma_sending_wf(Some(s), t, sig);
    law_no_part_is_forgotten(s, t, sig, acked);
    lemma_fin_stage(s, t, sig);
    let next = step.sender.unwrap();
    assert forall|q: u32| q < s.count() implies #[trigger] now.contains(q) by {
        assert(lookup(next.timeout_keys, q) is Some || now.contains(q));
    }
}

/// A step that sends `Fin` leaves its timer running.
pub proof fn lemma_fin_stage(s: SendStateView, t: TimerId, sig: SendSigView)
    requires
        s.wf(),
        timers_left(t),
        sending_admits(Some(s), sig),
        sending_step(Some(s), t, sig).actions.contains(Action::SendFin),
    ensures
        sending_step(Some(s), t, sig).sender matches Some(next) && next.fin_timeout_key is Some
            && next.count() == s.count(),
        sig is FinExpired || (s.fin_timeout_key is None && s.time_wait_key is None),
{
    let step = sending_step(Some(s), t, sig);
    let i = choose|i: int| 0 <= i < step.actions.len() && step.actions[i] == Action::SendFin;
    let n = first_window(s);
    lemma_packet_count(s.transfer.len(), s.payload_size, 0);
    lemma_burst(opened(s), t, n);
    if let SendSigView::Packet(RecvPacket::InitOk) = sig {
        let skip = cancel(s.init_timeout_key).len();
        if s.init_timeout_key is Some && s.count() > 0 && i >= skip {
            lemma_burst_actions(opened(s), t, n, i - skip);
            assert(step.actions[i] == burst(opened(s), t, n).actions[i - skip]);
        }
        if s.init_timeout_key is None {
            lemma_repeated_actions(s, t, n, i);
        }
    }
}

/// `Fin` is sent once, and again only when its timer has run out, which runs for ten times the
/// time within which a packet is to be acknowledged.
pub proof fn law_fin_waits_for_its_answer(s: SendStateView, t: TimerId, sig: SendSigView)
    requires
        s.wf(),
        timers_left(t),
        sending_admits(Some(s), sig),
        sending_step(Some(s), t, sig).actions.contains(Action::SendFin),
    ensures
        sig is FinExpired || (s.fin_timeout_key is None && s.time_wait_key is None),
        sending_step(Some(s), t, sig).actions.contains(
            Action::StartTimer { id: t, expired: Expired::Fin, delay: Delay::TenAckTimeouts },
        ),
        sending_step(Some(s), t, sig).sender matches Some(next) && next.fin_timeout_key == Some(t),
{
    let step = sending_step(Some(s), t, sig);
    lemma_fin_stage(s, t, sig);
    let n = first_window(s);
    lemma_packet_count(s.transfer.len(), s.payload_size, 0);
    lemma_burst(opened(s), t, n);
    lemma_repeated(s, t, n);
    assert(step.actions.last() == Action::StartTimer {
        id: t,
        expired: Expired::Fin,
        delay: Delay::TenAckTimeouts,
    });
}

/// The window is how many parts await their acknowledgement at the same time. Whatever happens,
/// there are never more than it has room for.
pub proof fn law_window_is_kept(s: SendStateView, t: TimerId, sig: SendSigView)
    requires
        s.wf(),
        timers_left(t),
        sending_admits(Some(s), sig),
    ensures
        sending_step(Some(s), t, sig).sender matches Some(next) ==> next.timeout_keys.len()
            <= WINDOW_SIZE,
{
    lemma_sending_wf(Some(s), t, sig);
}

/// Parts that were sent and not acknowledged are never more than the window has room for.
pub proof fn law_unacknowledged_parts_fit_the_window(
    s: SendStateView,
    acked: Set<u32>,
    unacked: Set<u32>,
)
    requires
        s.wf(),
        accounted(s, acked),
        forall|q: u32| #[trigger]
            unacked.contains(q) ==> q < s.next_to_send.0 && !acked.contains(q),
    ensures
        unacked.finite(),
        unacked.len() <= WINDOW_SIZE,
{
    assert forall|q: u32| unacked.contains(q) implies s.timeout_keys.dom().contains(q) by {
        assert(lookup(s.timeout_keys, q) is Some || acked.contains(q));
    }
    vstd::set_lib::lemma_len_subset(unacked, s.timeout_keys.dom());
}

/// Every answer to the announcement sends the first parts, as many as the window has room for;
/// the first one makes them await their acknowledgements.
pub proof fn law_first_window(s: SendStateView, t: TimerId, q: u32)
    requires
        s.wf(),
        timers_left(t),
        q < s.count(),
        q < WINDOW_SIZE,
    ensures
        ({
            let step = sending_step(Some(s), t, SendSigView::Packet(RecvPacket::InitOk));
            &&& step.actions.contains(Action::SendData(SeqNum(q)))
            &&& s.init_timeout_key is Some ==> {
                &&& step.sender.unwrap().timeout_keys.contains_key(q)
                &&& step.sender.unwrap().next_to_send.0 == first_window(s)
            }
        }),
{
    let n = first_window(s);
    let step = sending_step(Some(s), t, SendSigView::Packet(RecvPacket::InitOk));
    lemma_packet_count(s.transfer.len(), s.payload_size, 0);
    if s.init_timeout_key is Some {
        lemma_burst(opened(s), t, n);
        lemma_burst_sends(opened(s), t, n, q);
        let sent = burst(opened(s), t, n);
        let i = choose|i: int|
            0 <= i < sent.actions.len() && sent.actions[i] == Action::SendData(SeqNum(q));
        let k = cancel(s.init_timeout_key).len();
        assert(step.actions[k + i] == Action::SendData(SeqNum(q)));
    } else {
        lemma_repeated_sends(s, t, n, q);
    }
}

proof fn lemma_repeated_sends(s: SendStateView, t: TimerId, n: nat, q: u32)
    requires
        s.wf(),
        n <= SEQ_NUM_LIMIT,
        t + n <= u64::MAX,
        q < n,
    ensures
        repeated(s, t, n).actions.contains(Action::SendData(SeqNum(q))),
    decreases n,
{
    let before = repeated(s, t, (n - 1) as nat);
    lemma_repeated(s, t, (n - 1) as nat);
    if q == n - 1 {
        assert(repeated(s, t, n).actions[before.actions.len() as int] == Action::SendData(
            SeqNum(q),
        ));
    } else {
        lemma_repeated_sends(s, t, (n - 1) as nat, q);
        let i = choose|i: int|
            0 <= i < before.actions.len() && before.actions[i] == Action::SendData(SeqNum(q));
        assert(repeated(s, t, n).actions[i] == Action::SendData(SeqNum(q)));
    }
}

/// The sending side after a number of signals, and the number of its next timer.
pub open spec fn after_signals(m: MessageView, t: TimerId, sigs: Seq<SendSigView>) -> Sending
    decreases sigs.len(),
{
    if sigs.len() == 0 {
        sending_step(None, t, SendSigView::StartSendingFile(m))
    } else {
        let before = after_signals(m, t, sigs.drop_last());
        sending_step(before.sender, before.next_timer, sigs.last())
    }
}

/// Each of the signals could be given when it came.
pub open spec fn all_admitted(m: MessageView, t: TimerId, sigs: Seq<SendSigView>) -> bool
    decreases sigs.len(),
{
    sigs.len() == 0 || {
        let before = after_signals(m, t, sigs.drop_last());
        &&& all_admitted(m, t, sigs.drop_last())
        &&& sending_admits(before.sender, sigs.last())
        &&& timers_left(before.next_timer)
        &&& before.sender is Some
    }
}

/// The parts that the signals acknowledge.
pub open spec fn acked_by(sigs: Seq<SendSigView>) -> Set<u32> {
    Set::new(
        |q: u32| sigs.contains(SendSigView::Packet(RecvPacket::DataAck(SeqNum(q)))),
    )
}

/// Over every history of a transfer, whatever came and however often: the parts that were sent
/// and not acknowledged are never more than the window has room for, and once `Fin` awaits its
/// answer, every part was acknowledged.
pub proof fn law_window_over_every_history(
    m: MessageView,
    t: TimerId,
    sigs: Seq<SendSigView>,
    unacked: Set<u32>,
)
    requires
        transferable(m),
        timers_left(t),
        all_admitted(m, t, sigs),
    ensures
        after_signals(m, t, sigs).sender matches Some(s) ==> {
            &&& s.wf()
            &&& accounted(s, acked_by(sigs))
            &&& s.transfer == m.transfer() && s.payload_size == m.payload_size
            &&& (forall|q: u32| #[trigger]
                unacked.contains(q) ==> q < s.next_to_send.0 && !acked_by(sigs).contains(q))
                ==> unacked.finite() && unacked.len() <= WINDOW_SIZE
            &&& s.fin_timeout_key is Some || s.time_wait_key is Some ==> forall|q: u32|
                q < s.count() ==> #[trigger] acked_by(sigs).contains(q)
        },
    decreases sigs.len(),
{
    if sigs.len() == 0 {
        lemma_sending_wf(None, t, SendSigView::StartSendingFile(m));
    } else {
        let front = sigs.drop_last();
        let before = after_signals(m, t, front);
        law_window_over_every_history(m, t, front, unacked);
        let s = before.sender.unwrap();
        lemma_sending_wf(Some(s), before.next_timer, sigs.last());
        law_no_part_is_forgotten(s, before.next_timer, sigs.last(), acked_by(front));
        lemma_burst(opened(s), before.next_timer, first_window(s));
        lemma_repeated(s, before.next_timer, first_window(s));
        assert(acked_by(sigs) =~= acked_after(acked_by(front), sigs.last())) by {
            assert(sigs =~= front.push(sigs.last()));
            assert forall|x: SendSigView| sigs.contains(x) <==> front.contains(x) || x
                == sigs.last() by {
                if front.contains(x) {
                    let i = choose|i: int| 0 <= i < front.len() && front[i] == x;
                    assert(sigs[i] == x);
                }
                if x == sigs.last() {
                    assert(sigs[sigs.len() - 1] == x);
                }
            }
        }
    }
    if let Some(s) = after_signals(m, t, sigs).sender {
        if forall|q: u32| #[trigger]
            unacked.contains(q) ==> q < s.next_to_send.0 && !acked_by(sigs).contains(q) {
            law_unacknowledged_parts_fit_the_window(s, acked_by(sigs), unacked);
        }
        if s.fin_timeout_key is Some || s.time_wait_key is Some {
            assert forall|q: u32| q < s.count() implies #[trigger] acked_by(sigs).contains(q) by {
                assert(lookup(s.timeout_keys, q) is Some || acked_by(sigs).contains(q));
            }
        }
    }
}

/// A transfer without parts ends as soon as its announcement is answered.
pub proof fn law_empty_transfer_ends(s: SendStateView, t: TimerId)
    requires
        s.wf(),
        s.init_timeout_key is Some,
        s.transfer.len() == 0,
    ensures
        ({
            let step = sending_step(Some(s), t, SendSigView::Packet(RecvPacket::InitOk));
            &&& step.actions.contains(Action::SendFin)
            &&& step.sender matches Some(next) && next.fin_timeout_key == Some(t)
        }),
{
    let step = sending_step(Some(s), t, SendSigView::Packet(RecvPacket::InitOk));
    lemma_packet_count(s.transfer.len(), s.payload_size, 0);
    assert(step.actions[1] == Action::SendFin);
}

proof fn lemma_burst_sends(s: SendStateView, t: TimerId, n: nat, q: u32)
    requires
        n <= SEQ_NUM_LIMIT,
        t + n <= u64::MAX,
        q < n,
    ensures
        burst(s, t, n).sender.unwrap().timeout_keys.contains_key(q),
        burst(s, t, n).actions.contains(Action::SendData(SeqNum(q))),
    decreases n,
{
    let before = burst(s, t, (n - 1) as nat);
    lemma_burst(s, t, (n - 1) as nat);
    if q == n - 1 {
        assert(burst(s, t, n).actions[before.actions.len() as int] == Action::SendData(SeqNum(q)));
    } else {
        lemma_burst_sends(s, t, (n - 1) as nat, q);
        let i = choose|i: int|
            0 <= i < before.actions.len() && before.actions[i] == Action::SendData(SeqNum(q));
        assert(burst(s, t, n).actions[i] == Action::SendData(SeqNum(q)));
    }
}

/// A keep-alive is answered, and the answer stops its timer, once. A keep-alive that is not
/// answered in time ends the connection; sending another gives no more time.
pub proof fn law_keep_alive(a: LoopView, b: LoopView)
    requires
        a.next_timer < u64::MAX,
    ensures
        ({
            let asked = a.step(SigView::Conn(ConnSig::KeepAlive));
            let answered = b.step(SigView::Conn(ConnSig::Packet(ConnPacket::KeepAlive)));
            let ok = SigView::Conn(ConnSig::Packet(ConnPacket::KeepAliveOk));
            let relieved = asked.next.step(ok);
            let ended = asked.next.step(SigView::Conn(ConnSig::KeepAliveExpired));
            let timer = match a.keep_alive_key {
                Some(id) => id,
                None => a.next_timer,
            };
            &&& a.keep_alive_key is None ==> asked.actions == seq![
                Action::SendConn(ConnPacket::KeepAlive),
                Action::StartTimer {
                    id: a.next_timer,
                    expired: Expired::KeepAlive,
                    delay: Delay::KaTimeout,
                },
            ]
            &&& a.keep_alive_key is Some ==> asked.actions == seq![
                Action::SendConn(ConnPacket::KeepAlive),
            ]
            &&& asked.next.keep_alive_key == Some(timer)
            &&& answered.actions == seq![Action::SendConn(ConnPacket::KeepAliveOk)]
            &&& answered.next == b
            &&& relieved.actions == seq![Action::CancelTimer(timer)]
            &&& relieved.next.step(ok).actions == Seq::<Action>::empty()
            &&& ended.actions == seq![Action::Close]
        }),
{
}

/// An announcement that agrees with the message that is arriving is answered, and takes
/// nothing away of what has arrived.
pub proof fn law_repeated_announcement_keeps_what_arrived(
    r: ReceiveStateView,
    t: TimerId,
    name: Option<Seq<char>>,
    transfer: u32,
)
    requires
        r.agrees(r.payload_size, transfer, name),
    ensures
        ({
            let init = SendPacketView::Init { payload_size: r.payload_size, transfer, name };
            let step = receiving_step(Some(r), t, RecvSigView::Packet(init));
            &&& step.actions == seq![Action::SendRecv(RecvPacket::InitOk)]
            &&& step.reader == Some(ReceiveStateView { name, ..r })
            &&& step.next_timer == t
        }),
{
}

/// A `SynAck` that arrives once more is answered once more, with the number that it brings.
pub proof fn law_syn_ack_is_answered(l: LoopView, s: SeqNum)
    ensures
        l.step(SigView::Conn(ConnSig::Packet(ConnPacket::SynAck(s)))).actions == seq![
            Action::SendConn(ConnPacket::SynAckAck(s)),
        ],
        l.step(SigView::Conn(ConnSig::Packet(ConnPacket::SynAck(s)))).next == l,
{
}

} // verus!
