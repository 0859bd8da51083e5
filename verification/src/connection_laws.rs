//! What a connection does about every signal, told by what comes in and what goes out.

use vstd::prelude::*;
use vstd::utf8::{decode_utf8_encode_utf8, encode_utf8, valid_utf8};

use crate::event_loop::{lemma_repeated_actions, LoopView};
use crate::frame::FrameError;
use crate::message::MessageDataView;
use crate::packet::{ConnPacket, PacketView, RecvPacket, SendPacketView, SeqNum};
use crate::packet_laws::law_frame_round_trip;
use crate::receiver::ReceiveStateView;
use crate::sender::{
    burst, cancel, first_window, lemma_burst, lemma_burst_keys, lemma_numbers_below,
    lemma_packet_count, lemma_repeated, lookup, opened, repeated, resent, transmitted, SendStateView,
};
use crate::signal::{
    signal_of_packet, signal_of_timer, Action, ConnSig, Delay, Expired, RecvSigView, SendSigView,
    SigView, SocketError, TimerId,
};
use crate::transfer_laws::law_first_window;

verus! {

/// Who sends a message gets the packets that answer it, who receives one those that carry it,
/// and the connection all others.
pub proof fn law_signal_of_packet(p: PacketView)
    ensures
        match p {
            PacketView::Conn(c) => signal_of_packet(p) == SigView::Conn(ConnSig::Packet(c)),
            PacketView::Send(s) => signal_of_packet(p) == SigView::Recv(RecvSigView::Packet(s)),
            PacketView::Recv(r) => signal_of_packet(p) == SigView::Send(SendSigView::Packet(r)),
        },
{
}

/// A timer that runs out is made known to the side that it was started for.
pub proof fn law_signal_of_timer(q: SeqNum)
    ensures
        signal_of_timer(Expired::Ack(q)) == SigView::Send(SendSigView::AckExpired(q)),
        signal_of_timer(Expired::Init) == SigView::Send(SendSigView::InitExpired),
        signal_of_timer(Expired::Fin) == SigView::Send(SendSigView::FinExpired),
        signal_of_timer(Expired::TimeWaitToClose) == SigView::Send(
            SendSigView::TimeWaitToCloseExpired,
        ),
        signal_of_timer(Expired::FinOk) == SigView::Recv(RecvSigView::FinOkExpired),
        signal_of_timer(Expired::KeepAlive) == SigView::Conn(ConnSig::KeepAliveExpired),
{
}

/// The signals about itself that a connection can be given: all, but for a refused connection
/// and a number that no packet can bring.
pub proof fn law_connection_takes(l: LoopView, c: ConnSig)
    requires
        l.next_timer <= 0xFFFF_FFFF_FFFF_FF7F,
    ensures
        l.admits(SigView::Conn(c)) <==> match c {
            ConnSig::SocketError(e) => e != SocketError::ConnectionRefused,
            ConnSig::Packet(ConnPacket::SynAck(s)) => s.0 < 0x1000_0000,
            _ => true,
        },
{
}

/// Packets that only a handshake needs are ignored; a `SynAck` is answered by its number. A
/// connection that was reset or aborted is closed, and so is one whose keep-alive was not
/// answered; other errors end it. None of this touches the messages in either direction.
pub proof fn law_connection_signals(l: LoopView, s: SeqNum, c: ConnSig)
    ensures
        ({
            let step = |c: ConnSig| l.step(SigView::Conn(c));
            &&& step(ConnSig::Packet(ConnPacket::Syn)).actions.len() == 0
            &&& step(ConnSig::Packet(ConnPacket::SynAckAck(s))).actions.len() == 0
            &&& l.keep_alive_key is None ==> step(
                ConnSig::Packet(ConnPacket::KeepAliveOk),
            ).actions.len() == 0
            &&& step(ConnSig::Packet(ConnPacket::SynAck(s))).actions == seq![
                Action::SendConn(ConnPacket::SynAckAck(s)),
            ]
            &&& step(ConnSig::Packet(ConnPacket::KeepAlive)).actions == seq![
                Action::SendConn(ConnPacket::KeepAliveOk),
            ]
            &&& step(ConnSig::SocketError(SocketError::ConnectionReset)).actions == seq![
                Action::Close,
            ]
            &&& step(ConnSig::SocketError(SocketError::ConnectionAborted)).actions == seq![
                Action::Close,
            ]
            &&& step(ConnSig::SocketError(SocketError::Other)).actions == seq![Action::Fail]
            &&& step(ConnSig::KeepAliveExpired).actions == seq![Action::Close]
            &&& step(c).next.sender == l.sender
            &&& step(c).next.reader == l.reader
            &&& step(c).next.codec == l.codec
            &&& step(c).message is None
            &&& c == ConnSig::KeepAlive ==> step(c).next.keep_alive_key is Some
            &&& c == ConnSig::KeepAlive && l.keep_alive_key is Some ==> step(c).next == l
            &&& c == ConnSig::KeepAliveExpired || c == ConnSig::Packet(ConnPacket::KeepAliveOk)
                ==> step(c).next == (LoopView { keep_alive_key: None, ..l })
            &&& c is SocketError || (c is Packet && c != ConnSig::Packet(ConnPacket::KeepAliveOk))
                ==> step(c).next == l
        }),
{
}

/// What a host that has been silent sends is read by the other as a keep-alive, to which it
/// sends an answer; what the first host reads of that stops the timer of its keep-alive.
pub proof fn law_keep_alive_over_the_wire(a: LoopView, b: LoopView)
    requires
        a.wf(),
        b.wf(),
        a.codec == b.codec,
        a.next_timer <= 0xFFFF_FFFF_FFFF_FF7F,
        b.next_timer <= 0xFFFF_FFFF_FFFF_FF7F,
    ensures
        ({
            let codec = a.codec;
            let asked = a.step(SigView::Conn(ConnSig::KeepAlive));
            let p = asked.next.packet(asked.actions[0]).unwrap();
            let answered = b.step(signal_of_packet(p));
            let q = answered.next.packet(answered.actions[0]).unwrap();
            let relieved = asked.next.step(signal_of_packet(q));
            &&& asked.actions.len() > 0 && asked.next.packet(asked.actions[0]) is Some
            &&& codec.read(codec.frame(p)) == Ok::<Option<PacketView>, FrameError>(Some(p))
            &&& b.admits(signal_of_packet(p))
            &&& answered.actions.len() == 1 && answered.next.packet(answered.actions[0]) is Some
            &&& codec.read(codec.frame(q)) == Ok::<Option<PacketView>, FrameError>(Some(q))
            &&& asked.next.keep_alive_key matches Some(id) && relieved.actions == seq![
                Action::CancelTimer(id),
            ]
            &&& relieved.next.keep_alive_key is None
            &&& a.keep_alive_key is None ==> asked.actions.contains(
                Action::StartTimer {
                    id: a.next_timer,
                    expired: Expired::KeepAlive,
                    delay: Delay::KaTimeout,
                },
            ) && asked.next.keep_alive_key == Some(a.next_timer)
        }),
{
    let codec = a.codec;
    let asked = a.step(SigView::Conn(ConnSig::KeepAlive));
    assert(asked.next.packet(asked.actions[0]) == Some(PacketView::Conn(ConnPacket::KeepAlive)));
    law_frame_round_trip(codec, PacketView::Conn(ConnPacket::KeepAlive));
    law_frame_round_trip(codec, PacketView::Conn(ConnPacket::KeepAliveOk));
    if a.keep_alive_key is None {
        assert(asked.actions[1] == Action::StartTimer {
            id: a.next_timer,
            expired: Expired::KeepAlive,
            delay: Delay::KaTimeout,
        });
    }
}

/// A `SynAck` that comes over the wire is answered over the wire by a `SynAckAck` with its
/// number.
pub proof fn law_syn_ack_over_the_wire(l: LoopView, s: SeqNum)
    requires
        s.0 < 0x1000_0000,
    ensures
        ({
            let p = PacketView::Conn(ConnPacket::SynAck(s));
            let q = PacketView::Conn(ConnPacket::SynAckAck(s));
            let step = l.step(signal_of_packet(p));
            &&& l.codec.read(l.codec.frame(p)) == Ok::<Option<PacketView>, FrameError>(Some(p))
            &&& step.actions.len() == 1 && step.next.packet(step.actions[0]) == Some(q)
            &&& l.codec.read(l.codec.frame(q)) == Ok::<Option<PacketView>, FrameError>(Some(q))
        }),
{
    law_frame_round_trip(l.codec, PacketView::Conn(ConnPacket::SynAck(s)));
    law_frame_round_trip(l.codec, PacketView::Conn(ConnPacket::SynAckAck(s)));
}

/// A connection to which no message is arriving can be given every packet of a sender, however
/// late or often it comes, and only an announcement makes it do anything.
pub proof fn law_nothing_is_arriving(l: LoopView, r: RecvSigView)
    requires
        l.reader is None,
        l.next_timer <= 0xFFFF_FFFF_FFFF_FF7F,
    ensures
        ({
            let sig = SigView::Recv(r);
            let step = l.step(sig);
            &&& l.admits(sig)
            &&& step.message is None
            &&& !(r matches RecvSigView::Packet(SendPacketView::Init { .. })) ==> step.actions.len()
                == 0 && step.next == l
        }),
{
}

/// An announcement opens a message of its size, payload size and name, of which no byte has
/// arrived, and is answered.
pub proof fn law_announcement_opens(
    l: LoopView,
    payload_size: u16,
    transfer: u32,
    name: Option<Seq<char>>,
    j: int,
)
    requires
        l.reader is None,
    ensures
        ({
            let init = SendPacketView::Init { payload_size, transfer, name };
            let step = l.step(SigView::Recv(RecvSigView::Packet(init)));
            &&& step.actions == seq![Action::SendRecv(RecvPacket::InitOk)]
            &&& step.next == (LoopView { reader: step.next.reader, ..l })
            &&& step.next.reader matches Some(r) && r.recv_bytes.len() == transfer
                && (0 <= j < transfer ==> r.recv_bytes[j] == 0) && r.payload_size == payload_size
                && r.name == name && r.fin_ok_timeout_key is None
        }),
{
}

/// What a connection to which a message is arriving can be given: every announcement and every
/// `Fin`; parts that lie within the message; the end of the message once `Fin` was answered, if
/// the message is a file or its bytes are a text; and the timer of the answer to `Fin`, if it
/// runs.
pub proof fn law_what_is_taken_while_arriving(
    l: LoopView,
    r: ReceiveStateView,
    p: SendPacketView,
    seq_num: SeqNum,
    data: Seq<u8>,
)
    requires
        l.reader == Some(r),
        l.next_timer <= 0xFFFF_FFFF_FFFF_FF7F,
    ensures
        ({
            let takes = |p: SendPacketView| l.admits(SigView::Recv(RecvSigView::Packet(p)));
            &&& p is Init || p is Fin ==> takes(p)
            &&& takes(SendPacketView::Data { seq_num, data }) <==> {
                &&& seq_num.0 < 0x1000_0000
                &&& data.len() <= r.payload_size
                &&& seq_num.0 * r.payload_size + data.len() <= r.recv_bytes.len()
            }
            &&& takes(SendPacketView::FinOkOk) <==> {
                &&& r.fin_ok_timeout_key is Some
                &&& r.name is Some || valid_utf8(r.recv_bytes)
            }
            &&& l.admits(SigView::Recv(RecvSigView::FinOkExpired)) <==> r.fin_ok_timeout_key is Some
        }),
{
}

/// An announcement while a message is arriving is answered if it tells the same size and
/// payload size and no other name, and otherwise ignored. Either way not a byte of what has
/// arrived changes.
pub proof fn law_announcement_while_arriving(
    l: LoopView,
    r: ReceiveStateView,
    payload_size: u16,
    transfer: u32,
    name: Option<Seq<char>>,
)
    requires
        l.reader == Some(r),
    ensures
        ({
            let init = SendPacketView::Init { payload_size, transfer, name };
            let step = l.step(SigView::Recv(RecvSigView::Packet(init)));
            let same = r.recv_bytes.len() == transfer && r.payload_size == payload_size && (r.name
                is None || name is None || r.name == name);
            &&& same ==> step.actions == seq![Action::SendRecv(RecvPacket::InitOk)]
            &&& !same ==> step.actions.len() == 0 && step.next == l
            &&& step.next == (LoopView { reader: step.next.reader, ..l })
            &&& step.next.reader matches Some(q) && q.recv_bytes == r.recv_bytes && q.payload_size
                == r.payload_size && q.fin_ok_timeout_key == r.fin_ok_timeout_key && (same
                ==> q.name == name)
            &&& step.message is None
        }),
{
}

/// A part that arrives is put behind the payloads in front of it and acknowledged by its
/// number; no other byte changes.
pub proof fn law_part_arrives(
    l: LoopView,
    r: ReceiveStateView,
    seq_num: SeqNum,
    data: Seq<u8>,
    j: int,
)
    requires
        l.reader == Some(r),
        l.admits(SigView::Recv(RecvSigView::Packet(SendPacketView::Data { seq_num, data }))),
    ensures
        ({
            let part = SendPacketView::Data { seq_num, data };
            let step = l.step(SigView::Recv(RecvSigView::Packet(part)));
            let at = seq_num.0 * r.payload_size;
            &&& step.actions == seq![Action::SendRecv(RecvPacket::DataAck(seq_num))]
            &&& step.message is None
            &&& step.next == (LoopView { reader: step.next.reader, ..l })
            &&& step.next.reader matches Some(q) && q == (ReceiveStateView {
                recv_bytes: q.recv_bytes,
                ..r
            }) && q.recv_bytes.len() == r.recv_bytes.len() && (0 <= j < r.recv_bytes.len()
                ==> q.recv_bytes[j] == (if at <= j < at + data.len() {
                data[j - at]
            } else {
                r.recv_bytes[j]
            }))
        }),
{
    assert(0 <= seq_num.0 * r.payload_size) by (nonlinear_arith);
}

/// `Fin` is answered, and so is the timer of the answer when it runs out, each time with a new
/// timer in place of the one that may run; what has arrived stays.
pub proof fn law_fin_is_answered(l: LoopView, r: ReceiveStateView)
    requires
        l.reader == Some(r),
    ensures
        ({
            let t = l.next_timer;
            let fin = l.step(SigView::Recv(RecvSigView::Packet(SendPacketView::Fin)));
            let late = l.step(SigView::Recv(RecvSigView::FinOkExpired));
            let answer = seq![
                Action::SendRecv(RecvPacket::FinOk),
                Action::StartTimer { id: t, expired: Expired::FinOk, delay: Delay::AckTimeout },
            ];
            let next = Some(ReceiveStateView { fin_ok_timeout_key: Some(t), ..r });
            &&& r.fin_ok_timeout_key is None ==> fin.actions == answer
            &&& r.fin_ok_timeout_key matches Some(id) ==> fin.actions == seq![
                Action::CancelTimer(id),
            ] + answer
            &&& late.actions == answer
            &&& fin.next.reader == next && late.next.reader == next
            &&& t < 0xFFFF_FFFF_FFFF_FFFF ==> fin.next.next_timer == t + 1 && late.next.next_timer == t
                + 1
            &&& fin.message is None && late.message is None
        }),
{
    let answer = seq![
        Action::SendRecv(RecvPacket::FinOk),
        Action::StartTimer {
            id: l.next_timer,
            expired: Expired::FinOk,
            delay: Delay::AckTimeout,
        },
    ];
    assert(Seq::<Action>::empty() + answer =~= answer);
}

/// At the end of a transfer the connection hands out what has arrived, and is ready for the
/// next: a file of the name that was announced, or, if there was none, the text whose bytes
/// have arrived. The timer of the answer to `Fin` is cancelled.
pub proof fn law_message_is_handed_out(l: LoopView, r: ReceiveStateView)
    requires
        l.reader == Some(r),
        l.admits(SigView::Recv(RecvSigView::Packet(SendPacketView::FinOkOk))),
    ensures
        ({
            let step = l.step(SigView::Recv(RecvSigView::Packet(SendPacketView::FinOkOk)));
            &&& step.actions == seq![Action::CancelTimer(r.fin_ok_timeout_key.unwrap())]
            &&& step.next == (LoopView { reader: None, ..l })
            &&& step.message matches Some(m) && m.payload_size == r.payload_size && match m.data {
                MessageDataView::File { name, payload } => {
                    r.name == Some(name) && payload == r.recv_bytes
                },
                MessageDataView::Text(text) => r.name is None && encode_utf8(text) == r.recv_bytes,
            }
        }),
{
    if r.name is None {
        decode_utf8_encode_utf8(r.recv_bytes);
    }
}

/// A connection that sends nothing can be given every packet of a receiver and every timer of a
/// sender, and none makes it do anything.
pub proof fn law_nothing_is_on_its_way(l: LoopView, c: SendSigView)
    requires
        l.sender is None,
        !(c is StartSendingFile),
        l.next_timer <= 0xFFFF_FFFF_FFFF_FF7F,
    ensures
        ({
            let sig = SigView::Send(c);
            &&& l.admits(sig)
            &&& l.step(sig).actions.len() == 0
            &&& l.step(sig).next == l
            &&& l.step(sig).message is None
        }),
{
}

/// What a connection that sends a message can be given: every packet of a receiver, but for a
/// `Nak` of a part that the message does not have, and every timer that runs.
pub proof fn law_what_is_taken_while_sending(l: LoopView, s: SendStateView, p: RecvPacket, q: SeqNum)
    requires
        l.wf(),
        l.sender == Some(s),
        l.next_timer <= 0xFFFF_FFFF_FFFF_FF7F,
    ensures
        l.admits(SigView::Send(SendSigView::Packet(p))) <==> (p matches RecvPacket::Nak(n) ==> n.0
            * s.payload_size < s.transfer.len()),
        l.admits(SigView::Send(SendSigView::AckExpired(q))) <==> s.timeout_keys.contains_key(q.0),
        l.admits(SigView::Send(SendSigView::InitExpired)) <==> s.init_timeout_key is Some,
        l.admits(SigView::Send(SendSigView::FinExpired)) <==> s.fin_timeout_key is Some,
        l.admits(SigView::Send(SendSigView::TimeWaitToCloseExpired)) <==> s.time_wait_key is Some,
{
    if let RecvPacket::Nak(n) = p {
        lemma_packet_count(s.transfer.len(), s.payload_size, n.0 as int);
    }
}

/// The acknowledgement of a part in flight cancels its timer and, if a part is left that was
/// not sent, sends that with a timer of its own; if it was the last part in flight, `Fin` with
/// its timer.
pub proof fn law_acknowledgement(l: LoopView, s: SendStateView, q: SeqNum)
    requires
        l.wf(),
        l.sender == Some(s),
        s.timeout_keys.contains_key(q.0),
        l.next_timer <= 0xFFFF_FFFF_FFFF_FF7F,
    ensures
        ({
            let t = l.next_timer;
            let n = s.next_to_send;
            let step = l.step(SigView::Send(SendSigView::Packet(RecvPacket::DataAck(q))));
            let more = n.0 * s.payload_size < s.transfer.len();
            let last = forall|x: u32| s.timeout_keys.contains_key(x) ==> x == q.0;
            let stop = Action::CancelTimer(s.timeout_keys[q.0]);
            &&& more ==> {
                &&& step.actions == seq![
                    stop,
                    Action::SendData(n),
                    Action::StartTimer { id: t, expired: Expired::Ack(n), delay: Delay::AckTimeout },
                ]
                &&& step.next.sender == Some(
                    SendStateView {
                        next_to_send: SeqNum((n.0 + 1) as u32),
                        timeout_keys: s.timeout_keys.remove(q.0).insert(n.0, t),
                        ..s
                    },
                )
            }
            &&& !more && !last ==> {
                &&& step.actions == seq![stop]
                &&& step.next.sender == Some(
                    SendStateView { timeout_keys: s.timeout_keys.remove(q.0), ..s },
                )
            }
            &&& !more && last ==> {
                &&& step.actions == seq![
                    stop,
                    Action::SendFin,
                    Action::StartTimer { id: t, expired: Expired::Fin, delay: Delay::TenAckTimeouts },
                ]
                &&& step.next.sender == Some(
                    SendStateView { timeout_keys: Map::empty(), fin_timeout_key: Some(t), ..s },
                )
            }
            &&& step.next.next_timer == (if more || last {
                t + 1
            } else {
                t as int
            })
        }),
{
    let t = l.next_timer;
    let n = s.next_to_send;
    let step = l.step(SigView::Send(SendSigView::Packet(RecvPacket::DataAck(q))));
    let stop = Action::CancelTimer(s.timeout_keys[q.0]);
    let rest = s.timeout_keys.remove(q.0);
    lemma_packet_count(s.transfer.len(), s.payload_size, n.0 as int);
    assert(lookup(s.timeout_keys, q.0) == Some(s.timeout_keys[q.0]));
    if n.0 * s.payload_size < s.transfer.len() {
        assert(!s.timeout_keys.contains_key(n.0));
        assert(step.actions =~= seq![
            stop,
            Action::SendData(n),
            Action::StartTimer { id: t, expired: Expired::Ack(n), delay: Delay::AckTimeout },
        ]);
    } else if forall|x: u32| s.timeout_keys.contains_key(x) ==> x == q.0 {
        assert(rest =~= Map::empty());
        assert(step.actions =~= seq![
            stop,
            Action::SendFin,
            Action::StartTimer { id: t, expired: Expired::Fin, delay: Delay::TenAckTimeouts },
        ]);
    } else {
        let x = choose|x: u32| s.timeout_keys.contains_key(x) && x != q.0;
        assert(rest.contains_key(x));
        assert(!rest.is_empty());
    }
}

/// The first parts of a message none of which is in flight are sent in their order, each with a
/// timer of its own.
proof fn lemma_order_of_burst(s: SendStateView, t: TimerId, n: nat, q: int)
    requires
        n <= 128,
        t + n <= u64::MAX,
        s.timeout_keys.is_empty(),
        0 <= q < n,
    ensures
        burst(s, t, n).actions.len() == 2 * n,
        burst(s, t, n).actions[2 * q] == Action::SendData(SeqNum(q as u32)),
        burst(s, t, n).actions[2 * q + 1] == (Action::StartTimer {
            id: (t + q) as u64,
            expired: Expired::Ack(SeqNum(q as u32)),
            delay: Delay::AckTimeout,
        }),
    decreases n,
{
    let m = (n - 1) as nat;
    let before = burst(s, t, m);
    lemma_burst(s, t, m);
    lemma_burst_keys(s, t, m, m as u32);
    if m > 0 {
        lemma_order_of_burst(s, t, m, if q < m {
            q
        } else {
            0
        });
    }
    let last = transmitted(before.sender.unwrap(), before.next_timer, SeqNum(m as u32));
    assert(last.actions.len() == 2);
    if q < m {
        assert(burst(s, t, n).actions[2 * q] == before.actions[2 * q]);
        assert(burst(s, t, n).actions[2 * q + 1] == before.actions[2 * q + 1]);
    }
}

/// The answer to the announcement stops the timer of the announcement and sends the first parts
/// in their order, each with a timer of its own: 128 of them, or all if there are fewer.
pub proof fn law_beginning(l: LoopView, s: SendStateView, q: int)
    requires
        l.wf(),
        l.sender == Some(s),
        s.init_timeout_key is Some,
        l.next_timer <= 0xFFFF_FFFF_FFFF_FF7F,
        0 <= q < 128,
        q * s.payload_size < s.transfer.len(),
    ensures
        ({
            let t = l.next_timer;
            let step = l.step(SigView::Send(SendSigView::Packet(RecvPacket::InitOk)));
            &&& step.actions[0] == Action::CancelTimer(s.init_timeout_key.unwrap())
            &&& 2 * q + 2 < step.actions.len() <= 257
            &&& step.actions[2 * q + 1] == Action::SendData(SeqNum(q as u32))
            &&& step.actions[2 * q + 2] == (Action::StartTimer {
                id: (t + q) as u64,
                expired: Expired::Ack(SeqNum(q as u32)),
                delay: Delay::AckTimeout,
            })
            &&& step.next.sender matches Some(x) && x.timeout_keys.contains_key(q as u32)
                && x.timeout_keys[q as u32] == t + q && x == (SendStateView {
                timeout_keys: x.timeout_keys,
                next_to_send: x.next_to_send,
                init_timeout_key: None,
                ..s
            }) && q < x.next_to_send.0 <= 128 && (x.next_to_send.0 - 1) * s.payload_size
                < s.transfer.len() && (x.next_to_send.0 < 128 ==> x.next_to_send.0 * s.payload_size
                >= s.transfer.len()) && step.actions.len() == 1 + 2 * x.next_to_send.0
                && step.next.next_timer == t + x.next_to_send.0
        }),
{
    let t = l.next_timer;
    let n = first_window(s);
    lemma_packet_count(s.transfer.len(), s.payload_size, q);
    lemma_packet_count(s.transfer.len(), s.payload_size, n - 1);
    lemma_packet_count(s.transfer.len(), s.payload_size, n as int);
    lemma_burst(opened(s), t, n);
    lemma_burst_keys(opened(s), t, n, q as u32);
    lemma_order_of_burst(opened(s), t, n, q);
    let sent = burst(opened(s), t, n);
    let step = l.step(SigView::Send(SendSigView::Packet(RecvPacket::InitOk)));
    assert(lookup(sent.sender.unwrap().timeout_keys, q as u32) is Some);
    assert(step.actions[2 * q + 1] == sent.actions[2 * q]);
    assert(step.actions[2 * q + 2] == sent.actions[2 * q + 1]);
}

/// The answer to the announcement of a message without bytes stops the timer of the announcement
/// and sends `Fin` at once, with a timer.
pub proof fn law_beginning_of_nothing(l: LoopView, s: SendStateView)
    requires
        l.wf(),
        l.sender == Some(s),
        s.init_timeout_key is Some,
        s.transfer.len() == 0,
    ensures
        ({
            let t = l.next_timer;
            let step = l.step(SigView::Send(SendSigView::Packet(RecvPacket::InitOk)));
            &&& step.actions == seq![
                Action::CancelTimer(s.init_timeout_key.unwrap()),
                Action::SendFin,
                Action::StartTimer { id: t, expired: Expired::Fin, delay: Delay::TenAckTimeouts },
            ]
            &&& step.next.sender == Some(
                SendStateView { init_timeout_key: None, fin_timeout_key: Some(t), ..s },
            )
        }),
{
    let t = l.next_timer;
    let step = l.step(SigView::Send(SendSigView::Packet(RecvPacket::InitOk)));
    lemma_packet_count(0, s.payload_size, 0);
    assert(s.count() == 0);
    assert(step.actions =~= seq![
        Action::CancelTimer(s.init_timeout_key.unwrap()),
        Action::SendFin,
        Action::StartTimer { id: t, expired: Expired::Fin, delay: Delay::TenAckTimeouts },
    ]);
}

/// The acknowledgement of a part that is not in flight, and an answer to `Fin` that was not sent,
/// do nothing.
pub proof fn law_stale_answers(l: LoopView, s: SendStateView, q: SeqNum)
    requires
        l.sender == Some(s),
    ensures
        ({
            let ack = l.step(SigView::Send(SendSigView::Packet(RecvPacket::DataAck(q))));
            let end = l.step(SigView::Send(SendSigView::Packet(RecvPacket::FinOk)));
            &&& !s.timeout_keys.contains_key(q.0) ==> ack.actions.len() == 0 && ack.next == l
            &&& s.fin_timeout_key is None && s.time_wait_key is None ==> end.actions.len() == 0
                && end.next == l
        }),
{
}

/// A part that is asked for once more gets a new timer if it is in flight, or if it was
/// acknowledged while others, but fewer than 128, are in flight; otherwise it is only sent.
pub proof fn law_part_once_more(l: LoopView, s: SendStateView, q: SeqNum)
    requires
        l.wf(),
        l.sender == Some(s),
        l.next_timer <= 0xFFFF_FFFF_FFFF_FF7F,
    ensures
        ({
            let t = l.next_timer;
            let step = l.step(SigView::Send(SendSigView::Packet(RecvPacket::Nak(q))));
            let timer = Action::StartTimer {
                id: t,
                expired: Expired::Ack(q),
                delay: Delay::AckTimeout,
            };
            let acked = q.0 < s.next_to_send.0 && !s.timeout_keys.contains_key(q.0);
            &&& s.timeout_keys.contains_key(q.0) ==> step.actions == seq![
                Action::SendData(q),
                timer,
                Action::CancelTimer(s.timeout_keys[q.0]),
            ]
            &&& acked && 0 < s.timeout_keys.len() < 128 ==> step.actions == seq![
                Action::SendData(q),
                timer,
            ]
            &&& !s.timeout_keys.contains_key(q.0) && !(acked && 0 < s.timeout_keys.len() < 128)
                ==> step.actions == seq![Action::SendData(q)] && step.next == l
            &&& s.timeout_keys.contains_key(q.0) || (acked && 0 < s.timeout_keys.len() < 128)
                ==> step.next == (LoopView {
                sender: Some(SendStateView { timeout_keys: s.timeout_keys.insert(q.0, t), ..s }),
                next_timer: (t + 1) as u64,
                ..l
            })
        }),
{
    let step = l.step(SigView::Send(SendSigView::Packet(RecvPacket::Nak(q))));
    let t = l.next_timer;
    let timer = Action::StartTimer { id: t, expired: Expired::Ack(q), delay: Delay::AckTimeout };
    lemma_empty_or_not(s.timeout_keys);
    if s.timeout_keys.contains_key(q.0) {
        assert(step.actions =~= seq![
            Action::SendData(q),
            timer,
            Action::CancelTimer(s.timeout_keys[q.0]),
        ]);
    } else if q.0 < s.next_to_send.0 && 0 < s.timeout_keys.len() < 128 {
        assert(step.actions =~= seq![Action::SendData(q), timer]);
    }
}

proof fn lemma_empty_or_not(keys: Map<u32, TimerId>)
    requires
        keys.dom().finite(),
    ensures
        keys.is_empty() <==> keys.len() == 0,
{
    if keys.is_empty() {
        assert(keys.dom() =~= Set::empty());
    }
}

/// The answer to `Fin` is answered, and the end is waited for; if it comes again, it is answered
/// again, and waited for anew. When that time is over, the user is told and the connection is
/// ready for the next message.
pub proof fn law_end(l: LoopView, s: SendStateView)
    requires
        l.wf(),
        l.sender == Some(s),
    ensures
        ({
            let t = l.next_timer;
            let answered = l.step(SigView::Send(SendSigView::Packet(RecvPacket::FinOk)));
            let over = l.step(SigView::Send(SendSigView::TimeWaitToCloseExpired));
            let timer = Action::StartTimer {
                id: t,
                expired: Expired::TimeWaitToClose,
                delay: Delay::TenAckTimeouts,
            };
            &&& s.fin_timeout_key matches Some(id) ==> answered.actions == seq![
                Action::SendFinOkOk,
                Action::CancelTimer(id),
                timer,
            ]
            &&& s.time_wait_key matches Some(id) ==> answered.actions == seq![
                Action::SendFinOkOk,
                Action::CancelTimer(id),
                timer,
            ]
            &&& s.fin_timeout_key is Some || s.time_wait_key is Some ==> answered.next.sender
                == Some(SendStateView { fin_timeout_key: None, time_wait_key: Some(t), ..s })
            &&& s.fin_timeout_key is Some || s.time_wait_key is Some ==> t < 0xFFFF_FFFF_FFFF_FFFF
                ==> answered.next.next_timer == t + 1
            &&& over.actions == seq![Action::NotifySender]
            &&& over.next == (LoopView { sender: None, ..l })
        }),
{
    let t = l.next_timer;
    let answered = l.step(SigView::Send(SendSigView::Packet(RecvPacket::FinOk)));
    let timer = Action::StartTimer {
        id: t,
        expired: Expired::TimeWaitToClose,
        delay: Delay::TenAckTimeouts,
    };
    if let Some(id) = s.fin_timeout_key {
        assert(answered.actions =~= seq![Action::SendFinOkOk, Action::CancelTimer(id), timer]);
    }
    if let Some(id) = s.time_wait_key {
        assert(answered.actions =~= seq![Action::SendFinOkOk, Action::CancelTimer(id), timer]);
    }
}

/// When a timer of the message on its way runs out, what it waited for is sent again, with a new
/// timer, and nothing else changes.
pub proof fn law_timer_of_message_runs_out(l: LoopView, s: SendStateView, q: SeqNum)
    requires
        l.wf(),
        l.sender == Some(s),
    ensures
        ({
            let t = l.next_timer;
            let init = l.step(SigView::Send(SendSigView::InitExpired));
            let fin = l.step(SigView::Send(SendSigView::FinExpired));
            let ack = l.step(SigView::Send(SendSigView::AckExpired(q)));
            let start = |e: Expired, d: Delay| Action::StartTimer { id: t, expired: e, delay: d };
            &&& init.actions == seq![Action::SendInit, start(Expired::Init, Delay::AckTimeout)]
            &&& init.next.sender == Some(SendStateView { init_timeout_key: Some(t), ..s })
            &&& fin.actions == seq![Action::SendFin, start(Expired::Fin, Delay::TenAckTimeouts)]
            &&& fin.next.sender == Some(SendStateView { fin_timeout_key: Some(t), ..s })
            &&& ack.actions == seq![
                Action::SendData(q),
                start(Expired::Ack(q), Delay::AckTimeout),
            ]
            &&& ack.next.sender == Some(
                SendStateView { timeout_keys: s.timeout_keys.insert(q.0, t), ..s },
            )
            &&& t < 0xFFFF_FFFF_FFFF_FFFF ==> init.next.next_timer == t + 1 && fin.next.next_timer
                == t + 1 && ack.next.next_timer == t + 1
        }),
{
    let t = l.next_timer;
    let ack = l.step(SigView::Send(SendSigView::AckExpired(q)));
    assert(s.timeout_keys.remove(q.0).insert(q.0, t) =~= s.timeout_keys.insert(q.0, t));
    assert(ack.actions =~= seq![
        Action::SendData(q),
        Action::StartTimer { id: t, expired: Expired::Ack(q), delay: Delay::AckTimeout },
    ]);
}

/// What sending the first `n` parts once more does to the timer of part `q`.
proof fn lemma_keys_of_repetition(s: SendStateView, t: TimerId, n: nat, q: u32)
    requires
        s.wf(),
        n <= 128,
        t + n <= u64::MAX,
    ensures
        ({
            let r = repeated(s, t, n);
            let before = s.timeout_keys;
            r.sender matches Some(x) && {
                &&& q < n && before.contains_key(q) ==> x.timeout_keys.contains_key(q)
                    && x.timeout_keys[q] >= t
                &&& q >= n ==> lookup(x.timeout_keys, q) == lookup(before, q)
                &&& before.len() == 0 ==> x == s && r.next_timer == t
                &&& x.timeout_keys.len() >= before.len()
                &&& q < n && q < s.next_to_send.0 <= 128 && 0 < before.len()
                    ==> x.timeout_keys.contains_key(q)
            }
        }),
    decreases n,
{
    if n > 0 {
        let m = (n - 1) as nat;
        lemma_keys_of_repetition(s, t, m, q);
        lemma_keys_of_repetition(s, t, m, m as u32);
        lemma_repeated(s, t, m);
        let x = repeated(s, t, m).sender.unwrap();
        let u = repeated(s, t, m).next_timer;
        lemma_empty_or_not(x.timeout_keys);
        lemma_empty_or_not(s.timeout_keys);
        let y = x.timeout_keys.insert(m as u32, u);
        assert(y.dom() =~= x.timeout_keys.dom().insert(m as u32));
        if m < s.next_to_send.0 {
            lemma_numbers_below(y.dom(), s.next_to_send.0 as nat);
        }
        assert(lookup(s.timeout_keys, m as u32) is Some <==> s.timeout_keys.contains_key(m as u32));
        assert(lookup(x.timeout_keys, m as u32) is Some <==> x.timeout_keys.contains_key(m as u32));
    }
}

/// The answer to an announcement that was answered sends the first parts again, 128 or all if
/// there are fewer, and no other. Those in flight get new timers; those that were acknowledged
/// are in flight again if others are and no more than the window has room for were sent; the
/// other parts keep their timers, and what else is known of the message does not change.
pub proof fn law_beginning_once_more(l: LoopView, s: SendStateView, i: int, q: u32)
    requires
        l.wf(),
        l.sender == Some(s),
        s.init_timeout_key is None,
        l.next_timer <= 0xFFFF_FFFF_FFFF_FF7F,
    ensures
        ({
            let step = l.step(SigView::Send(SendSigView::Packet(RecvPacket::InitOk)));
            &&& q < 128 && q * s.payload_size < s.transfer.len() ==> step.actions.contains(
                Action::SendData(SeqNum(q)),
            )
            &&& 0 <= i < step.actions.len() ==> match step.actions[i] {
                Action::SendData(n) => n.0 < 128,
                Action::StartTimer { .. } => true,
                Action::CancelTimer(_) => true,
                _ => false,
            }
            &&& step.next.sender matches Some(x) && x == (SendStateView {
                timeout_keys: x.timeout_keys,
                ..s
            }) && {
                let before = s.timeout_keys;
                &&& before.contains_key(q) ==> x.timeout_keys.contains_key(q)
                &&& before.contains_key(q) && q < 128 ==> x.timeout_keys[q] >= l.next_timer
                &&& q >= 128 ==> lookup(x.timeout_keys, q) == lookup(before, q)
                &&& before.len() == 0 ==> step.next == l
                &&& q < s.next_to_send.0 <= 128 && 0 < before.len() ==> x.timeout_keys.contains_key(
                    q,
                )
            }
        }),
{
    let n = first_window(s);
    let step = l.step(SigView::Send(SendSigView::Packet(RecvPacket::InitOk)));
    lemma_packet_count(s.transfer.len(), s.payload_size, q as int);
    lemma_repeated(s, l.next_timer, n);
    if q < 128 && q * s.payload_size < s.transfer.len() {
        law_first_window(s, l.next_timer, q);
    }
    if 0 <= i < step.actions.len() {
        lemma_repeated_actions(s, l.next_timer, n, i);
    }
    assert(lookup(s.timeout_keys, q) is Some <==> s.timeout_keys.contains_key(q));
    lemma_keys_of_repetition(s, l.next_timer, n, q);
    assert(lookup(s.timeout_keys, q) is Some ==> q < s.next_to_send.0);
}

/// Signals about the message on its way do not touch the message that is arriving, nor the
/// other way round, and neither touches the keep-alive or the kind of frame.
pub proof fn law_sides_are_apart(l: LoopView, c: SendSigView, r: RecvSigView)
    ensures
        ({
            let sent = l.step(SigView::Send(c));
            let got = l.step(SigView::Recv(r));
            &&& sent.next.reader == l.reader && sent.next.keep_alive_key == l.keep_alive_key
            &&& sent.next.codec == l.codec && sent.message is None
            &&& got.next.sender == l.sender && got.next.keep_alive_key == l.keep_alive_key
            &&& got.next.codec == l.codec
        }),
{
}

/// Nothing more is asked of a connection that sends nothing.
pub proof fn law_connection_at_rest(l: LoopView)
    requires
        l.sender is None,
    ensures
        l.wf(),
{
}

/// The time that a timer runs for its purpose.
pub open spec fn time_for(e: Expired) -> Delay {
    match e {
        Expired::Ack(_) => Delay::AckTimeout,
        Expired::Init => Delay::AckTimeout,
        Expired::FinOk => Delay::AckTimeout,
        Expired::Fin => Delay::TenAckTimeouts,
        Expired::TimeWaitToClose => Delay::TenAckTimeouts,
        Expired::KeepAlive => Delay::KaTimeout,
    }
}

/// What is sent when a timer is started for a purpose.
pub open spec fn sent_with(e: Expired) -> Action {
    match e {
        Expired::Ack(q) => Action::SendData(q),
        Expired::Init => Action::SendInit,
        Expired::FinOk => Action::SendRecv(RecvPacket::FinOk),
        Expired::Fin => Action::SendFin,
        Expired::TimeWaitToClose => Action::SendFinOkOk,
        Expired::KeepAlive => Action::SendConn(ConnPacket::KeepAlive),
    }
}

/// A timer runs for the time of its purpose, behind what it waits for the answer to.
spec fn timely(actions: Seq<Action>) -> bool {
    forall|i: int|
        0 <= i < actions.len() ==> (#[trigger] actions[i] matches Action::StartTimer {
            expired,
            delay,
            ..
        } ==> delay == time_for(expired) && actions.contains(sent_with(expired)))
}

proof fn lemma_timely_join(x: Seq<Action>, y: Seq<Action>)
    requires
        timely(x),
        timely(y),
    ensures
        timely(x + y),
{
    let z = x + y;
    assert forall|i: int| 0 <= i < z.len() implies (#[trigger] z[i] matches Action::StartTimer {
        expired,
        delay,
        ..
    } ==> delay == time_for(expired) && z.contains(sent_with(expired))) by {
        if let Action::StartTimer { expired, delay, .. } = z[i] {
            if i < x.len() {
                assert(x[i] == z[i]);
                let k = choose|k: int| 0 <= k < x.len() && x[k] == sent_with(expired);
                assert(z[k] == sent_with(expired));
            } else {
                assert(y[i - x.len()] == z[i]);
                let k = choose|k: int| 0 <= k < y.len() && y[k] == sent_with(expired);
                assert(z[x.len() + k] == sent_with(expired));
            }
        }
    }
}

proof fn lemma_timely_part(s: SendStateView, t: TimerId, q: SeqNum)
    ensures
        timely(transmitted(s, t, q).actions),
        timely(resent(s, t, q).actions),
{
    let x = transmitted(s, t, q).actions;
    assert(x[0] == sent_with(Expired::Ack(q)));
    let y = resent(s, t, q).actions;
    assert(y[0] == sent_with(Expired::Ack(q)));
}

proof fn lemma_timely_burst(s: SendStateView, t: TimerId, n: nat)
    ensures
        timely(burst(s, t, n).actions),
        timely(repeated(s, t, n).actions),
    decreases n,
{
    if n > 0 {
        let m = (n - 1) as nat;
        lemma_timely_burst(s, t, m);
        let b = burst(s, t, m);
        let r = repeated(s, t, m);
        lemma_timely_part(b.sender.unwrap(), b.next_timer, SeqNum(m as u32));
        lemma_timely_part(r.sender.unwrap(), r.next_timer, SeqNum(m as u32));
        lemma_timely_join(
            b.actions,
            transmitted(b.sender.unwrap(), b.next_timer, SeqNum(m as u32)).actions,
        );
        lemma_timely_join(
            r.actions,
            resent(r.sender.unwrap(), r.next_timer, SeqNum(m as u32)).actions,
        );
    }
}

/// Every timer that a connection starts runs for the time of its purpose, and the packet whose
/// answer it waits for is sent in the same step.
pub proof fn law_timers_run_for_their_purpose(l: LoopView, sig: SigView, i: int)
    requires
        l.wf(),
        l.admits(sig),
        0 <= i < l.step(sig).actions.len(),
    ensures
        l.step(sig).actions[i] matches Action::StartTimer { expired, delay, .. } ==> {
            &&& delay == time_for(expired)
            &&& l.step(sig).actions.contains(sent_with(expired))
        },
{
    let actions = l.step(sig).actions;
    if let (SigView::Send(c), Some(s)) = (sig, l.sender) {
        let t = l.next_timer;
        match c {
            SendSigView::Packet(RecvPacket::InitOk) => {
                lemma_timely_burst(opened(s), t, first_window(s));
                lemma_timely_burst(s, t, first_window(s));
                if s.init_timeout_key is Some && s.count() > 0 {
                    lemma_timely_join(
                        cancel(s.init_timeout_key),
                        burst(opened(s), t, first_window(s)).actions,
                    );
                    assert(timely(actions));
                } else if s.init_timeout_key is Some {
                    assert(actions[1] == Action::SendFin);
                } else {
                    assert(timely(actions));
                }
            },
            SendSigView::Packet(RecvPacket::DataAck(q)) => {
                if s.timeout_keys.contains_key(q.0) && actions.len() > 1 {
                    assert(actions[1] == Action::SendFin || actions[1] == Action::SendData(
                        s.next_to_send,
                    ));
                }
            },
            _ => {},
        }
    }
    if let (SigView::Recv(r), Some(re)) = (sig, l.reader) {
        let k = cancel(re.fin_ok_timeout_key).len() as int;
        assert(actions.len() > k ==> actions.contains(actions[k]));
    }
    assert(actions.len() > 0 ==> actions.contains(actions[0]));
}

} // verus!
