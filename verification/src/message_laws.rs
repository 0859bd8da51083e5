//! What messages can be sent, in plain numbers.

use vstd::prelude::*;
use vstd::utf8::encode_utf8;

use crate::event_loop::LoopView;
use crate::frame::Codec;
use crate::message::{text_message, text_payload_size, MessageDataView, MessageView};
use crate::packet::{PacketView, SendPacketView, SeqNum};
use crate::sender::{chunk, packet_count, transferable};
use crate::signal::{Action, Delay, Expired, SendSigView, SigView};

verus! {

/// The number of bytes of a message.
pub open spec fn size(m: MessageView) -> nat {
    match m.data {
        MessageDataView::Text(text) => encode_utf8(text).len(),
        MessageDataView::File { payload, .. } => payload.len(),
    }
}

/// The number of bytes of a message's name; a text has none.
pub open spec fn name_size(m: MessageView) -> nat {
    match m.data {
        MessageDataView::Text(_) => 0,
        MessageDataView::File { name, .. } => encode_utf8(name).len(),
    }
}

/// The number of packets of `p` bytes that `n` bytes take is the least that has room for them.
pub proof fn law_number_of_parts(n: nat, p: u16)
    requires
        p > 0,
    ensures
        n == 0 <==> packet_count(n, p) == 0,
        n <= packet_count(n, p) * p,
        n > 0 ==> (packet_count(n, p) - 1) * p < n,
{
    let q = packet_count(n, p);
    let x = n + p - 1;
    vstd::arithmetic::div_mod::lemma_fundamental_div_mod(x as int, p as int);
    let r = x as int % p as int;
    assert(q * p == p * q) by (nonlinear_arith);
    assert((q - 1) * p == q * p - p) by (nonlinear_arith);
    assert(q * p == n + p - 1 - r);
    if n == 0 {
        assert(q == 0) by (nonlinear_arith)
            requires
                q * p == p - 1 - r,
                0 <= r < p,
                p > 0,
        ;
    } else {
        assert(q != 0) by (nonlinear_arith)
            requires
                q * p == n + p - 1 - r,
                0 <= r < p,
                n > 0,
        ;
    }
}

/// A transfer can carry a message if and only if its payload size is from 1 to 1468 bytes, it
/// has at most 4 GiB less one byte, fewer than 2^28 packets take them, and its name has at most
/// 22 bytes.
pub proof fn law_what_can_be_transferred(m: MessageView)
    ensures
        transferable(m) <==> {
            &&& 1 <= m.payload_size <= 1468
            &&& size(m) <= 0xFFFF_FFFF
            &&& (size(m) + m.payload_size - 1) / (m.payload_size as int) < 0x1000_0000
            &&& name_size(m) <= 22
        },
{
}

/// A connection that sends nothing takes every message that a transfer can carry and whose
/// payloads its frames have room for, and no other; one that sends a message takes none. What
/// it does is to announce the message, whose size, payload size and name the announcement
/// tells, and whose bytes the parts carry.
pub proof fn law_connection_takes_message(l: LoopView, m: MessageView)
    requires
        l.next_timer <= 0xFFFF_FFFF_FFFF_FF7F,
    ensures
        ({
            let start = SigView::Send(SendSigView::StartSendingFile(m));
            let step = l.step(start);
            &&& l.admits(start) <==> {
                &&& l.sender is None
                &&& 1 <= m.payload_size <= (if l.codec.checksums {
                    1464int
                } else {
                    1468
                })
                &&& size(m) <= 0xFFFF_FFFF
                &&& (size(m) + m.payload_size - 1) / (m.payload_size as int) < 0x1000_0000
                &&& name_size(m) <= 22
            }
            &&& l.admits(start) ==> {
                &&& step.actions == seq![
                    Action::SendInit,
                    Action::StartTimer {
                        id: l.next_timer,
                        expired: Expired::Init,
                        delay: Delay::AckTimeout,
                    },
                ]
                &&& step.next.reader == l.reader && step.next.codec == l.codec
                &&& step.message is None
                &&& step.next.packet(Action::SendInit) == Some(
                    PacketView::Send(
                        SendPacketView::Init {
                            payload_size: m.payload_size,
                            transfer: size(m) as u32,
                            name: match m.data {
                                MessageDataView::Text(_) => None,
                                MessageDataView::File { name, .. } => Some(name),
                            },
                        },
                    ),
                )
                &&& step.next.sender matches Some(s) && s.transfer == (match m.data {
                    MessageDataView::Text(text) => encode_utf8(text),
                    MessageDataView::File { payload, .. } => payload,
                }) && s.init_timeout_key == Some(l.next_timer) && s.next_to_send.0 == 0
                    && s.timeout_keys.is_empty() && step.next.next_timer == l.next_timer + 1
            }
        }),
{
}

/// The payload size of a text is from 1 to 1464 bytes, and it is the size of the text whenever
/// that is in this range; a longer text is sent in parts of the largest size.
pub proof fn law_payload_size_of_text(len: nat)
    ensures
        1 <= text_payload_size(len) <= 1464,
        1 <= len <= 1464 ==> text_payload_size(len) == len,
        len > 1464 ==> text_payload_size(len) == 1464,
{
}

/// Every text of at most 4 GiB less one byte, with the payload size that it is given, can be
/// transferred, over either kind of frame; one of at most 1464 bytes takes one packet, or, if
/// empty, none.
pub proof fn law_text_can_be_sent(text: Seq<char>, l: LoopView)
    requires
        encode_utf8(text).len() <= 0xFFFF_FFFF,
        l.sender is None,
        l.next_timer <= 0xFFFF_FFFF_FFFF_FF7F,
    ensures
        ({
            let n = encode_utf8(text).len();
            let m = MessageView {
                data: MessageDataView::Text(text),
                payload_size: text_payload_size(n),
            };
            &&& transferable(m)
            &&& l.admits(SigView::Send(SendSigView::StartSendingFile(m)))
            &&& 1 <= n <= 1464 ==> packet_count(n, m.payload_size) == 1
        }),
{
    let n = encode_utf8(text).len();
    let p = text_payload_size(n);
    law_number_of_parts(n, p);
    law_payload_size_of_text(n);
    let q = packet_count(n, p);
    if 1 <= n <= 1464 {
        assert(q == 1) by (nonlinear_arith)
            requires
                (q - 1) * p < n,
                n <= q * p,
                p == n,
                n > 0,
        ;
    } else if n > 1464 {
        assert(q < 0x1000_0000) by (nonlinear_arith)
            requires
                (q - 1) * p < n,
                p == 1464,
                n <= 0xFFFF_FFFF,
        ;
    }
}

/// A text makes a message if it has at most 4 GiB less one byte. The message carries that text,
/// under no name, and a connection that sends nothing takes it.
pub proof fn law_message_of_text(text: Seq<char>, l: LoopView)
    requires
        l.sender is None,
        l.next_timer <= 0xFFFF_FFFF_FFFF_FF7F,
    ensures
        encode_utf8(text).len() > 0xFFFF_FFFF ==> text_message(text) is None,
        encode_utf8(text).len() <= 0xFFFF_FFFF ==> (text_message(text) matches Some(m) && m.data
            == MessageDataView::Text(text) && m.transfer() == encode_utf8(text) && m.name() is None
            && l.admits(SigView::Send(SendSigView::StartSendingFile(m)))),
{
    if encode_utf8(text).len() <= 0xFFFF_FFFF {
        law_text_can_be_sent(text, l);
    }
}

/// Part `i` of a transfer begins behind `i` payloads and carries what comes there, as much as
/// a payload has room for.
pub proof fn law_bytes_of_part(transfer: Seq<u8>, p: u16, i: int, j: int)
    requires
        p > 0,
        0 <= i,
        0 <= j < p,
        i * p + j < transfer.len(),
    ensures
        j < chunk(transfer, p, i).len() <= p,
        chunk(transfer, p, i)[j] == transfer[i * p + j],
        chunk(transfer, p, i).len() < p ==> i * p + chunk(transfer, p, i).len() == transfer.len(),
{
    assert(0 <= i * p) by (nonlinear_arith)
        requires
            0 <= i,
            p > 0,
    ;
}

/// The packet that an action sends: what the action names, of the message on its way its
/// announcement or one of its parts, and otherwise none.
pub proof fn law_packet_of_action(l: LoopView, a: Action)
    ensures
        match a {
            Action::SendConn(p) => l.packet(a) == Some(PacketView::Conn(p)),
            Action::SendRecv(p) => l.packet(a) == Some(PacketView::Recv(p)),
            Action::SendFin => l.packet(a) == Some(PacketView::Send(SendPacketView::Fin)),
            Action::SendFinOkOk => l.packet(a) == Some(PacketView::Send(SendPacketView::FinOkOk)),
            Action::SendInit => l.packet(a) == (match l.sender {
                Some(s) => Some(
                    PacketView::Send(
                        SendPacketView::Init {
                            payload_size: s.payload_size,
                            transfer: s.transfer.len() as u32,
                            name: s.filename,
                        },
                    ),
                ),
                None => None,
            }),
            Action::SendData(q) => l.sender is None || (l.sender matches Some(s) && s.payload_size > 0
                && q.0 * s.payload_size >= s.transfer.len()) ==> l.packet(a) is None,
            _ => l.packet(a) is None,
        },
{
    if let (Action::SendData(q), Some(s)) = (a, l.sender) {
        if s.payload_size > 0 {
            crate::sender::lemma_packet_count(s.transfer.len(), s.payload_size, q.0 as int);
        }
    }
}

/// The packet that carries a part tells its number and holds its bytes.
pub proof fn law_packet_of_part(l: LoopView, q: SeqNum, j: int)
    requires
        l.wf(),
        l.sender is Some,
        0 <= j < l.sender.unwrap().payload_size,
        q.0 * l.sender.unwrap().payload_size + j < l.sender.unwrap().transfer.len(),
    ensures
        ({
            let s = l.sender.unwrap();
            l.packet(Action::SendData(q)) matches Some(
                PacketView::Send(SendPacketView::Data { seq_num, data }),
            ) && seq_num == q && j < data.len() <= s.payload_size && data[j] == s.transfer[q.0
                * s.payload_size + j] && q.0 * s.payload_size + data.len() <= s.transfer.len()
        }),
{
    let s = l.sender.unwrap();
    assert(q.0 * s.payload_size < s.transfer.len());
    crate::sender::lemma_packet_count(s.transfer.len(), s.payload_size, q.0 as int);
    law_bytes_of_part(s.transfer, s.payload_size, q.0 as int, j);
}

/// The largest payload of a `Data` packet, by the kind of frame.
pub proof fn law_room_of_frames(codec: Codec)
    ensures
        codec.room() == (if codec.checksums {
            1468int
        } else {
            1472
        }),
{
}

} // verus!
