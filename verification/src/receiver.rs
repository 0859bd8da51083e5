//! The side of a transfer that receives a message.

use vstd::prelude::*;
use vstd::utf8::{decode_utf8, valid_utf8};

use crate::message::{Message, MessageData, MessageDataView, MessageView};
use crate::packet::{RecvPacket, SendPacket, SendPacketView, SeqNum, SEQ_NUM_LIMIT};
use crate::sender::{cancel, cancel_timer, start, start_timer};
use crate::signal::{Action, Delay, Expired, RecvSig, RecvSigView, TimerId};
use crate::text::string_of;
use crate::wire::{splice, write_bytes, zero_padded};

verus! {

/// A message that is arriving.
#[derive(Debug)]
pub struct ReceiveState {
    /// The bytes of the message; those that did not arrive yet are zero.
    pub recv_bytes: Vec<u8>,
    pub payload_size: u16,
    pub name: Option<String>,
    pub fin_ok_timeout_key: Option<TimerId>,
}

/// What a [`ReceiveState`] says.
#[verifier::ext_equal]
pub ghost struct ReceiveStateView {
    pub recv_bytes: Seq<u8>,
    pub payload_size: u16,
    pub name: Option<Seq<char>>,
    pub fin_ok_timeout_key: Option<TimerId>,
}

impl View for ReceiveState {
    type V = ReceiveStateView;

    open spec fn view(&self) -> ReceiveStateView {
        ReceiveStateView {
            recv_bytes: self.recv_bytes@,
            payload_size: self.payload_size,
            name: string_of(self.name),
            fin_ok_timeout_key: self.fin_ok_timeout_key,
        }
    }
}

/// What an optional [`ReceiveState`] says.
pub open spec fn reader_view(reader: Option<ReceiveState>) -> Option<ReceiveStateView> {
    match reader {
        Some(r) => Some(r@),
        None => None,
    }
}

impl ReceiveStateView {
    /// The state of a message that was just announced.
    pub open spec fn announced(
        payload_size: u16,
        transfer: u32,
        name: Option<Seq<char>>,
    ) -> ReceiveStateView {
        ReceiveStateView {
            recv_bytes: zero_padded(seq![], transfer as nat),
            payload_size,
            name,
            fin_ok_timeout_key: None,
        }
    }

    /// An announcement that does not contradict the message that is arriving: same size,
    /// same payload size, and no other name.
    pub open spec fn agrees(
        self,
        payload_size: u16,
        transfer: u32,
        name: Option<Seq<char>>,
    ) -> bool {
        &&& self.recv_bytes.len() == transfer
        &&& self.payload_size == payload_size
        &&& self.name is Some && name is Some ==> self.name == name
    }

    /// Part `seq_num` of the message has arrived.
    pub open spec fn filled(self, seq_num: SeqNum, data: Seq<u8>) -> ReceiveStateView {
        ReceiveStateView {
            recv_bytes: splice(self.recv_bytes, seq_num.0 * self.payload_size, data),
            ..self
        }
    }

    /// The message, all parts of it having arrived: a file if it has a name, otherwise a text.
    pub open spec fn message(self) -> MessageView {
        MessageView {
            payload_size: self.payload_size,
            data: match self.name {
                Some(name) => MessageDataView::File { name, payload: self.recv_bytes },
                None => MessageDataView::Text(decode_utf8(self.recv_bytes)),
            },
        }
    }
}

/// What the receiving side turns into: its state, the next timer's number, what is to be
/// done, and the message that has arrived.
#[verifier::ext_equal]
pub ghost struct Receiving {
    pub reader: Option<ReceiveStateView>,
    pub next_timer: TimerId,
    pub actions: Seq<Action>,
    pub message: Option<MessageView>,
}

/// `FinOk` is sent and awaits its answer.
pub open spec fn fin_ok_sent(r: ReceiveStateView, t: TimerId, stopped: Seq<Action>) -> Receiving {
    Receiving {
        reader: Some(ReceiveStateView { fin_ok_timeout_key: Some(t), ..r }),
        next_timer: (t + 1) as u64,
        actions: stopped + seq![
            Action::SendRecv(RecvPacket::FinOk),
            start(t, Expired::FinOk, Delay::AckTimeout),
        ],
        message: None,
    }
}

/// What the receiving side does about a signal. An announcement that agrees with the message
/// that is arriving is answered again, and what has arrived is kept.
pub open spec fn receiving_step(
    reader: Option<ReceiveStateView>,
    t: TimerId,
    sig: RecvSigView,
) -> Receiving {
    match (sig, reader) {
        (
            RecvSigView::Packet(SendPacketView::Init { payload_size, transfer, name }),
            reader,
        ) => match reader {
            Some(r) => if r.agrees(payload_size, transfer, name) {
                Receiving {
                    reader: Some(ReceiveStateView { name, ..r }),
                    next_timer: t,
                    actions: seq![Action::SendRecv(RecvPacket::InitOk)],
                    message: None,
                }
            } else {
                Receiving { reader, next_timer: t, actions: seq![], message: None }
            },
            None => Receiving {
                reader: Some(ReceiveStateView::announced(payload_size, transfer, name)),
                next_timer: t,
                actions: seq![Action::SendRecv(RecvPacket::InitOk)],
                message: None,
            },
        },
        (RecvSigView::Packet(SendPacketView::Data { seq_num, data }), Some(r)) => Receiving {
            reader: Some(r.filled(seq_num, data)),
            next_timer: t,
            actions: seq![Action::SendRecv(RecvPacket::DataAck(seq_num))],
            message: None,
        },
        (RecvSigView::Packet(SendPacketView::Fin), Some(r)) => fin_ok_sent(
            r,
            t,
            cancel(r.fin_ok_timeout_key),
        ),
        (RecvSigView::FinOkExpired, Some(r)) => fin_ok_sent(r, t, seq![]),
        (RecvSigView::Packet(SendPacketView::FinOkOk), Some(r)) => Receiving {
            reader: None,
            next_timer: t,
            actions: cancel(r.fin_ok_timeout_key),
            message: Some(r.message()),
        },
        (_, None) => Receiving { reader: None, next_timer: t, actions: seq![], message: None },
    }
}

/// The signals that the receiving side can be given: parts that lie within the message that
/// is arriving, its end only when it was asked for and the message is complete, and of its
/// timers only one that runs.
pub open spec fn receiving_admits(reader: Option<ReceiveStateView>, sig: RecvSigView) -> bool {
    match (sig, reader) {
        (RecvSigView::Packet(SendPacketView::Data { seq_num, data }), Some(r)) => {
            &&& seq_num.0 < SEQ_NUM_LIMIT
            &&& data.len() <= r.payload_size
            &&& seq_num.0 * r.payload_size + data.len() <= r.recv_bytes.len()
        },
        (RecvSigView::Packet(SendPacketView::FinOkOk), Some(r)) => {
            &&& r.fin_ok_timeout_key is Some
            &&& r.name is None ==> valid_utf8(r.recv_bytes)
        },
        (RecvSigView::FinOkExpired, Some(r)) => r.fin_ok_timeout_key is Some,
        _ => true,
    }
}

/// Whether the receiving side can be given the signal.
pub fn receive_accepts(reader: &Option<ReceiveState>, sig: &RecvSig) -> (b: bool)
    ensures
        b == receiving_admits(reader_view(*reader), sig@),
{
    match (sig, reader) {
        (RecvSig::Packet(SendPacket::Data { seq_num, data }), Some(r)) => {
            proof {
                lemma_offset(seq_num.0, r.payload_size);
            }
            let before: u64 = seq_num.0 as u64 * r.payload_size as u64;
            let size: u64 = data.len() as u64;
            seq_num.0 < SEQ_NUM_LIMIT && size <= r.payload_size as u64 && before + size
                <= r.recv_bytes.len() as u64
        },
        (RecvSig::Packet(SendPacket::FinOkOk), Some(r)) => {
            let complete: bool = match &r.name {
                Some(_) => true,
                None => match core::str::from_utf8(r.recv_bytes.as_slice()) {
                    Ok(_) => true,
                    Err(_) => false,
                },
            };
            r.fin_ok_timeout_key.is_some() && complete
        },
        (RecvSig::FinOkExpired, Some(r)) => r.fin_ok_timeout_key.is_some(),
        _ => true,
    }
}

/// The first byte of a packet's data within a message is a number that fits 48 bits.
proof fn lemma_offset(seq_num: u32, payload_size: u16)
    ensures
        0 <= seq_num * payload_size <= u32::MAX * u16::MAX,
{
    assert(0 <= seq_num * payload_size <= u32::MAX * u16::MAX) by (nonlinear_arith)
        requires
            0 <= seq_num <= u32::MAX,
            0 <= payload_size <= u16::MAX,
    ;
}

/// `len` zero bytes.
fn zeros(len: usize) -> (v: Vec<u8>)
    ensures
        v@ == zero_padded(seq![], len as nat),
{
    let v: Vec<u8> = vec![0u8; len];
    assert(v@ =~= zero_padded(seq![], len as nat));
    v
}

/// What the receiving side does about a signal: gives its new state and the message that has
/// arrived, numbers the timers that it starts, and puts what is to be done behind `out`.
pub fn handle_receive(
    reader: Option<ReceiveState>,
    sig: RecvSig,
    next_timer: &mut TimerId,
    out: &mut Vec<Action>,
) -> (r: (Option<ReceiveState>, Option<Message>))
    requires
        receiving_admits(reader_view(reader), sig@),
        *old(next_timer) < u64::MAX,
    ensures
        ({
            let step = receiving_step(reader_view(reader), *old(next_timer), sig@);
            &&& reader_view(r.0) == step.reader
            &&& *final(next_timer) == step.next_timer
            &&& final(out)@ == old(out)@ + step.actions
            &&& match r.1 {
                Some(m) => step.message == Some(m@),
                None => step.message is None,
            }
        }),
{
    let ghost step = receiving_step(reader_view(reader), *old(next_timer), sig@);
    let r = match (sig, reader) {
        (RecvSig::Packet(SendPacket::Data { seq_num, data }), Some(re)) => {
            let mut re = re;
            proof {
                lemma_offset(seq_num.0, re.payload_size);
            }
            let bytes_before: u64 = seq_num.0 as u64 * re.payload_size as u64;
            assert(bytes_before <= re.recv_bytes.len());
            write_bytes(re.recv_bytes.as_mut_slice(), bytes_before as usize, data);
            out.push(Action::SendRecv(RecvPacket::DataAck(seq_num)));
            (Some(re), None)
        },
        (RecvSig::Packet(SendPacket::Fin), Some(re)) => {
            let mut re = re;
            // There is one if `FinOk` got lost and the sender sent `Fin` again.
            cancel_timer(re.fin_ok_timeout_key.take(), out);
            out.push(Action::SendRecv(RecvPacket::FinOk));
            let key: TimerId = start_timer(next_timer, Expired::FinOk, Delay::AckTimeout, out);
            re.fin_ok_timeout_key = Some(key);
            (Some(re), None)
        },
        (RecvSig::FinOkExpired, Some(re)) => {
            let mut re = re;
            out.push(Action::SendRecv(RecvPacket::FinOk));
            let key: TimerId = start_timer(next_timer, Expired::FinOk, Delay::AckTimeout, out);
            re.fin_ok_timeout_key = Some(key);
            (Some(re), None)
        },
        (RecvSig::Packet(SendPacket::FinOkOk), Some(re)) => {
            cancel_timer(re.fin_ok_timeout_key, out);
            let payload_size: u16 = re.payload_size;
            let message = match re.name {
                Some(name) => Some(
                    Message { payload_size, data: MessageData::File { name, payload: re.recv_bytes } },
                ),
                None => match String::from_utf8(re.recv_bytes) {
                    Ok(text) => Some(Message { payload_size, data: MessageData::Text(text) }),
                    Err(_) => None,
                },
            };
            (None, message)
        },
        (RecvSig::Packet(SendPacket::Init { payload_size, transfer, name }), reader) => {
            let owned: Option<String> = match name {
                Some(s) => Some(s.to_owned()),
                None => None,
            };
            match reader {
                Some(re) => {
                    let agrees: bool = re.recv_bytes.len() == transfer as usize && re.payload_size
                        == payload_size && match (&re.name, &owned) {
                        (Some(a), Some(b)) => *a == *b,
                        _ => true,
                    };
                    if agrees {
                        let mut re = re;
                        out.push(Action::SendRecv(RecvPacket::InitOk));
                        re.name = owned;
                        (Some(re), None)
                    } else {
                        (Some(re), None)
                    }
                },
                None => {
                    out.push(Action::SendRecv(RecvPacket::InitOk));
                    let fresh = ReceiveState {
                        recv_bytes: zeros(transfer as usize),
                        payload_size,
                        name: owned,
                        fin_ok_timeout_key: None,
                    };
                    (Some(fresh), None)
                },
            }
        },
        (_, None) => (None, None),
    };
    assert(out@ =~= old(out)@ + step.actions);
    assert(reader_view(r.0) =~= step.reader);
    r
}

} // verus!
