//! The side of a transfer that sends a message.

use rustc_hash::FxHashMap;
use vstd::arithmetic::div_mod::lemma_fundamental_div_mod;
use vstd::prelude::*;

use crate::message::{Message, MessageData, MessageView};
use crate::packet::{
    encodable, name_bytes, Packet, PacketView, RecvPacket, SendPacket, SendPacketView, SeqNum,
    NAME_BYTES, SEQ_NUM_LIMIT,
};
use crate::signal::{Action, Delay, Expired, SendSig, SendSigView, TimerId};
use crate::text::string_of;
use crate::timeouts;
use crate::MAX_PAYLOAD_SIZE;

verus! {

/// Largest number of packets that await their acknowledgement at the same time.
pub const WINDOW_SIZE: usize = 128;

/// The number of `Data` packets of a transfer.
pub open spec fn packet_count(len: nat, payload_size: u16) -> int {
    (len + payload_size - 1) / (payload_size as int)
}

/// The bytes of a transfer that its `Data` packet `i` carries.
pub open spec fn chunk(transfer: Seq<u8>, payload_size: u16, i: int) -> Seq<u8> {
    let start = i * payload_size;
    let end = if start + payload_size <= transfer.len() {
        start + payload_size
    } else {
        transfer.len() as int
    };
    transfer.subrange(start, end)
}

/// A packet starts within the transfer if and only if its number is below the count.
pub proof fn lemma_packet_count(len: nat, payload_size: u16, i: int)
    requires
        payload_size > 0,
        0 <= i,
    ensures
        i < packet_count(len, payload_size) <==> i * payload_size < len,
        0 <= i * payload_size,
        0 <= packet_count(len, payload_size) <= len,
{
    let p = payload_size as int;
    let x = len + p - 1;
    let q = packet_count(len, payload_size);
    lemma_fundamental_div_mod(x, p);
    assert(x == p * q + x % p);
    assert(0 <= x % p < p);
    assert(0 <= q) by (nonlinear_arith)
        requires
            x == p * q + x % p,
            0 <= x % p < p,
            p > 0,
            x >= 0,
    ;
    assert(q <= len) by (nonlinear_arith)
        requires
            x == p * q + x % p,
            0 <= x % p < p,
            p > 0,
            x == len + p - 1,
            q >= 0,
    ;
    assert(0 <= i * p) by (nonlinear_arith)
        requires
            0 <= i,
            p > 0,
    ;
    if i < q {
        assert(i * p < len) by (nonlinear_arith)
            requires
                x == p * q + x % p,
                0 <= x % p < p,
                i + 1 <= q,
                p > 0,
                x == len + p - 1,
        ;
    } else {
        assert(i * p >= len) by (nonlinear_arith)
            requires
                x == p * q + x % p,
                0 <= x % p < p,
                i >= q,
                p > 0,
                x == len + p - 1,
        ;
    }
}

/// A message on its way.
#[derive(Debug)]
pub struct SendState {
    pub transfer: Vec<u8>,
    pub payload_size: u16,
    pub filename: Option<String>,
    /// The timers of the packets that await their acknowledgement.
    pub timeout_keys: FxHashMap<u32, TimerId>,
    /// The first packet that was not sent yet.
    pub next_to_send: SeqNum,
    pub fin_timeout_key: Option<TimerId>,
    pub time_wait_key: Option<TimerId>,
    pub init_timeout_key: Option<TimerId>,
}

/// What a [`SendState`] says.
#[verifier::ext_equal]
pub ghost struct SendStateView {
    pub transfer: Seq<u8>,
    pub payload_size: u16,
    pub filename: Option<Seq<char>>,
    pub timeout_keys: Map<u32, TimerId>,
    pub next_to_send: SeqNum,
    pub fin_timeout_key: Option<TimerId>,
    pub time_wait_key: Option<TimerId>,
    pub init_timeout_key: Option<TimerId>,
}

impl View for SendState {
    type V = SendStateView;

    open spec fn view(&self) -> SendStateView {
        SendStateView {
            transfer: self.transfer@,
            payload_size: self.payload_size,
            filename: string_of(self.filename),
            timeout_keys: self.timeout_keys@,
            next_to_send: self.next_to_send,
            fin_timeout_key: self.fin_timeout_key,
            time_wait_key: self.time_wait_key,
            init_timeout_key: self.init_timeout_key,
        }
    }
}

/// A message that a transfer can carry: its payloads and its name fit their packets, and
/// its packets can be numbered.
pub open spec fn transferable(m: MessageView) -> bool {
    &&& 1 <= m.payload_size <= MAX_PAYLOAD_SIZE
    &&& m.transfer().len() <= u32::MAX
    &&& packet_count(m.transfer().len(), m.payload_size) < SEQ_NUM_LIMIT
    &&& name_bytes(m.name()).len() <= NAME_BYTES
}

impl SendStateView {
    /// The number of packets of this transfer.
    pub open spec fn count(self) -> int {
        packet_count(self.transfer.len(), self.payload_size)
    }

    /// The message is one that a transfer can carry.
    pub open spec fn sound(self) -> bool {
        &&& 1 <= self.payload_size <= MAX_PAYLOAD_SIZE
        &&& self.transfer.len() <= u32::MAX
        &&& self.count() < SEQ_NUM_LIMIT
        &&& name_bytes(self.filename).len() <= NAME_BYTES
    }

    /// Every part was sent, and none awaits its acknowledgement.
    pub open spec fn all_arrived(self) -> bool {
        self.next_to_send.0 == self.count() && self.timeout_keys.is_empty()
    }

    /// The stages of a transfer, told by the timers that run: the announcement awaits its
    /// answer, and no part was sent; parts await their acknowledgements; `Fin` awaits its
    /// answer, and all parts have arrived; the end is waited for, and all parts have arrived.
    pub open spec fn staged(self) -> bool {
        match (self.init_timeout_key, self.fin_timeout_key, self.time_wait_key) {
            (Some(_), None, None) => self.next_to_send.0 == 0 && self.timeout_keys.is_empty(),
            (None, None, None) => !self.timeout_keys.is_empty(),
            (None, Some(_), None) => self.all_arrived(),
            (None, None, Some(_)) => self.all_arrived(),
            _ => false,
        }
    }

    /// What holds of every message on its way: only parts that were sent await their
    /// acknowledgement, and never more than the window has room for.
    pub open spec fn wf(self) -> bool {
        &&& self.sound()
        &&& self.next_to_send.0 <= self.count()
        &&& self.timeout_keys.dom().finite()
        &&& self.timeout_keys.len() <= WINDOW_SIZE
        &&& forall|q: u32| self.timeout_keys.contains_key(q) ==> q < self.next_to_send.0
        &&& self.staged()
    }

    /// The packet that announces this transfer.
    pub open spec fn init(self) -> PacketView {
        PacketView::Send(
            SendPacketView::Init {
                payload_size: self.payload_size,
                transfer: self.transfer.len() as u32,
                name: self.filename,
            },
        )
    }

    /// The packet that carries part `s` of this transfer.
    pub open spec fn data(self, s: SeqNum) -> PacketView {
        PacketView::Send(
            SendPacketView::Data {
                seq_num: s,
                data: chunk(self.transfer, self.payload_size, s.0 as int),
            },
        )
    }

    /// The state of a message that was just announced.
    pub open spec fn announced(m: MessageView, init_timer: TimerId) -> SendStateView {
        SendStateView {
            transfer: m.transfer(),
            payload_size: m.payload_size,
            filename: m.name(),
            timeout_keys: Map::empty(),
            next_to_send: SeqNum(0),
            fin_timeout_key: None,
            time_wait_key: None,
            init_timeout_key: Some(init_timer),
        }
    }
}

/// What the sending side turns into: its state, the next timer's number, and what is to
/// be done.
#[verifier::ext_equal]
pub ghost struct Sending {
    pub sender: Option<SendStateView>,
    pub next_timer: TimerId,
    pub actions: Seq<Action>,
}

/// The cancellation of a timer, if there is one.
pub open spec fn cancel(timer: Option<TimerId>) -> Seq<Action> {
    match timer {
        Some(id) => seq![Action::CancelTimer(id)],
        None => seq![],
    }
}

/// The timer that `m` has for `key`.
pub open spec fn lookup(m: Map<u32, TimerId>, key: u32) -> Option<TimerId> {
    if m.contains_key(key) {
        Some(m[key])
    } else {
        None
    }
}

/// The start of timer `id`.
pub open spec fn start(id: TimerId, expired: Expired, delay: Delay) -> Action {
    Action::StartTimer { id, expired, delay }
}

/// Part `seq` is sent, and its timer takes the place of the one that it may have had.
pub open spec fn transmitted(s: SendStateView, t: TimerId, seq: SeqNum) -> Sending {
    Sending {
        sender: Some(SendStateView { timeout_keys: s.timeout_keys.insert(seq.0, t), ..s }),
        next_timer: (t + 1) as u64,
        actions: seq![
            Action::SendData(seq),
            start(t, Expired::Ack(seq), Delay::AckTimeout),
        ] + cancel(lookup(s.timeout_keys, seq.0)),
    }
}

/// The first `n` parts are sent, in their order.
pub open spec fn burst(s: SendStateView, t: TimerId, n: nat) -> Sending
    decreases n,
{
    if n == 0 {
        Sending { sender: Some(s), next_timer: t, actions: seq![] }
    } else {
        let before = burst(s, t, (n - 1) as nat);
        let last = transmitted(
            before.sender.unwrap(),
            before.next_timer,
            SeqNum((n - 1) as u32),
        );
        Sending { actions: before.actions + last.actions, ..last }
    }
}

/// The number of parts that are sent before any acknowledgement.
pub open spec fn first_window(s: SendStateView) -> nat {
    if s.count() <= WINDOW_SIZE {
        s.count() as nat
    } else {
        WINDOW_SIZE as nat
    }
}

/// The announcement was answered: the first window is what is sent first.
pub open spec fn opened(s: SendStateView) -> SendStateView {
    SendStateView { init_timeout_key: None, next_to_send: SeqNum(first_window(s) as u32), ..s }
}

/// Nothing is done.
pub open spec fn stay(s: SendStateView, t: TimerId) -> Sending {
    Sending { sender: Some(s), next_timer: t, actions: seq![] }
}

/// Part `acked` has arrived: the next part is sent, or, when all have been sent and have
/// arrived, the end of the transfer. The acknowledgement of a part that is not in flight is
/// ignored.
pub open spec fn acknowledged(s: SendStateView, t: TimerId, acked: SeqNum) -> Sending {
    let stopped = cancel(lookup(s.timeout_keys, acked.0));
    let rest = SendStateView { timeout_keys: s.timeout_keys.remove(acked.0), ..s };
    if !s.timeout_keys.contains_key(acked.0) {
        stay(s, t)
    } else if s.next_to_send.0 != s.count() {
        let sent = transmitted(
            SendStateView { next_to_send: SeqNum((s.next_to_send.0 + 1) as u32), ..rest },
            t,
            s.next_to_send,
        );
        Sending { actions: stopped + sent.actions, ..sent }
    } else if rest.timeout_keys.is_empty() {
        let sent = fin_sent(rest, t);
        Sending { actions: stopped + sent.actions, ..sent }
    } else {
        Sending { sender: Some(rest), next_timer: t, actions: stopped }
    }
}

/// Part `seq`, when it is sent once more, awaits its acknowledgement: it does so already, or it
/// was acknowledged while other parts were not, and the window has room for it.
pub open spec fn awaits_again(s: SendStateView, seq: SeqNum) -> bool {
    ||| s.timeout_keys.contains_key(seq.0)
    ||| seq.0 < s.next_to_send.0 && !s.timeout_keys.is_empty() && s.timeout_keys.len() < WINDOW_SIZE
}

/// Part `seq` is sent once more.
pub open spec fn resent(s: SendStateView, t: TimerId, seq: SeqNum) -> Sending {
    if awaits_again(s, seq) {
        transmitted(s, t, seq)
    } else {
        Sending { sender: Some(s), next_timer: t, actions: seq![Action::SendData(seq)] }
    }
}

/// The first `n` parts are sent once more, in their order.
pub open spec fn repeated(s: SendStateView, t: TimerId, n: nat) -> Sending
    decreases n,
{
    if n == 0 {
        stay(s, t)
    } else {
        let before = repeated(s, t, (n - 1) as nat);
        let last = resent(before.sender.unwrap(), before.next_timer, SeqNum((n - 1) as u32));
        Sending { actions: before.actions + last.actions, ..last }
    }
}

/// The transfer begins with the first parts, as many as the window has room for; one without
/// parts ends at once.
pub open spec fn begun(s: SendStateView, t: TimerId) -> Sending {
    let sent = if s.count() == 0 {
        fin_sent(opened(s), t)
    } else {
        burst(opened(s), t, first_window(s))
    };
    Sending { actions: cancel(s.init_timeout_key) + sent.actions, ..sent }
}

/// `Fin` is sent and awaits its answer.
pub open spec fn fin_sent(s: SendStateView, t: TimerId) -> Sending {
    Sending {
        sender: Some(SendStateView { fin_timeout_key: Some(t), ..s }),
        next_timer: (t + 1) as u64,
        actions: seq![Action::SendFin, start(t, Expired::Fin, Delay::TenAckTimeouts)],
    }
}

/// `Init` is sent again and awaits its answer.
pub open spec fn init_sent(s: SendStateView, t: TimerId) -> Sending {
    Sending {
        sender: Some(SendStateView { init_timeout_key: Some(t), ..s }),
        next_timer: (t + 1) as u64,
        actions: seq![Action::SendInit, start(t, Expired::Init, Delay::AckTimeout)],
    }
}

/// What the sending side does about a signal.
pub open spec fn sending_step(
    sender: Option<SendStateView>,
    t: TimerId,
    sig: SendSigView,
) -> Sending {
    match (sig, sender) {
        (SendSigView::StartSendingFile(m), None) => Sending {
            sender: Some(SendStateView::announced(m, t)),
            next_timer: (t + 1) as u64,
            actions: seq![Action::SendInit, start(t, Expired::Init, Delay::AckTimeout)],
        },
        (SendSigView::Packet(RecvPacket::InitOk), Some(s)) => if s.init_timeout_key is Some {
            begun(s, t)
        } else {
            repeated(s, t, first_window(s))
        },
        (SendSigView::Packet(RecvPacket::DataAck(acked)), Some(s)) => acknowledged(s, t, acked),
        (SendSigView::Packet(RecvPacket::Nak(seq)), Some(s)) => resent(s, t, seq),
        (SendSigView::AckExpired(seq), Some(s)) => transmitted(
            SendStateView { timeout_keys: s.timeout_keys.remove(seq.0), ..s },
            t,
            seq,
        ),
        (SendSigView::FinExpired, Some(s)) => fin_sent(s, t),
        (SendSigView::InitExpired, Some(s)) => init_sent(s, t),
        (SendSigView::Packet(RecvPacket::FinOk), Some(s)) => if s.fin_timeout_key is Some
            || s.time_wait_key is Some {
            Sending {
                sender: Some(
                    SendStateView { fin_timeout_key: None, time_wait_key: Some(t), ..s },
                ),
                next_timer: (t + 1) as u64,
                actions: seq![Action::SendFinOkOk] + cancel(s.fin_timeout_key) + cancel(
                    s.time_wait_key,
                ) + seq![start(t, Expired::TimeWaitToClose, Delay::TenAckTimeouts)],
            }
        } else {
            stay(s, t)
        },
        (SendSigView::TimeWaitToCloseExpired, Some(_)) => Sending {
            sender: None,
            next_timer: t,
            actions: seq![Action::NotifySender],
        },
        _ => Sending { sender, next_timer: t, actions: seq![] },
    }
}

/// The signals that the sending side can be given: a message only when none is on its
/// way, and of the message on its way only parts that it has and timers that run.
pub open spec fn sending_admits(sender: Option<SendStateView>, sig: SendSigView) -> bool {
    match (sig, sender) {
        (SendSigView::StartSendingFile(m), Some(_)) => false,
        (SendSigView::StartSendingFile(m), None) => transferable(m),
        (SendSigView::Packet(RecvPacket::Nak(seq)), Some(s)) => seq.0 < s.count(),
        (SendSigView::InitExpired, Some(s)) => s.init_timeout_key is Some,
        (SendSigView::FinExpired, Some(s)) => s.fin_timeout_key is Some,
        (SendSigView::TimeWaitToCloseExpired, Some(s)) => s.time_wait_key is Some,
        (SendSigView::AckExpired(seq), Some(s)) => s.timeout_keys.contains_key(seq.0),
        _ => true,
    }
}

/// Timers that can still be numbered.
pub open spec fn timers_left(t: TimerId) -> bool {
    t + WINDOW_SIZE <= u64::MAX
}

/// What an optional [`SendState`] says.
pub open spec fn sender_view(sender: Option<SendState>) -> Option<SendStateView> {
    match sender {
        Some(s) => Some(s@),
        None => None,
    }
}

/// What holds of the sending side at any time.
pub open spec fn sending_wf(sender: Option<SendStateView>) -> bool {
    sender matches Some(s) ==> s.wf()
}

/// Numbers a timer and asks for its start.
pub(crate) fn start_timer(
    next_timer: &mut TimerId,
    expired: Expired,
    delay: Delay,
    out: &mut Vec<Action>,
) -> (id: TimerId)
    requires
        *old(next_timer) < u64::MAX,
    ensures
        id == *old(next_timer),
        *final(next_timer) == id + 1,
        final(out)@ == old(out)@.push(start(id, expired, delay)),
{
    let id: TimerId = *next_timer;
    *next_timer = id + 1;
    out.push(Action::StartTimer { id, expired, delay });
    id
}

/// Asks for the cancellation of a timer, if there is one.
pub(crate) fn cancel_timer(timer: Option<TimerId>, out: &mut Vec<Action>)
    ensures
        final(out)@ == old(out)@ + cancel(timer),
{
    if let Some(id) = timer {
        out.push(Action::CancelTimer(id));
    }
    assert(out@ =~= old(out)@ + cancel(timer));
}

impl SendState {
    /// The number of `Data` packets of this transfer.
    pub fn seq_num_count(&self) -> (n: usize)
        requires
            self.payload_size > 0,
            self.transfer@.len() <= u32::MAX,
        ensures
            n == self@.count(),
    {
        proof {
            lemma_packet_count(self.transfer@.len(), self.payload_size, 0);
        }
        let payload_size: u64 = self.payload_size as u64;
        let transfer: u64 = self.transfer.len() as u64;
        let count: u64 = (transfer + payload_size - 1) / payload_size;
        assert(count == self@.count());
        count as usize
    }

    /// The packet that announces this transfer.
    pub fn init_packet(&self) -> (p: SendPacket<'_>)
        requires
            self@.sound(),
        ensures
            PacketView::Send(p@) == self@.init(),
            encodable(self@.init(), 28),
    {
        let name = match &self.filename {
            Some(name) => Some(name.as_str()),
            None => None,
        };
        SendPacket::Init {
            payload_size: self.payload_size,
            transfer: self.transfer.len() as u32,
            name,
        }
    }

    /// The packet that carries part `seq_num` of this transfer.
    pub fn data_packet(&self, seq_num: SeqNum) -> (p: SendPacket<'_>)
        requires
            self@.sound(),
            seq_num.0 < self@.count(),
        ensures
            PacketView::Send(p@) == self@.data(seq_num),
            encodable(self@.data(seq_num), 4 + self.payload_size),
    {
        proof {
            lemma_packet_count(self.transfer@.len(), self.payload_size, seq_num.0 as int);
        }
        let len: usize = self.transfer.len();
        let bytes_before: u64 = seq_num.0 as u64 * self.payload_size as u64;
        let start: usize = bytes_before as usize;
        let left: usize = len - start;
        let size: usize = if self.payload_size as usize <= left {
            self.payload_size as usize
        } else {
            left
        };
        let data = vstd::slice::slice_subrange(self.transfer.as_slice(), start, start + size);
        assert(data@ =~= chunk(self.transfer@, self.payload_size, seq_num.0 as int));
        SendPacket::Data { seq_num, data }
    }
}

/// Whether a transfer can carry the message.
pub fn is_transferable(message: &Message) -> (b: bool)
    ensures
        b == transferable(message@),
{
    let (len, name_len): (usize, usize) = match &message.data {
        MessageData::File { name, payload } => (payload.len(), name.as_str().as_bytes().len()),
        MessageData::Text(text) => (text.as_str().as_bytes().len(), 0),
    };
    assert(len == message@.transfer().len());
    assert(name_len == name_bytes(message@.name()).len());
    let payload_size: u64 = message.payload_size as u64;
    if payload_size < 1 || payload_size > MAX_PAYLOAD_SIZE as u64 || len as u64 > u32::MAX as u64 {
        return false;
    }
    (len as u64 + payload_size - 1) / payload_size < SEQ_NUM_LIMIT as u64 && name_len <= NAME_BYTES
}

/// Whether the sending side can be given the signal.
pub fn send_accepts(sender: &Option<SendState>, sig: &SendSig) -> (b: bool)
    requires
        sending_wf(sender_view(*sender)),
    ensures
        b == sending_admits(sender_view(*sender), sig@),
{
    match (sig, sender) {
        (SendSig::StartSendingFile(_), Some(_)) => false,
        (SendSig::StartSendingFile(m), None) => is_transferable(m),
        (SendSig::Packet(RecvPacket::Nak(seq)), Some(s)) => (seq.0 as usize) < s.seq_num_count(),
        (SendSig::InitExpired, Some(s)) => s.init_timeout_key.is_some(),
        (SendSig::FinExpired, Some(s)) => s.fin_timeout_key.is_some(),
        (SendSig::TimeWaitToCloseExpired, Some(s)) => s.time_wait_key.is_some(),
        (SendSig::AckExpired(seq), Some(s)) => timeouts::contains(&s.timeout_keys, seq.0),
        _ => true,
    }
}

/// Sends part `seq_num` and starts its timer in place of the one that it may have.
pub fn send_data_packet(
    sender: &mut SendState,
    seq_num: SeqNum,
    next_timer: &mut TimerId,
    out: &mut Vec<Action>,
)
    requires
        old(sender)@.sound(),
        seq_num.0 < old(sender)@.count(),
        *old(next_timer) < u64::MAX,
    ensures
        ({
            let r = transmitted(old(sender)@, *old(next_timer), seq_num);
            &&& Some(final(sender)@) == r.sender
            &&& *final(next_timer) == r.next_timer
            &&& final(out)@ == old(out)@ + r.actions
        }),
{
    out.push(Action::SendData(seq_num));
    let key: TimerId = start_timer(next_timer, Expired::Ack(seq_num), Delay::AckTimeout, out);
    let removed: Option<TimerId> = timeouts::insert(&mut sender.timeout_keys, seq_num.0, key);
    cancel_timer(removed, out);
    let ghost r = transmitted(old(sender)@, *old(next_timer), seq_num);
    assert(out@ =~= old(out)@ + r.actions);
    assert(Some(sender@) =~= r.sender);
}

/// Sends part `seq_num` once more.
fn resend_data_packet(
    sender: &mut SendState,
    seq_num: SeqNum,
    next_timer: &mut TimerId,
    out: &mut Vec<Action>,
)
    requires
        old(sender)@.sound(),
        seq_num.0 < old(sender)@.count(),
        *old(next_timer) < u64::MAX,
    ensures
        ({
            let r = resent(old(sender)@, *old(next_timer), seq_num);
            &&& Some(final(sender)@) == r.sender
            &&& *final(next_timer) == r.next_timer
            &&& final(out)@ == old(out)@ + r.actions
        }),
{
    let awaits: bool = timeouts::contains(&sender.timeout_keys, seq_num.0) || (seq_num.0
        < sender.next_to_send.0 && !sender.timeout_keys.is_empty() && timeouts::count(
        &sender.timeout_keys,
    ) < WINDOW_SIZE);
    if awaits {
        send_data_packet(sender, seq_num, next_timer, out);
    } else {
        out.push(Action::SendData(seq_num));
        assert(out@ =~= old(out)@ + seq![Action::SendData(seq_num)]);
    }
}

/// Sends `Fin` and starts its timer.
fn send_fin(sender: &mut SendState, next_timer: &mut TimerId, out: &mut Vec<Action>)
    requires
        *old(next_timer) < u64::MAX,
    ensures
        ({
            let r = fin_sent(old(sender)@, *old(next_timer));
            &&& Some(final(sender)@) == r.sender
            &&& *final(next_timer) == r.next_timer
            &&& final(out)@ == old(out)@ + r.actions
        }),
{
    out.push(Action::SendFin);
    let key: TimerId = start_timer(next_timer, Expired::Fin, Delay::TenAckTimeouts, out);
    sender.fin_timeout_key = Some(key);
    let ghost r = fin_sent(old(sender)@, *old(next_timer));
    assert(out@ =~= old(out)@ + r.actions);
    assert(Some(sender@) =~= r.sender);
}

/// What sending the first `n` parts leaves as it was, and what it numbers.
pub proof fn lemma_burst(s: SendStateView, t: TimerId, n: nat)
    requires
        t + n <= u64::MAX,
    ensures
        ({
            let r = burst(s, t, n);
            &&& r.sender matches Some(q) && q == (SendStateView {
                timeout_keys: q.timeout_keys,
                ..s
            }) && (s.timeout_keys.dom().finite() ==> q.timeout_keys.dom().finite())
            &&& r.next_timer == t + n
        }),
    decreases n,
{
    if n > 0 {
        lemma_burst(s, t, (n - 1) as nat);
    }
}

/// What sending the first `n` parts does to the timers of all parts.
pub proof fn lemma_burst_keys(s: SendStateView, t: TimerId, n: nat, q: u32)
    requires
        n <= SEQ_NUM_LIMIT,
        t + n <= u64::MAX,
    ensures
        lookup(burst(s, t, n).sender.unwrap().timeout_keys, q) == (if q < n {
            Some((t + q) as u64)
        } else {
            lookup(s.timeout_keys, q)
        }),
    decreases n,
{
    if n > 0 {
        lemma_burst_keys(s, t, (n - 1) as nat, q);
        lemma_burst(s, t, (n - 1) as nat);
    }
}

/// There are at most `n` numbers below `n`.
pub proof fn lemma_numbers_below(numbers: Set<u32>, n: nat)
    requires
        numbers.finite(),
        forall|q: u32| numbers.contains(q) ==> q < n,
    ensures
        numbers.len() <= n,
    decreases n,
{
    if n == 0 {
        assert(numbers =~= Set::empty());
    } else if n - 1 <= u32::MAX {
        let top = (n - 1) as u32;
        lemma_numbers_below(numbers.remove(top), (n - 1) as nat);
    } else {
        lemma_numbers_below(numbers, (n - 1) as nat);
    }
}

/// Sending a part once more keeps what holds, and every timer or its successor.
pub proof fn lemma_resent(s: SendStateView, t: TimerId, seq: SeqNum)
    requires
        s.wf(),
        t < u64::MAX,
    ensures
        ({
            let r = resent(s, t, seq);
            &&& r.sender matches Some(x) && x.wf() && x == (SendStateView {
                timeout_keys: x.timeout_keys,
                ..s
            }) && forall|q: u32| #[trigger]
                lookup(s.timeout_keys, q) is Some ==> lookup(x.timeout_keys, q) is Some
            &&& t <= r.next_timer <= t + 1
        }),
{
    let keys = s.timeout_keys;
    let after = keys.insert(seq.0, t);
    assert(after.dom() =~= keys.dom().insert(seq.0));
    assert(after.contains_key(seq.0));
}

/// Sending the first parts once more keeps what holds, and every timer or its successor.
pub proof fn lemma_repeated(s: SendStateView, t: TimerId, n: nat)
    requires
        s.wf(),
        t + n <= u64::MAX,
    ensures
        ({
            let r = repeated(s, t, n);
            &&& r.sender matches Some(x) && x.wf() && x == (SendStateView {
                timeout_keys: x.timeout_keys,
                ..s
            }) && forall|q: u32| #[trigger]
                lookup(s.timeout_keys, q) is Some ==> lookup(x.timeout_keys, q) is Some
            &&& t <= r.next_timer <= t + n
        }),
    decreases n,
{
    if n > 0 {
        lemma_repeated(s, t, (n - 1) as nat);
        let before = repeated(s, t, (n - 1) as nat);
        let x = before.sender.unwrap();
        lemma_resent(x, before.next_timer, SeqNum((n - 1) as u32));
        let y = resent(x, before.next_timer, SeqNum((n - 1) as u32)).sender.unwrap();
        assert forall|q: u32| #[trigger] lookup(s.timeout_keys, q) is Some implies lookup(
            y.timeout_keys,
            q,
        ) is Some by {
            assert(lookup(x.timeout_keys, q) is Some);
        }
    }
}

/// The first window of a transfer leaves it in the stage in which parts await their
/// acknowledgement, or, without parts, in the one in which `Fin` awaits its answer.
proof fn lemma_begun_wf(s: SendStateView, t: TimerId)
    requires
        s.wf(),
        s.init_timeout_key is Some,
        timers_left(t),
    ensures
        begun(s, t).sender matches Some(q) && q.wf(),
{
    let n = first_window(s);
    lemma_packet_count(s.transfer.len(), s.payload_size, 0);
    assert forall|q: u32| !s.timeout_keys.contains_key(q) by {
        assert(s.timeout_keys.is_empty());
    }
    if s.count() > 0 {
        lemma_burst(opened(s), t, n);
        let after = burst(opened(s), t, n).sender.unwrap();
        assert forall|q: u32| after.timeout_keys.contains_key(q) <==> q < n by {
            lemma_burst_keys(opened(s), t, n, q);
            assert(lookup(after.timeout_keys, q) is Some <==> after.timeout_keys.contains_key(q));
        }
        lemma_numbers_below(after.timeout_keys.dom(), n);
        assert(after.timeout_keys.contains_key(0));
        assert(after.wf());
    }
}

/// What holds of a message on its way is kept.
pub proof fn lemma_sending_wf(sender: Option<SendStateView>, t: TimerId, sig: SendSigView)
    requires
        sending_wf(sender),
        sending_admits(sender, sig),
        timers_left(t),
    ensures
        sending_wf(sending_step(sender, t, sig).sender),
{
    if let SendSigView::StartSendingFile(m) = sig {
        lemma_packet_count(m.transfer().len(), m.payload_size, 0);
    }
    if let Some(s) = sender {
        let keys = s.timeout_keys;
        match sig {
            SendSigView::Packet(RecvPacket::InitOk) => {
                if s.init_timeout_key is Some {
                    lemma_begun_wf(s, t);
                } else {
                    lemma_packet_count(s.transfer.len(), s.payload_size, 0);
                    lemma_repeated(s, t, first_window(s));
                }
            },
            SendSigView::Packet(RecvPacket::DataAck(q)) => {
                if keys.contains_key(q.0) {
                    let rest = keys.remove(q.0);
                    let n = s.next_to_send.0;
                    assert(rest.dom() =~= keys.dom().remove(q.0));
                    assert(rest.insert(n, t).dom() =~= rest.dom().insert(n));
                    assert(rest.insert(n, t).contains_key(n));
                }
            },
            SendSigView::Packet(RecvPacket::Nak(q)) => {
                lemma_resent(s, t, q);
            },
            SendSigView::AckExpired(q) => {
                assert(keys.remove(q.0).insert(q.0, t).dom() =~= keys.dom());
                assert(keys.remove(q.0).insert(q.0, t).contains_key(q.0));
            },
            _ => {},
        }
    }
}

/// What the sending side does about a signal: gives its new state, numbers the timers that
/// it starts, and puts what is to be done behind `out`.
pub fn handle_send(
    sender: Option<SendState>,
    sig: SendSig,
    next_timer: &mut TimerId,
    out: &mut Vec<Action>,
) -> (r: Option<SendState>)
    requires
        sending_wf(sender_view(sender)),
        sending_admits(sender_view(sender), sig@),
        timers_left(*old(next_timer)),
    ensures
        sending_wf(sender_view(r)),
        ({
            let step = sending_step(sender_view(sender), *old(next_timer), sig@);
            &&& sender_view(r) == step.sender
            &&& *final(next_timer) == step.next_timer
            &&& final(out)@ == old(out)@ + step.actions
        }),
{
    let ghost step = sending_step(sender_view(sender), *old(next_timer), sig@);
    proof {
        lemma_sending_wf(sender_view(sender), *old(next_timer), sig@);
    }
    let r = match (sig, sender) {
        (SendSig::Packet(RecvPacket::DataAck(acked)), Some(se)) => {
            let mut se = se;
            let ghost s0 = se@;
            let seq_num: SeqNum = se.next_to_send;
            let removed: Option<TimerId> = timeouts::remove(&mut se.timeout_keys, acked.0);
            if removed.is_some() {
                cancel_timer(removed, out);
                if seq_num.0 as usize != se.seq_num_count() {
                    core::ops::AddAssign::add_assign(&mut se.next_to_send, SeqNum(1));
                    send_data_packet(&mut se, seq_num, next_timer, out);
                } else if se.timeout_keys.is_empty() {
                    send_fin(&mut se, next_timer, out);
                }
            } else {
                assert(se@ =~= s0);
            }
            Some(se)
        },
        (SendSig::AckExpired(seq_num), Some(se)) => {
            let mut se = se;
            let _ = timeouts::remove(&mut se.timeout_keys, seq_num.0);
            send_data_packet(&mut se, seq_num, next_timer, out);
            Some(se)
        },
        (SendSig::Packet(RecvPacket::Nak(seq_num)), Some(se)) => {
            let mut se = se;
            resend_data_packet(&mut se, seq_num, next_timer, out);
            Some(se)
        },
        (SendSig::FinExpired, Some(se)) => {
            let mut se = se;
            send_fin(&mut se, next_timer, out);
            Some(se)
        },
        (SendSig::TimeWaitToCloseExpired, Some(_)) => {
            // No other timer runs in this stage.
            out.push(Action::NotifySender);
            None
        },
        (SendSig::Packet(RecvPacket::FinOk), Some(se)) => {
            let mut se = se;
            if se.fin_timeout_key.is_some() || se.time_wait_key.is_some() {
                out.push(Action::SendFinOkOk);
                cancel_timer(se.fin_timeout_key.take(), out);
                // There is one if `FinOkOk` got lost and `FinOk` was sent again.
                cancel_timer(se.time_wait_key.take(), out);
                let key: TimerId = start_timer(
                    next_timer,
                    Expired::TimeWaitToClose,
                    Delay::TenAckTimeouts,
                    out,
                );
                se.time_wait_key = Some(key);
            }
            Some(se)
        },
        (SendSig::StartSendingFile(message), None) => {
            let payload_size: u16 = message.payload_size;
            let (transfer, filename) = match message.data {
                MessageData::File { name, payload } => (payload, Some(name)),
                MessageData::Text(text) => (text.into_bytes(), None),
            };
            out.push(Action::SendInit);
            let key: TimerId = start_timer(next_timer, Expired::Init, Delay::AckTimeout, out);
            Some(
                SendState {
                    transfer,
                    payload_size,
                    filename,
                    timeout_keys: FxHashMap::default(),
                    next_to_send: SeqNum(0),
                    fin_timeout_key: None,
                    time_wait_key: None,
                    init_timeout_key: Some(key),
                },
            )
        },
        (SendSig::InitExpired, Some(se)) => {
            let mut se = se;
            out.push(Action::SendInit);
            let key: TimerId = start_timer(next_timer, Expired::Init, Delay::AckTimeout, out);
            se.init_timeout_key = Some(key);
            Some(se)
        },
        (SendSig::Packet(RecvPacket::InitOk), Some(se)) => {
            let mut se = se;
            let count: usize = se.seq_num_count();
            let n: usize = if count <= WINDOW_SIZE {
                count
            } else {
                WINDOW_SIZE
            };
            let mut left: usize = 0;
            if se.init_timeout_key.is_some() {
                let ghost before = se@;
                cancel_timer(se.init_timeout_key.take(), out);
                se.next_to_send = SeqNum(n as u32);
                let ghost s0 = se@;
                let ghost t0 = *next_timer;
                let ghost out0 = out@;
                assert(s0 =~= opened(before));
                while left < n
                    invariant
                        left <= n <= WINDOW_SIZE,
                        n <= s0.count(),
                        s0.sound(),
                        t0 + WINDOW_SIZE <= u64::MAX,
                        ({
                            let b = burst(s0, t0, left as nat);
                            &&& Some(se@) == b.sender
                            &&& *next_timer == b.next_timer
                            &&& out@ == out0 + b.actions
                        }),
                    decreases n - left,
                {
                    proof {
                        lemma_burst(s0, t0, left as nat);
                    }
                    send_data_packet(&mut se, SeqNum(left as u32), next_timer, out);
                    left = left + 1;
                    assert(out@ =~= out0 + burst(s0, t0, left as nat).actions);
                }
                if n == 0 {
                    send_fin(&mut se, next_timer, out);
                }
            } else {
                let ghost s0 = se@;
                let ghost t0 = *next_timer;
                let ghost out0 = out@;
                while left < n
                    invariant
                        left <= n <= WINDOW_SIZE,
                        n <= s0.count(),
                        s0.wf(),
                        t0 + WINDOW_SIZE <= u64::MAX,
                        ({
                            let b = repeated(s0, t0, left as nat);
                            &&& Some(se@) == b.sender
                            &&& *next_timer == b.next_timer
                            &&& out@ == out0 + b.actions
                        }),
                    decreases n - left,
                {
                    proof {
                        lemma_repeated(s0, t0, left as nat);
                    }
                    resend_data_packet(&mut se, SeqNum(left as u32), next_timer, out);
                    left = left + 1;
                    assert(out@ =~= out0 + repeated(s0, t0, left as nat).actions);
                }
            }
            Some(se)
        },
        (_, sender) => sender,
    };
    assert(out@ =~= old(out)@ + step.actions);
    assert(sender_view(r) =~= step.sender);
    r
}

} // verus!
