//! What holds of the timers that a connection starts and cancels.

use vstd::prelude::*;

use crate::event_loop::LoopView;
use crate::packet::{ConnPacket, RecvPacket, SendPacketView, SeqNum, SEQ_NUM_LIMIT};
use crate::receiver::ReceiveStateView;
use crate::sender::{
    awaits_again, burst, cancel, fin_sent, first_window, lemma_burst, lemma_burst_keys,
    lemma_packet_count, lemma_repeated, lookup, opened, repeated, resent, start, timers_left,
    transmitted, Sending, SendStateView,
};
use crate::signal::{
    signal_of_timer, Action, ConnSig, Delay, Expired, RecvSigView, SendSigView, SigView, TimerId,
};

verus! {

/// The timer that a connection knows for a purpose.
pub open spec fn held(l: LoopView, e: Expired) -> Option<TimerId> {
    match e {
        Expired::KeepAlive => l.keep_alive_key,
        Expired::FinOk => match l.reader {
            Some(r) => r.fin_ok_timeout_key,
            None => None,
        },
        Expired::Init => match l.sender {
            Some(s) => s.init_timeout_key,
            None => None,
        },
        Expired::Fin => match l.sender {
            Some(s) => s.fin_timeout_key,
            None => None,
        },
        Expired::TimeWaitToClose => match l.sender {
            Some(s) => s.time_wait_key,
            None => None,
        },
        Expired::Ack(q) => match l.sender {
            Some(s) => lookup(s.timeout_keys, q.0),
            None => None,
        },
    }
}

/// The timers that run, each with its purpose, are those that the connection knows, and were
/// numbered before the next one.
pub open spec fn tracks(l: LoopView, running: Map<TimerId, Expired>) -> bool {
    &&& forall|id: TimerId| #[trigger]
        running.contains_key(id) ==> held(l, running[id]) == Some(id) && id < l.next_timer
    &&& forall|e: Expired| #[trigger]
        held(l, e) matches Some(id) ==> running.contains_key(id) && running[id] == e
}

/// The timers that run once the actions are done, one after the other.
pub open spec fn after(running: Map<TimerId, Expired>, actions: Seq<Action>) -> Map<TimerId, Expired>
    decreases actions.len(),
{
    if actions.len() == 0 {
        running
    } else {
        let before = after(running, actions.drop_last());
        match actions.last() {
            Action::StartTimer { id, expired, .. } => before.insert(id, expired),
            Action::CancelTimer(id) => before.remove(id),
            _ => before,
        }
    }
}

/// The actions, done one after the other, start only timers whose numbers no running timer
/// has, and cancel only timers that run.
pub open spec fn orderly(running: Map<TimerId, Expired>, actions: Seq<Action>) -> bool
    decreases actions.len(),
{
    actions.len() == 0 || {
        let before = after(running, actions.drop_last());
        &&& orderly(running, actions.drop_last())
        &&& match actions.last() {
            Action::StartTimer { id, .. } => !before.contains_key(id),
            Action::CancelTimer(id) => before.contains_key(id),
            _ => true,
        }
    }
}

/// The purpose of the timer that ran out, if the signal is that one did.
pub open spec fn ran_out(sig: SigView) -> Option<Expired> {
    match sig {
        SigView::Conn(ConnSig::KeepAliveExpired) => Some(Expired::KeepAlive),
        SigView::Recv(RecvSigView::FinOkExpired) => Some(Expired::FinOk),
        SigView::Send(SendSigView::InitExpired) => Some(Expired::Init),
        SigView::Send(SendSigView::FinExpired) => Some(Expired::Fin),
        SigView::Send(SendSigView::TimeWaitToCloseExpired) => Some(Expired::TimeWaitToClose),
        SigView::Send(SendSigView::AckExpired(q)) => Some(Expired::Ack(q)),
        _ => None,
    }
}

/// The timers that still run when the signal comes: one that ran out runs no more.
pub open spec fn left(l: LoopView, running: Map<TimerId, Expired>, sig: SigView) -> Map<
    TimerId,
    Expired,
> {
    match ran_out(sig) {
        Some(e) => match held(l, e) {
            Some(id) => running.remove(id),
            None => running,
        },
        None => running,
    }
}

proof fn lemma_after_join(running: Map<TimerId, Expired>, x: Seq<Action>, y: Seq<Action>)
    ensures
        after(running, x + y) == after(after(running, x), y),
        orderly(running, x + y) <==> orderly(running, x) && orderly(after(running, x), y),
    decreases y.len(),
{
    if y.len() == 0 {
        assert(x + y =~= x);
    } else {
        lemma_after_join(running, x, y.drop_last());
        assert((x + y).drop_last() =~= x + y.drop_last());
        assert((x + y).last() == y.last());
    }
}

proof fn lemma_after_one(running: Map<TimerId, Expired>, a: Action)
    ensures
        after(running, seq![a]) == (match a {
            Action::StartTimer { id, expired, .. } => running.insert(id, expired),
            Action::CancelTimer(id) => running.remove(id),
            _ => running,
        }),
        orderly(running, seq![a]) <==> (match a {
            Action::StartTimer { id, .. } => !running.contains_key(id),
            Action::CancelTimer(id) => running.contains_key(id),
            _ => true,
        }),
{
    let one = seq![a];
    assert(one.drop_last() =~= seq![]);
    assert(one.last() == a);
    assert(after(running, one.drop_last()) == running);
    assert(orderly(running, one.drop_last()));
}

proof fn lemma_after_two(running: Map<TimerId, Expired>, a: Action, b: Action)
    ensures
        after(running, seq![a, b]) == after(after(running, seq![a]), seq![b]),
        orderly(running, seq![a, b]) <==> orderly(running, seq![a]) && orderly(
            after(running, seq![a]),
            seq![b],
        ),
{
    assert(seq![a, b] =~= seq![a] + seq![b]);
    lemma_after_join(running, seq![a], seq![b]);
    lemma_after_one(running, a);
    lemma_after_one(after(running, seq![a]), b);
}

/// The running timers without one that there may be.
pub open spec fn without(running: Map<TimerId, Expired>, timer: Option<TimerId>) -> Map<
    TimerId,
    Expired,
> {
    match timer {
        Some(id) => running.remove(id),
        None => running,
    }
}

proof fn lemma_after_cancel(running: Map<TimerId, Expired>, timer: Option<TimerId>)
    ensures
        after(running, cancel(timer)) == without(running, timer),
        orderly(running, cancel(timer)) <==> (timer matches Some(id) ==> running.contains_key(id)),
{
    if let Some(id) = timer {
        lemma_after_one(running, Action::CancelTimer(id));
    }
}

proof fn lemma_after_transmitted(
    running: Map<TimerId, Expired>,
    s: SendStateView,
    t: TimerId,
    seq: SeqNum,
)
    requires
        !running.contains_key(t),
        lookup(s.timeout_keys, seq.0) matches Some(id) ==> running.contains_key(id),
    ensures
        after(running, transmitted(s, t, seq).actions) == without(
            running.insert(t, Expired::Ack(seq)),
            lookup(s.timeout_keys, seq.0),
        ),
        orderly(running, transmitted(s, t, seq).actions),
{
    let old = lookup(s.timeout_keys, seq.0);
    let sent = Action::SendData(seq);
    let begin = start(t, Expired::Ack(seq), Delay::AckTimeout);
    lemma_after_two(running, sent, begin);
    lemma_after_one(running, sent);
    lemma_after_one(running, begin);
    lemma_after_join(running, seq![sent, begin], cancel(old));
    lemma_after_cancel(running.insert(t, Expired::Ack(seq)), old);
}

/// What the first `n` parts of a message leave running, none of them having been in flight.
proof fn lemma_after_burst(running: Map<TimerId, Expired>, s: SendStateView, t: TimerId, n: nat)
    requires
        n <= SEQ_NUM_LIMIT,
        t + n <= u64::MAX,
        s.timeout_keys.is_empty(),
        forall|id: TimerId| running.contains_key(id) ==> id < t,
    ensures
        orderly(running, burst(s, t, n).actions),
        forall|id: TimerId| #[trigger]
            after(running, burst(s, t, n).actions).contains_key(id) <==> running.contains_key(id)
                || t <= id < t + n,
        forall|id: TimerId|
            running.contains_key(id) ==> #[trigger] after(running, burst(s, t, n).actions)[id]
                == running[id],
        forall|id: TimerId|
            t <= id < t + n ==> #[trigger] after(running, burst(s, t, n).actions)[id]
                == Expired::Ack(SeqNum((id - t) as u32)),
    decreases n,
{
    if n > 0 {
        let m = (n - 1) as nat;
        let q = m as u32;
        lemma_after_burst(running, s, t, m);
        lemma_burst(s, t, m);
        lemma_burst_keys(s, t, m, q);
        let before = burst(s, t, m);
        let r = after(running, before.actions);
        lemma_after_transmitted(r, before.sender.unwrap(), before.next_timer, SeqNum(q));
        lemma_after_join(
            running,
            before.actions,
            transmitted(before.sender.unwrap(), before.next_timer, SeqNum(q)).actions,
        );
    }
}

/// All purposes but one have the timers that they had.
spec fn same_but(l: LoopView, next: LoopView, e: Expired) -> bool {
    forall|x: Expired| x != e ==> #[trigger] held(next, x) == held(l, x)
}

/// A purpose has its timer no more.
proof fn lemma_gone(l: LoopView, running: Map<TimerId, Expired>, e: Expired, next: LoopView)
    requires
        tracks(l, running),
        same_but(l, next, e),
        held(next, e) is None,
        l.next_timer == next.next_timer,
    ensures
        tracks(next, without(running, held(l, e))),
        held(l, e) matches Some(id) ==> running.contains_key(id),
{
    let now = without(running, held(l, e));
    assert forall|id: TimerId| #[trigger] now.contains_key(id) implies held(next, now[id]) == Some(
        id,
    ) && id < next.next_timer by {
        assert(running.contains_key(id));
        assert(held(l, running[id]) == Some(id));
    }
    assert forall|x: Expired| #[trigger] held(next, x) is Some implies {
        let id = held(next, x).unwrap();
        now.contains_key(id) && now[id] == x
    } by {
        assert(held(l, x) == held(next, x));
    }
}

/// A purpose that had no timer has one, under the next number.
proof fn lemma_started(l: LoopView, running: Map<TimerId, Expired>, e: Expired, next: LoopView)
    requires
        tracks(l, running),
        same_but(l, next, e),
        held(l, e) is None,
        held(next, e) == Some(l.next_timer),
        next.next_timer == l.next_timer + 1,
    ensures
        tracks(next, running.insert(l.next_timer, e)),
        !running.contains_key(l.next_timer),
{
    let now = running.insert(l.next_timer, e);
    assert forall|id: TimerId| #[trigger] now.contains_key(id) implies held(next, now[id]) == Some(
        id,
    ) && id < next.next_timer by {
        if id != l.next_timer {
            assert(running.contains_key(id));
            assert(held(l, running[id]) == Some(id));
        }
    }
    assert forall|x: Expired| #[trigger] held(next, x) is Some implies {
        let id = held(next, x).unwrap();
        now.contains_key(id) && now[id] == x
    } by {
        if x != e {
            assert(held(l, x) == held(next, x));
            assert(running.contains_key(held(l, x).unwrap()));
        }
    }
}

/// Two actions, the second of which starts a timer.
proof fn lemma_after_start(
    running: Map<TimerId, Expired>,
    a: Action,
    id: TimerId,
    e: Expired,
    delay: Delay,
)
    requires
        !(a is StartTimer),
        !(a is CancelTimer),
        !running.contains_key(id),
    ensures
        after(running, seq![a, start(id, e, delay)]) == running.insert(id, e),
        orderly(running, seq![a, start(id, e, delay)]),
{
    lemma_after_two(running, a, start(id, e, delay));
    lemma_after_one(running, a);
    lemma_after_one(running, start(id, e, delay));
}

/// What the running timers become when the sending side begins with the first parts.
proof fn lemma_begun_timers(l: LoopView, running: Map<TimerId, Expired>, s: SendStateView)
    requires
        l.wf(),
        l.sender == Some(s),
        s.init_timeout_key is Some,
        timers_left(l.next_timer),
        tracks(l, running),
    ensures
        ({
            let step = l.step(SigView::Send(SendSigView::Packet(RecvPacket::InitOk)));
            &&& tracks(step.next, after(running, step.actions))
            &&& orderly(running, step.actions)
        }),
{
    let t = l.next_timer;
    let n = first_window(s);
    let step = l.step(SigView::Send(SendSigView::Packet(RecvPacket::InitOk)));
    let rest = without(running, s.init_timeout_key);
    assert(held(l, Expired::Init) == s.init_timeout_key);
    lemma_packet_count(s.transfer.len(), s.payload_size, 0);
    lemma_after_cancel(running, s.init_timeout_key);
    assert forall|id: TimerId| rest.contains_key(id) implies id < t && rest[id] == running[id]
        && rest[id] != Expired::Init && held(l, rest[id]) == Some(id) by {
        assert(running.contains_key(id));
    }
    if s.count() == 0 {
        let mid = LoopView { sender: Some(opened(s)), ..l };
        lemma_gone(l, running, Expired::Init, mid);
        lemma_started(mid, rest, Expired::Fin, step.next);
        lemma_after_join(running, cancel(s.init_timeout_key), fin_sent(opened(s), t).actions);
        lemma_after_start(rest, Action::SendFin, t, Expired::Fin, Delay::TenAckTimeouts);
    } else {
        let sent = burst(opened(s), t, n);
        lemma_burst(opened(s), t, n);
        lemma_after_join(running, cancel(s.init_timeout_key), sent.actions);
        lemma_after_burst(rest, opened(s), t, n);
        let now = after(rest, sent.actions);
        assert(now == after(running, step.actions));
        assert forall|id: TimerId| #[trigger] now.contains_key(id) implies held(step.next, now[id])
            == Some(id) && id < step.next.next_timer by {
            if rest.contains_key(id) {
                assert(now[id] == rest[id]);
                if let Expired::Ack(q) = rest[id] {
                    assert(false);
                }
            } else {
                lemma_burst_keys(opened(s), t, n, (id - t) as u32);
            }
        }
        assert forall|e: Expired| #[trigger] held(step.next, e) matches Some(id) implies {
            let id = held(step.next, e).unwrap();
            now.contains_key(id) && now[id] == e
        } by {
            let id = held(step.next, e).unwrap();
            if let Expired::Ack(q) = e {
                lemma_burst_keys(opened(s), t, n, q.0);
            } else {
                assert(held(l, e) == Some(id));
                assert(rest.contains_key(id));
            }
        }
    }
}

/// The timers that run are those that the connection knows, whatever it reacts to: every timer
/// that was started and neither cancelled nor run out has its place, and stands for one that
/// runs. Timers are started under numbers that no running timer has, and only timers that run
/// are cancelled.
pub proof fn law_running_timers_are_held(
    l: LoopView,
    running: Map<TimerId, Expired>,
    sig: SigView,
)
    requires
        l.wf(),
        l.admits(sig),
        tracks(l, running),
    ensures
        tracks(l.step(sig).next, after(left(l, running, sig), l.step(sig).actions)),
        orderly(left(l, running, sig), l.step(sig).actions),
{
    match sig {
        SigView::Conn(c) => {
            lemma_conn_timers(l, running, c);
        },
        SigView::Recv(r) => {
            lemma_receiver_timers(l, running, r);
        },
        SigView::Send(s) => {
            lemma_sender_timers(l, running, s);
        },
    }
}

/// Signals that concern the connection itself.
proof fn lemma_conn_timers(l: LoopView, running: Map<TimerId, Expired>, c: ConnSig)
    requires
        l.admits(SigView::Conn(c)),
        tracks(l, running),
    ensures
        ({
            let sig = SigView::Conn(c);
            let rest = left(l, running, sig);
            &&& tracks(l.step(sig).next, after(rest, l.step(sig).actions))
            &&& orderly(rest, l.step(sig).actions)
        }),
{
    let sig = SigView::Conn(c);
    let step = l.step(sig);
    let rest = left(l, running, sig);
    let t = l.next_timer;
    match c {
        ConnSig::KeepAlive => {
            if l.keep_alive_key is None {
                lemma_started(l, running, Expired::KeepAlive, step.next);
                lemma_after_start(
                    running,
                    step.actions[0],
                    t,
                    Expired::KeepAlive,
                    Delay::KaTimeout,
                );
            } else {
                lemma_after_one(running, step.actions[0]);
            }
        },
        ConnSig::KeepAliveExpired => {
            lemma_gone(l, running, Expired::KeepAlive, step.next);
            lemma_after_one(rest, Action::Close);
        },
        ConnSig::Packet(ConnPacket::KeepAliveOk) => {
            lemma_gone(l, running, Expired::KeepAlive, step.next);
            lemma_after_cancel(running, l.keep_alive_key);
        },
        _ => {
            if step.actions.len() > 0 {
                lemma_after_one(running, step.actions[0]);
                assert(step.actions =~= seq![step.actions[0]]);
            }
        },
    }
}

/// Signals that concern the message being received.
proof fn lemma_receiver_timers(l: LoopView, running: Map<TimerId, Expired>, r: RecvSigView)
    requires
        l.admits(SigView::Recv(r)),
        tracks(l, running),
    ensures
        ({
            let sig = SigView::Recv(r);
            let rest = left(l, running, sig);
            &&& tracks(l.step(sig).next, after(rest, l.step(sig).actions))
            &&& orderly(rest, l.step(sig).actions)
        }),
{
    let sig = SigView::Recv(r);
    let step = l.step(sig);
    let rest = left(l, running, sig);
    let t = l.next_timer;
    let e = Expired::FinOk;
    let answer = Action::SendRecv(RecvPacket::FinOk);
    if let Some(re) = l.reader {
        let mid = LoopView {
            reader: Some(ReceiveStateView { fin_ok_timeout_key: None, ..re }),
            ..l
        };
        let stopped = without(running, re.fin_ok_timeout_key);
        lemma_gone(l, running, e, mid);
        match r {
            RecvSigView::Packet(SendPacketView::Fin) => {
                lemma_started(mid, stopped, e, step.next);
                lemma_after_cancel(running, re.fin_ok_timeout_key);
                lemma_after_start(stopped, answer, t, e, Delay::AckTimeout);
                lemma_after_join(
                    running,
                    cancel(re.fin_ok_timeout_key),
                    seq![answer, start(t, e, Delay::AckTimeout)],
                );
            },
            RecvSigView::FinOkExpired => {
                lemma_started(mid, stopped, e, step.next);
                lemma_after_start(stopped, answer, t, e, Delay::AckTimeout);
                assert(step.actions =~= seq![answer, start(t, e, Delay::AckTimeout)]);
            },
            RecvSigView::Packet(SendPacketView::FinOkOk) => {
                lemma_gone(l, running, e, step.next);
                lemma_after_cancel(running, re.fin_ok_timeout_key);
            },
            _ => {
                if step.actions.len() > 0 {
                    lemma_after_one(running, step.actions[0]);
                    assert(step.actions =~= seq![step.actions[0]]);
                }
                assert forall|x: Expired| #[trigger] held(step.next, x) == held(l, x) by {}
                assert(forall|id: TimerId| #[trigger]
                    running.contains_key(id) ==> held(step.next, running[id]) == Some(id));
            },
        }
    } else {
        lemma_gone(l, running, e, step.next);
        if step.actions.len() > 0 {
            lemma_after_one(running, step.actions[0]);
            assert(step.actions =~= seq![step.actions[0]]);
        }
    }
}

/// Signals that concern the message being sent.
proof fn lemma_sender_timers(l: LoopView, running: Map<TimerId, Expired>, c: SendSigView)
    requires
        l.wf(),
        l.admits(SigView::Send(c)),
        tracks(l, running),
    ensures
        ({
            let sig = SigView::Send(c);
            let rest = left(l, running, sig);
            &&& tracks(l.step(sig).next, after(rest, l.step(sig).actions))
            &&& orderly(rest, l.step(sig).actions)
        }),
{
    let sig = SigView::Send(c);
    let step = l.step(sig);
    let rest = left(l, running, sig);
    let t = l.next_timer;
    if let Some(s) = l.sender {
        match c {
            SendSigView::Packet(RecvPacket::InitOk) => {
                if s.init_timeout_key is Some {
                    lemma_begun_timers(l, running, s);
                } else {
                    lemma_repeated_timers(l, running, s, first_window(s));
                }
            },
            SendSigView::Packet(RecvPacket::DataAck(q)) => {
                if s.timeout_keys.contains_key(q.0) {
                    lemma_acknowledged_timers(l, running, s, q);
                }
            },
            SendSigView::Packet(RecvPacket::Nak(q)) => {
                lemma_resent_timers(l, running, s, q);
            },
            SendSigView::AckExpired(q) => {
                let e = Expired::Ack(q);
                let removed = SendStateView { timeout_keys: s.timeout_keys.remove(q.0), ..s };
                let mid = LoopView { sender: Some(removed), ..l };
                lemma_gone(l, running, e, mid);
                lemma_started(mid, rest, e, step.next);
                lemma_after_transmitted(rest, removed, t, q);
            },
            SendSigView::FinExpired => {
                let mid = LoopView {
                    sender: Some(SendStateView { fin_timeout_key: None, ..s }),
                    ..l
                };
                lemma_gone(l, running, Expired::Fin, mid);
                lemma_started(mid, rest, Expired::Fin, step.next);
                lemma_after_start(rest, Action::SendFin, t, Expired::Fin, Delay::TenAckTimeouts);
            },
            SendSigView::InitExpired => {
                let mid = LoopView {
                    sender: Some(SendStateView { init_timeout_key: None, ..s }),
                    ..l
                };
                lemma_gone(l, running, Expired::Init, mid);
                lemma_started(mid, rest, Expired::Init, step.next);
                lemma_after_start(rest, Action::SendInit, t, Expired::Init, Delay::AckTimeout);
            },
            SendSigView::Packet(RecvPacket::FinOk) => {
                if s.fin_timeout_key is Some || s.time_wait_key is Some {
                    lemma_fin_ok_timers(l, running, s);
                }
            },
            SendSigView::TimeWaitToCloseExpired => {
                lemma_gone(l, running, Expired::TimeWaitToClose, step.next);
                lemma_after_one(rest, Action::NotifySender);
            },
            _ => {},
        }
    } else {
        if let SendSigView::StartSendingFile(_) = c {
            lemma_started(l, running, Expired::Init, step.next);
            lemma_after_start(rest, Action::SendInit, t, Expired::Init, Delay::AckTimeout);
        }
    }
}

/// The connection once its sending side has come to `r`.
spec fn with_sending(l: LoopView, r: Sending) -> LoopView {
    LoopView { sender: r.sender, next_timer: r.next_timer, ..l }
}

proof fn lemma_resent_timers(
    l: LoopView,
    running: Map<TimerId, Expired>,
    s: SendStateView,
    q: SeqNum,
)
    requires
        l.sender == Some(s),
        l.next_timer < u64::MAX,
        tracks(l, running),
    ensures
        ({
            let r = resent(s, l.next_timer, q);
            &&& tracks(with_sending(l, r), after(running, r.actions))
            &&& orderly(running, r.actions)
        }),
{
    let t = l.next_timer;
    let r = resent(s, t, q);
    if awaits_again(s, q) {
        let e = Expired::Ack(q);
        let old = lookup(s.timeout_keys, q.0);
        let mid = LoopView {
            sender: Some(SendStateView { timeout_keys: s.timeout_keys.remove(q.0), ..s }),
            ..l
        };
        assert(held(l, e) == old);
        lemma_gone(l, running, e, mid);
        lemma_started(mid, without(running, old), e, with_sending(l, r));
        assert(!running.contains_key(t)) by {
            if running.contains_key(t) {
                assert(t < l.next_timer);
            }
        }
        lemma_after_transmitted(running, s, t, q);
        assert(without(running.insert(t, e), old) =~= without(running, old).insert(t, e));
    } else {
        lemma_after_one(running, Action::SendData(q));
        assert(with_sending(l, r) == l);
    }
}

proof fn lemma_repeated_timers(
    l: LoopView,
    running: Map<TimerId, Expired>,
    s: SendStateView,
    n: nat,
)
    requires
        l.sender == Some(s),
        s.wf(),
        l.next_timer + n <= u64::MAX,
        tracks(l, running),
    ensures
        ({
            let r = repeated(s, l.next_timer, n);
            &&& tracks(with_sending(l, r), after(running, r.actions))
            &&& orderly(running, r.actions)
        }),
    decreases n,
{
    let t = l.next_timer;
    if n == 0 {
        assert(with_sending(l, repeated(s, t, n)) == l);
    } else {
        let m = (n - 1) as nat;
        let before = repeated(s, t, m);
        lemma_repeated(s, t, m);
        lemma_repeated_timers(l, running, s, m);
        let x = before.sender.unwrap();
        let q = SeqNum(m as u32);
        lemma_resent_timers(with_sending(l, before), after(running, before.actions), x, q);
        lemma_after_join(running, before.actions, resent(x, before.next_timer, q).actions);
    }
}

proof fn lemma_acknowledged_timers(
    l: LoopView,
    running: Map<TimerId, Expired>,
    s: SendStateView,
    q: SeqNum,
)
    requires
        l.wf(),
        l.sender == Some(s),
        s.timeout_keys.contains_key(q.0),
        timers_left(l.next_timer),
        tracks(l, running),
    ensures
        ({
            let step = l.step(SigView::Send(SendSigView::Packet(RecvPacket::DataAck(q))));
            &&& tracks(step.next, after(running, step.actions))
            &&& orderly(running, step.actions)
        }),
{
    let step = l.step(SigView::Send(SendSigView::Packet(RecvPacket::DataAck(q))));
    let t = l.next_timer;
    let old = lookup(s.timeout_keys, q.0);
    let removed = SendStateView { timeout_keys: s.timeout_keys.remove(q.0), ..s };
    let mid = LoopView { sender: Some(removed), ..l };
    let stopped = without(running, old);
    assert(held(l, Expired::Ack(q)) == old);
    lemma_gone(l, running, Expired::Ack(q), mid);
    lemma_after_cancel(running, old);
    if s.next_to_send.0 != s.count() {
        let slid = SendStateView {
            next_to_send: SeqNum((s.next_to_send.0 + 1) as u32),
            ..removed
        };
        let e = Expired::Ack(s.next_to_send);
        assert(!s.timeout_keys.contains_key(s.next_to_send.0));
        lemma_started(mid, stopped, e, step.next);
        lemma_after_transmitted(stopped, slid, t, s.next_to_send);
        lemma_after_join(running, cancel(old), transmitted(slid, t, s.next_to_send).actions);
    } else if removed.timeout_keys.is_empty() {
        lemma_started(mid, stopped, Expired::Fin, step.next);
        lemma_after_start(stopped, Action::SendFin, t, Expired::Fin, Delay::TenAckTimeouts);
        lemma_after_join(running, cancel(old), fin_sent(removed, t).actions);
    }
}

proof fn lemma_fin_ok_timers(l: LoopView, running: Map<TimerId, Expired>, s: SendStateView)
    requires
        l.wf(),
        l.sender == Some(s),
        s.fin_timeout_key is Some || s.time_wait_key is Some,
        timers_left(l.next_timer),
        tracks(l, running),
    ensures
        ({
            let step = l.step(SigView::Send(SendSigView::Packet(RecvPacket::FinOk)));
            &&& tracks(step.next, after(running, step.actions))
            &&& orderly(running, step.actions)
        }),
{
    let step = l.step(SigView::Send(SendSigView::Packet(RecvPacket::FinOk)));
    let t = l.next_timer;
    let e = Expired::TimeWaitToClose;
    let answer = seq![Action::SendFinOkOk];
    let begin = seq![start(t, e, Delay::TenAckTimeouts)];
    let first = cancel(s.fin_timeout_key);
    let second = cancel(s.time_wait_key);
    let a = LoopView { sender: Some(SendStateView { fin_timeout_key: None, ..s }), ..l };
    let b = LoopView {
        sender: Some(SendStateView { fin_timeout_key: None, time_wait_key: None, ..s }),
        ..l
    };
    let r1 = without(running, s.fin_timeout_key);
    let r2 = without(r1, s.time_wait_key);
    lemma_gone(l, running, Expired::Fin, a);
    lemma_gone(a, r1, e, b);
    lemma_started(b, r2, e, step.next);
    lemma_after_one(running, Action::SendFinOkOk);
    lemma_after_cancel(running, s.fin_timeout_key);
    lemma_after_cancel(r1, s.time_wait_key);
    lemma_after_one(r2, start(t, e, Delay::TenAckTimeouts));
    lemma_after_join(running, answer, first);
    lemma_after_join(running, answer + first, second);
    lemma_after_join(running, answer + first + second, begin);
}

/// A connection without messages knows no timer.
pub proof fn law_no_timer_runs_at_first(l: LoopView)
    requires
        l.reader is None,
        l.sender is None,
        l.keep_alive_key is None,
    ensures
        tracks(l, Map::empty()),
{
}

/// A message on its way is never forgotten: a timer runs until the message is done.
pub proof fn law_a_timer_runs_until_the_end(l: LoopView, running: Map<TimerId, Expired>)
    requires
        l.wf(),
        l.sender is Some,
        tracks(l, running),
    ensures
        exists|id: TimerId| #[trigger]
            running.contains_key(id) && running[id] != Expired::FinOk && running[id]
                != Expired::KeepAlive,
{
    let s = l.sender.unwrap();
    let e = if s.init_timeout_key is Some {
        Expired::Init
    } else if s.fin_timeout_key is Some {
        Expired::Fin
    } else if s.time_wait_key is Some {
        Expired::TimeWaitToClose
    } else {
        let q = choose|q: u32| s.timeout_keys.contains_key(q);
        assert(exists|q: u32| s.timeout_keys.contains_key(q)) by {
            assert(!s.timeout_keys.is_empty());
            if forall|q: u32| !s.timeout_keys.contains_key(q) {
                assert(s.timeout_keys =~= Map::empty());
            }
        }
        Expired::Ack(SeqNum(q))
    };
    assert(held(l, e) is Some);
    assert(running.contains_key(held(l, e).unwrap()));
}

/// A timer that runs can run out.
pub proof fn law_running_timers_are_admitted(
    l: LoopView,
    running: Map<TimerId, Expired>,
    id: TimerId,
)
    requires
        timers_left(l.next_timer),
        tracks(l, running),
        running.contains_key(id),
    ensures
        l.admits(signal_of_timer(running[id])),
{
    assert(held(l, running[id]) == Some(id));
}

} // verus!
