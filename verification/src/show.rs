//! How packets are shown: without the data that they carry.

use vstd::prelude::*;
use vstd::string::StringExecFns;

use crate::packet::{SendPacket, SendPacketView};
use crate::text::text_of;

verus! {

/// The decimal digit of a number below ten.
pub open spec fn digit(d: nat) -> Seq<char> {
    if d == 0 {
        "0"@
    } else if d == 1 {
        "1"@
    } else if d == 2 {
        "2"@
    } else if d == 3 {
        "3"@
    } else if d == 4 {
        "4"@
    } else if d == 5 {
        "5"@
    } else if d == 6 {
        "6"@
    } else if d == 7 {
        "7"@
    } else if d == 8 {
        "8"@
    } else {
        "9"@
    }
}

/// The decimal digits of a number.
pub open spec fn decimal(n: nat) -> Seq<char>
    decreases n,
{
    if n < 10 {
        digit(n)
    } else {
        decimal(n / 10) + digit(n % 10)
    }
}

/// The number that decimal digits write.
pub open spec fn number_of(digits: Seq<char>) -> int
    decreases digits.len(),
{
    if digits.len() == 0 {
        0
    } else {
        number_of(digits.drop_last()) * 10 + (digits.last() as int - 48)
    }
}

/// Whether a character is a decimal digit.
pub open spec fn is_digit(c: char) -> bool {
    48 <= c as int <= 57
}

/// The digit of a number below ten is one character.
proof fn lemma_digit(d: nat)
    requires
        d < 10,
    ensures
        digit(d).len() == 1,
        digit(d)[0] as int == 48 + d,
{
    reveal_strlit("0");
    reveal_strlit("1");
    reveal_strlit("2");
    reveal_strlit("3");
    reveal_strlit("4");
    reveal_strlit("5");
    reveal_strlit("6");
    reveal_strlit("7");
    reveal_strlit("8");
    reveal_strlit("9");
}

/// The digits of a number are digits, write that number, and start with no zero, but for zero
/// itself.
pub proof fn law_decimal(n: nat)
    ensures
        number_of(decimal(n)) == n,
        decimal(n).len() > 0,
        forall|i: int| 0 <= i < decimal(n).len() ==> is_digit(#[trigger] decimal(n)[i]),
        n > 0 ==> decimal(n)[0] != '0',
        n == 0 ==> decimal(n).len() == 1,
    decreases n,
{
    lemma_digit(n % 10);
    let last = digit(n % 10);
    assert(number_of(Seq::empty()) == 0);
    if n < 10 {
        assert(n % 10 == n);
        assert(last.drop_last() =~= Seq::empty());
    } else {
        law_decimal(n / 10);
        assert(decimal(n).drop_last() =~= decimal(n / 10));
        assert(decimal(n).last() == last[0]);
        assert forall|i: int| 0 <= i < decimal(n).len() implies is_digit(
            #[trigger] decimal(n)[i],
        ) by {
            if i < decimal(n / 10).len() {
                assert(decimal(n)[i] == decimal(n / 10)[i]);
            }
        }
        assert(decimal(n)[0] == decimal(n / 10)[0]);
    }
}

/// A number can be told from its digits, whatever comes behind them, if it is no digit.
proof fn lemma_number_can_be_told(m: nat, n: nat, x: Seq<char>, y: Seq<char>)
    requires
        x.len() > 0,
        y.len() > 0,
        !is_digit(x[0]),
        !is_digit(y[0]),
        decimal(m) + x == decimal(n) + y,
    ensures
        m == n,
        x == y,
{
    law_decimal(m);
    law_decimal(n);
    let (a, b) = (decimal(m), decimal(n));
    let both = a + x;
    if a.len() < b.len() {
        assert(both[a.len() as int] == x[0]);
        assert(both[a.len() as int] == b[a.len() as int]);
    } else if b.len() < a.len() {
        assert(both[b.len() as int] == y[0]);
        assert(both[b.len() as int] == a[b.len() as int]);
    }
    assert(a =~= both.take(a.len() as int));
    assert(b =~= both.take(a.len() as int));
    assert(x =~= both.skip(a.len() as int));
    assert(y =~= both.skip(a.len() as int));
}

/// A text in quotes, its special characters escaped: what the standard library shows of it for
/// debugging.
pub uninterp spec fn quoted_text(text: Seq<char>) -> Seq<char>;

/// A name, if there is one, in quotes.
pub open spec fn shown_name(quoted: Option<Seq<char>>) -> Seq<char> {
    match quoted {
        Some(q) => "Some("@ + q + ")"@,
        None => "None"@,
    }
}

/// What is shown of an announcement whose name in quotes is `quoted`.
pub open spec fn shown_init(
    payload_size: u16,
    transfer: u32,
    quoted: Option<Seq<char>>,
) -> Seq<char> {
    "SendPacket::Init { payload_size: "@ + decimal(payload_size as nat) + ", transfer: "@ + decimal(
        transfer as nat,
    ) + ", name: "@ + shown_name(quoted) + " }"@
}

/// What is shown of a packet: of data, their number alone.
pub open spec fn shown(p: SendPacketView) -> Seq<char> {
    match p {
        SendPacketView::Init { payload_size, transfer, name } => shown_init(
            payload_size,
            transfer,
            match name {
                Some(n) => Some(quoted_text(n)),
                None => None,
            },
        ),
        SendPacketView::Data { seq_num, data } => "SendPacket::Data { seq_num: SeqNum("@ + decimal(
            seq_num.0 as nat,
        ) + "), data.len: "@ + decimal(data.len()) + " }"@,
        SendPacketView::Fin => "SendPacket::Fin"@,
        SendPacketView::FinOkOk => "SendPacket::FinOkOk"@,
    }
}

/// Two numbers can be told from a text that holds their digits, and so can what comes behind.
proof fn lemma_numbers_can_be_told(
    head: Seq<char>,
    middle: Seq<char>,
    m: (nat, nat),
    n: (nat, nat),
    x: Seq<char>,
    y: Seq<char>,
)
    requires
        middle.len() > 0,
        x.len() > 0,
        y.len() > 0,
        !is_digit(middle[0]),
        !is_digit(x[0]),
        !is_digit(y[0]),
        head + decimal(m.0) + middle + decimal(m.1) + x == head + decimal(n.0) + middle + decimal(
            n.1,
        ) + y,
    ensures
        m == n,
        x == y,
{
    let a = head + decimal(m.0) + middle + decimal(m.1) + x;
    let b = head + decimal(n.0) + middle + decimal(n.1) + y;
    let (a_rest, b_rest) = (middle + decimal(m.1) + x, middle + decimal(n.1) + y);
    let (k, l) = (head.len() as int, middle.len() as int);
    assert(a.skip(k) =~= decimal(m.0) + a_rest);
    assert(b.skip(k) =~= decimal(n.0) + b_rest);
    lemma_number_can_be_told(m.0, n.0, a_rest, b_rest);
    assert(a_rest.skip(l) =~= decimal(m.1) + x);
    assert(b_rest.skip(l) =~= decimal(n.1) + y);
    lemma_number_can_be_told(m.1, n.1, x, y);
}

/// `Data` packets are shown alike if, and only if, they have the same number and carry as many
/// bytes.
pub proof fn law_what_is_shown_of_data(p: SendPacketView, q: SendPacketView)
    requires
        p is Data,
        q is Data,
    ensures
        shown(p) == shown(q) <==> p->seq_num == q->seq_num && p->data.len() == q->data.len(),
{
    if shown(p) == shown(q) {
        assert("), data.len: "@.len() > 0 && !is_digit("), data.len: "@[0])) by {
            reveal_strlit("), data.len: ");
        }
        assert(" }"@.len() > 0 && !is_digit(" }"@[0])) by {
            reveal_strlit(" }");
        }
        lemma_numbers_can_be_told(
            "SendPacket::Data { seq_num: SeqNum("@,
            "), data.len: "@,
            (p->seq_num.0 as nat, p->data.len()),
            (q->seq_num.0 as nat, q->data.len()),
            " }"@,
            " }"@,
        );
    }
}

/// Announcements are shown alike if, and only if, they tell the same payload size, the same
/// size and, by what is shown of it, the same name.
pub proof fn law_what_is_shown_of_announcements(
    a: (u16, u32, Option<Seq<char>>),
    b: (u16, u32, Option<Seq<char>>),
)
    ensures
        shown_init(a.0, a.1, a.2) == shown_init(b.0, b.1, b.2) <==> {
            &&& a.0 == b.0
            &&& a.1 == b.1
            &&& shown_name(a.2) == shown_name(b.2)
        },
{
    let (third, tail) = (", name: "@, " }"@);
    let (x, y) = (shown_name(a.2), shown_name(b.2));
    let (a_rest, b_rest) = (third + x + tail, third + y + tail);
    let head = "SendPacket::Init { payload_size: "@;
    let second = ", transfer: "@;
    if shown_init(a.0, a.1, a.2) == shown_init(b.0, b.1, b.2) {
        assert(second.len() > 0 && !is_digit(second[0])) by {
            reveal_strlit(", transfer: ");
        }
        assert(third.len() > 0 && !is_digit(third[0])) by {
            reveal_strlit(", name: ");
        }
        let m = (a.0 as nat, a.1 as nat);
        let n = (b.0 as nat, b.1 as nat);
        assert(shown_init(a.0, a.1, a.2) =~= head + decimal(m.0) + second + decimal(m.1) + a_rest);
        assert(shown_init(b.0, b.1, b.2) =~= head + decimal(n.0) + second + decimal(n.1) + b_rest);
        lemma_numbers_can_be_told(head, second, m, n, a_rest, b_rest);
        let t = third.len() as int;
        assert(x =~= a_rest.subrange(t, a_rest.len() - tail.len()));
        assert(y =~= b_rest.subrange(t, b_rest.len() - tail.len()));
    }
}

/// Without a name, no name is shown; a name is shown as it is in quotes.
pub proof fn law_what_is_shown_of_names(a: Seq<char>, b: Seq<char>)
    ensures
        shown_name(Some(a)) == shown_name(Some(b)) <==> a == b,
        shown_name(Some(a)) != shown_name(None),
{
    reveal_strlit("Some(");
    reveal_strlit(")");
    reveal_strlit("None");
    let (x, y) = (shown_name(Some(a)), shown_name(Some(b)));
    if x == y {
        assert(a =~= x.subrange(5, x.len() - 1));
        assert(b =~= y.subrange(5, y.len() - 1));
    }
    assert(x[0] == 'S');
    assert(shown_name(None)[0] == 'N');
}

/// Formats a text with `{:?}`, that is by its `core::fmt::Debug`, whose result depends on the
/// text alone. How it escapes is left unsaid.
#[verifier::external_body]
pub(crate) fn quote(text: &str) -> (q: String)
    ensures
        q@ == quoted_text(text@),
{
    format!("{:?}", text)
}

/// Puts the decimal digits of a number behind a text.
pub fn push_decimal(out: &mut String, n: u64)
    ensures
        final(out)@ == old(out)@ + decimal(n as nat),
    decreases n,
{
    if n >= 10 {
        push_decimal(out, n / 10);
    }
    let d: u64 = n % 10;
    let text = match d {
        0 => "0",
        1 => "1",
        2 => "2",
        3 => "3",
        4 => "4",
        5 => "5",
        6 => "6",
        7 => "7",
        8 => "8",
        _ => "9",
    };
    out.append(text);
    assert(out@ =~= old(out)@ + decimal(n as nat));
}

/// Shows an announcement whose name in quotes is `quoted`.
pub fn show_init(payload_size: u16, transfer: u32, quoted: Option<&str>) -> (s: String)
    ensures
        s@ == shown_init(payload_size, transfer, text_of(quoted)),
{
    let mut s = String::new();
    s.append("SendPacket::Init { payload_size: ");
    push_decimal(&mut s, payload_size as u64);
    s.append(", transfer: ");
    push_decimal(&mut s, transfer as u64);
    s.append(", name: ");
    match quoted {
        Some(q) => {
            s.append("Some(");
            s.append(q);
            s.append(")");
        },
        None => {
            s.append("None");
        },
    }
    s.append(" }");
    assert(s@ =~= shown_init(payload_size, transfer, text_of(quoted)));
    s
}

impl<'a> SendPacket<'a> {
    /// Shows the packet; of the data that it carries, only their number.
    pub fn debug_text(&self) -> (s: String)
        ensures
            s@ == shown(self@),
    {
        match *self {
            SendPacket::Init { payload_size, transfer, name } => match name {
                Some(n) => {
                    let quoted: String = quote(n);
                    show_init(payload_size, transfer, Some(quoted.as_str()))
                },
                None => show_init(payload_size, transfer, None),
            },
            SendPacket::Data { seq_num, data } => {
                let mut s = String::new();
                s.append("SendPacket::Data { seq_num: SeqNum(");
                push_decimal(&mut s, seq_num.0 as u64);
                s.append("), data.len: ");
                push_decimal(&mut s, data.len() as u64);
                s.append(" }");
                assert(s@ =~= shown(self@));
                s
            },
            SendPacket::Fin => "SendPacket::Fin".to_owned(),
            SendPacket::FinOkOk => "SendPacket::FinOkOk".to_owned(),
        }
    }
}

} // verus!
