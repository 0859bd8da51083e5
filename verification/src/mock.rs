//! A network within one process that loses packets: which it loses, and how it holds them.

use rand::rngs::StdRng;
use vstd::prelude::*;

use crate::wire::{splice, write_bytes};
use crate::MSS;

verus! {

/// The first port of the network.
pub const MIN_PORT: u16 = 10200;

/// The last port of the network.
pub const MAX_PORT: u16 = 10700;

/// The number of ports of the network.
pub const PORTS: usize = 501;

/// The generator that decides what is lost; nothing is known of what it holds.
#[verifier::external_type_specification]
#[verifier::external_body]
pub struct ExStdRng(StdRng);

/// Calls `rand::RngCore::next_u32` on a `StdRng`. Which number comes is left unsaid: it is
/// meant to be random.
#[verifier::external_body]
pub(crate) fn get_random_u32(rng: &mut StdRng) -> (n: u32) {
    rand::RngCore::next_u32(rng)
}

/// The part of all packets that is lost, `num` out of `den`.
#[derive(Debug, Clone, Copy, PartialEq, Eq, Structural)]
pub struct Loss {
    pub num: u32,
    pub den: u32,
}

impl Loss {
    /// The number of `u32` values, the smallest first, that stand for a loss.
    pub open spec fn limit(self) -> int {
        u32::MAX / self.den * self.num
    }

    /// The number `random` stands for a loss.
    pub open spec fn stands_for_loss(self, random: u32) -> bool {
        random < self.limit()
    }

    /// The part is one, and the number of values that stand for a loss is a `u32`.
    pub open spec fn wf(self) -> bool {
        self.den > 0 && self.limit() <= u32::MAX
    }

    /// Whether the values can be numbered.
    pub fn is_wf(&self) -> (b: bool)
        ensures
            b == self.wf(),
    {
        if self.den == 0 {
            return false;
        }
        let share: u32 = u32::MAX / self.den;
        proof {
            lemma_product(share, self.num);
        }
        share as u64 * self.num as u64 <= u32::MAX as u64
    }

    /// Whether a packet is lost for which the number `random` was drawn.
    pub fn loses(&self, random: u32) -> (b: bool)
        requires
            self.wf(),
        ensures
            b == (random < self.limit()),
            b == self.stands_for_loss(random),
    {
        let share: u32 = u32::MAX / self.den;
        proof {
            lemma_product(share, self.num);
        }
        random < share * self.num
    }

    /// Draws whether a packet is lost. None is where no value stands for a loss.
    pub fn draw(&self, rng: &mut StdRng) -> (b: bool)
        requires
            self.wf(),
        ensures
            b ==> self.limit() > 0,
    {
        let random: u32 = get_random_u32(rng);
        self.loses(random)
    }
}

proof fn lemma_product(a: u32, b: u32)
    ensures
        0 <= a * b <= u32::MAX * u32::MAX,
{
    assert(0 <= a * b <= u32::MAX * u32::MAX) by (nonlinear_arith)
        requires
            0 <= a <= u32::MAX,
            0 <= b <= u32::MAX,
    ;
}

/// Nothing is lost when none out of any number is to be lost.
pub proof fn law_no_loss(loss: Loss, random: u32)
    requires
        loss.wf(),
        loss.num == 0,
    ensures
        loss.limit() == 0,
        !(random < loss.limit()),
{
    let share = u32::MAX / loss.den;
    assert(share * 0 == 0) by (nonlinear_arith);
}

/// Of as many equal shares of all numbers as the part has below its line, each as large as can
/// be, as many stand for a loss as it has above its line.
pub proof fn law_shares(loss: Loss, share: int, random: u32)
    requires
        loss.den > 0,
        share * loss.den <= 0xFFFF_FFFF < (share + 1) * loss.den,
    ensures
        loss.limit() == share * loss.num,
        loss.stands_for_loss(random) <==> random < share * loss.num,
{
    let d = loss.den as int;
    let q = 0xFFFF_FFFFint / d;
    vstd::arithmetic::div_mod::lemma_fundamental_div_mod(0xFFFF_FFFF, d);
    assert(q == share) by (nonlinear_arith)
        requires
            d > 0,
            0xFFFF_FFFFint == d * q + 0xFFFF_FFFFint % d,
            0 <= 0xFFFF_FFFFint % d < d,
            share * d <= 0xFFFF_FFFFint < (share + 1) * d,
    ;
}

/// A part can be lost if it is one and the numbers that stand for a loss are not too many.
pub proof fn law_which_parts_can_be_lost(loss: Loss)
    ensures
        loss.wf() <==> loss.den > 0 && loss.limit() <= 0xFFFF_FFFF,
{
}

/// The more is to be lost, the more numbers stand for a loss.
pub proof fn law_more_loss(a: Loss, b: Loss)
    requires
        a.den > 0,
        a.den == b.den,
        a.num <= b.num,
    ensures
        0 <= a.limit() <= b.limit(),
        a.num < b.num ==> a.limit() < b.limit(),
{
    let d = a.den as int;
    let share = u32::MAX as int / d;
    vstd::arithmetic::div_mod::lemma_fundamental_div_mod(u32::MAX as int, d);
    let (m, n) = (a.num as int, b.num as int);
    assert(share >= 1) by (nonlinear_arith)
        requires
            0 < d <= u32::MAX,
            u32::MAX as int == d * share + u32::MAX as int % d,
            0 <= u32::MAX as int % d < d,
    ;
    assert(0 <= share * m <= share * n && (m < n ==> share * m < share * n)) by (nonlinear_arith)
        requires
            share >= 1,
            0 <= m <= n,
    ;
}

/// What a datagram holds: as many bytes as it says, from the front.
pub proof fn law_content_of_datagram(d: Datagram, i: int)
    requires
        d.len <= 1472,
        0 <= i < d.len,
    ensures
        d.content().len() == d.len,
        d.content()[i] == d.bytes@[i],
{
}

/// Any part of all packets up to all of them can be lost.
pub proof fn law_parts_can_be_lost(loss: Loss)
    requires
        0 < loss.den,
        loss.num <= loss.den,
    ensures
        loss.wf(),
{
    let share = u32::MAX / loss.den;
    let d = loss.den;
    let n = loss.num;
    vstd::arithmetic::div_mod::lemma_fundamental_div_mod(u32::MAX as int, d as int);
    assert(share * n <= u32::MAX) by (nonlinear_arith)
        requires
            u32::MAX == d * share + u32::MAX as int % d as int,
            0 <= u32::MAX as int % d as int,
            0 <= n <= d,
            0 <= share,
    ;
}

/// Sets the part of all packets that is lost.
pub fn set_num_den(loss: &mut Loss, n: u32, d: u32)
    ensures
        *final(loss) == (Loss { num: n, den: d }),
{
    loss.num = n;
    loss.den = d;
}

/// The place of a port among those of the network.
pub fn port_index(port: u16) -> (i: usize)
    requires
        MIN_PORT <= port <= MAX_PORT,
    ensures
        i == port - MIN_PORT,
        i < PORTS,
        i + 10200 == port,
        i <= 500,
{
    (port - MIN_PORT) as usize
}

/// A datagram as the network holds it.
#[derive(Debug, Clone, Copy)]
pub struct Datagram {
    pub len: usize,
    pub bytes: [u8; MSS],
}

impl Datagram {
    /// The bytes that were sent.
    pub open spec fn content(self) -> Seq<u8> {
        self.bytes@.take(self.len as int)
    }

    /// Takes up the bytes that are sent.
    pub fn pack(buf: &[u8]) -> (d: Datagram)
        requires
            buf@.len() <= MSS,
        ensures
            d.len == buf@.len(),
            d.content() == buf@,
    {
        let mut bytes: [u8; MSS] = [0; MSS];
        let whole: &mut [u8] = &mut bytes;
        write_bytes(whole, 0, buf);
        let d = Datagram { len: buf.len(), bytes };
        assert(d.content() =~= buf@);
        d
    }

    /// Hands the bytes that were sent out to the front of `buf` and gives their number.
    pub fn unpack(&self, buf: &mut [u8]) -> (len: usize)
        requires
            self.len <= MSS,
            self.len <= old(buf)@.len(),
        ensures
            len == self.len,
            final(buf)@ == splice(old(buf)@, 0, self.content()),
    {
        let whole: &[u8] = &self.bytes;
        let sent = vstd::slice::slice_subrange(whole, 0, self.len);
        assert(sent@ =~= self.content());
        write_bytes(buf, 0, sent);
        self.len
    }
}

} // verus!
