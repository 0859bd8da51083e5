//! What a measured transfer tells.

use vstd::prelude::*;

verus! {

/// Megabits per second of a transfer of `size` bytes that took `millis` milliseconds, counting
/// whole kilobytes only.
pub fn speed(size: usize, millis: u64) -> (s: u64)
    requires
        millis > 0,
    ensures
        s == size / 1000 * 8 / (millis as int),
        s * millis <= size / 1000 * 8 < (s + 1) * millis,
{
    let bits: u64 = size as u64 / 1000 * 8;
    let s: u64 = bits / millis;
    proof {
        lemma_quotient(bits as int, millis as int);
    }
    s
}

/// A quotient, rounded down.
proof fn lemma_quotient(x: int, d: int)
    requires
        d > 0,
    ensures
        x / d * d <= x < (x / d + 1) * d,
{
    vstd::arithmetic::div_mod::lemma_fundamental_div_mod(x, d);
    let q = x / d;
    assert(q * d <= x < (q + 1) * d) by (nonlinear_arith)
        requires
            x == d * q + x % d,
            0 <= x % d < d,
    ;
}

/// The sum of all numbers.
pub open spec fn sum(numbers: Seq<u64>) -> int
    decreases numbers.len(),
{
    if numbers.len() == 0 {
        0
    } else {
        sum(numbers.drop_last()) + numbers.last()
    }
}

/// No numbers sum up to zero, one number to itself, and two rows of numbers to the two sums.
pub proof fn law_sum(x: u64, a: Seq<u64>, b: Seq<u64>)
    ensures
        sum(Seq::empty()) == 0,
        sum(seq![x]) == x,
        sum(a + b) == sum(a) + sum(b),
    decreases b.len(),
{
    assert(seq![x].drop_last() =~= Seq::empty());
    if b.len() == 0 {
        assert(a + b =~= a);
    } else {
        law_sum(x, a, b.drop_last());
        assert((a + b).drop_last() =~= a + b.drop_last());
    }
}

/// Numbers that come first sum up to no more than all.
proof fn lemma_sum_grows(numbers: Seq<u64>, n: int)
    requires
        0 <= n <= numbers.len(),
    ensures
        0 <= sum(numbers.take(n)) <= sum(numbers),
    decreases numbers.len(),
{
    if n < numbers.len() {
        lemma_sum_grows(numbers.drop_last(), n);
        assert(numbers.drop_last().take(n) =~= numbers.take(n));
    } else {
        assert(numbers.take(n) =~= numbers);
        if n > 0 {
            lemma_sum_grows(numbers.drop_last(), n - 1);
        }
    }
}

/// The mean of the numbers, rounded down; there is none of no numbers, or of numbers whose sum
/// is out of range.
pub fn average(numbers: &[u64]) -> (r: Option<u64>)
    ensures
        r == (if numbers@.len() == 0 || sum(numbers@) > u64::MAX {
            None
        } else {
            Some((sum(numbers@) / numbers@.len() as int) as u64)
        }),
        r is Some <==> numbers@.len() > 0 && sum(numbers@) <= 0xFFFF_FFFF_FFFF_FFFF,
        r matches Some(m) ==> m * numbers@.len() <= sum(numbers@) < (m + 1) * numbers@.len(),
{
    let n: usize = numbers.len();
    if n == 0 {
        return None;
    }
    let mut total: u64 = 0;
    let mut i: usize = 0;
    while i < n
        invariant
            i <= n,
            n == numbers@.len(),
            total == sum(numbers@.take(i as int)),
        decreases n - i,
    {
        proof {
            let next = numbers@.take(i + 1);
            assert(next.drop_last() =~= numbers@.take(i as int));
            assert(next.last() == numbers@[i as int]);
            lemma_sum_grows(numbers@, i + 1);
        }
        match total.checked_add(numbers[i]) {
            Some(t) => {
                total = t;
            },
            None => {
                return None;
            },
        }
        i = i + 1;
    }
    assert(numbers@.take(n as int) =~= numbers@);
    proof {
        lemma_quotient(total as int, n as int);
    }
    Some(total / n as u64)
}

} // verus!
