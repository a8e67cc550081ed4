//! How many ticks a delay lasts.

use vstd::arithmetic::power2::{
    lemma2_to64,
    lemma2_to64_rest,
    lemma_pow2_adds,
    lemma_pow2_pos,
    lemma_pow2_unfold,
    pow2,
};
use vstd::prelude::*;
use crate::number::{
    floor_log2,
    is_finite,
    is_negative,
    is_zero,
    lemma_log2_unique,
    lemma_pow2_127,
    lemma_pow2_monotonic,
    power,
    scale,
    significand,
};
use crate::value::Number;

verus! {

/// How often `p` is doubled until it reaches `q`.
pub open spec fn doublings(p: nat, q: nat) -> nat
    decreases
            if q > p {
                q - p
            } else {
                0
            },
{
    if p == 0 || p >= q {
        0
    } else {
        1 + doublings(2 * p, q)
    }
}

/// The exponent of a quotient: the largest power of two that it reaches.
pub open spec fn quotient_exponent(p: nat, q: nat) -> int {
    if p >= q {
        floor_log2(p / q) as int
    } else {
        -(doublings(p, q) as int)
    }
}

/// The integer nearest to a quotient; of two equally near ones, the even one.
pub open spec fn nearest_integer(n: nat, d: nat) -> nat {
    let below = n / d;
    let rest = n % d;
    if 2 * rest > d || (2 * rest == d && below % 2 == 1) {
        below + 1
    } else {
        below
    }
}

/// The significand of the binary64 number nearest to a quotient.
pub open spec fn quotient_significand(p: nat, q: nat) -> nat {
    nearest_integer(p * pow2((52 - quotient_exponent(p, q)) as nat), q)
}

/// The integral part of the binary64 number nearest to `p * 2^shift / q`.
pub open spec fn whole_quotient(p: nat, q: nat, shift: int) -> nat {
    let exponent = quotient_exponent(p, q) + shift;
    if exponent >= 52 {
        quotient_significand(p, q) * pow2((exponent - 52) as nat)
    } else {
        quotient_significand(p, q) / pow2((52 - exponent) as nat)
    }
}

/// Whether a number is finite and above zero.
pub open spec fn is_positive(number: Number) -> bool {
    is_finite(number) && !is_negative(number) && !is_zero(number)
}

/// How long a tick lasts: what the world says, or one tenth of a second.
pub open spec fn usable_lag(lag: Option<Number>) -> Number {
    match lag {
        Some(lag) if is_positive(lag) => lag,
        _ => Number { bits: 0x3f80_0000 },
    }
}

/// How many ticks a delay lasts. A delay that is above zero lasts one at least.
pub open spec fn delay_in_ticks(delay: Number, lag: Option<Number>) -> u64 {
    if !is_positive(delay) {
        0
    } else {
        let tick = usable_lag(lag);
        let ticks = whole_quotient(
            significand(delay),
            significand(tick),
            scale(delay) - scale(tick),
        );
        if ticks < 1 {
            1
        } else if ticks > u64::MAX {
            u64::MAX
        } else {
            ticks as u64
        }
    }
}

fn positive(number: Number) -> (positive: bool)
    ensures
        positive == is_positive(number),
{
    number.finite() && number.bits < 0x8000_0000 && number.bits != 0
}

proof fn lemma_doublings(p: nat, q: nat, done: nat)
    requires
        0 < p,
        p * pow2(done) < q,
    ensures
        doublings(p, q) == done + 1 + doublings(p * pow2(done + 1), q),
    decreases done,
{
    lemma_pow2_unfold(done + 1);
    lemma_pow2_pos(done);
    assert(p * pow2(done + 1) == 2 * (p * pow2(done))) by (nonlinear_arith)
        requires
            pow2(done + 1) == 2 * pow2(done),
    ;
    assert(p * pow2(done) > 0) by (nonlinear_arith)
        requires
            p > 0,
            pow2(done) > 0,
    ;
    lemma2_to64();
    if done > 0 {
        lemma_pow2_unfold(done);
        let before = (done - 1) as nat;
        lemma_pow2_pos(before);
        assert(p * pow2(before) < q) by (nonlinear_arith)
            requires
                p * pow2(done) < q,
                pow2(done) == 2 * pow2(before),
                p > 0,
                pow2(before) > 0,
        ;
        lemma_doublings(p, q, before);
    } else {
        assert(p * pow2(0) == p) by (nonlinear_arith)
            requires
                pow2(0) == 1,
        ;
    }
}

/// The exponent of a quotient of two positive integers below 2^24.
fn exponent_of(p: u64, q: u64) -> (exponent: i32)
    requires
        0 < p < 0x100_0000,
        0 < q < 0x100_0000,
    ensures
        exponent == quotient_exponent(p as nat, q as nat),
        -24 <= exponent <= 24,
        p * pow2((52 - exponent) as nat) < q * pow2(53),
{
    proof {
        lemma2_to64();
    }
    if p >= q {
        let whole: u64 = p / q;
        let mut top: i32 = 0;
        let mut reach: u64 = 2;
        assert(whole >= 1) by (nonlinear_arith)
            requires
                p >= q,
                q > 0,
                whole == p / q,
        ;
        assert(whole <= p) by (nonlinear_arith)
            requires
                q > 0,
                whole == p / q,
        ;
        while reach <= whole
            invariant
                0 <= top < 24,
                reach == pow2((top + 1) as nat),
                pow2(top as nat) <= whole,
                whole < 0x100_0000,
            decreases 24 - top,
        {
            proof {
                lemma2_to64();
                lemma_pow2_unfold((top + 2) as nat);
                if top >= 23 {
                    assert(pow2(24) == 0x100_0000);
                }
            }
            reach = reach * 2;
            top = top + 1;
        }
        proof {
            lemma_log2_unique(whole as nat, top as nat);
            lemma_pow2_adds((52 - top) as nat, (top + 1) as nat);
            let below = pow2((top + 1) as nat);
            let rest = pow2((52 - top) as nat);
            lemma_pow2_pos((52 - top) as nat);
            assert(p < q * below) by (nonlinear_arith)
                requires
                    whole == p / q,
                    whole + 1 <= below,
                    q > 0,
            ;
            assert(p * rest < q * (rest * below)) by (nonlinear_arith)
                requires
                    p < q * below,
                    rest > 0,
            ;
        }
        top
    } else {
        let mut times: i32 = 0;
        let mut grown: u64 = p;
        assert(p * pow2(0) == p) by (nonlinear_arith)
            requires
                pow2(0) == 1,
        ;
        while grown < q
            invariant
                0 <= times <= 24,
                0 < p < q < 0x100_0000,
                grown == p * pow2(times as nat),
                grown >= pow2(times as nat),
                doublings(p as nat, q as nat) == times + doublings(grown as nat, q as nat),
                times > 0 ==> p * pow2((times - 1) as nat) < q,
                times == 0 ==> grown < q,
            decreases 24 - times,
        {
            proof {
                lemma2_to64();
                lemma_doublings(p as nat, q as nat, times as nat);
                lemma_pow2_unfold((times + 1) as nat);
                if times >= 24 {
                    assert(pow2(24) == 0x100_0000);
                    lemma_pow2_monotonic(24, times as nat);
                }
                assert(p * pow2((times + 1) as nat) == 2 * grown) by (nonlinear_arith)
                    requires
                        grown == p * pow2(times as nat),
                        pow2((times + 1) as nat) == 2 * pow2(times as nat),
                ;
            }
            grown = grown * 2;
            times = times + 1;
        }
        proof {
            lemma2_to64_rest();
            lemma_pow2_adds((times - 1) as nat, 53);
            let half = pow2((times - 1) as nat);
            assert(p * pow2((52 + times) as nat) < q * pow2(53)) by (nonlinear_arith)
                requires
                    p * half < q,
                    pow2((52 + times) as nat) == half * pow2(53),
                    pow2(53) > 0,
            ;
        }
        -times
    }
}

/// Computes the integral part of a quotient in binary64, as far as it can be
/// held.
fn divide(p: u64, q: u64, shift: i32) -> (ticks: u64)
    requires
        0 < p < 0x100_0000,
        0 < q < 0x100_0000,
        -300 <= shift <= 300,
    ensures
        ticks == if whole_quotient(p as nat, q as nat, shift as int) > u64::MAX {
            u64::MAX as nat
        } else {
            whole_quotient(p as nat, q as nat, shift as int)
        },
{
    let own: i32 = exponent_of(p, q);
    let lift: u32 = (52 - own) as u32;
    let factor: u128 = power(lift);
    proof {
        lemma2_to64();
        lemma2_to64_rest();
        lemma_pow2_monotonic(lift as nat, 104);
        lemma_pow2_monotonic(28, lift as nat);
        lemma_pow2_127();
        assert(pow2(28) == 0x1000_0000);
        assert(p as u128 * factor < q * pow2(53));
        assert(q * pow2(53) < 0x100_0000 * pow2(53)) by (nonlinear_arith)
            requires
                q < 0x100_0000,
                pow2(53) > 0,
        ;
        assert(p * factor >= factor) by (nonlinear_arith)
            requires
                p >= 1,
        ;
    }
    let lifted: u128 = p as u128 * factor;
    let below: u128 = lifted / (q as u128);
    let rest: u128 = lifted % (q as u128);
    let up: bool = 2 * rest > q as u128 || (2 * rest == q as u128 && below % 2 == 1);
    proof {
        assert(below < pow2(53)) by (nonlinear_arith)
            requires
                below == lifted / (q as u128),
                lifted < q * pow2(53),
                q > 0,
        ;
        assert(below >= 1) by (nonlinear_arith)
            requires
                below == lifted / (q as u128),
                lifted >= q,
                q > 0,
        ;
    }
    let significand: u128 = if up {
        below + 1
    } else {
        below
    };
    assert(significand == quotient_significand(p as nat, q as nat));
    let exponent: i32 = own + shift;
    if exponent >= 52 {
        let more: u32 = (exponent - 52) as u32;
        if more >= 64 {
            proof {
                lemma_pow2_monotonic(64, more as nat);
                assert(significand * pow2(more as nat) > u64::MAX) by (nonlinear_arith)
                    requires
                        significand >= 1,
                        pow2(more as nat) >= pow2(64),
                        pow2(64) > u64::MAX,
                ;
            }
            return u64::MAX;
        }
        let scaled: u128 = power(more);
        proof {
            lemma_pow2_monotonic(more as nat, 64);
            assert(significand * scaled <= 0x20_0000_0000_0000 * 0x1_0000_0000_0000_0000)
                by (nonlinear_arith)
                requires
                    significand <= 0x20_0000_0000_0000,
                    scaled <= 0x1_0000_0000_0000_0000,
            ;
        }
        let whole: u128 = significand * scaled;
        if whole > u64::MAX as u128 {
            u64::MAX
        } else {
            whole as u64
        }
    } else {
        let fewer: u32 = (52 - exponent) as u32;
        if fewer >= 64 {
            proof {
                lemma_pow2_monotonic(64, fewer as nat);
                assert(significand as nat / pow2(fewer as nat) == 0) by (nonlinear_arith)
                    requires
                        significand < pow2(fewer as nat),
                ;
            }
            return 0;
        }
        let scaled: u128 = power(fewer);
        proof {
            lemma_pow2_pos(fewer as nat);
            assert(significand / scaled <= significand) by (nonlinear_arith)
                requires
                    scaled > 0,
            ;
        }
        (significand / scaled) as u64
    }
}

/// Computes how many ticks a delay lasts.
pub fn delay_ticks(delay: Number, lag: Option<Number>) -> (ticks: u64)
    ensures
        ticks == delay_in_ticks(delay, lag),
{
    if !positive(delay) {
        return 0;
    }
    let tick = match lag {
        Some(lag) => if positive(lag) {
            lag
        } else {
            Number { bits: 0x3f80_0000 }
        },
        None => Number { bits: 0x3f80_0000 },
    };
    assert(is_positive(tick));
    let (p, high) = parts(delay);
    let (q, low) = parts(tick);
    let ticks: u64 = divide(p, q, high - low);
    if ticks < 1 {
        1
    } else {
        ticks
    }
}

/// The significand and the scale of a positive number.
fn parts(number: Number) -> (parts: (u64, i32))
    requires
        is_positive(number),
    ensures
        parts.0 == significand(number),
        parts.1 == scale(number),
        0 < parts.0 < 0x100_0000,
        -149 <= parts.1 <= 104,
{
    let exponent: u32 = (number.bits / 0x80_0000) % 0x100;
    let fraction: u32 = number.bits % 0x80_0000;
    if exponent == 0 {
        (fraction as u64, -149)
    } else {
        (fraction as u64 + 0x80_0000, exponent as i32 - 150)
    }
}

/// A delay above zero never ends in the tick in which it began.
pub proof fn lemma_delays_wait(delay: Number, lag: Option<Number>)
    ensures
        is_positive(delay) <==> delay_in_ticks(delay, lag) >= 1,
{
}

} // verus!
