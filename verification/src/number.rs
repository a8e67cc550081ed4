//! Binary32 numbers by their bit patterns: the integers they stand for.

use vstd::prelude::*;
use vstd::arithmetic::power2::{pow2, lemma_pow2_pos, lemma_pow2_unfold, lemma_pow2_adds, lemma2_to64};
use crate::value::Number;

verus! {

/// The sign bit.
pub open spec fn is_negative(number: Number) -> bool {
    number.bits >= 0x8000_0000
}

/// The biased exponent.
pub open spec fn exponent_bits(number: Number) -> nat {
    ((number.bits as nat) / 0x80_0000) % 0x100
}

/// The stored part of the significand.
pub open spec fn fraction_bits(number: Number) -> nat {
    (number.bits as nat) % 0x80_0000
}

/// Whether the number is neither infinite nor a NaN.
pub open spec fn is_finite(number: Number) -> bool {
    exponent_bits(number) != 0xff
}

/// Whether the number is positive or negative zero.
pub open spec fn is_zero(number: Number) -> bool {
    number.bits == 0 || number.bits == 0x8000_0000
}

/// The significand as an integer: a finite number is `significand * 2^scale`.
pub open spec fn significand(number: Number) -> nat {
    if exponent_bits(number) == 0 {
        fraction_bits(number)
    } else {
        fraction_bits(number) + 0x80_0000
    }
}

/// The power of two that scales the significand.
pub open spec fn scale(number: Number) -> int {
    if exponent_bits(number) == 0 {
        -149
    } else {
        exponent_bits(number) - 150
    }
}

/// The magnitude of the number cut to an integer.
pub open spec fn truncated_magnitude(number: Number) -> nat {
    if scale(number) >= 0 {
        significand(number) * pow2(scale(number) as nat)
    } else {
        significand(number) / pow2((-scale(number)) as nat)
    }
}

/// The list length that a number asks for: its integral part, zero where it is
/// negative or not finite.
pub open spec fn requested_length(number: Number) -> nat {
    if !is_finite(number) || is_negative(number) {
        0
    } else if truncated_magnitude(number) > usize::MAX {
        usize::MAX as nat
    } else {
        truncated_magnitude(number)
    }
}

/// Whether a finite number has no fractional part.
pub open spec fn is_integral(number: Number) -> bool {
    is_finite(number) && (scale(number) >= 0 || significand(number) % pow2(
        (-scale(number)) as nat,
    ) == 0)
}

/// The finite number cut to an integer, towards zero.
pub open spec fn truncated(number: Number) -> int {
    if is_negative(number) {
        -(truncated_magnitude(number) as int)
    } else {
        truncated_magnitude(number) as int
    }
}

/// An integer brought into the range of a 32-bit signed one.
pub open spec fn saturated_i32(value: int) -> int {
    if value < i32::MIN {
        i32::MIN as int
    } else if value > i32::MAX {
        i32::MAX as int
    } else {
        value
    }
}

/// The position of the highest set bit of a positive integer.
pub open spec fn floor_log2(n: nat) -> nat
    decreases n,
{
    if n < 2 {
        0
    } else {
        1 + floor_log2(n / 2)
    }
}

/// The bits of the binary32 number nearest to `n`; of two equally near ones,
/// the one with the even significand.
pub open spec fn nearest_bits(n: nat) -> nat {
    let top = floor_log2(n);
    if n == 0 {
        0
    } else if top <= 23 {
        ((top + 126) * 0x80_0000 + n * pow2((23 - top) as nat)) as nat
    } else {
        let unit = pow2((top - 23) as nat);
        let below = n / unit;
        let rest = n % unit;
        let up = 2 * rest > unit || (2 * rest == unit && below % 2 == 1);
        ((top + 126) * 0x80_0000 + below + if up {
            1nat
        } else {
            0
        }) as nat
    }
}

pub(crate) proof fn lemma_log2_bounds(n: nat)
    requires
        n > 0,
    ensures
        pow2(floor_log2(n)) <= n,
        n < pow2(floor_log2(n) + 1),
    decreases n,
{
    lemma2_to64();
    if n >= 2 {
        lemma_log2_bounds(n / 2);
        let half = floor_log2(n / 2);
        lemma_pow2_unfold(half + 1);
        lemma_pow2_unfold(half + 2);
    }
}

pub(crate) proof fn lemma_log2_unique(n: nat, e: nat)
    requires
        pow2(e) <= n,
        n < pow2(e + 1),
    ensures
        floor_log2(n) == e,
{
    lemma_pow2_pos(e);
    lemma_log2_bounds(n);
    let top = floor_log2(n);
    if top < e {
        lemma_pow2_monotonic(top + 1, e);
    } else if e < top {
        lemma_pow2_monotonic(e + 1, top);
    }
}

pub(crate) proof fn lemma_pow2_monotonic(a: nat, b: nat)
    requires
        a <= b,
    ensures
        pow2(a) <= pow2(b),
    decreases b,
{
    if a < b {
        lemma_pow2_unfold(b);
        lemma_pow2_monotonic(a, (b - 1) as nat);
        lemma_pow2_pos((b - 1) as nat);
    }
}

/// `2^exponent`, for exponents below 128.
pub(crate) fn power(exponent: u32) -> (result: u128)
    requires
        exponent < 128,
    ensures
        result == pow2(exponent as nat),
{
    let mut result: u128 = 1;
    let mut at: u32 = 0;
    proof {
        lemma2_to64();
    }
    while at < exponent
        invariant
            at <= exponent < 128,
            result == pow2(at as nat),
        decreases exponent - at,
    {
        proof {
            lemma_pow2_unfold((at + 1) as nat);
            lemma_pow2_monotonic((at + 1) as nat, 127);
            lemma_pow2_127();
        }
        result = result * 2;
        at += 1;
    }
    result
}

pub(crate) proof fn lemma_pow2_127()
    ensures
        pow2(127) == 0x8000_0000_0000_0000_0000_0000_0000_0000,
        pow2(104) == 0x1_0000_0000_0000_0000_0000_0000_00,
{
    lemma2_to64();
    lemma_pow2_adds(32, 32);
    lemma_pow2_adds(64, 32);
    lemma_pow2_adds(96, 31);
    lemma_pow2_adds(96, 8);
}

impl Number {
    /// Positive zero.
    pub fn zero() -> (number: Number)
        ensures
            number.bits == 0,
            is_zero(number),
    {
        Number { bits: 0 }
    }

    /// Whether the number is neither infinite nor a NaN.
    pub fn finite(self) -> (finite: bool)
        ensures
            finite == is_finite(self),
    {
        (self.bits / 0x80_0000) % 0x100 != 0xff
    }

    /// Whether the number is zero.
    pub fn zeroed(self) -> (zero: bool)
        ensures
            zero == is_zero(self),
    {
        self.bits == 0 || self.bits == 0x8000_0000
    }

    /// The integral part of a finite number, without its sign.
    pub fn magnitude(self) -> (magnitude: u128)
        requires
            is_finite(self),
        ensures
            magnitude == truncated_magnitude(self),
    {
        self.cut().0
    }

    /// The list length that a number asks for: its integral part, zero where it
    /// is negative or not finite.
    pub fn length(self) -> (length: usize)
        ensures
            length == requested_length(self),
    {
        if !self.finite() || self.bits >= 0x8000_0000 {
            return 0;
        }
        let magnitude: u128 = self.cut().0;
        if magnitude > usize::MAX as u128 {
            usize::MAX
        } else {
            magnitude as usize
        }
    }

    /// Cuts a finite number to an integer and tells whether anything was lost.
    fn cut(self) -> (cut: (u128, bool))
        requires
            is_finite(self),
        ensures
            cut.0 == truncated_magnitude(self),
            cut.1 == is_integral(self),
    {
        let exponent: u32 = (self.bits / 0x80_0000) % 0x100;
        let fraction: u32 = self.bits % 0x80_0000;
        let whole: u32 = if exponent == 0 {
            fraction
        } else {
            fraction + 0x80_0000
        };
        if exponent >= 150 {
            let factor: u128 = power(exponent - 150);
            proof {
                lemma_pow2_127();
                lemma_pow2_monotonic((exponent - 150) as nat, 104);
                assert(whole as u128 * factor <= 0xff_ffff * factor) by (nonlinear_arith)
                    requires
                        whole <= 0xff_ffff,
                ;
            }
            (whole as u128 * factor, true)
        } else {
            let down: u32 = if exponent == 0 {
                149
            } else {
                150 - exponent
            };
            if down >= 24 {
                proof {
                    lemma_pow2_monotonic(24, down as nat);
                    lemma2_to64();
                    vstd::arithmetic::div_mod::lemma_small_mod(
                        whole as nat,
                        pow2(down as nat),
                    );
                    vstd::arithmetic::div_mod::lemma_basic_div(
                        whole as int,
                        pow2(down as nat) as int,
                    );
                }
                (0, whole == 0)
            } else {
                let unit: u128 = power(down);
                proof {
                    lemma_pow2_pos(down as nat);
                }
                (whole as u128 / unit, whole as u128 % unit == 0)
            }
        }
    }

    /// The 32-bit integer a finite number without fractional part stands for,
    /// brought into range at both ends.
    pub fn integral_i32(self) -> (value: Option<i32>)
        ensures
            value == if is_integral(self) {
                Some(saturated_i32(truncated(self)) as i32)
            } else {
                None
            },
    {
        if !self.finite() {
            return None;
        }
        let (magnitude, exact) = self.cut();
        if !exact {
            return None;
        }
        Some(saturate(magnitude, self.bits >= 0x8000_0000))
    }

    /// The number cut to a 32-bit integer, brought into range at both ends; a
    /// NaN counts as zero.
    pub fn truncate_i32(self) -> (value: i32)
        ensures
            value as int == if is_finite(self) {
                saturated_i32(truncated(self))
            } else if fraction_bits(self) != 0 {
                0
            } else if is_negative(self) {
                i32::MIN as int
            } else {
                i32::MAX as int
            },
    {
        if !self.finite() {
            if self.bits % 0x80_0000 != 0 {
                return 0;
            }
            return if self.bits >= 0x8000_0000 {
                i32::MIN
            } else {
                i32::MAX
            };
        }
        let (magnitude, _) = self.cut();
        saturate(magnitude, self.bits >= 0x8000_0000)
    }

    /// The list position that a number denotes: a non-negative integer that a
    /// machine word holds.
    pub fn list_index(self) -> (index: Option<usize>)
        ensures
            index == if is_integral(self) && 0 <= truncated(self) <= usize::MAX {
                Some(truncated(self) as usize)
            } else {
                None
            },
    {
        if !self.finite() {
            return None;
        }
        let (magnitude, exact) = self.cut();
        if !exact || magnitude > usize::MAX as u128 || (self.bits >= 0x8000_0000 && magnitude != 0) {
            return None;
        }
        Some(magnitude as usize)
    }

    /// The number nearest to a magnitude.
    pub fn from_u64(magnitude: u64) -> (number: Number)
        ensures
            number.bits == nearest_bits(magnitude as nat),
            number.bits < 0x8000_0000,
    {
        if magnitude == 0 {
            return Number { bits: 0 };
        }
        let mut top: u32 = 0;
        let mut reach: u128 = 2;
        proof {
            lemma2_to64();
        }
        while reach <= magnitude as u128
            invariant
                top < 64,
                magnitude > 0,
                reach == pow2((top + 1) as nat),
                pow2(top as nat) <= magnitude,
            decreases 64 - top,
        {
            proof {
                lemma2_to64();
                lemma_pow2_unfold((top + 2) as nat);
                if top >= 63 {
                    lemma_pow2_monotonic(64, (top + 1) as nat);
                }
            }
            reach = reach * 2;
            top += 1;
        }
        proof {
            lemma_log2_unique(magnitude as nat, top as nat);
            lemma2_to64();
        }
        if top <= 23 {
            let factor: u128 = power(23 - top);
            proof {
                lemma_pow2_adds((top + 1) as nat, (23 - top) as nat);
                lemma_pow2_pos((23 - top) as nat);
                assert(magnitude * factor < pow2((top + 1) as nat) * pow2((23 - top) as nat))
                    by (nonlinear_arith)
                    requires
                        magnitude < pow2((top + 1) as nat),
                        factor == pow2((23 - top) as nat),
                        factor > 0,
                ;
            }
            let shifted: u128 = magnitude as u128 * factor;
            Number { bits: (top + 126) * 0x80_0000 + shifted as u32 }
        } else {
            let unit: u128 = power(top - 23);
            proof {
                lemma_pow2_pos((top - 23) as nat);
                lemma_pow2_adds((top - 23) as nat, 24);
                assert(magnitude as u128 / unit < 0x100_0000) by (nonlinear_arith)
                    requires
                        magnitude < pow2((top + 1) as nat),
                        pow2((top + 1) as nat) == unit * 0x100_0000,
                        unit > 0,
                ;
                lemma_pow2_monotonic((top - 23) as nat, 64);
            }
            let below: u128 = magnitude as u128 / unit;
            let rest: u128 = magnitude as u128 % unit;
            let up: bool = 2 * rest > unit || (2 * rest == unit && below % 2 == 1);
            let base: u32 = (top + 126) * 0x80_0000 + below as u32;
            Number { bits: if up {
                base + 1
            } else {
                base
            } }
        }
    }

    /// The number nearest to a 32-bit integer.
    pub fn from_i32(value: i32) -> (number: Number)
        ensures
            value >= 0 ==> number.bits == nearest_bits(value as nat),
            value < 0 ==> number.bits == 0x8000_0000 + nearest_bits((-value) as nat),
    {
        if value >= 0 {
            Number::from_u64(value as u64)
        } else {
            let magnitude: u64 = (-(value as i64)) as u64;
            let positive = Number::from_u64(magnitude);
            Number { bits: positive.bits + 0x8000_0000 }
        }
    }
}

fn saturate(magnitude: u128, negative: bool) -> (value: i32)
    ensures
        value == saturated_i32(
            if negative {
                -(magnitude as int)
            } else {
                magnitude as int
            },
        ),
{
    if negative {
        if magnitude >= 0x8000_0000 {
            i32::MIN
        } else {
            -(magnitude as i32)
        }
    } else if magnitude > 0x7fff_ffff {
        i32::MAX
    } else {
        magnitude as i32
    }
}

/// An integer of at most twenty-four bits survives the way into a number and
/// back.
pub proof fn lemma_integer_round_trip(n: nat, number: Number)
    requires
        n <= 0x100_0000,
        number.bits == nearest_bits(n),
    ensures
        is_integral(number),
        truncated(number) == n,
{
    lemma2_to64();
    if n == 0 {
        assert(exponent_bits(number) == 0);
        assert(fraction_bits(number) == 0);
        lemma_pow2_pos(149);
        vstd::arithmetic::div_mod::lemma_small_mod(0, pow2(149));
        vstd::arithmetic::div_mod::lemma_basic_div(0, pow2(149) as int);
    } else {
        lemma_log2_bounds(n);
        let top = floor_log2(n);
        if top >= 25 {
            lemma_pow2_monotonic(25, top);
        }
        if top <= 23 {
            let factor = pow2((23 - top) as nat);
            lemma_pow2_pos((23 - top) as nat);
            lemma_pow2_adds(top, (23 - top) as nat);
            lemma_pow2_adds(top + 1, (23 - top) as nat);
            assert(0x80_0000 <= n * factor < 0x100_0000) by (nonlinear_arith)
                requires
                    pow2(top) <= n < pow2(top + 1),
                    pow2(top) * factor == 0x80_0000,
                    pow2(top + 1) * factor == 0x100_0000,
                    factor > 0,
            ;
            assert(exponent_bits(number) == top + 127);
            assert(significand(number) == n * factor);
            assert(scale(number) == top - 23);
            if top == 23 {
                assert(n * factor * pow2(0) == n) by (nonlinear_arith)
                    requires
                        factor == 1,
                        pow2(0) == 1,
                ;
            } else {
                vstd::arithmetic::div_mod::lemma_mod_multiples_basic(n as int, factor as int);
                vstd::arithmetic::div_mod::lemma_div_multiples_vanish(n as int, factor as int);
                assert(factor * n == n * factor) by (nonlinear_arith);
            }
        } else {
            assert(n == 0x100_0000);
            assert(top == 24);
            assert(n / pow2(1) == 0x80_0000);
            assert(n % pow2(1) == 0);
            assert(exponent_bits(number) == 151);
            assert(significand(number) == 0x80_0000);
            assert(significand(number) * pow2(1) == 0x100_0000) by (nonlinear_arith)
                requires
                    significand(number) == 0x80_0000,
                    pow2(1) == 2,
            ;
        }
    }
}

/// Small powers of two.
pub(crate) proof fn lemma_pow2_small(exponent: nat)
    requires
        exponent < 24,
    ensures
        1 <= pow2(exponent) <= 0x100_0000,
{
    lemma2_to64();
    lemma_pow2_monotonic(exponent, 24);
    lemma_pow2_monotonic(0, exponent);
}

/// The bits of a small natural number fit into a positive number.
pub(crate) proof fn lemma_nearest_small(n: nat)
    requires
        n <= 0x100_0000,
    ensures
        nearest_bits(n) < 0x8000_0000,
{
    if n > 0 {
        lemma_log2_bounds(n);
        lemma2_to64();
        if floor_log2(n) >= 25 {
            lemma_pow2_monotonic(25, floor_log2(n));
        }
        let top = floor_log2(n);
        if top <= 23 {
            vstd::arithmetic::power2::lemma_pow2_adds(top + 1, (23 - top) as nat);
            assert(n * pow2((23 - top) as nat) <= pow2(top + 1) * pow2((23 - top) as nat))
                by (nonlinear_arith)
                requires
                    n <= pow2(top + 1),
            ;
        } else {
            let unit = pow2((top - 23) as nat);
            lemma_pow2_monotonic(0, (top - 23) as nat);
            assert(n / unit <= n) by (nonlinear_arith)
                requires
                    unit >= 1,
            ;
        }
    }
}

} // verus!
