//! Integer operations and order of numbers: the low 24 bits that bit operators
//! see, and comparisons.

use vstd::arithmetic::power2::pow2;
use vstd::prelude::*;
use crate::number::{
    fraction_bits,
    is_finite,
    is_negative,
    lemma_integer_round_trip,
    nearest_bits,
    truncated,
    truncated_magnitude,
};
use crate::program::{CompoundListIndexOperator, NativeOperation};
use crate::value::Number;

verus! {

/// One more than the largest value that bit operators see.
pub const DM_BIT_RANGE: u32 = 0x100_0000;

/// Whether a number is not a number at all.
pub open spec fn is_nan(number: Number) -> bool {
    !is_finite(number) && fraction_bits(number) != 0
}

/// The place of a number in the order of all numbers.
pub open spec fn ordinal(number: Number) -> int {
    if is_negative(number) {
        -(number.bits - 0x8000_0000)
    } else {
        number.bits as int
    }
}

/// Whether a number is less than another one.
pub open spec fn number_less(a: Number, b: Number) -> bool {
    !is_nan(a) && !is_nan(b) && ordinal(a) < ordinal(b)
}

/// Whether two numbers are equal.
pub open spec fn number_equal(a: Number, b: Number) -> bool {
    !is_nan(a) && !is_nan(b) && ordinal(a) == ordinal(b)
}

/// What a conversion to a 64-bit integer leaves of a number.
pub open spec fn saturated_i64(number: Number) -> int {
    if is_nan(number) {
        0
    } else if !is_finite(number) {
        if is_negative(number) {
            i64::MIN as int
        } else {
            i64::MAX as int
        }
    } else if truncated(number) < i64::MIN {
        i64::MIN as int
    } else if truncated(number) > i64::MAX {
        i64::MAX as int
    } else {
        truncated(number)
    }
}

/// The low 24 bits of a number.
pub open spec fn low_bits(number: Number) -> int {
    saturated_i64(number) % 0x100_0000
}

/// The number for a small natural number.
pub open spec fn natural_number(n: nat) -> Number {
    Number { bits: nearest_bits(n) as u32 }
}

/// How far a shift goes.
pub open spec fn shift_count(number: Number) -> nat {
    if is_nan(number) || is_negative(number) {
        0
    } else if !is_finite(number) {
        24
    } else {
        truncated_magnitude(number)
    }
}

/// The bit operators on two numbers.
#[derive(Clone, Copy, PartialEq, Eq, Structural, Debug)]
pub enum BitOperation {
    And,
    Or,
    Xor,
}

/// A bit operator on integers.
pub open spec fn bit_operation(operation: BitOperation, left: u32, right: u32) -> u32 {
    match operation {
        BitOperation::And => left & right,
        BitOperation::Or => left | right,
        BitOperation::Xor => left ^ right,
    }
}

impl Number {
    fn nan(self) -> (nan: bool)
        ensures
            nan == is_nan(self),
    {
        !self.finite() && self.bits % 0x80_0000 != 0
    }

    /// The place of a number in the order of all numbers.
    pub fn order(self) -> (place: i64)
        ensures
            place == ordinal(self),
    {
        if self.bits >= 0x8000_0000 {
            -((self.bits - 0x8000_0000) as i64)
        } else {
            self.bits as i64
        }
    }

    /// Whether a number is less than another one.
    pub fn less_than(self, other: Number) -> (less: bool)
        ensures
            less == number_less(self, other),
    {
        !self.nan() && !other.nan() && self.order() < other.order()
    }

    /// Whether two numbers are equal.
    pub fn equals(self, other: Number) -> (equal: bool)
        ensures
            equal == number_equal(self, other),
    {
        !self.nan() && !other.nan() && self.order() == other.order()
    }

    /// The low 24 bits of a number.
    pub fn dm_u24(self) -> (bits: u32)
        ensures
            bits == low_bits(self),
            bits < DM_BIT_RANGE,
    {
        if !self.finite() {
            if self.nan() {
                return 0;
            }
            return if self.bits >= 0x8000_0000 {
                0
            } else {
                0xff_ffff
            };
        }
        let magnitude: u128 = self.magnitude();
        if self.bits >= 0x8000_0000 {
            if magnitude >= 0x8000_0000_0000_0000 {
                return 0;
            }
            let rest: u128 = magnitude % 0x100_0000;
            proof {
                vstd::arithmetic::div_mod::lemma_fundamental_div_mod(
                    magnitude as int,
                    0x100_0000,
                );
                vstd::arithmetic::div_mod::lemma_fundamental_div_mod(
                    -(magnitude as int),
                    0x100_0000,
                );
                lemma_negative_rest(magnitude as int);
            }
            if rest == 0 {
                0
            } else {
                (0x100_0000 - rest) as u32
            }
        } else {
            if magnitude > 0x7fff_ffff_ffff_ffff {
                return 0xff_ffff;
            }
            (magnitude % 0x100_0000) as u32
        }
    }

    fn shift_distance(self) -> (count: u32)
        ensures
            count == if shift_count(self) >= 24 {
                24
            } else {
                shift_count(self)
            },
    {
        if self.nan() || self.bits >= 0x8000_0000 {
            return 0;
        }
        if !self.finite() {
            return 24;
        }
        let magnitude: u128 = self.magnitude();
        if magnitude >= 24 {
            24
        } else {
            magnitude as u32
        }
    }
}

proof fn lemma_negative_rest(m: int)
    requires
        m >= 0,
    ensures
        (-m) % 0x100_0000 == if m % 0x100_0000 == 0 {
            0
        } else {
            0x100_0000 - m % 0x100_0000
        },
{
    let d = 0x100_0000int;
    vstd::arithmetic::div_mod::lemma_fundamental_div_mod(m, d);
    let q = m / d;
    let r = m % d;
    if r == 0 {
        assert(-m == d * (-q) + 0);
        vstd::arithmetic::div_mod::lemma_fundamental_div_mod_converse(-m, d, -q, 0);
    } else {
        assert(-m == d * (-q - 1) + (d - r)) by (nonlinear_arith)
            requires
                m == d * q + r,
        ;
        vstd::arithmetic::div_mod::lemma_fundamental_div_mod_converse(-m, d, -q - 1, d - r);
    }
}

fn natural(n: u32) -> (number: Number)
    ensures
        number == natural_number(n as nat),
{
    Number::from_u64(n as u64)
}

/// A bit operator on two numbers.
pub fn bitwise_binary(left: Number, right: Number, operation: BitOperation) -> (result: Number)
    ensures
        result == natural_number(
            bit_operation(operation, low_bits(left) as u32, low_bits(right) as u32) as nat,
        ),
{
    let a: u32 = left.dm_u24();
    let b: u32 = right.dm_u24();
    match operation {
        BitOperation::And => natural(a & b),
        BitOperation::Or => natural(a | b),
        BitOperation::Xor => natural(a ^ b),
    }
}

/// The complement of the low 24 bits.
pub fn bitwise_not(value: Number) -> (result: Number)
    ensures
        result == natural_number((0xff_ffff - low_bits(value)) as nat),
{
    natural(0xff_ffff - value.dm_u24())
}

/// A shift within the low 24 bits.
pub open spec fn shifted(value: int, count: nat, left: bool) -> nat {
    if count >= 24 {
        0
    } else if left {
        ((value * pow2(count)) % 0x100_0000) as nat
    } else {
        (value / pow2(count) as int) as nat
    }
}

/// Shifts the low 24 bits of a number.
pub fn bitwise_shift(value: Number, distance: Number, left: bool) -> (result: Number)
    ensures
        result == natural_number(shifted(low_bits(value), shift_count(distance), left)),
{
    let count: u32 = distance.shift_distance();
    if count >= 24 {
        return natural(0);
    }
    let factor: u128 = crate::number::power(count);
    let bits: u32 = value.dm_u24();
    proof {
        crate::number::lemma_pow2_small(count as nat);
        assert(bits * factor <= 0x100_0000 * 0x100_0000) by (nonlinear_arith)
            requires
                0 <= bits <= 0x100_0000,
                0 <= factor <= 0x100_0000,
        ;
        assert(0 <= bits as int / factor as int <= bits) by (nonlinear_arith)
            requires
                factor >= 1,
                bits >= 0,
        ;
    }
    if left {
        natural(((bits as u128 * factor) % 0x100_0000) as u32)
    } else {
        natural((bits as u128 / factor) as u32)
    }
}

/// The result of a numeric operator that integers or order decide. Arithmetic is
/// left to the host.
pub open spec fn integer_result(operation: NativeOperation, left: Number, right: Number) -> Option<
    Number,
> {
    match operation {
        NativeOperation::BitAnd => Some(
            natural_number(
                bit_operation(
                    BitOperation::And,
                    low_bits(left) as u32,
                    low_bits(right) as u32,
                ) as nat,
            ),
        ),
        NativeOperation::BitOr => Some(
            natural_number(
                bit_operation(
                    BitOperation::Or,
                    low_bits(left) as u32,
                    low_bits(right) as u32,
                ) as nat,
            ),
        ),
        NativeOperation::BitXor => Some(
            natural_number(
                bit_operation(
                    BitOperation::Xor,
                    low_bits(left) as u32,
                    low_bits(right) as u32,
                ) as nat,
            ),
        ),
        NativeOperation::ShiftLeft => Some(
            natural_number(shifted(low_bits(left), shift_count(right), true)),
        ),
        NativeOperation::ShiftRight => Some(
            natural_number(shifted(low_bits(left), shift_count(right), false)),
        ),
        NativeOperation::Less => Some(flag_number(number_less(left, right))),
        NativeOperation::LessEqual => Some(
            flag_number(number_less(left, right) || number_equal(left, right)),
        ),
        NativeOperation::Greater => Some(flag_number(number_less(right, left))),
        NativeOperation::GreaterEqual => Some(
            flag_number(number_less(right, left) || number_equal(left, right)),
        ),
        _ => None,
    }
}

/// One or zero.
pub open spec fn flag_number(flag: bool) -> Number {
    Number {
        bits: if flag {
            0x3f80_0000
        } else {
            0
        },
    }
}

fn flag(truth: bool) -> (number: Number)
    ensures
        number == flag_number(truth),
{
    if truth {
        Number { bits: 0x3f80_0000 }
    } else {
        Number { bits: 0 }
    }
}

/// Computes a numeric operator that integers or order decide.
pub fn execute_numeric_binary(operation: NativeOperation, left: Number, right: Number) -> (result:
    Option<Number>)
    ensures
        result == integer_result(operation, left, right),
{
    match operation {
        NativeOperation::BitAnd => Some(bitwise_binary(left, right, BitOperation::And)),
        NativeOperation::BitOr => Some(bitwise_binary(left, right, BitOperation::Or)),
        NativeOperation::BitXor => Some(bitwise_binary(left, right, BitOperation::Xor)),
        NativeOperation::ShiftLeft => Some(bitwise_shift(left, right, true)),
        NativeOperation::ShiftRight => Some(bitwise_shift(left, right, false)),
        NativeOperation::Less => Some(flag(left.less_than(right))),
        NativeOperation::LessEqual => Some(flag(left.less_than(right) || left.equals(right))),
        NativeOperation::Greater => Some(flag(right.less_than(left))),
        NativeOperation::GreaterEqual => Some(flag(right.less_than(left) || left.equals(right))),
        _ => None,
    }
}

/// The operator behind a compound list assignment.
pub open spec fn compound_operation(operator: CompoundListIndexOperator) -> NativeOperation {
    match operator {
        CompoundListIndexOperator::Add => NativeOperation::Add,
        CompoundListIndexOperator::Subtract => NativeOperation::Subtract,
        CompoundListIndexOperator::Multiply => NativeOperation::Multiply,
        CompoundListIndexOperator::Divide => NativeOperation::Divide,
        CompoundListIndexOperator::Remainder => NativeOperation::Remainder,
        CompoundListIndexOperator::FractionalRemainder => NativeOperation::FractionalRemainder,
        CompoundListIndexOperator::BitAnd => NativeOperation::BitAnd,
        CompoundListIndexOperator::BitOr => NativeOperation::BitOr,
        CompoundListIndexOperator::BitXor => NativeOperation::BitXor,
        CompoundListIndexOperator::ShiftLeft => NativeOperation::ShiftLeft,
        CompoundListIndexOperator::ShiftRight => NativeOperation::ShiftRight,
    }
}

/// Computes a compound list assignment that integers decide.
pub fn execute_compound_list_index_operation(
    operator: CompoundListIndexOperator,
    left: Number,
    right: Number,
) -> (result: Option<Number>)
    ensures
        result == integer_result(compound_operation(operator), left, right),
{
    let operation = match operator {
        CompoundListIndexOperator::Add => NativeOperation::Add,
        CompoundListIndexOperator::Subtract => NativeOperation::Subtract,
        CompoundListIndexOperator::Multiply => NativeOperation::Multiply,
        CompoundListIndexOperator::Divide => NativeOperation::Divide,
        CompoundListIndexOperator::Remainder => NativeOperation::Remainder,
        CompoundListIndexOperator::FractionalRemainder => NativeOperation::FractionalRemainder,
        CompoundListIndexOperator::BitAnd => NativeOperation::BitAnd,
        CompoundListIndexOperator::BitOr => NativeOperation::BitOr,
        CompoundListIndexOperator::BitXor => NativeOperation::BitXor,
        CompoundListIndexOperator::ShiftLeft => NativeOperation::ShiftLeft,
        CompoundListIndexOperator::ShiftRight => NativeOperation::ShiftRight,
    };
    execute_numeric_binary(operation, left, right)
}

/// Bit operators see the whole of every natural number below their range.
pub proof fn lemma_low_bits_of_natural(n: nat)
    requires
        n < 0x100_0000,
    ensures
        low_bits(natural_number(n)) == n,
{
    crate::number::lemma_nearest_small(n);
    let number = natural_number(n);
    assert(number.bits == nearest_bits(n));
    lemma_integer_round_trip(n, number);
    vstd::arithmetic::div_mod::lemma_small_mod(n, 0x100_0000);
}

/// Complementing twice gives the low bits back.
pub proof fn lemma_complement_twice(value: Number)
    ensures
        0xff_ffff - low_bits(natural_number((0xff_ffff - low_bits(value)) as nat)) == low_bits(
            value,
        ),
{
    lemma_low_bits_of_natural((0xff_ffff - low_bits(value)) as nat);
}

} // verus!
