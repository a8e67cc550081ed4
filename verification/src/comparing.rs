//! What comparisons and bit operators say of the values behind their numbers.

use vstd::arithmetic::power2::{lemma2_to64, lemma_pow2_adds, lemma_pow2_pos, pow2};
use vstd::prelude::*;
use crate::bitwise::{
    integer_result, is_nan, lemma_low_bits_of_natural, low_bits, natural_number, ordinal,
};
use crate::dispatch::{Reply, Stage};
use crate::fault::Fault;
use crate::frame::FrameView;
use crate::natives::native_executed;
use crate::number::{
    floor_log2, is_integral, is_negative, lemma_integer_round_trip, lemma_pow2_monotonic,
    nearest_bits, scale, significand, truncated, truncated_magnitude,
};
use crate::program::{Module, NativeOperation};
use crate::state::ExecutionState;
use crate::value::{Number, Value};

verus! {

/// The value of a number, counted in the smallest positive number; an infinite one
/// counts more than any finite one.
pub open spec fn units(number: Number) -> int {
    let magnitude = significand(number) * pow2((scale(number) + 149) as nat);
    if is_negative(number) {
        -(magnitude as int)
    } else {
        magnitude as int
    }
}

/// Whether the bits spell no number: all exponent bits are set and some fraction bit is.
pub open spec fn spells_no_number(number: Number) -> bool {
    number.bits % 0x8000_0000 > 0x7f80_0000
}

/// One where something holds, zero where it does not.
pub open spec fn one_if(holds: bool) -> Number {
    natural_number(
        if holds {
            1
        } else {
            0
        },
    )
}

proof fn lemma_nan_bits(number: Number)
    ensures
        is_nan(number) == spells_no_number(number),
{
    let bits = number.bits as int;
    let rest = bits % 0x8000_0000;
    assert(bits / 0x80_0000 % 0x100 == rest / 0x80_0000);
    assert(bits % 0x80_0000 == rest % 0x80_0000);
}

spec fn positive_units(bits: int) -> int {
    let exponent = bits / 0x80_0000;
    let fraction = bits % 0x80_0000;
    if exponent == 0 {
        fraction
    } else {
        (fraction + 0x80_0000) * pow2((exponent - 1) as nat)
    }
}

proof fn lemma_units_by_bits(number: Number)
    requires
        !spells_no_number(number),
    ensures
        units(number) == if is_negative(number) {
            -positive_units(number.bits - 0x8000_0000)
        } else {
            positive_units(number.bits as int)
        },
{
    lemma2_to64();
    let bits = number.bits as int;
    let rest = if is_negative(number) {
        bits - 0x8000_0000
    } else {
        bits
    };
    assert(bits / 0x80_0000 % 0x100 == rest / 0x80_0000);
    assert(bits % 0x80_0000 == rest % 0x80_0000);
    if rest / 0x80_0000 == 0 {
        assert(scale(number) + 149 == 0);
        assert(significand(number) * pow2(0) == significand(number)) by (nonlinear_arith)
            requires
                pow2(0) == 1,
        ;
    } else {
        assert(scale(number) + 149 == rest / 0x80_0000 - 1);
    }
}

proof fn lemma_units_grow(a: int, b: int)
    requires
        0 <= a < b <= 0x7f80_0000,
    ensures
        0 <= positive_units(a) < positive_units(b),
{
    let e = a / 0x80_0000;
    let f = a % 0x80_0000;
    let g = b / 0x80_0000;
    let h = b % 0x80_0000;
    lemma2_to64();
    if e == g {
        assert(f < h);
        if e > 0 {
            let unit = pow2((e - 1) as nat) as int;
            lemma_pow2_pos((e - 1) as nat);
            assert(0 <= (f + 0x80_0000) * unit < (h + 0x80_0000) * unit) by (nonlinear_arith)
                requires
                    0 <= f < h,
                    unit > 0,
            ;
        }
    } else {
        assert(e < g);
        let upper = pow2((g - 1) as nat) as int;
        lemma_pow2_pos((g - 1) as nat);
        assert((h + 0x80_0000) * upper >= 0x80_0000 * upper) by (nonlinear_arith)
            requires
                h >= 0,
                upper > 0,
        ;
        if e == 0 {
            assert(0x80_0000 * upper >= 0x80_0000) by (nonlinear_arith)
                requires
                    upper > 0,
            ;
        } else {
            let lower = pow2((e - 1) as nat) as int;
            lemma_pow2_pos((e - 1) as nat);
            lemma_pow2_monotonic(e as nat, (g - 1) as nat);
            vstd::arithmetic::power2::lemma_pow2_unfold(e as nat);
            assert(2 * lower <= upper);
            assert(0 <= (f + 0x80_0000) * lower < 0x100_0000 * lower) by (nonlinear_arith)
                requires
                    0 <= f < 0x80_0000,
                    lower > 0,
            ;
            assert(0x100_0000 * lower <= 0x80_0000 * upper) by (nonlinear_arith)
                requires
                    2 * lower <= upper,
            ;
        }
    }
}

pub(crate) proof fn lemma_order_is_that_of_units(a: Number, b: Number)
    requires
        !spells_no_number(a),
        !spells_no_number(b),
    ensures
        ordinal(a) < ordinal(b) <==> units(a) < units(b),
        ordinal(a) == ordinal(b) <==> units(a) == units(b),
{
    lemma_units_by_bits(a);
    lemma_units_by_bits(b);
    let m = if is_negative(a) {
        a.bits - 0x8000_0000
    } else {
        a.bits as int
    };
    let n = if is_negative(b) {
        b.bits - 0x8000_0000
    } else {
        b.bits as int
    };
    assert(positive_units(0) == 0);
    if m < n {
        lemma_units_grow(m, n);
    }
    if n < m {
        lemma_units_grow(n, m);
    }
    if m > 0 {
        lemma_units_grow(0, m);
    }
    if n > 0 {
        lemma_units_grow(0, n);
    }
}

pub(crate) proof fn lemma_one_and_zero()
    ensures
        natural_number(1) == (Number { bits: 0x3f80_0000 }),
        natural_number(0) == (Number { bits: 0 }),
{
    lemma2_to64();
    assert(floor_log2(1) == 0);
    assert(nearest_bits(1) == 126 * 0x80_0000 + 1 * pow2(23));
}

/// A comparison of two numbers answers one where their values stand in its relation, and
/// zero where they do not.
pub proof fn lemma_comparisons_follow_values(a: Number, b: Number)
    requires
        !spells_no_number(a),
        !spells_no_number(b),
    ensures
        integer_result(NativeOperation::Less, a, b) == Some(one_if(units(a) < units(b))),
        integer_result(NativeOperation::LessEqual, a, b) == Some(one_if(units(a) <= units(b))),
        integer_result(NativeOperation::Greater, a, b) == Some(one_if(units(a) > units(b))),
        integer_result(NativeOperation::GreaterEqual, a, b) == Some(one_if(units(a) >= units(b))),
{
    lemma_nan_bits(a);
    lemma_nan_bits(b);
    lemma_order_is_that_of_units(a, b);
    lemma_order_is_that_of_units(b, a);
    lemma_one_and_zero();
}

/// What is no number stands in no relation to anything.
pub proof fn lemma_no_number_compares(a: Number, b: Number)
    requires
        spells_no_number(a) || spells_no_number(b),
    ensures
        integer_result(NativeOperation::Less, a, b) == Some(natural_number(0)),
        integer_result(NativeOperation::LessEqual, a, b) == Some(natural_number(0)),
        integer_result(NativeOperation::Greater, a, b) == Some(natural_number(0)),
        integer_result(NativeOperation::GreaterEqual, a, b) == Some(natural_number(0)),
{
    lemma_nan_bits(a);
    lemma_nan_bits(b);
    lemma_one_and_zero();
}

/// Only the two zeros have the value zero.
pub(crate) proof fn lemma_zero_units(number: Number)
    requires
        !spells_no_number(number),
    ensures
        units(number) == 0 <==> number.bits == 0 || number.bits == 0x8000_0000,
{
    lemma_order_is_that_of_units(number, Number { bits: 0 });
    lemma_units_by_bits(Number { bits: 0 });
}

/// The negative of a number has the opposite value.
pub proof fn lemma_negation_turns_values(number: Number)
    requires
        !spells_no_number(number),
    ensures
        units(crate::builtins::negated(number)) == -units(number),
{
    lemma_units_by_bits(number);
    lemma_units_by_bits(crate::builtins::negated(number));
}

/// `-` and `~` work on the topmost operand: the one turns its value, the other each of its 24
/// bits.
pub proof fn lemma_unary_on_the_stack(
    before: ExecutionState,
    module: Module,
    frame: FrameView,
    operation: NativeOperation,
    reply: Option<Reply>,
    after: ExecutionState,
    after_frame: FrameView,
    stage: Stage,
    below: Seq<Value>,
    number: Number,
    place: u32,
)
    requires
        frame.stack == below.push(Value::Number(number)),
        !spells_no_number(number),
        operation is Negate || operation is BitNot,
        place < 24,
        native_executed(before, module, frame, operation, 1, reply, after, after_frame, stage),
    ensures
        stage == Stage::Done(Ok::<(), Fault>(())),
        after == before,
        after_frame.stack.len() == below.len() + 1,
        after_frame.stack.drop_last() == below,
        after_frame.stack.last() matches Value::Number(result) && match operation {
            NativeOperation::Negate => units(result) == -units(number),
            _ => bit(low_bits(result), place) == !bit(low_bits(number), place),
        },
{
    let operands = crate::literals::top_operands(frame, 1);
    assert(operands[0] == Value::Number(number));
    assert(frame.dropping(1).stack =~= below);
    assert(after_frame.stack.drop_last() =~= below);
    lemma_negation_turns_values(number);
    let low = low_bits(number) as u32;
    lemma_low_bits_of_natural((0xff_ffff - low_bits(number)) as nat);
    let turned: u32 = (0xff_ffff - low) as u32;
    assert(((turned >> place) & 1u32 == 1u32) == !((low >> place) & 1u32 == 1u32)) by (bit_vector)
        requires
            place < 24,
            low < 0x100_0000,
            turned == 0xff_ffff - low,
    ;
}

/// A whole number counts as many units as its integer says.
pub proof fn lemma_whole_units(number: Number)
    requires
        is_integral(number),
    ensures
        units(number) == truncated(number) * pow2(149),
{
    let whole = significand(number);
    let power = scale(number);
    let magnitude = truncated_magnitude(number);
    if power >= 0 {
        lemma_pow2_adds(power as nat, 149);
        assert(whole * pow2((power + 149) as nat) == magnitude * pow2(149)) by (nonlinear_arith)
            requires
                magnitude == whole * pow2(power as nat),
                pow2((power + 149) as nat) == pow2(power as nat) * pow2(149),
        ;
    } else {
        let down = pow2((-power) as nat) as int;
        lemma_pow2_pos((-power) as nat);
        lemma_pow2_adds((-power) as nat, (power + 149) as nat);
        vstd::arithmetic::div_mod::lemma_fundamental_div_mod(whole as int, down);
        assert(whole * pow2((power + 149) as nat) == magnitude * pow2(149)) by (nonlinear_arith)
            requires
                whole == down * magnitude,
                pow2(149) == down * pow2((power + 149) as nat),
        ;
    }
    assert(-(magnitude * pow2(149)) == (-(magnitude as int)) * pow2(149)) by (nonlinear_arith);
}

/// Whole numbers are compared as the integers they stand for, and at most one of less and
/// greater holds.
pub proof fn lemma_whole_numbers_compare(a: Number, b: Number)
    requires
        is_integral(a),
        is_integral(b),
    ensures
        integer_result(NativeOperation::Less, a, b) == Some(one_if(truncated(a) < truncated(b))),
        integer_result(NativeOperation::Greater, a, b) == Some(one_if(truncated(a) > truncated(b))),
        integer_result(NativeOperation::LessEqual, a, b) == Some(
            one_if(truncated(a) <= truncated(b)),
        ),
        integer_result(NativeOperation::GreaterEqual, a, b) == Some(
            one_if(truncated(a) >= truncated(b)),
        ),
        !(integer_result(NativeOperation::Less, a, b) == Some(natural_number(1))
            && integer_result(NativeOperation::Greater, a, b) == Some(natural_number(1))),
{
    lemma_nan_bits(a);
    lemma_nan_bits(b);
    lemma_comparisons_follow_values(a, b);
    lemma_whole_units(a);
    lemma_whole_units(b);
    lemma_one_and_zero();
    lemma_pow2_pos(149);
    let x = truncated(a);
    let y = truncated(b);
    let unit = pow2(149) as int;
    assert((x < y) == (x * unit < y * unit)) by (nonlinear_arith)
        requires
            unit > 0,
    ;
    assert((y < x) == (y * unit < x * unit)) by (nonlinear_arith)
        requires
            unit > 0,
    ;
}

/// Small natural numbers are compared as such.
pub proof fn lemma_naturals_compare(m: nat, n: nat)
    requires
        m <= 0x100_0000,
        n <= 0x100_0000,
    ensures
        integer_result(NativeOperation::Less, natural_number(m), natural_number(n)) == Some(
            one_if(m < n),
        ),
        integer_result(NativeOperation::Greater, natural_number(m), natural_number(n)) == Some(
            one_if(m > n),
        ),
        integer_result(NativeOperation::LessEqual, natural_number(m), natural_number(n)) == Some(
            one_if(m <= n),
        ),
        integer_result(NativeOperation::GreaterEqual, natural_number(m), natural_number(n)) == Some(
            one_if(m >= n),
        ),
{
    crate::number::lemma_nearest_small(m);
    crate::number::lemma_nearest_small(n);
    lemma_integer_round_trip(m, natural_number(m));
    lemma_integer_round_trip(n, natural_number(n));
    lemma_whole_numbers_compare(natural_number(m), natural_number(n));
}

/// A comparison takes the operand below the topmost one as its left side and the topmost
/// one as its right side, and leaves its answer in their place.
pub proof fn lemma_comparison_on_the_stack(
    before: ExecutionState,
    module: Module,
    frame: FrameView,
    operation: NativeOperation,
    reply: Option<Reply>,
    after: ExecutionState,
    after_frame: FrameView,
    stage: Stage,
    below: Seq<Value>,
    left: Number,
    right: Number,
)
    requires
        frame.stack == below + seq![Value::Number(left), Value::Number(right)],
        frame.instruction < usize::MAX,
        !spells_no_number(left),
        !spells_no_number(right),
        operation is Less || operation is LessEqual || operation is Greater || operation
            is GreaterEqual,
        native_executed(before, module, frame, operation, 2, reply, after, after_frame, stage),
    ensures
        stage == Stage::Done(Ok::<(), Fault>(())),
        after == before,
        after_frame.instruction == frame.instruction + 1,
        after_frame.stack == below.push(
            Value::Number(
                one_if(
                    match operation {
                        NativeOperation::Less => units(left) < units(right),
                        NativeOperation::LessEqual => units(left) <= units(right),
                        NativeOperation::Greater => units(left) > units(right),
                        _ => units(left) >= units(right),
                    },
                ),
            ),
        ),
{
    lemma_comparisons_follow_values(left, right);
    let size = frame.stack.len();
    let operands = crate::literals::top_operands(frame, 2);
    assert(operands[0] == Value::Number(left));
    assert(operands[1] == Value::Number(right));
    assert(frame.dropping(2).stack =~= below);
}

/// Whether a bit of an integer is set.
pub open spec fn bit(value: int, place: u32) -> bool {
    ((value as u32) >> place) & 1u32 == 1u32
}

proof fn lemma_bits_stay_low(a: u32, b: u32)
    requires
        a < 0x100_0000,
        b < 0x100_0000,
    ensures
        a & b < 0x100_0000,
        a | b < 0x100_0000,
        a ^ b < 0x100_0000,
{
    assert(a & b < 0x100_0000 && a | b < 0x100_0000 && a ^ b < 0x100_0000) by (bit_vector)
        requires
            a < 0x100_0000,
            b < 0x100_0000,
    ;
}

/// Bit operators work on each of the 24 bits alone: a bit of the result is set where it is
/// set in both numbers, in either, or in exactly one.
pub proof fn lemma_bit_operators_by_bit(a: Number, b: Number, place: u32)
    requires
        place < 24,
    ensures
        integer_result(NativeOperation::BitAnd, a, b) is Some,
        integer_result(NativeOperation::BitOr, a, b) is Some,
        integer_result(NativeOperation::BitXor, a, b) is Some,
        bit(low_bits(integer_result(NativeOperation::BitAnd, a, b)->0), place) == (bit(
            low_bits(a),
            place,
        ) && bit(low_bits(b), place)),
        bit(low_bits(integer_result(NativeOperation::BitOr, a, b)->0), place) == (bit(
            low_bits(a),
            place,
        ) || bit(low_bits(b), place)),
        bit(low_bits(integer_result(NativeOperation::BitXor, a, b)->0), place) == (bit(
            low_bits(a),
            place,
        ) != bit(low_bits(b), place)),
{
    let x = low_bits(a) as u32;
    let y = low_bits(b) as u32;
    lemma_bits_stay_low(x, y);
    lemma_low_bits_of_natural((x & y) as nat);
    lemma_low_bits_of_natural((x | y) as nat);
    lemma_low_bits_of_natural((x ^ y) as nat);
    assert((((x & y) >> place) & 1u32 == 1u32) == ((x >> place) & 1u32 == 1u32 && (y >> place)
        & 1u32 == 1u32)) by (bit_vector)
        requires
            place < 24,
    ;
    assert((((x | y) >> place) & 1u32 == 1u32) == ((x >> place) & 1u32 == 1u32 || (y >> place)
        & 1u32 == 1u32)) by (bit_vector)
        requires
            place < 24,
    ;
    assert((((x ^ y) >> place) & 1u32 == 1u32) == (((x >> place) & 1u32 == 1u32) != ((y >> place)
        & 1u32 == 1u32))) by (bit_vector)
        requires
            place < 24,
    ;
}

/// A shift to the left multiplies and one to the right divides by a power of two, as long
/// as the result fits.
pub proof fn lemma_shifts_scale(n: nat, count: nat)
    requires
        n < 0x100_0000,
        count < 24,
    ensures
        n * pow2(count) < 0x100_0000 ==> integer_result(
            NativeOperation::ShiftLeft,
            natural_number(n),
            natural_number(count),
        ) == Some(natural_number(n * pow2(count))),
        integer_result(NativeOperation::ShiftRight, natural_number(n), natural_number(count))
            == Some(natural_number(n / pow2(count))),
{
    lemma_low_bits_of_natural(n);
    crate::number::lemma_nearest_small(count);
    lemma_integer_round_trip(count, natural_number(count));
    lemma_nan_bits(natural_number(count));
    assert(!is_negative(natural_number(count)));
    lemma_pow2_pos(count);
    assert(0 <= n * pow2(count)) by (nonlinear_arith);
    assert(0 <= n as int / pow2(count) as int) by (nonlinear_arith)
        requires
            pow2(count) > 0,
            n >= 0,
    ;
    if n * pow2(count) < 0x100_0000 {
        vstd::arithmetic::div_mod::lemma_small_mod(n * pow2(count), 0x100_0000);
    }
}

} // verus!
