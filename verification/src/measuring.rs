//! How numbers are cut and rounded, and what new regular expressions hold.

use vstd::prelude::*;
use vstd::arithmetic::power2::{lemma2_to64, lemma_pow2_adds, lemma_pow2_pos, pow2};
use crate::comparing::units;
use crate::making::{regex_of, replacement_of};
use crate::heap::DatumView;
use crate::names::EngineNames;
use crate::number::{exponent_bits, floor_log2, fraction_bits, is_finite, is_integral, is_negative,
    lemma_log2_bounds, nearest_bits, requested_length, scale, significand, truncated,
    truncated_magnitude};
use crate::value::{DatumId, Number, Value};

verus! {

/// A number is cut towards zero: what is cut off is less than one and has the number's sign.
pub proof fn lemma_cut_is_towards_zero(number: Number)
    requires
        is_finite(number),
    ensures
        is_negative(number) ==> -pow2(149) < units(number) - truncated(number) * pow2(149) <= 0,
        !is_negative(number) ==> 0 <= units(number) - truncated(number) * pow2(149) < pow2(149),
        is_integral(number) ==> units(number) == truncated(number) * pow2(149),
{
    let whole = significand(number);
    let power = scale(number);
    let magnitude = truncated_magnitude(number);
    lemma_pow2_pos(149);
    if power >= 0 {
        lemma_pow2_adds(power as nat, 149);
        assert(whole * pow2((power + 149) as nat) == magnitude * pow2(149)) by (nonlinear_arith)
            requires
                magnitude == whole * pow2(power as nat),
                pow2((power + 149) as nat) == pow2(power as nat) * pow2(149),
        ;
    } else {
        let down = pow2((-power) as nat) as int;
        let step = pow2((power + 149) as nat) as int;
        lemma_pow2_pos((-power) as nat);
        lemma_pow2_pos((power + 149) as nat);
        lemma_pow2_adds((-power) as nat, (power + 149) as nat);
        vstd::arithmetic::div_mod::lemma_fundamental_div_mod(whole as int, down);
        vstd::arithmetic::div_mod::lemma_mod_bound(whole as int, down);
        let rest = whole as int % down;
        assert(whole * step == magnitude * pow2(149) + rest * step) by (nonlinear_arith)
            requires
                whole == down * magnitude + rest,
                pow2(149) == down * step,
        ;
        assert(0 <= rest * step < pow2(149)) by (nonlinear_arith)
            requires
                0 <= rest < down,
                step > 0,
                pow2(149) == down * step,
        ;
    }
    if is_integral(number) {
        crate::comparing::lemma_whole_units(number);
    }
    let magnitude = magnitude as int;
    assert((-magnitude) * pow2(149) == -(magnitude * pow2(149))) by (nonlinear_arith);
}

/// A length that a positive number asks for is the number without its fraction; what is negative
/// or no number asks for none.
pub proof fn lemma_asked_length_is_cut(number: Number)
    ensures
        is_negative(number) || !is_finite(number) ==> requested_length(number) == 0,
        is_finite(number) && !is_negative(number) && truncated(number) <= usize::MAX
            ==> requested_length(number) == truncated(number),
{
}

/// A natural number becomes the nearest number that can be written: it is off by at most half of
/// the distance between two such numbers, and not at all up to twenty-four bits.
pub proof fn lemma_rounding_is_nearest(n: nat, number: Number)
    requires
        0 < n < pow2(64),
        number.bits == nearest_bits(n),
    ensures
        is_integral(number),
        !is_negative(number),
        floor_log2(n) <= 23 ==> truncated(number) == n,
        floor_log2(n) > 23 ==> {
            let unit = pow2((floor_log2(n) - 23) as nat) as int;
            2 * (truncated(number) - n) <= unit && 2 * (n - truncated(number)) <= unit
        },
{
    lemma2_to64();
    lemma_log2_bounds(n);
    let top = floor_log2(n);
    if top >= 64 {
        crate::number::lemma_pow2_monotonic(64, top);
    }
    if top <= 23 {
        crate::number::lemma_pow2_monotonic(top + 1, 24);
        crate::number::lemma_integer_round_trip(n, number);
    } else {
        let unit = pow2((top - 23) as nat);
        lemma_pow2_pos((top - 23) as nat);
        lemma_pow2_adds((top - 23) as nat, 23);
        lemma_pow2_adds((top - 23) as nat, 24);
        let below = n / unit;
        let rest = n % unit;
        vstd::arithmetic::div_mod::lemma_fundamental_div_mod(n as int, unit as int);
        assert(below >= 0x80_0000) by (nonlinear_arith)
            requires
                n >= pow2(top),
                pow2(top) == unit * pow2(23),
                pow2(23) == 0x80_0000,
                n == unit * below + rest,
                rest < unit,
                unit > 0,
        ;
        assert(below < 0x100_0000) by (nonlinear_arith)
            requires
                n < pow2(top + 1),
                pow2(top + 1) == unit * pow2(24),
                pow2(24) == 0x100_0000,
                n == unit * below + rest,
                rest >= 0,
                unit > 0,
        ;
        let up: nat = if 2 * rest > unit || (2 * rest == unit && below % 2 == 1) {
            1
        } else {
            0
        };
        let raised = below + up;
        assert(number.bits == (top + 126) * 0x80_0000 + raised);
        if raised < 0x100_0000 {
            let fraction = raised - 0x80_0000;
            assert(number.bits == (top + 127) * 0x80_0000 + fraction);
            assert(exponent_bits(number) == top + 127);
            assert(fraction_bits(number) == fraction);
            assert(significand(number) == raised);
            assert(scale(number) == top - 23);
            assert(truncated_magnitude(number) == raised * unit);
        } else {
            assert(number.bits == (top + 128) * 0x80_0000);
            assert(exponent_bits(number) == top + 128);
            assert(fraction_bits(number) == 0);
            assert(scale(number) == top - 22);
            lemma_pow2_adds((top - 23) as nat, 1);
            assert(pow2(1) == 2);
            assert(0x80_0000 * pow2((top - 22) as nat) == raised * unit) by (nonlinear_arith)
                requires
                    raised == 0x100_0000,
                    pow2((top - 22) as nat) == unit * 2,
            ;
            assert(truncated_magnitude(number) == raised * unit);
        }
        assert(raised * unit - n == up * unit - rest) by (nonlinear_arith)
            requires
                raised == below + up,
                n == unit * below + rest,
        ;
        if up == 1 {
            assert(up * unit == unit) by (nonlinear_arith)
                requires
                    up == 1,
            ;
        } else {
            assert(up * unit == 0) by (nonlinear_arith)
                requires
                    up == 0,
            ;
        }
    }
}

/// A new regular expression holds its pattern and its flags, has matched nothing, and starts at
/// the beginning.
pub proof fn lemma_new_regex_holds_its_pattern(
    names: EngineNames,
    datum: DatumView,
    pattern: Value,
    flags: Value,
)
    requires
        names.pattern != names.flags,
        forall|i: int| 0 <= i < 7 ==> (#[trigger] own_names(names)[i]) != names.pattern
            && own_names(names)[i] != names.flags,
    ensures
        regex_of(names, datum, pattern, flags).fields[names.pattern] == pattern,
        regex_of(names, datum, pattern, flags).fields[names.flags] == flags,
        regex_of(names, datum, pattern, flags).type_path == datum.type_path,
        regex_of(names, datum, pattern, flags).fields[names.haystack] is Null,
{
    assert(own_names(names)[0] == names.text);
    assert(own_names(names)[1] == names.matched);
    assert(own_names(names)[2] == names.index);
    assert(own_names(names)[3] == names.group);
    assert(own_names(names)[4] == names.next);
    assert(own_names(names)[5] == names.cursor);
    assert(own_names(names)[6] == names.haystack);
}

/// The fields in which a regular expression keeps what it found.
pub open spec fn own_names(names: EngineNames) -> Seq<crate::value::FieldName> {
    seq![
        names.text,
        names.matched,
        names.index,
        names.group,
        names.next,
        names.cursor,
        names.haystack,
    ]
}

/// A replacement by a regular expression takes the text first, the expression second, and the
/// other arguments behind them in their order.
pub proof fn lemma_replacement_order(regex: DatumId, arguments: Seq<Value>)
    ensures
        replacement_of(regex, arguments) is Some <==> 2 <= arguments.len() <= 4,
        replacement_of(regex, arguments) matches Some(ordered) ==> {
            &&& ordered.len() == arguments.len() + 1
            &&& ordered[0] == arguments[0]
            &&& ordered[1] == Value::Datum(regex)
            &&& forall|i: int| 1 <= i < arguments.len() ==> ordered[i + 1] == #[trigger] arguments[i]
        },
{
}

} // verus!
