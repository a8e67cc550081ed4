//! When what waits goes on.

use vstd::prelude::*;
use vstd::arithmetic::power2::{lemma_pow2_adds, lemma_pow2_pos, pow2};
use crate::delays::{delay_in_ticks, is_positive, nearest_integer, quotient_exponent};
use crate::frame::CallFrame;
use crate::number::{floor_log2, is_finite, is_integral, is_negative, scale, significand,
    truncated};
use crate::scheduling::{continuation_scheduled, pass_advanced};
use crate::tasks::{due_spawns, future_spawns, in_dispatch_order, saturating_sum, ScheduledSpawn,
    SchedulerQueue};
use crate::value::Number;

verus! {

/// What a clock that stands at a tick dispatches was due by that tick, and what goes on waiting is
/// due later.
pub proof fn lemma_only_due_is_dispatched(
    spawns: Seq<ScheduledSpawn>,
    tick: u64,
    dispatch: Seq<ScheduledSpawn>,
)
    requires
        in_dispatch_order(due_spawns(spawns, tick), dispatch),
    ensures
        forall|i: int| 0 <= i < dispatch.len() ==> (#[trigger] dispatch[i]).due_tick <= tick
            && spawns.contains(dispatch[i]),
        forall|i: int| 0 <= i < future_spawns(spawns, tick).len() ==> (#[trigger] future_spawns(
            spawns,
            tick,
        )[i]).due_tick > tick,
{
    broadcast use vstd::seq_lib::group_filter_ensures;

    let due = due_spawns(spawns, tick);
    let order = choose|order: Seq<usize>| #[trigger]
        crate::sorting::is_stable_order(crate::tasks::spawn_keys(due), order) && dispatch
            == crate::ordering::arranged(due, order);
    assert forall|i: int| 0 <= i < dispatch.len() implies (#[trigger] dispatch[i]).due_tick <= tick
        && spawns.contains(dispatch[i]) by {
        assert(dispatch[i] == due[order[i] as int]);
        spawns.lemma_filter_contains_rev(
            |spawn: ScheduledSpawn| spawn.due_tick <= tick,
            due[order[i] as int],
        );
    }
}

/// A continuation that waits for some ticks is due once the clock has moved by that many and no
/// sooner. It stands behind those that wait already, which stay as they are.
pub proof fn lemma_delay_is_waited_out(
    before: SchedulerQueue,
    frames: Vec<CallFrame>,
    delay_ticks: u64,
    after: SchedulerQueue,
    ticks: u64,
)
    requires
        continuation_scheduled(before, frames, delay_ticks, after),
        before.tick + delay_ticks <= u64::MAX,
        before.tick + ticks <= u64::MAX,
    ensures
        after.spawns@.len() == before.spawns@.len() + 1,
        after.spawns@.drop_last() == before.spawns@,
        after.spawns@.last().frames.frames == frames,
        after.tick == before.tick,
        after.spawns@.last().due_tick <= saturating_sum(after.tick, ticks) <==> delay_ticks <= ticks,
{
    assert(after.spawns@.drop_last() =~= before.spawns@);
}

/// What is scheduled later has the greater number.
pub proof fn lemma_numbers_grow(
    first: SchedulerQueue,
    frames: Vec<CallFrame>,
    delay_ticks: u64,
    second: SchedulerQueue,
    later_frames: Vec<CallFrame>,
    later_delay: u64,
    third: SchedulerQueue,
)
    requires
        first.sequence < u64::MAX,
        continuation_scheduled(first, frames, delay_ticks, second),
        continuation_scheduled(second, later_frames, later_delay, third),
    ensures
        second.spawns@.last().sequence < third.spawns@.last().sequence,
        second.spawns@.last().frames.id != third.spawns@.last().frames.id,
{
}

/// A pass that goes on runs what it would have run first and keeps the rest in its order.
pub proof fn lemma_pass_takes_the_next(
    before: SchedulerQueue,
    after: SchedulerQueue,
    next: Option<Vec<CallFrame>>,
)
    requires
        pass_advanced(before, false, after, next),
    ensures
        next is Some <==> before.inflight@.len() > 0,
        next matches Some(frames) ==> frames == before.inflight@.reverse()[0].frames.frames
            && after.inflight@.reverse() == before.inflight@.reverse().skip(1),
        after.spawns@ == before.spawns@,
{
    if before.inflight@.len() > 0 {
        assert(before.inflight@.drop_last().reverse() =~= before.inflight@.reverse().skip(1));
    }
}

/// A delay as long as one tick waits for one tick.
pub proof fn lemma_one_lag_is_one_tick(lag: Number)
    requires
        is_positive(lag),
    ensures
        delay_in_ticks(lag, Some(lag)) == 1,
{
    let p = significand(lag);
    assert(p > 0) by {
        crate::comparing::lemma_zero_units(lag);
    }
    assert(p / p == 1) by (nonlinear_arith)
        requires
            p > 0,
    ;
    assert(quotient_exponent(p, p) == 0);
    let large = pow2(52);
    lemma_pow2_pos(52);
    vstd::arithmetic::div_mod::lemma_div_multiples_vanish(large as int, p as int);
    vstd::arithmetic::div_mod::lemma_mod_multiples_basic(large as int, p as int);
    assert(p * large == large * p) by (nonlinear_arith);
    assert(nearest_integer(p * large, p) == large);
    assert(large / large == 1) by (nonlinear_arith)
        requires
            large > 0,
    ;
}

/// A lag that is no positive number counts as one.
pub proof fn lemma_unusable_lag_counts_as_one(delay: Number, lag: Number)
    requires
        !is_positive(lag),
    ensures
        delay_in_ticks(delay, Some(lag)) == delay_in_ticks(delay, Some(Number { bits: 0x3f80_0000 })),
        delay_in_ticks(delay, None) == delay_in_ticks(delay, Some(Number { bits: 0x3f80_0000 })),
{
    assert(0x3f80_0000int / 0x80_0000 % 0x100 == 127);
}

/// What is not positive does not wait.
pub proof fn lemma_no_time_is_no_wait(delay: Number, lag: Option<Number>)
    requires
        !is_finite(delay) || is_negative(delay) || delay.bits == 0,
    ensures
        delay_in_ticks(delay, lag) == 0,
{
}

proof fn lemma_one()
    ensures
        significand(Number { bits: 0x3f80_0000 }) == 0x80_0000,
        scale(Number { bits: 0x3f80_0000 }) == -23,
        is_positive(Number { bits: 0x3f80_0000 }),
{
}

/// A whole number of units waits for that many ticks where a tick takes one.
pub proof fn lemma_whole_delays_count_ticks(delay: Number, count: nat)
    requires
        1 <= count <= u64::MAX,
        is_integral(delay),
        truncated(delay) == count,
    ensures
        delay_in_ticks(delay, None) == count,
{
    lemma_one();
    vstd::arithmetic::power2::lemma2_to64();
    let p = significand(delay);
    let q: nat = 0x80_0000;
    let power = scale(delay);
    if power < 0 {
        lemma_pow2_pos((-power) as nat);
        if power == -149 {
            lemma_pow2_adds(24, 125);
            lemma_pow2_pos(125);
            assert(p < pow2(149)) by (nonlinear_arith)
                requires
                    p < pow2(24),
                    pow2(149) == pow2(24) * pow2(125),
                    pow2(125) > 0,
            ;
            vstd::arithmetic::div_mod::lemma_basic_div(p as int, pow2(149) as int);
        }
    }
    assert(q <= p < 2 * q);
    assert(p / q == 1);
    assert(floor_log2(1) == 0);
    assert(quotient_exponent(p, q) == 0);
    let exact = p * pow2(29);
    lemma_pow2_adds(29, 23);
    assert(p * pow2(52) == exact * q) by (nonlinear_arith)
        requires
            exact == p * pow2(29),
            pow2(52) == pow2(29) * pow2(23),
            pow2(23) == q,
    ;
    vstd::arithmetic::div_mod::lemma_div_multiples_vanish(exact as int, q as int);
    vstd::arithmetic::div_mod::lemma_mod_multiples_basic(exact as int, q as int);
    assert(nearest_integer(p * pow2(52), q) == exact);
    assert(crate::delays::quotient_significand(p, q) == exact);
    if power >= 29 {
        lemma_pow2_adds(29, (power - 29) as nat);
        assert(exact * pow2((power - 29) as nat) == p * pow2(power as nat)) by (nonlinear_arith)
            requires
                exact == p * pow2(29),
                pow2(power as nat) == pow2(29) * pow2((power - 29) as nat),
        ;
        assert(p * pow2(power as nat) == count);
        assert(crate::delays::whole_quotient(p, q, power + 23) == count);
    } else {
        let rest = pow2((29 - power) as nat) as int;
        lemma_pow2_pos((29 - power) as nat);
        if power >= 0 {
            lemma_pow2_adds(power as nat, (29 - power) as nat);
            let whole = p * pow2(power as nat);
            assert(exact == whole * rest) by (nonlinear_arith)
                requires
                    exact == p * pow2(29),
                    whole == p * pow2(power as nat),
                    pow2(29) == pow2(power as nat) * rest,
            ;
            vstd::arithmetic::div_mod::lemma_div_multiples_vanish(whole as int, rest);
            assert(whole * rest == rest * whole) by (nonlinear_arith);
            assert(whole == count);
            assert(exact / pow2((29 - power) as nat) == count);
        } else {
            let down = pow2((-power) as nat) as int;
            vstd::arithmetic::div_mod::lemma_fundamental_div_mod(p as int, down);
            lemma_pow2_adds((-power) as nat, 29);
            assert(exact == count * rest) by (nonlinear_arith)
                requires
                    exact == p * pow2(29),
                    p == down * count,
                    rest == down * pow2(29),
            ;
            vstd::arithmetic::div_mod::lemma_div_multiples_vanish(count as int, rest);
            assert(count * rest == rest * count) by (nonlinear_arith);
            assert(exact / pow2((29 - power) as nat) == count);
        }
        assert(52 - (power + 23) == 29 - power);
        assert(crate::delays::whole_quotient(p, q, power + 23) == count);
    }
    assert(crate::delays::whole_quotient(p, q, power + 23) == count);
    assert(!is_negative(delay));
    assert(is_positive(delay));
}

} // verus!
