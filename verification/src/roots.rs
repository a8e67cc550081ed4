//! The values that suspended and active frames keep alive.

use vstd::prelude::*;
use crate::frame::{
    frames_view,
    name_view,
    names_view,
    CallFrame,
    CallFrameCold,
    FrameView,
    PackedNumericState,
    RuinCandidateScan,
    RuinView,
    TgmLoadContinuation,
    TgmView,
};
use crate::inline::InlineValues;
use crate::value::{DatumId, Symbol, Value};

verus! {

/// The datums of a scan as values.
pub open spec fn datum_values(datums: Seq<DatumId>) -> Seq<Value> {
    datums.map_values(|id: DatumId| Value::Datum(id))
}

/// The values of a map load's models.
pub open spec fn model_values(models: Seq<(Symbol, Value)>) -> Seq<Value> {
    models.map_values(|model: (Symbol, Value)| model.1)
}

/// What a suspended map load keeps alive.
pub open spec fn tgm_root_values(load: Option<TgmView>) -> Seq<Value> {
    match load {
        Some(load) => seq![load.model_cache, load.bounds] + model_values(load.models),
        None => Seq::empty(),
    }
}

/// What a suspended ruin scan keeps alive.
pub open spec fn ruin_root_values(scan: Option<RuinView>) -> Seq<Value> {
    match scan {
        Some(scan) => datum_values(scan.turfs) + scan.areas,
        None => Seq::empty(),
    }
}

/// An optional value as a sequence.
pub open spec fn optional_value(value: Option<Value>) -> Seq<Value> {
    match value {
        Some(value) => seq![value],
        None => Seq::empty(),
    }
}

/// What the frame itself keeps alive, without the frame that runs after it.
pub open spec fn own_root_values(frame: FrameView) -> Seq<Value> {
    let cold = frame.cold_or_blank();
    frame.locals + frame.stack + seq![frame.result, frame.src, frame.usr] + frame.arguments
        + cold.pending_argument_roots + cold.retained_call_roots + tgm_root_values(cold.tgm_load)
        + ruin_root_values(cold.ruin_scan) + match frame.args_list {
        Some(list) => seq![Value::List(list)],
        None => Seq::empty(),
    } + optional_value(cold.caller_result_override)
}

/// Everything a frame keeps alive, the frames that run after it included.
pub open spec fn frame_root_values(frame: FrameView) -> Seq<Value>
    decreases frame,
{
    own_root_values(frame) + match frame.cold {
        Some(cold) => match cold.engine_post_return {
            Some(next) => frame_root_values(*next),
            None => Seq::empty(),
        },
        None => Seq::empty(),
    }
}

/// Everything a stack of frames keeps alive.
pub open spec fn frames_root_values(frames: Seq<FrameView>) -> Seq<Value>
    decreases frames.len(),
{
    if frames.len() == 0 {
        Seq::empty()
    } else {
        frames_root_values(frames.drop_last()) + frame_root_values(frames.last())
    }
}

fn append_inline(roots: &mut Vec<Value>, values: &InlineValues)
    ensures
        final(roots)@ == old(roots)@ + values@,
{
    let mut at: usize = 0;
    while at < values.len()
        invariant
            at <= values@.len(),
            roots@ =~= old(roots)@ + values@.subrange(0, at as int),
        decreases values@.len() - at,
    {
        roots.push(values.get(at));
        at += 1;
    }
    assert(values@.subrange(0, at as int) =~= values@);
}

/// Appends values to a root vector.
pub fn append_values(roots: &mut Vec<Value>, values: &Vec<Value>)
    ensures
        final(roots)@ == old(roots)@ + values@,
{
    let mut at: usize = 0;
    while at < values.len()
        invariant
            at <= values@.len(),
            roots@ =~= old(roots)@ + values@.subrange(0, at as int),
        decreases values@.len() - at,
    {
        roots.push(values[at]);
        at += 1;
    }
    assert(values@.subrange(0, at as int) =~= values@);
}

fn append_tgm(roots: &mut Vec<Value>, load: &Option<TgmLoadContinuation>)
    ensures
        final(roots)@ == old(roots)@ + tgm_root_values(
            match *load {
                Some(load) => Some(load@),
                None => None,
            },
        ),
{
    if let Some(load) = load {
        roots.push(load.model_cache);
        roots.push(load.bounds);
        let mut at: usize = 0;
        while at < load.models.len()
            invariant
                at <= load.models@.len(),
                roots@ =~= old(roots)@ + seq![load.model_cache, load.bounds] + model_values(
                    load.models@.subrange(0, at as int),
                ),
            decreases load.models@.len() - at,
        {
            roots.push(load.models[at].1);
            at += 1;
        }
        assert(load.models@.subrange(0, at as int) =~= load.models@);
    }
    assert(roots@ =~= old(roots)@ + tgm_root_values(
        match *load {
            Some(load) => Some(load@),
            None => None,
        },
    ));
}

fn append_ruin(roots: &mut Vec<Value>, scan: &Option<RuinCandidateScan>)
    ensures
        final(roots)@ == old(roots)@ + ruin_root_values(
            match *scan {
                Some(scan) => Some(scan@),
                None => None,
            },
        ),
{
    if let Some(scan) = scan {
        let mut at: usize = 0;
        while at < scan.turfs.len()
            invariant
                at <= scan.turfs@.len(),
                roots@ =~= old(roots)@ + datum_values(scan.turfs@.subrange(0, at as int)),
            decreases scan.turfs@.len() - at,
        {
            roots.push(Value::Datum(scan.turfs[at]));
            at += 1;
        }
        assert(scan.turfs@.subrange(0, at as int) =~= scan.turfs@);
        append_values(roots, &scan.areas);
    }
    assert(roots@ =~= old(roots)@ + ruin_root_values(
        match *scan {
            Some(scan) => Some(scan@),
            None => None,
        },
    ));
}

proof fn lemma_append(base: Seq<Value>, held: Seq<Value>, more: Seq<Value>)
    ensures
        (base + held) + more == base + (held + more),
        more.len() == 0 ==> base + held == base + (held + more),
{
    assert((base + held) + more =~= base + (held + more));
    if more.len() == 0 {
        assert(base + held =~= base + (held + more));
    }
}

proof fn lemma_append_one(base: Seq<Value>, value: Value)
    ensures
        base.push(value) == base + seq![value],
{
    assert(base.push(value) =~= base + seq![value]);
}

proof fn lemma_append_three(base: Seq<Value>, a: Value, b: Value, c: Value)
    ensures
        base.push(a).push(b).push(c) == base + seq![a, b, c],
{
    assert(base.push(a).push(b).push(c) =~= base + seq![a, b, c]);
}

fn append_cold(roots: &mut Vec<Value>, frame: &CallFrame)
    ensures
        final(roots)@ == old(roots)@ + tgm_root_values(frame@.cold_or_blank().tgm_load)
            + ruin_root_values(frame@.cold_or_blank().ruin_scan),
{
    if let Some(cold) = &frame.cold {
        append_tgm(roots, &cold.tgm_load);
        append_ruin(roots, &cold.ruin_scan);
    }
    assert(roots@ =~= old(roots)@ + tgm_root_values(frame@.cold_or_blank().tgm_load)
        + ruin_root_values(frame@.cold_or_blank().ruin_scan));
}

/// Appends everything a frame keeps alive.
pub fn append_frame_roots(roots: &mut Vec<Value>, frame: &CallFrame)
    ensures
        final(roots)@ == old(roots)@ + frame_root_values(frame@),
    decreases frame,
{
    let ghost base = roots@;
    let ghost view = frame@;
    let ghost cold = view.cold_or_blank();
    append_inline(roots, &frame.locals);
    append_inline(roots, &frame.stack);
    let ghost mut held = view.locals + view.stack;
    proof {
        lemma_append(base, view.locals, view.stack);
        lemma_append_three(base + held, frame.result, frame.src, frame.usr);
        lemma_append(base, held, seq![view.result, view.src, view.usr]);
        held = held + seq![view.result, view.src, view.usr];
    }
    roots.push(frame.result);
    roots.push(frame.src);
    roots.push(frame.usr);
    append_inline(roots, &frame.arguments);
    proof {
        lemma_append(base, held, view.arguments);
        held = held + view.arguments;
        lemma_append(base, held, cold.pending_argument_roots);
    }
    append_values(roots, &frame.pending_argument_roots());
    proof {
        held = held + cold.pending_argument_roots;
        lemma_append(base, held, cold.retained_call_roots);
    }
    append_values(roots, &frame.retained_call_roots());
    proof {
        held = held + cold.retained_call_roots;
        lemma_append(base, held, tgm_root_values(cold.tgm_load));
        lemma_append(
            base,
            held + tgm_root_values(cold.tgm_load),
            ruin_root_values(cold.ruin_scan),
        );
    }
    append_cold(roots, frame);
    let ghost listed = match frame.args_list {
        Some(list) => seq![Value::List(list)],
        None => Seq::empty(),
    };
    proof {
        held = held + tgm_root_values(cold.tgm_load) + ruin_root_values(cold.ruin_scan);
        assert(roots@ == base + held);
        lemma_append(base, held, listed);
    }
    if let Some(list) = frame.args_list {
        proof {
            lemma_append_one(roots@, Value::List(list));
        }
        roots.push(Value::List(list));
    }
    proof {
        held = held + listed;
        assert(roots@ == base + held);
        lemma_append(base, held, optional_value(cold.caller_result_override));
    }
    if let Some(value) = frame.caller_result_override() {
        proof {
            lemma_append_one(roots@, value);
        }
        roots.push(value);
    }
    proof {
        held = held + optional_value(cold.caller_result_override);
        assert(roots@ == base + held);
        assert(held == own_root_values(view));
    }
    if let Some(next) = frame.engine_post_return() {
        append_frame_roots(roots, next);
        proof {
            lemma_append(base, held, frame_root_values(next@));
        }
    } else {
        proof {
            lemma_append(base, held, Seq::empty());
        }
    }
}

/// Appends everything a stack of frames keeps alive.
pub fn append_frames_roots(roots: &mut Vec<Value>, frames: &Vec<CallFrame>)
    ensures
        final(roots)@ == old(roots)@ + frames_root_values(frames_view(frames@)),
{
    let ghost views = frames_view(frames@);
    let mut at: usize = 0;
    while at < frames.len()
        invariant
            at <= frames@.len(),
            views == frames_view(frames@),
            roots@ =~= old(roots)@ + frames_root_values(views.subrange(0, at as int)),
        decreases frames@.len() - at,
    {
        append_frame_roots(roots, &frames[at]);
        assert(views.subrange(0, at + 1).drop_last() =~= views.subrange(0, at as int));
        assert(views.subrange(0, at + 1).last() == frames@[at as int]@);
        at += 1;
    }
    assert(views.subrange(0, at as int) =~= views);
}

/// Records everything the active frames keep alive for a nested execution and
/// returns how many roots there were before.
pub fn preserve_reentrant_frame_roots(host_value_roots: &mut Vec<Value>, frames: &Vec<CallFrame>) -> (
original_length: usize)
    ensures
        original_length == old(host_value_roots)@.len(),
        final(host_value_roots)@ == old(host_value_roots)@ + frames_root_values(
            frames_view(frames@),
        ),
{
    let original_length: usize = host_value_roots.len();
    append_frames_roots(host_value_roots, frames);
    original_length
}

/// Cutting the roots back to the recorded length undoes what a nested execution
/// recorded.
pub proof fn lemma_preserved_roots_released(before: Seq<Value>, frames: Seq<FrameView>)
    ensures
        (before + frames_root_values(frames)).subrange(0, before.len() as int) == before,
{
    assert((before + frames_root_values(frames)).subrange(0, before.len() as int) =~= before);
}

fn copy_names(names: &Vec<Option<String>>) -> (copy: Vec<Option<String>>)
    ensures
        names_view(copy@) == names_view(names@),
        copy@.len() == names@.len(),
{
    let mut copy: Vec<Option<String>> = Vec::new();
    let mut at: usize = 0;
    while at < names.len()
        invariant
            at <= names@.len(),
            copy@.len() == at,
            forall|i: int| 0 <= i < at ==> name_view(#[trigger] copy@[i]) == name_view(names@[i]),
        decreases names@.len() - at,
    {
        match &names[at] {
            Some(name) => {
                copy.push(Some(name.clone()));
            },
            None => {
                copy.push(None);
            },
        }
        at += 1;
    }
    assert(names_view(copy@) =~= names_view(names@));
    copy
}

fn copy_values(values: &Vec<Value>) -> (copy: Vec<Value>)
    ensures
        copy@ == values@,
{
    let mut copy: Vec<Value> = Vec::new();
    append_values(&mut copy, values);
    assert(copy@ =~= values@);
    copy
}

fn copy_ruin(scan: &RuinCandidateScan) -> (copy: RuinCandidateScan)
    ensures
        copy@ == scan@,
{
    let mut turfs: Vec<DatumId> = Vec::new();
    let mut at: usize = 0;
    while at < scan.turfs.len()
        invariant
            at <= scan.turfs@.len(),
            turfs@ =~= scan.turfs@.subrange(0, at as int),
        decreases scan.turfs@.len() - at,
    {
        turfs.push(scan.turfs[at]);
        at += 1;
    }
    assert(turfs@ =~= scan.turfs@);
    RuinCandidateScan {
        low: scan.low,
        next: scan.next,
        high: scan.high,
        empty: scan.empty,
        turfs,
        areas: copy_values(&scan.areas),
        validating: scan.validating,
        validate_index: scan.validate_index,
    }
}

fn copy_tgm(load: &TgmLoadContinuation) -> (copy: TgmLoadContinuation)
    ensures
        copy@ == load@,
{
    let mut models: Vec<(Symbol, Value)> = Vec::new();
    let mut at: usize = 0;
    while at < load.models.len()
        invariant
            at <= load.models@.len(),
            models@ =~= load.models@.subrange(0, at as int),
        decreases load.models@.len() - at,
    {
        models.push(load.models[at]);
        at += 1;
    }
    assert(models@ =~= load.models@);
    TgmLoadContinuation {
        phase: load.phase,
        model_cache: load.model_cache,
        models,
        bounds: load.bounds,
        coordinate_target: load.coordinate_target,
    }
}

fn copy_numbers(numbers: &Vec<Option<crate::value::Number>>) -> (copy: Vec<
    Option<crate::value::Number>,
>)
    ensures
        copy@ == numbers@,
{
    let mut copy: Vec<Option<crate::value::Number>> = Vec::new();
    let mut at: usize = 0;
    while at < numbers.len()
        invariant
            at <= numbers@.len(),
            copy@ =~= numbers@.subrange(0, at as int),
        decreases numbers@.len() - at,
    {
        copy.push(numbers[at]);
        at += 1;
    }
    assert(copy@ =~= numbers@);
    copy
}

fn copy_handlers(handlers: &Vec<crate::frame::ExceptionHandler>) -> (copy: Vec<
    crate::frame::ExceptionHandler,
>)
    ensures
        copy@ == handlers@,
{
    let mut copy: Vec<crate::frame::ExceptionHandler> = Vec::new();
    let mut at: usize = 0;
    while at < handlers.len()
        invariant
            at <= handlers@.len(),
            copy@ =~= handlers@.subrange(0, at as int),
        decreases handlers@.len() - at,
    {
        copy.push(handlers[at]);
        at += 1;
    }
    assert(copy@ =~= handlers@);
    copy
}

fn copy_cold(cold: &CallFrameCold) -> (copy: CallFrameCold)
    ensures
        copy@ == cold@,
    decreases cold,
{
    let pending_argument_names = match &cold.pending_argument_names {
        Some(names) => Some(copy_names(names)),
        None => None,
    };
    let engine_post_return = match &cold.engine_post_return {
        Some(frame) => Some(Box::new(copy_frame(frame))),
        None => None,
    };
    let packed_numeric_state = match &cold.packed_numeric_state {
        Some(state) => Some(
            PackedNumericState {
                locals: copy_numbers(&state.locals),
                stack: copy_numbers(&state.stack),
                result: state.result,
            },
        ),
        None => None,
    };
    let tgm_load = match &cold.tgm_load {
        Some(load) => Some(copy_tgm(load)),
        None => None,
    };
    let ruin_scan = match &cold.ruin_scan {
        Some(scan) => Some(copy_ruin(scan)),
        None => None,
    };
    CallFrameCold {
        pending_argument_names,
        pending_argument_roots: cold.pending_argument_roots.clone(),
        retained_call_roots: cold.retained_call_roots.clone(),
        exception_handlers: copy_handlers(&cold.exception_handlers),
        shuttle_trace_target: cold.shuttle_trace_target,
        shuttle_trace_post_return: cold.shuttle_trace_post_return,
        boot_trace_started: cold.boot_trace_started,
        boot_trace_heap: cold.boot_trace_heap,
        boot_trace_step: cold.boot_trace_step,
        caller_result_override: cold.caller_result_override,
        engine_post_return,
        numeric_jit_state: cold.numeric_jit_state,
        packed_numeric_state,
        tgm_load,
        ruin_scan,
        tgm_route_trace_mask: cold.tgm_route_trace_mask,
    }
}

/// Copies a frame.
pub fn copy_frame(frame: &CallFrame) -> (copy: CallFrame)
    ensures
        copy@ == frame@,
    decreases frame,
{
    let cold = match &frame.cold {
        Some(cold) => Some(Box::new(copy_cold(cold))),
        None => None,
    };
    CallFrame {
        procedure: frame.procedure,
        instruction: frame.instruction,
        locals: frame.locals.clone(),
        stack: frame.stack.clone(),
        result: frame.result,
        src: frame.src,
        usr: frame.usr,
        arguments: frame.arguments.clone(),
        args_list: frame.args_list,
        declared_argument_count: frame.declared_argument_count,
        supplied_parameters: frame.supplied_parameters.clone(),
        cold,
        detached_waitfor: frame.detached_waitfor,
        static_locals: frame.static_locals.clone(),
        atoms_profile_entry_counted: frame.atoms_profile_entry_counted,
        atoms_profile_root: frame.atoms_profile_root,
        tgm_profile_root: frame.tgm_profile_root,
    }
}

impl Clone for CallFrame {
    fn clone(&self) -> (copy: Self)
        ensures
            copy@ == self@,
    {
        copy_frame(self)
    }
}

} // verus!
