//! The scheduler: what waits, what is due and what reports say of it.

use dm_vm::activation::make_frame;
use dm_vm::fault::Fault;
use dm_vm::frame::{CallFrame, ExecutionContext};
use dm_vm::metrics::BoundedValue;
use dm_vm::program::{Instruction, Module, ProcedureId, Program, SourceSpan};
use dm_vm::scheduling::{
    settle_budget, ContinuationOutcome, SchedulerPass, StepBudgetBehavior,
};
use dm_vm::state::ExecutionState;
use dm_vm::tasks::{NativeWalk, VmContinuationId};
use dm_vm::value::{DatumId, FieldName, Number, TypePath, Value};

fn number(value: f32) -> Value {
    Value::Number(Number { bits: value.to_bits() })
}

fn module() -> Module {
    Module {
        identity: 1,
        paths: vec!["/datum/parsed_map/proc/load".to_string()],
        procedures: vec![Program {
            wait_for: true,
            parameter_count: 2,
            parameter_names: vec!["first".to_string(), String::new()],
            verb_parameter_types: Vec::new(),
            verb_name: None,
            local_count: 2,
            source_spans: vec![SourceSpan { start: 4, end: 9 }],
            instructions: vec![Instruction::PushNull, Instruction::Return],
        }],
        procedure_types: Vec::new(),
    }
}

fn frame(module: &Module, mark: f32) -> CallFrame {
    make_frame(
        ProcedureId(0),
        &module.procedures[0],
        &vec![number(mark)],
        &ExecutionContext::default(),
    )
}

fn mark_of(state: &ExecutionState, frames: &Vec<CallFrame>) -> Value {
    let mut roots: Vec<Value> = Vec::new();
    dm_vm::roots::append_frames_roots(&mut roots, frames);
    assert!(state.scheduler_tick() < u64::MAX);
    roots[0]
}

#[test]
fn the_clock_moves_before_a_pass_begins() {
    let module = module();
    let mut state = ExecutionState::new();
    state.schedule_frames(vec![frame(&module, 1.0)], 2);
    assert_eq!(state.move_scheduler_clock(2), 2);
    assert_eq!(state.scheduler_tick(), 2);
    assert_eq!(state.scheduler.spawns.len(), 1);
    let pass = SchedulerPass::begin(&mut state, 0);
    assert_eq!(state.scheduler_tick(), 2);
    assert!(pass.next(&mut state, false).is_some());
    assert_eq!(state.move_scheduler_clock(u64::MAX), u64::MAX);
}

#[test]
fn due_continuations_run_by_deadline() {
    let module = module();
    let mut state = ExecutionState::new();
    state.schedule_frames(vec![frame(&module, 1.0)], 2);
    state.schedule_frames(vec![frame(&module, 2.0)], 1);
    state.schedule_frames(vec![frame(&module, 3.0)], 1);
    state.schedule_frames(vec![frame(&module, 4.0)], 9);
    assert_eq!(state.scheduled_task_count(), 4);
    assert_eq!(state.next_scheduled_tick(), Some(1));
    let mut pass = SchedulerPass::begin(&mut state, 2);
    assert_eq!(state.scheduler_tick(), 2);
    let mut order: Vec<Value> = Vec::new();
    while let Some(frames) = pass.next(&mut state, false) {
        let mark = mark_of(&state, &frames);
        order.push(mark);
        pass.settle(&mut state, ContinuationOutcome::Complete(mark));
    }
    assert_eq!(order, vec![number(2.0), number(3.0), number(1.0)]);
    assert_eq!(pass.completed, order);
    assert_eq!(state.host_value_roots, order);
    assert_eq!(state.scheduled_task_count(), 1);
    assert_eq!(state.next_scheduled_tick(), Some(9));
}

#[test]
fn interrupted_passes_lose_nothing() {
    let module = module();
    let mut state = ExecutionState::new();
    for mark in 0..4 {
        state.schedule_frames(vec![frame(&module, mark as f32)], 0);
    }
    let mut pass = SchedulerPass::begin(&mut state, 0);
    let frames = pass.next(&mut state, false).unwrap();
    pass.settle(&mut state, ContinuationOutcome::Yielded { frames, delay_ticks: 5 });
    assert!(pass.next(&mut state, true).is_none());
    assert_eq!(state.scheduler.inflight.len(), 0);
    assert_eq!(state.scheduler.spawns.len(), 4);
    assert!(pass.completed.is_empty());
    let mut ids: Vec<u64> =
        state.scheduler.spawns.iter().map(|spawn| spawn.frames.id.get()).collect();
    ids.sort();
    assert_eq!(ids, vec![1, 2, 3, 4]);
}

#[test]
fn a_failure_keeps_the_others() {
    let module = module();
    let mut state = ExecutionState::new();
    state.schedule_frames(vec![frame(&module, 1.0)], 0);
    state.schedule_frames(vec![frame(&module, 2.0)], 0);
    let mut pass = SchedulerPass::begin(&mut state, 0);
    assert!(pass.next(&mut state, false).is_some());
    pass.settle(&mut state, ContinuationOutcome::Failed);
    assert_eq!(state.scheduler.spawns.len(), 1);
    assert_eq!(state.scheduler.spawns[0].frames.id, VmContinuationId(1));
    assert!(pass.next(&mut state, false).is_none());
}

#[test]
fn walks_count_for_the_next_tick() {
    let mut state = ExecutionState::new();
    assert_eq!(state.next_scheduled_tick(), None);
    let path = state.names.mob_path;
    let mob = state.heap.allocate_datum(path);
    state.native_walks.insert(mob.0, NativeWalk { due_tick: 6, target: None });
    assert_eq!(state.next_scheduled_tick(), Some(6));
    assert_eq!(state.scheduled_task_count(), 0);
}

#[test]
fn budgets_end_in_an_error_or_a_yield() {
    let module = module();
    let mut state = ExecutionState::new();
    let frames = vec![frame(&module, 1.0)];
    match settle_budget(&module, &mut state, &frames, StepBudgetBehavior::Error, 40) {
        Err(error) => assert_eq!(error.fault, Fault::BudgetExhausted(40)),
        Ok(()) => panic!("the budget is a limit"),
    }
    let yielded = settle_budget(
        &module,
        &mut state,
        &frames,
        StepBudgetBehavior::YieldScheduledContinuation,
        40,
    );
    assert!(yielded.is_ok());
}

#[test]
fn metrics_count_what_waits() {
    let module = module();
    let mut state = ExecutionState::new();
    let empty = state.continuation_metrics();
    assert_eq!((empty.continuations, empty.frames, empty.cold_frames), (0, 0, 0));
    let mut rare = frame(&module, 1.0);
    rare.set_caller_result_override(Some(number(5.0)));
    state.schedule_frames(vec![frame(&module, 2.0), rare], 3);
    let metrics = state.continuation_metrics();
    assert_eq!((metrics.continuations, metrics.frames, metrics.cold_frames), (1, 2, 1));
    assert!(metrics.retained_values >= 8);
    assert!(metrics.frame_header_bytes <= 1_024);
    assert!(metrics.rare_inline_bytes_avoided >= 200);
    assert_eq!(state.declared_field_quickening_metrics().hits, 0);
    assert_eq!(
        state.static_field_quickening_metrics(),
        state.declared_field_quickening_metrics()
    );
}

#[test]
fn reports_show_the_innermost_frames() {
    let module = module();
    let mut state = ExecutionState::new();
    state.schedule_frames(vec![frame(&module, 1.0), frame(&module, 2.0)], 3);
    let entries = state.bounded_scheduler_progress(&module);
    assert_eq!(entries.len(), 2);
    assert_eq!(entries[0].procedure, "/datum/parsed_map/proc/load");
    assert_eq!(entries[0].source, Some(SourceSpan { start: 4, end: 9 }));
    assert_eq!((entries[0].depth, entries[0].frame, entries[0].due_tick), (2, 0, 3));
    assert_eq!(entries[0].parameters, vec![("first".to_string(), number(2.0))]);
    assert_eq!(entries[1].parameters, vec![("first".to_string(), number(1.0))]);
}

fn shown_text(state: &mut ExecutionState, text: &str) -> String {
    let value = Value::Text(state.symbols.intern(text));
    match state.bounded_progress_value(value) {
        BoundedValue::Text(shown) => shown,
        _ => panic!("a text is shown as one"),
    }
}

#[test]
fn reports_bound_their_values() {
    let mut state = ExecutionState::new();
    let long = "x".repeat(60);
    assert_eq!(shown_text(&mut state, &long).chars().count(), 49);
    assert_eq!(shown_text(&mut state, "short"), "short");
    let list = state.create_list(&vec![number(1.0), number(2.0)]);
    assert!(matches!(state.bounded_progress_value(Value::List(list)), BoundedValue::List(2)));
    assert!(state.heap.destroy_list(list));
    assert!(matches!(state.bounded_progress_value(Value::List(list)), BoundedValue::StaleList));
    let path = state.names.mob_path;
    let mob: DatumId = state.heap.allocate_datum(path);
    assert!(matches!(
        state.bounded_progress_value(Value::Datum(mob)),
        BoundedValue::Datum(TypePath(symbol)) if symbol == path.0
    ));
    assert_eq!(state.heap.destroy_datum(mob), Ok(()));
    assert!(matches!(state.bounded_progress_value(Value::Datum(mob)), BoundedValue::StaleDatum));
    assert!(matches!(
        state.bounded_progress_value(Value::Null),
        BoundedValue::Whole(Value::Null)
    ));
}

#[test]
fn map_loaders_are_reported_in_detail() {
    let mut state = ExecutionState::new();
    let path = TypePath(state.symbols.intern("/datum/parsed_map"));
    let loader = state.heap.allocate_datum(path);
    let bounds = FieldName(state.symbols.intern("bounds"));
    let format = FieldName(state.symbols.intern("map_format"));
    assert_eq!(state.heap.set_datum_field(loader, bounds, number(2.0)), Ok(()));
    assert_eq!(state.heap.set_datum_field(loader, format, number(1.0)), Ok(()));
    let source = Value::Datum(loader);
    assert_eq!(
        state.map_loader_progress("/datum/parsed_map/proc/load", source),
        vec![(format, number(1.0)), (bounds, number(2.0))]
    );
    assert!(state.map_loader_progress("/mob/proc/load", source).is_empty());
    assert!(state.map_loader_progress("/datum/parsed_map/proc/load", Value::Null).is_empty());
}

#[test]
fn delays_become_ticks() {
    let ticks = |delay: f32, lag: Option<f32>| {
        dm_vm::delays::delay_ticks(
            Number { bits: delay.to_bits() },
            lag.map(|lag| Number { bits: lag.to_bits() }),
        )
    };
    let expected = |delay: f32, lag: f32| {
        if delay.is_finite() && delay > 0.0 {
            ((f64::from(delay) / f64::from(lag)).floor() as u64).max(1)
        } else {
            0
        }
    };
    let values = [
        0.0f32, -1.0, 0.1, 0.3, 0.5, 1.0, 1.5, 3.0, 10.0, 16_777_215.0, 1.0e10, 3.4e38, 1.0e-45,
        1.2e-38, f32::NAN, f32::INFINITY,
    ];
    for delay in values {
        assert_eq!(ticks(delay, None), expected(delay, 1.0));
        for lag in values {
            let usable = if lag.is_finite() && lag > 0.0 { lag } else { 1.0 };
            assert_eq!(ticks(delay, Some(lag)), expected(delay, usable));
        }
    }
    assert_eq!(ticks(1.0, Some(0.5)), 2);
    assert_eq!(ticks(0.2, Some(0.5)), 1);
}

#[test]
fn scheduled_delays_count_from_the_current_tick() {
    let module = module();
    let mut state = ExecutionState::new();
    state.scheduler.tick = 7;
    state.schedule_after(
        vec![frame(&module, 1.0)],
        Number { bits: 5.0f32.to_bits() },
        Some(Number { bits: 0.5f32.to_bits() }),
    );
    assert_eq!(state.next_scheduled_tick(), Some(17));
}

#[test]
fn unfit_modules_and_frames_are_noticed() {
    let sound = module();
    assert!(dm_vm::soundness::check_module(&sound));
    let mut frames = vec![frame(&sound, 1.0)];
    assert!(dm_vm::soundness::check_frames(&sound, &frames));
    frames[0].declared_argument_count = 9;
    assert!(!dm_vm::soundness::check_frames(&sound, &frames));
    let mut unsound = module();
    unsound.procedures[0].parameter_count = 0;
    assert!(!dm_vm::soundness::check_module(&unsound));
}
