//! Call frames: their size, and where their rare state is kept.

use dm_vm::activation::{frame_context, make_frame, make_frame_named};
use dm_vm::frame::PackedNumericState;
use dm_vm::frame::{CallFrame, ExceptionHandler, ExecutionContext};
use dm_vm::program::{Instruction, ProcedureId, Program, SourceSpan};
use dm_vm::roots::{append_frame_roots, copy_frame, preserve_reentrant_frame_roots};
use dm_vm::value::{Number, Symbol, Value};

fn number(value: f32) -> Value {
    Value::Number(Number { bits: value.to_bits() })
}

fn returning(parameters: &[&str]) -> Program {
    Program {
        wait_for: true,
        parameter_count: parameters.len(),
        parameter_names: parameters.iter().map(|name| name.to_string()).collect(),
        verb_parameter_types: Vec::new(),
        verb_name: None,
        local_count: parameters.len(),
        source_spans: vec![SourceSpan { start: 0, end: 1 }],
        instructions: vec![Instruction::Return],
    }
}

fn check_rare_state() {
    let program = returning(&[]);
    let mut frame = make_frame(ProcedureId(0), &program, &Vec::new(), &ExecutionContext::default());
    assert!(frame.cold.is_none());
    frame.set_caller_result_override(Some(number(7.0)));
    assert_eq!(frame.caller_result_override(), Some(number(7.0)));
    assert!(frame.cold.is_some());
    frame.set_caller_result_override(None);
    assert!(frame.cold.is_none());
}

#[test]
fn execution_call_frame_hot_header_stays_within_one_kibibyte() {
    assert!(
        std::mem::size_of::<CallFrame>() <= 1_024,
        "cold state leaked back into the hot call-frame header"
    );
}

#[test]
fn frame_call_frame_hot_header_stays_within_one_kibibyte() {
    assert!(
        std::mem::size_of::<CallFrame>() <= 1_024,
        "cold state leaked back into the hot call-frame header"
    );
}

#[test]
fn execution_rare_frame_state_allocates_cold_storage_only_while_live() {
    check_rare_state();
}

#[test]
fn frame_rare_frame_state_allocates_cold_storage_only_while_live() {
    check_rare_state();
}

#[test]
fn handlers_live_in_cold_storage() {
    let program = returning(&[]);
    let mut frame = make_frame(ProcedureId(0), &program, &Vec::new(), &ExecutionContext::default());
    let handler = ExceptionHandler { start: 0, end: 3, catch: 4, local: None, stack_depth: 0 };
    frame.push_exception_handler(handler);
    assert!(frame.cold.is_some());
    assert_eq!(frame.covering_handler(), Some((0, handler)));
    assert_eq!(frame.pop_exception_handler(), Some(handler));
    assert_eq!(frame.pop_exception_handler(), None);
    frame.prune_empty_cold();
    assert!(frame.cold.is_none());
}

#[test]
fn named_arguments_take_their_parameters_places() {
    let program = returning(&["first", "second"]);
    let names = vec![Some("second".to_string())];
    let frame = make_frame_named(
        ProcedureId(0),
        &program,
        &vec![number(4.0)],
        &names,
        &ExecutionContext::default(),
    );
    let mut roots: Vec<Value> = Vec::new();
    append_frame_roots(&mut roots, &frame);
    assert_eq!(&roots[..2], &[Value::Null, number(4.0)]);
}

#[test]
fn contexts_come_back_out_of_frames() {
    let program = returning(&[]);
    let context = ExecutionContext::new(number(1.0), number(2.0));
    let frame = make_frame(ProcedureId(0), &program, &Vec::new(), &context);
    assert_eq!(frame_context(&frame), context);
}

#[test]
fn preserved_roots_are_those_of_the_frames() {
    let program = returning(&["only"]);
    let context = ExecutionContext::new(number(1.0), number(2.0));
    let frame = make_frame(ProcedureId(0), &program, &vec![number(3.0)], &context);
    let copy = copy_frame(&frame);
    let mut own: Vec<Value> = Vec::new();
    append_frame_roots(&mut own, &copy);
    assert!(own.contains(&number(1.0)) && own.contains(&number(2.0)) && own.contains(&number(3.0)));
    let mut host = vec![number(9.0)];
    let mark = preserve_reentrant_frame_roots(&mut host, &vec![frame]);
    assert_eq!(mark, 1);
    assert_eq!(&host[1..], &own[..]);
    host.truncate(mark);
    assert_eq!(host, vec![number(9.0)]);
}

#[test]
fn numeric_frames_are_packed_and_unpacked() {
    let program = returning(&["first", "second"]);
    let mut frame = make_frame(
        ProcedureId(0),
        &program,
        &vec![number(1.5), Value::Null],
        &ExecutionContext::default(),
    );
    let packed = PackedNumericState::from_rich(&frame).unwrap();
    assert_eq!(packed.locals[0], Some(Number { bits: 1.5f32.to_bits() }));
    assert_eq!(packed.locals[1], None);
    packed.materialize(&mut frame);
    let mut roots: Vec<Value> = Vec::new();
    append_frame_roots(&mut roots, &frame);
    assert_eq!(roots[0], number(1.5));
    assert_eq!(roots[1], Value::Null);
    frame.result = Value::Text(Symbol(0));
    assert!(PackedNumericState::from_rich(&frame).is_none());
}
