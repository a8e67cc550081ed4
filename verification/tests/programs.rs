//! Programs, instruction by instruction and in slices.

use dm_vm::activation::make_frame;
use dm_vm::calling::CallTarget;
use dm_vm::constructing::Construction;
use dm_vm::dispatch::Reply;
use dm_vm::fault::{Fault, RuntimeError};
use dm_vm::frame::{CallFrame, ExecutionContext};
use dm_vm::interpreter::step;
use dm_vm::messages::describe;
use dm_vm::program::{
    CompoundListIndexOperator, Instruction, ListEntryKind, Module, NativeOperation, ProcedureId,
    Program, SourceSpan,
};
use dm_vm::running::{run, Pause, Slice};
use dm_vm::state::ExecutionState;
use dm_vm::unwinding::Flow;
use dm_vm::value::{FieldName, Number, TypePath, Value};

fn bits(value: f32) -> Number {
    Number { bits: value.to_bits() }
}

fn number(value: f32) -> Value {
    Value::Number(bits(value))
}

fn program(parameters: &[&str], locals: usize, instructions: Vec<Instruction>) -> Program {
    Program {
        wait_for: true,
        parameter_count: parameters.len(),
        parameter_names: parameters.iter().map(|name| name.to_string()).collect(),
        verb_parameter_types: Vec::new(),
        verb_name: None,
        local_count: locals,
        source_spans: (0..instructions.len())
            .map(|at| SourceSpan { start: at, end: at + 1 })
            .collect(),
        instructions,
    }
}

fn module(procedures: Vec<Program>) -> Module {
    Module {
        identity: 1,
        paths: (0..procedures.len()).map(|at| format!("/proc/p{at}")).collect(),
        procedures,
        procedure_types: Vec::new(),
    }
}

fn start(module: &Module, arguments: &[Value]) -> Vec<CallFrame> {
    vec![make_frame(
        ProcedureId(0),
        &module.procedures[0],
        &arguments.to_vec(),
        &ExecutionContext::default(),
    )]
}

fn execute(
    module: &Module,
    state: &mut ExecutionState,
    arguments: &[Value],
) -> Result<Pause, RuntimeError> {
    let mut frames = start(module, arguments);
    let mut slice = Slice::new(10_000, false);
    run(module, state, &mut frames, 64, &mut slice, None)
}

fn value_of(result: Result<Pause, RuntimeError>) -> Value {
    match result {
        Ok(Pause::Complete(value)) => value,
        Ok(_) => panic!("the run paused"),
        Err(error) => panic!("the run failed: {:?}", error.fault),
    }
}

fn fault_of(result: Result<Pause, RuntimeError>) -> Fault {
    match result {
        Err(error) => error.fault,
        Ok(_) => panic!("the run did not fail"),
    }
}

fn call(procedure: usize, argument_count: u16) -> Instruction {
    Instruction::Call {
        procedure: ProcedureId(procedure),
        argument_count,
        argument_names: Vec::new(),
    }
}

#[test]
fn a_call_hands_its_value_to_the_caller() {
    let module = module(vec![
        program(
            &[],
            1,
            vec![
                Instruction::PushNumber(bits(3.0)),
                Instruction::StoreLocal(0),
                Instruction::LoadLocal(0),
                call(1, 1),
                Instruction::Return,
            ],
        ),
        program(&["given"], 1, vec![Instruction::LoadLocal(0), Instruction::Return]),
    ]);
    let mut state = ExecutionState::new();
    assert_eq!(value_of(execute(&module, &mut state, &[])), number(3.0));
}

#[test]
fn depth_is_limited() {
    let module = module(vec![program(&[], 0, vec![call(0, 0), Instruction::Return])]);
    let mut state = ExecutionState::new();
    assert_eq!(fault_of(execute(&module, &mut state, &[])), Fault::CallDepth(64));
}

#[test]
fn errors_name_the_calls_that_led_to_them() {
    let module = module(vec![
        program(&[], 0, vec![call(1, 0), Instruction::Return]),
        program(&[], 0, vec![Instruction::PushNull, Instruction::Crash]),
    ]);
    let mut state = ExecutionState::new();
    match execute(&module, &mut state, &[]) {
        Err(error) => {
            assert_eq!(error.fault, Fault::Crash(Value::Null));
            assert_eq!(error.instruction, 1);
            assert_eq!(error.source_span, Some(SourceSpan { start: 1, end: 2 }));
            let paths: Vec<&str> =
                error.call_stack.iter().map(|trace| trace.procedure.as_str()).collect();
            assert!(paths.contains(&"/proc/p0") && paths.contains(&"/proc/p1"));
        }
        Ok(_) => panic!("the run did not fail"),
    }
}

#[test]
fn exceptions_unwind_to_the_innermost_handler() {
    let module = module(vec![
        program(
            &[],
            1,
            vec![
                Instruction::BeginTry { catch: 4, end: 3, local: Some(0) },
                call(1, 0),
                Instruction::Pop,
                Instruction::EndTry,
                Instruction::LoadLocal(0),
                Instruction::Return,
            ],
        ),
        program(&[], 0, vec![Instruction::PushNumber(bits(9.0)), Instruction::Throw]),
    ]);
    let mut state = ExecutionState::new();
    assert_eq!(value_of(execute(&module, &mut state, &[])), number(9.0));
}

#[test]
fn exceptions_without_a_handler_end_the_run() {
    let module = module(vec![program(
        &[],
        0,
        vec![Instruction::PushNumber(bits(2.0)), Instruction::Throw],
    )]);
    let mut state = ExecutionState::new();
    assert_eq!(
        fault_of(execute(&module, &mut state, &[])),
        Fault::UncaughtException(number(2.0))
    );
}

#[test]
fn ending_a_try_that_was_not_begun_fails() {
    let module = module(vec![program(&[], 0, vec![Instruction::EndTry])]);
    let mut state = ExecutionState::new();
    assert_eq!(fault_of(execute(&module, &mut state, &[])), Fault::EndTryWithoutTry);
}

#[test]
fn missing_operands_and_slots_are_faults() {
    let cases = vec![
        (vec![Instruction::Return], Fault::StackUnderflow),
        (vec![Instruction::LoadLocal(7)], Fault::InvalidLocalSlot(7)),
        (vec![Instruction::Jump(9)], Fault::JumpTarget(9)),
        (vec![Instruction::PushNull], Fault::ProgramEnded),
        (vec![call(5, 0)], Fault::UnknownProcedure(ProcedureId(5))),
        (vec![Instruction::PushNull, Instruction::Sleep], Fault::SleepDelay(Value::Null)),
        (
            vec![Instruction::PushNull, Instruction::Spawn { entry: 0 }],
            Fault::SpawnDelay(Value::Null),
        ),
        (
            vec![Instruction::PushNumber(bits(1.0)), Instruction::ListLength],
            Fault::ListLengthOperand(number(1.0)),
        ),
    ];
    for (instructions, fault) in cases {
        let module = module(vec![program(&[], 0, instructions)]);
        let mut state = ExecutionState::new();
        assert_eq!(fault_of(execute(&module, &mut state, &[])), fault);
    }
}

#[test]
fn branches_follow_the_truth_of_values() {
    let module = module(vec![program(
        &["given"],
        1,
        vec![
            Instruction::LoadLocal(0),
            Instruction::JumpIfFalse(4),
            Instruction::PushNumber(bits(1.0)),
            Instruction::Return,
            Instruction::PushNumber(bits(2.0)),
            Instruction::Return,
        ],
    )]);
    let mut state = ExecutionState::new();
    let empty = Value::Text(state.symbols.intern(""));
    let word = Value::Text(state.symbols.intern("word"));
    for (given, expected) in [
        (number(5.0), 1.0),
        (number(0.0), 2.0),
        (Value::Null, 2.0),
        (empty, 2.0),
        (word, 1.0),
    ] {
        assert_eq!(value_of(execute(&module, &mut state, &[given])), number(expected));
    }
}

#[test]
fn list_literals_hold_entries_and_associations() {
    let mut state = ExecutionState::new();
    let key = state.symbols.intern("key");
    let module = module(vec![program(
        &[],
        1,
        vec![
            Instruction::PushNumber(bits(4.0)),
            Instruction::PushText(key),
            Instruction::PushNumber(bits(5.0)),
            Instruction::MakeListEntries(vec![
                ListEntryKind::Positional,
                ListEntryKind::Associative,
            ]),
            Instruction::StoreLocal(0),
            Instruction::LoadLocal(0),
            Instruction::PushText(key),
            Instruction::IndexList,
            Instruction::Return,
        ],
    )]);
    assert_eq!(value_of(execute(&module, &mut state, &[])), number(5.0));
}

#[test]
fn list_elements_are_combined_in_place() {
    let mut state = ExecutionState::new();
    let module = module(vec![program(
        &[],
        1,
        vec![
            Instruction::PushNumber(bits(12.0)),
            Instruction::MakeList(1),
            Instruction::StoreLocal(0),
            Instruction::LoadLocal(0),
            Instruction::PushNumber(bits(1.0)),
            Instruction::PushNumber(bits(10.0)),
            Instruction::CompoundListIndexKeep(CompoundListIndexOperator::BitAnd),
            Instruction::Return,
        ],
    )]);
    assert_eq!(value_of(execute(&module, &mut state, &[])), number(8.0));
}

fn iterating(values: &[f32]) -> Module {
    let mut instructions: Vec<Instruction> =
        values.iter().map(|value| Instruction::PushNumber(bits(*value))).collect();
    instructions.push(Instruction::MakeList(values.len() as u16));
    instructions.push(Instruction::PrepareIteration);
    instructions.push(Instruction::StoreLocal(0));
    instructions.push(Instruction::PushNumber(bits(1.0)));
    instructions.push(Instruction::StoreLocal(1));
    let header = instructions.len();
    instructions.push(Instruction::NextLocalListIteration {
        list_slot: 0,
        index_slot: 1,
        item_slot: 2,
        exit: header + 9,
    });
    for _ in 0..6 {
        instructions.push(Instruction::PushNull);
    }
    instructions.push(Instruction::LoadLocal(2));
    instructions.push(Instruction::Return);
    instructions.push(Instruction::PushNumber(bits(99.0)));
    instructions.push(Instruction::Return);
    module(vec![program(&[], 3, instructions)])
}

#[test]
fn iteration_reads_the_indexed_entry_or_leaves() {
    let mut state = ExecutionState::new();
    assert_eq!(value_of(execute(&iterating(&[6.0, 7.0]), &mut state, &[])), number(6.0));
    assert_eq!(value_of(execute(&iterating(&[]), &mut state, &[])), number(99.0));
}

#[test]
fn iteration_goes_over_a_copy() {
    let mut state = ExecutionState::new();
    let list = state.heap.allocate_list();
    assert_eq!(state.heap.list_add(list, number(1.0)), Ok(()));
    let module = module(vec![program(
        &["given"],
        1,
        vec![Instruction::LoadLocal(0), Instruction::PrepareIteration, Instruction::Return],
    )]);
    match value_of(execute(&module, &mut state, &[Value::List(list)])) {
        Value::List(copy) => {
            assert_ne!(copy, list);
            assert_eq!(state.heap.list_add(list, number(2.0)), Ok(()));
            assert_eq!(state.heap.list(copy).map(|values| values.len()).ok(), Some(1));
        }
        _ => panic!("nothing to iterate over"),
    }
}

#[test]
fn globals_are_stored_and_listed() {
    let mut state = ExecutionState::new();
    let name = FieldName(state.symbols.intern("score"));
    let absent = FieldName(state.symbols.intern("absent"));
    let module = module(vec![program(
        &[],
        0,
        vec![
            Instruction::PushNumber(bits(8.0)),
            Instruction::StoreGlobal(name),
            Instruction::LoadGlobal(name),
            Instruction::Return,
        ],
    )]);
    assert_eq!(value_of(execute(&module, &mut state, &[])), number(8.0));
    assert_eq!(state.global(name), Some(number(8.0)));
    assert_eq!(state.globals(), vec![(name, number(8.0))]);
    assert_eq!(state.delete_global(name), Some(number(8.0)));
    assert_eq!(state.global(name), None);
    let reading = self::module(vec![program(&[], 0, vec![Instruction::LoadGlobal(absent)])]);
    assert_eq!(fault_of(execute(&reading, &mut state, &[])), Fault::GlobalAbsent(absent));
}

#[test]
fn static_locals_outlive_calls() {
    let mut state = ExecutionState::new();
    let module = module(vec![program(
        &[],
        1,
        vec![
            Instruction::LoadStaticLocalOrJump { slot: 0, target: 4 },
            Instruction::PushNumber(bits(11.0)),
            Instruction::InitializeStaticLocal(0),
            Instruction::StoreLocal(0),
            Instruction::LoadLocal(0),
            Instruction::Return,
        ],
    )]);
    assert_eq!(value_of(execute(&module, &mut state, &[])), number(11.0));
    assert_eq!(value_of(execute(&module, &mut state, &[])), number(11.0));
    let kept = state.take_procedure_static_locals();
    assert_eq!(kept.len(), 1);
    assert_eq!(kept[0].1, number(11.0));
    assert!(state.take_procedure_static_locals().is_empty());
    state.set_procedure_static_locals(&kept);
    assert_eq!(state.take_procedure_static_locals(), kept);
}

#[test]
fn fields_of_null_cannot_be_read_or_written() {
    let mut state = ExecutionState::new();
    let name = state.names.loc;
    let reading = module(vec![program(
        &[],
        0,
        vec![Instruction::PushNull, Instruction::LoadField(name)],
    )]);
    assert_eq!(fault_of(execute(&reading, &mut state, &[])), Fault::FieldReadNull);
    let writing = module(vec![program(
        &[],
        0,
        vec![Instruction::PushNull, Instruction::PushNull, Instruction::StoreField(name)],
    )]);
    assert_eq!(fault_of(execute(&writing, &mut state, &[])), Fault::FieldWriteNull);
}

#[test]
fn fields_of_datums_are_written_and_read() {
    let mut state = ExecutionState::new();
    let name = FieldName(state.symbols.intern("health"));
    let path = TypePath(state.symbols.intern("/datum/thing"));
    let datum = state.heap.allocate_datum(path);
    let module = module(vec![program(
        &["thing"],
        1,
        vec![
            Instruction::LoadLocal(0),
            Instruction::PushNumber(bits(42.0)),
            Instruction::StoreField(name),
            Instruction::LoadLocal(0),
            Instruction::LoadField(name),
            Instruction::Return,
        ],
    )]);
    assert_eq!(value_of(execute(&module, &mut state, &[Value::Datum(datum)])), number(42.0));
    assert_eq!(state.heap.datum_field(datum, name), Ok(number(42.0)));
}

#[test]
fn field_reads_remember_their_slots() {
    let mut state = ExecutionState::new();
    let early = FieldName(state.symbols.intern("early"));
    let name = FieldName(state.symbols.intern("health"));
    let path = TypePath(state.symbols.intern("/datum/thing"));
    let first = state.heap.allocate_datum(path);
    let second = state.heap.allocate_datum(path);
    assert_eq!(state.heap.set_datum_field(first, name, number(1.0)), Ok(()));
    assert_eq!(state.heap.set_datum_field(second, early, number(0.0)), Ok(()));
    assert_eq!(state.heap.set_datum_field(second, name, number(2.0)), Ok(()));
    let module = module(vec![program(
        &["thing"],
        1,
        vec![Instruction::LoadLocal(0), Instruction::LoadField(name), Instruction::Return],
    )]);
    let mut read = |state: &mut ExecutionState, datum| {
        let value = value_of(execute(&module, state, &[Value::Datum(datum)]));
        let counts = state.static_field_quickening_metrics();
        (value, counts.hits, counts.misses, counts.invalidations)
    };
    assert_eq!(read(&mut state, first), (number(1.0), 0, 1, 0));
    assert_eq!(read(&mut state, first), (number(1.0), 1, 1, 0));
    assert_eq!(read(&mut state, second), (number(2.0), 1, 2, 1));
    assert_eq!(read(&mut state, second), (number(2.0), 2, 2, 1));
}

#[test]
fn the_engine_computes_what_the_library_cannot() {
    let module = module(vec![program(
        &[],
        0,
        vec![
            Instruction::PushNumber(bits(2.0)),
            Instruction::PushNumber(bits(3.0)),
            Instruction::Native { operation: NativeOperation::Power, argument_count: 2 },
            Instruction::Return,
        ],
    )]);
    let mut state = ExecutionState::new();
    let mut frames = start(&module, &[]);
    let mut slice = Slice::new(100, false);
    assert!(matches!(
        run(&module, &mut state, &mut frames, 8, &mut slice, None),
        Ok(Pause::Engine)
    ));
    let answer = Some(Reply::Value(number(8.0)));
    match run(&module, &mut state, &mut frames, 8, &mut slice, answer) {
        Ok(Pause::Complete(value)) => assert_eq!(value, number(8.0)),
        _ => panic!("the answer was not taken"),
    }
    assert_eq!(slice.executed, 4);
    assert_eq!(slice.remaining, 96);
}

#[test]
fn a_refusal_of_the_engine_is_a_fault() {
    let module = module(vec![program(
        &[],
        0,
        vec![Instruction::Native { operation: NativeOperation::Rand, argument_count: 0 }],
    )]);
    let mut state = ExecutionState::new();
    let why = state.symbols.intern("no dice");
    let mut frames = start(&module, &[]);
    assert!(matches!(step(&module, &mut state, &mut frames, 8, None), Ok(Flow::Engine)));
    match step(&module, &mut state, &mut frames, 8, Some(Reply::Failed(why))) {
        Err(fault) => assert_eq!(fault, Fault::Host(why)),
        Ok(_) => panic!("the refusal was ignored"),
    }
}

#[test]
fn constructors_run_before_their_datum_is_handed_on() {
    let mut state = ExecutionState::new();
    let path = TypePath(state.symbols.intern("/datum/thing"));
    let module = module(vec![
        program(
            &[],
            0,
            vec![
                Instruction::PushTypePath(path),
                Instruction::PushNumber(bits(5.0)),
                Instruction::AllocateDatum { argument_count: 1, argument_names: Vec::new() },
                Instruction::Return,
            ],
        ),
        program(&["given"], 1, vec![Instruction::LoadLocal(0), Instruction::Return]),
    ]);
    let mut frames = start(&module, &[]);
    let mut slice = Slice::new(100, false);
    assert!(matches!(
        run(&module, &mut state, &mut frames, 8, &mut slice, None),
        Ok(Pause::Engine)
    ));
    let made = Value::Datum(state.heap.allocate_datum(path));
    let constructor = CallTarget {
        procedure: ProcedureId(1),
        context: ExecutionContext::new(made, Value::Null),
    };
    let reply = Reply::Made(Construction { value: made, constructor: Some(constructor) });
    match run(&module, &mut state, &mut frames, 8, &mut slice, Some(reply)) {
        Ok(Pause::Complete(value)) => assert_eq!(value, made),
        _ => panic!("the datum was not handed on"),
    }
}

#[test]
fn sleeping_calls_that_nobody_waits_for_detach() {
    let mut sleeper = program(
        &[],
        0,
        vec![
            Instruction::PushNumber(bits(4.0)),
            Instruction::StoreResult,
            Instruction::PushNumber(bits(10.0)),
            Instruction::Sleep,
            Instruction::Return,
        ],
    );
    sleeper.wait_for = false;
    let module = module(vec![program(&[], 0, vec![call(1, 0), Instruction::Return]), sleeper]);
    let mut state = ExecutionState::new();
    let mut frames = start(&module, &[]);
    let mut slice = Slice::new(100, false);
    match run(&module, &mut state, &mut frames, 8, &mut slice, None) {
        Ok(Pause::Detach { frames: detached, delay, complete }) => {
            assert_eq!(detached.len(), 1);
            assert!(detached[0].detached_waitfor);
            assert_eq!(delay, bits(10.0));
            assert_eq!(complete, None);
        }
        _ => panic!("the call did not detach"),
    }
    assert_eq!(frames.len(), 1);
    match run(&module, &mut state, &mut frames, 8, &mut slice, None) {
        Ok(Pause::Complete(value)) => assert_eq!(value, number(4.0)),
        _ => panic!("the caller did not go on"),
    }
}

#[test]
fn detached_calls_sleep_like_any_other() {
    let mut sleeper = program(
        &[],
        0,
        vec![
            Instruction::PushNumber(bits(10.0)),
            Instruction::Sleep,
            Instruction::PushNumber(bits(20.0)),
            Instruction::Sleep,
            Instruction::Return,
        ],
    );
    sleeper.wait_for = false;
    let module = module(vec![program(&[], 0, vec![call(1, 0), Instruction::Return]), sleeper]);
    let mut state = ExecutionState::new();
    let mut frames = start(&module, &[]);
    let mut slice = Slice::new(100, false);
    match run(&module, &mut state, &mut frames, 8, &mut slice, None) {
        Ok(Pause::Detach { frames: mut detached, .. }) => {
            match run(&module, &mut state, &mut detached, 8, &mut slice, None) {
                Ok(Pause::Sleep(delay)) => assert_eq!(delay, bits(20.0)),
                _ => panic!("the detached call did not sleep"),
            }
            assert_eq!(detached.len(), 1);
        }
        _ => panic!("the call did not detach"),
    }
}

#[test]
fn interrupted_runs_end_as_whole_ones_do() {
    let count_down = program(
        &["left"],
        2,
        vec![
            Instruction::LoadLocal(0),
            Instruction::JumpIfFalse(4),
            Instruction::LoadLocal(1),
            Instruction::StoreLocal(0),
            Instruction::LoadLocal(1),
            Instruction::JumpIfFalse(8),
            Instruction::PushNumber(bits(9.0)),
            Instruction::Return,
            Instruction::PushNumber(bits(5.0)),
            Instruction::Return,
        ],
    );
    let module = module(vec![count_down]);
    let whole = execute(&module, &mut ExecutionState::new(), &[number(1.0)]);
    assert_eq!(value_of(whole), number(5.0));
    let mut state = ExecutionState::new();
    let mut frames = start(&module, &[number(1.0)]);
    let mut pauses: usize = 0;
    loop {
        let mut slice = Slice::new(3, false);
        match run(&module, &mut state, &mut frames, 8, &mut slice, None) {
            Ok(Pause::Exhausted) => pauses += 1,
            Ok(Pause::Complete(value)) => {
                assert_eq!(value, number(5.0));
                break;
            }
            _ => panic!("the run ended otherwise"),
        }
    }
    assert_eq!(pauses, 2);
}

#[test]
fn spawned_frames_start_with_an_empty_stack() {
    let module = module(vec![program(
        &[],
        0,
        vec![
            Instruction::PushNumber(bits(1.0)),
            Instruction::PushNumber(bits(3.0)),
            Instruction::Spawn { entry: 4 },
            Instruction::Return,
            Instruction::PushNumber(bits(2.0)),
            Instruction::Return,
        ],
    )]);
    let mut state = ExecutionState::new();
    let mut frames = start(&module, &[]);
    let mut slice = Slice::new(100, false);
    match run(&module, &mut state, &mut frames, 8, &mut slice, None) {
        Ok(Pause::Spawn { frame, delay }) => {
            assert_eq!(delay, bits(3.0));
            assert_eq!(frame.instruction, 4);
            let mut beside = vec![frame];
            match run(&module, &mut state, &mut beside, 8, &mut slice, None) {
                Ok(Pause::Complete(value)) => assert_eq!(value, number(2.0)),
                _ => panic!("the spawned frame did not complete"),
            }
        }
        _ => panic!("nothing was spawned"),
    }
    match run(&module, &mut state, &mut frames, 8, &mut slice, None) {
        Ok(Pause::Complete(value)) => assert_eq!(value, number(1.0)),
        _ => panic!("the spawner did not go on"),
    }
}

#[test]
fn slices_end_when_their_steps_do() {
    let module = module(vec![program(&[], 0, vec![Instruction::Jump(0)])]);
    let mut state = ExecutionState::new();
    let mut frames = start(&module, &[]);
    let mut slice = Slice::new(10, false);
    assert!(matches!(
        run(&module, &mut state, &mut frames, 8, &mut slice, None),
        Ok(Pause::Exhausted)
    ));
    assert_eq!((slice.executed, slice.remaining), (10, 0));
    assert_eq!(frames.len(), 1);
}

#[test]
fn watched_clocks_are_looked_at_first() {
    let module = module(vec![program(&[], 0, vec![Instruction::Jump(0)])]);
    let mut state = ExecutionState::new();
    let mut frames = start(&module, &[]);
    let mut slice = Slice::new(1_000, true);
    assert!(matches!(
        run(&module, &mut state, &mut frames, 8, &mut slice, None),
        Ok(Pause::Poll)
    ));
    assert_eq!(slice.executed, 0);
    assert!(matches!(
        run(&module, &mut state, &mut frames, 8, &mut slice, None),
        Ok(Pause::Poll)
    ));
    assert_eq!(slice.executed, 256);
}

#[test]
fn assigned_locals_follow_their_references() {
    let mut state = ExecutionState::new();
    let module = module(vec![
        program(
            &[],
            1,
            vec![
                Instruction::PushNumber(bits(1.0)),
                Instruction::StoreLocal(0),
                Instruction::AddressLocal(0),
                call(1, 1),
                Instruction::Pop,
                Instruction::LoadLocal(0),
                Instruction::Return,
            ],
        ),
        program(
            &["target"],
            1,
            vec![
                Instruction::PushNumber(bits(6.0)),
                Instruction::StoreLocal(0),
                Instruction::PushNull,
                Instruction::Return,
            ],
        ),
    ]);
    assert_eq!(value_of(execute(&module, &mut state, &[])), number(6.0));
}

#[test]
fn faults_say_what_went_wrong() {
    let mut state = ExecutionState::new();
    let name = state.symbols.intern("Move");
    let cases = [
        (Fault::StackUnderflow, "bytecode stack underflow", None),
        (Fault::CallDepth(64), "maximum call depth 64 exceeded", None),
        (Fault::BudgetExhausted(1_000), "instruction budget of 1000 exhausted", None),
        (
            Fault::ArgsPosition { position: 3, length: 2 },
            "DM args position 3 exceeds length 2",
            None,
        ),
        (Fault::InvalidLocalSlot(7), "invalid local slot 7", None),
        (Fault::NativeMethodSrc(name), "native method Move requires a datum src", None),
        (Fault::Crash(number(4.0)), "CRASH: ", Some(number(4.0))),
        (
            Fault::NativeOperands(NativeOperation::Round),
            "invalid round builtin stack",
            None,
        ),
        (Fault::Host(name), "Move", None),
    ];
    for (fault, text, value) in cases {
        match describe(&state.symbols, fault) {
            Some(message) => {
                assert_eq!(message.text, text);
                assert_eq!(message.value, value);
            }
            None => panic!("the fault says nothing"),
        }
    }
    assert!(describe(&state.symbols, Fault::JumpTarget(1)).is_none());
}
