//! Native operations: their operands, their results and what they make.

use dm_vm::activation::make_frame;
use dm_vm::calling::CallTarget;
use dm_vm::constructing::Construction;
use dm_vm::dispatch::Reply;
use dm_vm::fault::Fault;
use dm_vm::filters::animate_arguments;
use dm_vm::frame::{CallFrame, ExecutionContext};
use dm_vm::heap::{HeapError, ModifiedTypePath};
use dm_vm::making::replacement_arguments;
use dm_vm::maps::SymbolMap;
use dm_vm::program::{
    Instruction, Module, NativeOperation, ProcedureId, Program, TypePredicateKind,
};
use dm_vm::routing::{read_dynamic, route_dynamic, DatumKinds, DynamicCall, Route};
use dm_vm::running::{run, Pause, Slice};
use dm_vm::scheduling::ContinuationOutcome;
use dm_vm::state::ExecutionState;
use dm_vm::typelists::{list_types, names_procedures, read_selectors};
use dm_vm::value::{DatumId, FieldName, ListId, Number, Symbol, TypePath, Value};

fn bits(value: f32) -> Number {
    Number { bits: value.to_bits() }
}

fn number(value: f32) -> Value {
    Value::Number(bits(value))
}

fn program(locals: usize, parameters: usize, instructions: Vec<Instruction>) -> Program {
    Program {
        wait_for: true,
        parameter_count: parameters,
        parameter_names: (0..parameters).map(|at| format!("p{at}")).collect(),
        verb_parameter_types: Vec::new(),
        verb_name: None,
        local_count: locals,
        source_spans: Vec::new(),
        instructions,
    }
}

fn module(paths: &[&str], procedures: Vec<Program>) -> Module {
    Module {
        identity: 1,
        paths: paths.iter().map(|path| path.to_string()).collect(),
        procedures,
        procedure_types: Vec::new(),
    }
}

fn native(operation: NativeOperation, argument_count: u16) -> Instruction {
    Instruction::Native { operation, argument_count }
}

/// A procedure that pushes its arguments, executes one instruction and returns.
fn around(count: usize, instruction: Instruction) -> Module {
    let mut instructions: Vec<Instruction> =
        (0..count).map(|at| Instruction::LoadLocal(at as u16)).collect();
    instructions.push(instruction);
    instructions.push(Instruction::Return);
    module(&["/proc/test"], vec![program(count, count, instructions)])
}

struct Trial {
    module: Module,
    frames: Vec<CallFrame>,
    slice: Slice,
}

impl Trial {
    fn new(arguments: &[Value], instruction: Instruction) -> Trial {
        let module = around(arguments.len(), instruction);
        let frames = vec![make_frame(
            ProcedureId(0),
            &module.procedures[0],
            &arguments.to_vec(),
            &ExecutionContext::default(),
        )];
        Trial { module, frames, slice: Slice::new(1_000, false) }
    }

    fn go(&mut self, state: &mut ExecutionState, reply: Option<Reply>) -> Result<Pause, Fault> {
        run(&self.module, state, &mut self.frames, 8, &mut self.slice, reply)
            .map_err(|error| error.fault)
    }
}

fn result(state: &mut ExecutionState, arguments: &[Value], instruction: Instruction) -> Value {
    match Trial::new(arguments, instruction).go(state, None) {
        Ok(Pause::Complete(value)) => value,
        Ok(_) => panic!("the engine was asked"),
        Err(fault) => panic!("the run failed: {fault:?}"),
    }
}

fn fault(state: &mut ExecutionState, arguments: &[Value], instruction: Instruction) -> Fault {
    match Trial::new(arguments, instruction).go(state, None) {
        Err(fault) => fault,
        Ok(_) => panic!("the run did not fail"),
    }
}

fn asks(state: &mut ExecutionState, arguments: &[Value], instruction: Instruction) -> bool {
    matches!(Trial::new(arguments, instruction).go(state, None), Ok(Pause::Engine))
}

fn list_of(state: &mut ExecutionState, values: &[Value]) -> ListId {
    let list = state.heap.allocate_list();
    for value in values {
        assert_eq!(state.heap.list_add(list, *value), Ok(()));
    }
    list
}

fn items(state: &ExecutionState, list: ListId) -> Vec<Value> {
    let found = state.heap.list(list).unwrap();
    (0..found.len()).map(|at| found.item(at)).collect()
}

fn field(state: &mut ExecutionState, text: &str) -> FieldName {
    FieldName(state.symbols.intern(text))
}

fn path(state: &mut ExecutionState, text: &str) -> TypePath {
    TypePath(state.symbols.intern(text))
}

fn text(state: &mut ExecutionState, text: &str) -> Value {
    Value::Text(state.symbols.intern(text))
}

fn datum(state: &mut ExecutionState, kind: &str) -> DatumId {
    let kind = path(state, kind);
    state.heap.allocate_datum(kind)
}

#[test]
fn operations_refuse_wrong_operand_counts() {
    let mut state = ExecutionState::new();
    let name = state.symbols.intern("isnum");
    let cases = [
        (NativeOperation::MakeRegex, 0),
        (NativeOperation::MakeRegex, 3),
        (NativeOperation::ReplaceText { exact: true, character_indices: false }, 2),
        (NativeOperation::ReplaceText { exact: false, character_indices: true }, 6),
        (NativeOperation::CopyText { character_indices: false }, 0),
        (NativeOperation::CopyText { character_indices: false }, 4),
        (NativeOperation::Range, 0),
        (NativeOperation::Range, 3),
        (NativeOperation::Block, 1),
        (NativeOperation::Block, 7),
        (NativeOperation::TypesOf, 0),
        (NativeOperation::Rand, 3),
        (NativeOperation::Roll, 0),
        (NativeOperation::Round, 3),
        (NativeOperation::TypePredicate(TypePredicateKind::IsType), 3),
        (NativeOperation::TypePredicate(TypePredicateKind::IsTurf), 0),
        (NativeOperation::TypePredicate(TypePredicateKind::Named(name)), 2),
    ];
    for (operation, count) in cases {
        let arguments = vec![Value::Null; count];
        assert_eq!(
            fault(&mut state, &arguments, native(operation, count as u16)),
            Fault::NativeOperands(operation)
        );
    }
}

#[test]
fn missing_operands_are_reported_by_name_or_as_underflow() {
    let mut state = ExecutionState::new();
    assert_eq!(
        fault(&mut state, &[], native(NativeOperation::Round, 1)),
        Fault::NativeOperands(NativeOperation::Round)
    );
    assert_eq!(fault(&mut state, &[], native(NativeOperation::Add, 2)), Fault::StackUnderflow);
    assert_eq!(
        fault(&mut state, &[Value::Null], Instruction::Pick { weighted: vec![true] }),
        Fault::PickOperands
    );
    let animate = Instruction::Animate { argument_names: vec![None], expanded_indices: vec![] };
    assert_eq!(fault(&mut state, &[], animate), Fault::AnimateOperands);
    let filter = Instruction::MakeFilter { argument_names: vec![None], expanded_indices: vec![] };
    assert_eq!(fault(&mut state, &[], filter), Fault::FilterOperands);
}

#[test]
fn numbers_are_negated_exactly() {
    let mut state = ExecutionState::new();
    for value in [0.0f32, -0.0, 1.5, -7.25, f32::INFINITY] {
        assert_eq!(
            result(&mut state, &[number(value)], native(NativeOperation::Negate, 1)),
            number(-value)
        );
    }
    assert!(asks(&mut state, &[Value::Null], native(NativeOperation::Negate, 1)));
}

#[test]
fn null_meets_anything_in_nothing() {
    let mut state = ExecutionState::new();
    let list = Value::List(list_of(&mut state, &[]));
    let operation = native(NativeOperation::BitAnd, 2);
    assert_eq!(result(&mut state, &[Value::Null, number(3.0)], operation), number(0.0));
    let operation = native(NativeOperation::BitAnd, 2);
    assert_eq!(result(&mut state, &[Value::Null, list], operation), number(0.0));
    assert!(asks(&mut state, &[list, Value::Null], native(NativeOperation::BitAnd, 2)));
    assert!(asks(&mut state, &[Value::Null, number(3.0)], native(NativeOperation::BitOr, 2)));
}

#[test]
fn cells_are_located_by_whole_coordinates() {
    let mut state = ExecutionState::new();
    let turf = datum(&mut state, "/turf/floor");
    for (name, value) in [("x", 2.0), ("y", 1.0), ("z", 1.0)] {
        let name = field(&mut state, name);
        assert_eq!(state.heap.set_datum_field(turf, name, number(value)), Ok(()));
    }
    state.rebuild_world_geometry();
    let locate = |count| native(NativeOperation::Locate, count);
    let here = [number(2.0), number(1.0), number(1.0)];
    assert_eq!(result(&mut state, &here, locate(3)), Value::Datum(turf));
    let nowhere = [number(2.5), number(1.0), number(1.0)];
    assert_eq!(result(&mut state, &nowhere, locate(3)), Value::Null);
    let far = [number(1.0e20), number(1.0), number(1.0)];
    assert_eq!(result(&mut state, &far, locate(3)), Value::Null);
    let named = [Value::Null, number(1.0), number(1.0)];
    assert_eq!(result(&mut state, &named, locate(3)), Value::Null);
    assert_eq!(result(&mut state, &[], locate(0)), Value::Null);
    assert_eq!(result(&mut state, &[Value::Null; 4], locate(4)), Value::Null);
    assert!(asks(&mut state, &[Value::Null], locate(1)));
    assert!(asks(&mut state, &[Value::Null; 2], locate(2)));
    assert_eq!(
        result(&mut state, &[Value::Null; 3], native(NativeOperation::LocateIn, 3)),
        Value::Null
    );
}

#[test]
fn nothing_is_in_what_holds_nothing() {
    let mut state = ExecutionState::new();
    let empty = list_of(&mut state, &[]);
    let full = list_of(&mut state, &[number(1.0)]);
    let contents = field(&mut state, "contents");
    let bag = datum(&mut state, "/obj/bag");
    let contains = || native(NativeOperation::Contains, 2);
    for container in [Value::Null, number(1.0), Value::List(empty), Value::Datum(bag)] {
        assert_eq!(result(&mut state, &[number(1.0), container], contains()), number(0.0));
    }
    assert!(asks(&mut state, &[number(1.0), Value::List(full)], contains()));
    assert_eq!(state.heap.set_datum_field(bag, contents, Value::List(full)), Ok(()));
    assert!(asks(&mut state, &[number(1.0), Value::Datum(bag)], contains()));
    assert!(state.heap.destroy_list(full));
    assert_eq!(
        fault(&mut state, &[number(1.0), Value::Datum(bag)], contains()),
        Fault::Heap(HeapError::StaleList(full))
    );
}

#[test]
fn chances_and_dimensions_are_numbers() {
    let mut state = ExecutionState::new();
    assert_eq!(
        fault(&mut state, &[Value::Null], native(NativeOperation::Prob, 1)),
        Fault::ProbOperand(Value::Null)
    );
    assert!(asks(&mut state, &[number(50.0)], native(NativeOperation::Prob, 1)));
    assert_eq!(
        fault(&mut state, &[number(2.0), Value::Null], native(NativeOperation::MakeArray, 2)),
        Fault::ArrayDimension
    );
    assert!(asks(&mut state, &[number(2.0)], native(NativeOperation::MakeArray, 1)));
}

#[test]
fn appearances_are_made_without_the_engine() {
    let mut state = ExecutionState::new();
    let made = result(
        &mut state,
        &[number(1.0), number(2.0)],
        native(NativeOperation::MakeMutableAppearance, 2),
    );
    match made {
        Value::Datum(made) => {
            let kind = state.heap.datum(made).unwrap().type_path();
            assert_eq!(state.symbols.text(kind.0), Some("/mutable_appearance"));
            assert_eq!(state.heap.datum(made).unwrap().field_count(), 0);
        }
        _ => panic!("no datum was made"),
    }
}

#[test]
fn regexes_get_their_fields() {
    let mut state = ExecutionState::new();
    let pattern = text(&mut state, "a+");
    let flags = text(&mut state, "g");
    let regex = datum(&mut state, "/regex");
    let mut trial = Trial::new(&[pattern, flags], native(NativeOperation::MakeRegex, 2));
    assert!(matches!(trial.go(&mut state, None), Ok(Pause::Engine)));
    match trial.go(&mut state, Some(Reply::Value(Value::Datum(regex)))) {
        Ok(Pause::Complete(value)) => assert_eq!(value, Value::Datum(regex)),
        _ => panic!("the regex was not made"),
    }
    let expected = [
        ("_dream64_pattern", pattern),
        ("flags", flags),
        ("text", Value::Null),
        ("match", Value::Null),
        ("index", number(0.0)),
        ("group", Value::Null),
        ("next", Value::Null),
        ("_dream64_cursor", number(0.0)),
        ("_dream64_haystack", Value::Null),
    ];
    for (name, value) in expected {
        let name = field(&mut state, name);
        assert_eq!(state.heap.datum_field(regex, name), Ok(value));
    }
    assert_eq!(state.heap.datum(regex).unwrap().field_count(), expected.len());
}

#[test]
fn replacements_name_their_regex_second() {
    let mut state = ExecutionState::new();
    let regex = datum(&mut state, "/regex");
    let given = vec![number(1.0), number(2.0), number(3.0)];
    assert_eq!(
        replacement_arguments(regex, &given),
        Some(vec![number(1.0), Value::Datum(regex), number(2.0), number(3.0)])
    );
    assert_eq!(replacement_arguments(regex, &vec![number(1.0)]), None);
    assert_eq!(replacement_arguments(regex, &vec![Value::Null; 5]), None);
}

#[test]
fn picks_take_weights_along() {
    let mut state = ExecutionState::new();
    let mut trial = Trial::new(
        &[number(7.0), number(1.0), number(8.0)],
        Instruction::Pick { weighted: vec![true, false] },
    );
    assert!(matches!(trial.go(&mut state, None), Ok(Pause::Engine)));
    match trial.go(&mut state, Some(Reply::Value(number(8.0)))) {
        Ok(Pause::Complete(value)) => assert_eq!(value, number(8.0)),
        _ => panic!("the choice was not taken"),
    }
}

#[test]
fn animations_spread_their_lists() {
    let mut state = ExecutionState::new();
    let list = list_of(&mut state, &[number(5.0)]);
    let time = text(&mut state, "time");
    assert_eq!(state.heap.list_set_key(list, time, number(9.0)), Ok(()));
    let names = vec![Some("alpha".to_string()), None];
    let spread =
        animate_arguments(&state, &vec![number(1.0), Value::List(list)], &names, &vec![1]);
    match spread {
        Ok(spread) => {
            assert_eq!(spread.values, vec![number(1.0), number(5.0), time, number(9.0)]);
            assert_eq!(
                spread.names,
                vec![Some("alpha".to_string()), None, None, Some("time".to_string())]
            );
        }
        Err(_) => panic!("the list was not spread"),
    }
    let animate = || Instruction::Animate {
        argument_names: vec![None],
        expanded_indices: vec![0],
    };
    assert_eq!(fault(&mut state, &[number(1.0)], animate()), Fault::ArglistNotList);
    assert!(asks(&mut state, &[Value::List(list)], animate()));
    assert!(state.heap.destroy_list(list));
    let raw = Instruction::Animate { argument_names: vec![None], expanded_indices: vec![0] };
    let module = module(
        &["/proc/test"],
        vec![program(1, 1, vec![Instruction::LoadSrc, raw, Instruction::Return])],
    );
    let frame = make_frame(
        ProcedureId(0),
        &module.procedures[0],
        &Vec::new(),
        &ExecutionContext::new(Value::List(list), Value::Null),
    );
    let outcome =
        run(&module, &mut state, &mut vec![frame], 8, &mut Slice::new(9, false), None);
    assert!(matches!(outcome, Err(error) if error.fault == Fault::ArglistNotList));
}

#[test]
fn filters_are_named_by_their_arguments() {
    let mut state = ExecutionState::new();
    let list = list_of(&mut state, &[]);
    let size = text(&mut state, "size");
    assert_eq!(state.heap.list_set_key(list, size, number(4.0)), Ok(()));
    assert_eq!(state.heap.list_set_key(list, number(1.0), number(6.0)), Ok(()));
    let kind = text(&mut state, "blur");
    let make = || Instruction::MakeFilter {
        argument_names: vec![None, None, Some("x".to_string()), None],
        expanded_indices: vec![3],
    };
    let filter = datum(&mut state, "/dm_filter");
    let given = [kind, number(2.0), number(3.0), Value::List(list)];
    let mut trial = Trial::new(&given, make());
    assert!(matches!(trial.go(&mut state, None), Ok(Pause::Engine)));
    match trial.go(&mut state, Some(Reply::Value(Value::Datum(filter)))) {
        Ok(Pause::Complete(value)) => assert_eq!(value, Value::Datum(filter)),
        _ => panic!("the filter was not made"),
    }
    for (name, value) in
        [("type", kind), ("arg2", number(2.0)), ("x", number(3.0)), ("size", number(4.0))]
    {
        let name = field(&mut state, name);
        assert_eq!(state.heap.datum_field(filter, name), Ok(value));
    }
    assert_eq!(state.heap.datum(filter).unwrap().field_count(), 4);
}

#[test]
fn filters_refuse_names_that_no_field_has() {
    let mut state = ExecutionState::new();
    let filter = datum(&mut state, "/dm_filter");
    let make = Instruction::MakeFilter {
        argument_names: vec![None, Some("no name".to_string())],
        expanded_indices: vec![],
    };
    let mut trial = Trial::new(&[number(1.0), number(2.0)], make);
    assert!(matches!(trial.go(&mut state, None), Ok(Pause::Engine)));
    let outcome = trial.go(&mut state, Some(Reply::Value(Value::Datum(filter))));
    let wrong = state.symbols.intern("no name");
    assert!(matches!(outcome, Err(fault) if fault == Fault::InvalidFieldName(wrong)));
    let kind = field(&mut state, "type");
    assert_eq!(state.heap.datum_field(filter, kind), Ok(number(1.0)));
}

#[test]
fn types_are_listed_once() {
    let mut state = ExecutionState::new();
    let root = path(&mut state, "/mob/proc");
    let walk = path(&mut state, "/mob/proc/walk");
    let other = path(&mut state, "/mob/process");
    let mob = path(&mut state, "/mob");
    let dog = path(&mut state, "/mob/dog");
    let mut module = module(&[], Vec::new());
    module.procedure_types = vec![other, walk, root];
    let selectors =
        vec![Value::TypePath(mob), Value::TypePath(root), Value::TypePath(dog)];
    let found = vec![vec![mob, dog], Vec::new(), vec![dog]];
    let list = list_types(&mut state, &module, &selectors, &found);
    let expected: Vec<Value> = [mob, dog, walk, root].map(Value::TypePath).to_vec();
    assert_eq!(items(&state, list), expected);
}

#[test]
fn indexing_a_savefile_opens_an_entry() {
    let mut state = ExecutionState::new();
    let file = datum(&mut state, "/savefile");
    let key = state.symbols.intern("/name");
    let stored = number(11.0);
    let module = module(
        &["/proc/test"],
        vec![program(
            2,
            1,
            vec![
                Instruction::LoadLocal(0),
                Instruction::PushText(key),
                Instruction::IndexList,
                Instruction::StoreLocal(1),
                Instruction::LoadLocal(1),
                Instruction::PushNumber(bits(11.0)),
                native(NativeOperation::Output, 2),
                Instruction::LoadLocal(1),
                native(NativeOperation::Input, 1),
                Instruction::Return,
            ],
        )],
    );
    let mut frames = vec![make_frame(
        ProcedureId(0),
        &module.procedures[0],
        &vec![Value::Datum(file)],
        &ExecutionContext::default(),
    )];
    let mut slice = Slice::new(100, false);
    assert!(matches!(
        run(&module, &mut state, &mut frames, 8, &mut slice, None),
        Ok(Pause::Engine)
    ));
    match run(&module, &mut state, &mut frames, 8, &mut slice, Some(Reply::Entry(key))) {
        Ok(Pause::Complete(value)) => assert_eq!(value, stored),
        _ => panic!("the entry was not read"),
    }
}

#[test]
fn savefiles_that_are_read_are_recorded() {
    let mut state = ExecutionState::new();
    let recorded = |state: &ExecutionState, file: DatumId| match state.savefiles.files.get(file.0) {
        Some(saved) => Some((saved.cd, saved.entries.len())),
        None => None,
    };
    let read = datum(&mut state, "/savefile");
    assert_eq!(recorded(&state, read), None);
    let value = result(&mut state, &[Value::Datum(read)], native(NativeOperation::Input, 1));
    assert_eq!(value, Value::Null);
    assert_eq!(recorded(&state, read), Some((None, 0)));
    let other = datum(&mut state, "/obj");
    let refused = fault(&mut state, &[Value::Datum(other)], native(NativeOperation::Input, 1));
    assert_eq!(refused, Fault::SavefileInput(Value::Datum(other)));
    assert_eq!(recorded(&state, other), None);

    let indexed = datum(&mut state, "/savefile/player");
    let key = state.symbols.intern("/name");
    let operands = [Value::Datum(indexed), Value::Text(key)];
    let mut trial = Trial::new(&operands, Instruction::IndexList);
    assert!(matches!(trial.go(&mut state, None), Ok(Pause::Engine)));
    assert_eq!(recorded(&state, indexed), None);
    assert!(matches!(trial.go(&mut state, Some(Reply::Entry(key))), Ok(Pause::Complete(_))));
    assert_eq!(recorded(&state, indexed), Some((None, 0)));

    let shown = datum(&mut state, "/savefile");
    let [eof, size] = ["eof", "size"].map(|name| field(&mut state, name));
    for name in [eof, size] {
        state.engine_fields.reads.insert(name.0, ());
    }
    let answer = || Some(Reply::Value(number(1.0)));
    let mut trial = Trial::new(&[Value::Datum(shown)], Instruction::LoadField(size));
    assert!(matches!(trial.go(&mut state, None), Ok(Pause::Engine)));
    assert!(matches!(trial.go(&mut state, answer()), Ok(Pause::Complete(_))));
    assert_eq!(recorded(&state, shown), None);
    let mut trial = Trial::new(&[Value::Datum(shown)], Instruction::LoadField(eof));
    assert!(matches!(trial.go(&mut state, None), Ok(Pause::Engine)));
    assert!(matches!(trial.go(&mut state, answer()), Ok(Pause::Complete(_))));
    assert_eq!(recorded(&state, shown), Some((None, 0)));
}

#[test]
fn typesof_lists_what_the_engine_found_once() {
    let mut state = ExecutionState::new();
    let [mob, dog] = ["/mob", "/mob/dog"].map(|text| path(&mut state, text));
    let selectors = [Value::TypePath(mob), Value::TypePath(dog)];
    let mut trial = Trial::new(&selectors, native(NativeOperation::TypesOf, 2));
    assert!(matches!(trial.go(&mut state, None), Ok(Pause::Engine)));
    assert_eq!(read_selectors(&trial.frames[0], 1), Some(vec![Value::TypePath(dog)]));
    assert_eq!(read_selectors(&trial.frames[0], 3), None);
    assert!(!names_procedures(&state.symbols, selectors[0]));
    let short = Some(Reply::Types(vec![vec![mob]]));
    assert!(matches!(trial.go(&mut state, short), Ok(Pause::Engine)));
    let found = Some(Reply::Types(vec![vec![mob, dog], vec![dog]]));
    match trial.go(&mut state, found) {
        Ok(Pause::Complete(Value::List(list))) => {
            assert_eq!(items(&state, list), vec![Value::TypePath(mob), Value::TypePath(dog)]);
        }
        _ => panic!("the types were not listed"),
    }
}

fn dynamic(selector: Option<Symbol>, argument_count: u16) -> Instruction {
    Instruction::CallDynamic {
        static_selector: selector,
        argument_count,
        argument_names: Vec::new(),
        null_receiver_is_global: false,
    }
}

fn at_depth(trial: &mut Trial, state: &mut ExecutionState, limit: usize, reply: Option<Reply>) -> Result<
    Pause,
    Fault,
> {
    run(&trial.module, state, &mut trial.frames, limit, &mut trial.slice, reply)
        .map_err(|error| error.fault)
}

#[test]
fn calls_that_are_too_deep_fail_before_their_lookup_does() {
    let mut state = ExecutionState::new();
    let thing = Value::Datum(datum(&mut state, "/obj"));
    let method = state.symbols.intern("Missing");
    let why = state.symbols.intern("no such procedure");
    let end = |limit: usize, state: &mut ExecutionState, reply: Reply| {
        let mut trial = Trial::new(&[thing], dynamic(Some(method), 0));
        assert!(matches!(at_depth(&mut trial, state, limit, None), Ok(Pause::Engine)));
        at_depth(&mut trial, state, limit, Some(reply))
    };
    assert!(matches!(
        end(1, &mut state, Reply::Unresolved(why)),
        Err(Fault::CallDepth(1))
    ));
    assert!(matches!(end(8, &mut state, Reply::Unresolved(why)), Err(fault) if fault == Fault::Host(why)));
    assert!(matches!(end(1, &mut state, Reply::Failed(why)), Err(fault) if fault == Fault::Host(why)));
    assert!(matches!(
        end(1, &mut state, Reply::Value(number(2.0))),
        Ok(Pause::Complete(value)) if value == number(2.0)
    ));
    let mut trial = Trial::new(&[Value::Null], dynamic(Some(method), 0));
    assert!(matches!(at_depth(&mut trial, &mut state, 1, None), Err(Fault::CallDepth(1))));
    let mut trial = Trial::new(&[Value::Null], dynamic(Some(method), 0));
    assert!(matches!(at_depth(&mut trial, &mut state, 2, None), Ok(Pause::Engine)));
}

#[test]
fn dynamic_calls_try_declared_procedures_first() {
    let mut state = ExecutionState::new();
    let plain = DatumKinds { matrix: false, vector: false, regex: false, icon: false };
    let file = datum(&mut state, "/savefile");
    let list = list_of(&mut state, &[]);
    let target = CallTarget {
        procedure: ProcedureId(4),
        context: ExecutionContext::new(Value::Datum(file), Value::Null),
    };
    let [export, replace, turn, other] =
        ["ExportText", "Replace", "Turn", "Other"].map(|name| state.symbols.intern(name));
    let way = |receiver: Value, method: Option<Symbol>, count: usize, found, kinds| {
        let arguments = vec![Value::Null; count];
        let call = DynamicCall { receiver, selector: None, method, arguments };
        route_dynamic(&state, &call, found, kinds)
    };
    let on = Value::Datum(file);
    let all = DatumKinds { matrix: true, vector: true, regex: true, icon: true };
    assert_eq!(way(on, Some(export), 0, Some(target), all), Route::Procedure(target));
    assert_eq!(way(on, Some(export), 0, None, all), Route::Export(file));
    assert_eq!(way(on, Some(other), 0, None, all), Route::Matrix(file));
    let all = DatumKinds { matrix: false, ..all };
    assert_eq!(way(on, Some(other), 0, None, all), Route::Vector(file));
    let all = DatumKinds { vector: false, ..all };
    assert_eq!(way(on, Some(other), 0, None, all), Route::Regex(file));
    assert_eq!(way(on, Some(replace), 1, None, all), Route::RefusedReplace(file));
    assert_eq!(way(on, Some(replace), 2, None, all), Route::Replace(file));
    assert_eq!(way(on, Some(replace), 5, None, all), Route::RefusedReplace(file));
    let icon = DatumKinds { icon: true, ..plain };
    assert_eq!(way(on, Some(turn), 1, None, icon), Route::Icon(file));
    assert_eq!(way(on, Some(other), 1, None, icon), Route::Lookup);
    assert_eq!(way(on, None, 0, Some(target), all), Route::Lookup);
    assert_eq!(way(Value::Null, Some(turn), 0, Some(target), all), Route::Lookup);
    assert_eq!(way(Value::List(list), Some(turn), 0, Some(target), all), Route::List(list));
    assert_eq!(way(Value::List(list), None, 0, None, all), Route::Untextual(list));
}

#[test]
fn dynamic_operands_are_read_where_they_lie() {
    let mut state = ExecutionState::new();
    let method = state.symbols.intern("Run");
    let operands = [number(7.0), Value::Text(method), number(1.0), number(2.0)];
    let mut trial = Trial::new(&operands, dynamic(None, 2));
    assert!(matches!(trial.go(&mut state, None), Ok(Pause::Engine)));
    let frame = &trial.frames[0];
    let call = read_dynamic(frame, None, 2).unwrap_or_else(|_| panic!("no operands"));
    assert_eq!(call.receiver, number(7.0));
    assert_eq!(call.selector, Some(Value::Text(method)));
    assert_eq!(call.method, Some(method));
    assert_eq!(call.arguments, vec![number(1.0), number(2.0)]);
    let call = read_dynamic(frame, Some(method), 3).unwrap_or_else(|_| panic!("no operands"));
    assert_eq!((call.receiver, call.selector), (number(7.0), None));
    assert!(matches!(read_dynamic(frame, None, 3), Err(Fault::StackUnderflow)));
}

#[test]
fn mirrors_show_declared_own_and_shared_fields() {
    let mut state = ExecutionState::new();
    let thing = datum(&mut state, "/obj/thing");
    let kind = path(&mut state, "/obj/thing");
    let [declared, own, shared, storage] =
        ["declared", "own", "shared", "/obj/thing/shared"].map(|name| field(&mut state, name));
    let mut initials: SymbolMap<Value> = SymbolMap::new();
    initials.insert(declared.0, number(1.0));
    initials.insert(own.0, number(2.0));
    let mut by_type: SymbolMap<SymbolMap<Value>> = SymbolMap::new();
    by_type.insert(kind.0, initials);
    state.set_initial_values(by_type);
    let mut fields: SymbolMap<FieldName> = SymbolMap::new();
    fields.insert(shared.0, storage);
    let mut sharing: SymbolMap<SymbolMap<FieldName>> = SymbolMap::new();
    sharing.insert(kind.0, fields);
    state.set_shared_fields(sharing);
    assert_eq!(state.heap.set_datum_field(thing, own, number(20.0)), Ok(()));
    state.globals.current.insert(storage.0, number(30.0));
    let base = state.heap.allocate_list();
    let engine = text(&mut state, "alpha");
    assert_eq!(state.heap.list_set_key(base, engine, number(255.0)), Ok(()));
    let mut trial = Trial::new(&[Value::Datum(thing)], Instruction::LoadDatumVars);
    assert!(matches!(trial.go(&mut state, None), Ok(Pause::Engine)));
    match trial.go(&mut state, Some(Reply::Value(Value::List(base)))) {
        Ok(Pause::Complete(value)) => assert_eq!(value, Value::List(base)),
        _ => panic!("the mirror was not made"),
    }
    let mirror = state.heap.list(base).unwrap();
    assert_eq!(mirror.get_key(engine), Some(number(255.0)));
    assert_eq!(mirror.get_key(Value::Text(declared.0)), Some(number(1.0)));
    assert_eq!(mirror.get_key(Value::Text(own.0)), Some(number(20.0)));
    assert_eq!(mirror.get_key(Value::Text(shared.0)), Some(number(30.0)));
    assert_eq!(mirror.len(), 4);
    assert_eq!(
        result(&mut state, &[Value::Datum(thing)], Instruction::LoadDatumVars),
        Value::List(base)
    );
    assert_eq!(
        fault(&mut state, &[Value::Null], Instruction::LoadDatumVars),
        Fault::VarsOperand(Value::Null)
    );
}

#[test]
fn negative_delays_branch_at_once() {
    let mut state = ExecutionState::new();
    for (delay, branches) in [(-1.0f32, true), (-0.0, true), (0.0, false), (2.0, false)] {
        let mut trial = Trial::new(&[number(delay)], Instruction::Spawn { entry: 0 });
        match trial.go(&mut state, None) {
            Ok(Pause::Branch { frame }) => {
                assert!(branches);
                assert_eq!(frame.instruction, 0);
            }
            Ok(Pause::Spawn { delay: asked, .. }) => {
                assert!(!branches);
                assert_eq!(asked, bits(delay));
            }
            _ => panic!("nothing was spawned"),
        }
        assert_eq!(trial.frames[0].instruction, 2);
    }
}

#[test]
fn branches_settle_without_a_value() {
    let mut state = ExecutionState::new();
    let trial = Trial::new(&[number(1.0)], Instruction::Pop);
    state.settle_branch(ContinuationOutcome::Complete(number(1.0)));
    assert_eq!(state.scheduled_task_count(), 0);
    assert!(state.host_value_roots.is_empty());
    state.settle_branch(ContinuationOutcome::Yielded { frames: trial.frames, delay_ticks: 3 });
    assert_eq!(state.next_scheduled_tick(), Some(3));
}

#[test]
fn removing_a_key_takes_its_first_place() {
    let mut state = ExecutionState::new();
    let list = list_of(&mut state, &[number(1.0), number(2.0), number(1.0)]);
    assert_eq!(state.heap.list_set_key(list, number(1.0), number(9.0)), Ok(()));
    assert_eq!(state.heap.list_remove_key(list, number(1.0)), Ok(()));
    assert_eq!(items(&state, list), vec![number(2.0), number(1.0)]);
    assert_eq!(state.heap.list(list).unwrap().get_key(number(1.0)), None);
    assert!(state.heap.destroy_list(list));
    assert_eq!(
        state.heap.list_remove_key(list, number(1.0)),
        Err(HeapError::StaleList(list))
    );
}

#[test]
fn new_datums_are_dressed_before_they_are_placed() {
    let mut state = ExecutionState::new();
    let kind = path(&mut state, "/regex");
    let flags = field(&mut state, "flags");
    let name = field(&mut state, "name");
    let modified = state.heap.store_modified(ModifiedTypePath {
        base: kind,
        overrides: vec![(flags, number(1.0)), (name, number(2.0)), (flags, number(3.0))],
    });
    let regex = datum(&mut state, "/regex");
    let construct =
        || Instruction::AllocateDatum { argument_count: 1, argument_names: Vec::new() };
    let given = [Value::ModifiedTypePath(modified), number(7.0)];
    let mut trial = Trial::new(&given, construct());
    assert!(matches!(trial.go(&mut state, None), Ok(Pause::Engine)));
    assert!(matches!(
        trial.go(&mut state, Some(Reply::Allocated(regex))),
        Ok(Pause::Engine)
    ));
    let pattern = field(&mut state, "_dream64_pattern");
    assert_eq!(state.heap.datum_field(regex, pattern), Ok(number(7.0)));
    assert_eq!(state.heap.datum_field(regex, flags), Ok(number(3.0)));
    assert_eq!(state.heap.datum_field(regex, name), Ok(number(2.0)));
    let made = Reply::Made(Construction { value: Value::Datum(regex), constructor: None });
    match trial.go(&mut state, Some(made)) {
        Ok(Pause::Complete(value)) => assert_eq!(value, Value::Datum(regex)),
        _ => panic!("the regex was not handed on"),
    }
    let plain = datum(&mut state, "/obj");
    assert_eq!(
        fault(&mut state, &[number(1.0), number(7.0)], construct()),
        Fault::ConstructorOperand(number(1.0))
    );
    let object = path(&mut state, "/obj");
    assert_eq!(state.heap.destroy_datum(plain), Ok(()));
    let mut trial = Trial::new(&[Value::TypePath(object), number(7.0)], construct());
    assert!(matches!(trial.go(&mut state, None), Ok(Pause::Engine)));
    let outcome = trial.go(&mut state, Some(Reply::Allocated(plain)));
    assert!(matches!(
        outcome,
        Err(fault) if fault == Fault::Heap(HeapError::StaleDatum(plain))
    ));
}

#[test]
fn mirrors_are_refreshed_from_their_datum() {
    let mut state = ExecutionState::new();
    let thing = datum(&mut state, "/obj/thing");
    let own = field(&mut state, "own");
    let lazy = field(&mut state, "verbs");
    assert_eq!(state.heap.set_datum_field(thing, own, number(1.0)), Ok(()));
    let base = state.heap.allocate_list();
    assert_eq!(state.heap.list_set_key(base, Value::Text(lazy.0), Value::Null), Ok(()));
    let mut trial = Trial::new(&[Value::Datum(thing)], Instruction::LoadDatumVars);
    assert!(matches!(trial.go(&mut state, None), Ok(Pause::Engine)));
    assert!(trial.go(&mut state, Some(Reply::Value(Value::List(base)))).is_ok());
    assert_eq!(state.heap.set_datum_field(thing, own, number(5.0)), Ok(()));
    let mut lists: SymbolMap<Value> = SymbolMap::new();
    lists.insert(lazy.0, number(9.0));
    assert_eq!(state.refresh_vars_proxy(base, &lists), Ok(()));
    let mirror = state.heap.list(base).unwrap();
    assert_eq!(mirror.get_key(Value::Text(own.0)), Some(number(5.0)));
    assert_eq!(mirror.get_key(Value::Text(lazy.0)), Some(number(9.0)));
}

#[test]
fn initial_globals_are_kept_beside_current_ones() {
    let mut state = ExecutionState::new();
    let name = field(&mut state, "score");
    assert_eq!(state.set_initial_global(name, number(1.0)), None);
    assert_eq!(state.set_initial_global(name, number(2.0)), Some(number(1.0)));
    assert_eq!(
        result(&mut state, &[], Instruction::LoadInitialGlobal(name)),
        number(2.0)
    );
    assert_eq!(
        fault(&mut state, &[], Instruction::LoadGlobal(name)),
        Fault::GlobalAbsent(name)
    );
}

/// A sender whose lookup names a listener, and a dispatch that misses its table.
struct Signal {
    module: Module,
    sender: DatumId,
    lookup: ListId,
    frames: Vec<CallFrame>,
    name: FieldName,
}

fn signal(state: &mut ExecutionState, path: &str, others: usize) -> Signal {
    let key = state.symbols.intern("moved");
    let name = field(state, "_listen_lookup");
    let sender = datum(state, "/datum/sender");
    let listener = datum(state, "/datum/listener");
    let lookup = state.heap.allocate_list();
    assert_eq!(
        state.heap.list_set_key(lookup, Value::Text(key), Value::Datum(listener)),
        Ok(())
    );
    for at in 0..others {
        let other = text(state, &format!("other{at}"));
        assert_eq!(state.heap.list_set_key(lookup, other, Value::Datum(listener)), Ok(()));
    }
    assert_eq!(state.heap.set_datum_field(sender, name, Value::List(lookup)), Ok(()));
    let module = module(
        &["/proc/caller", path],
        vec![
            program(
                0,
                0,
                vec![
                    Instruction::Call {
                        procedure: ProcedureId(1),
                        argument_count: 0,
                        argument_names: Vec::new(),
                    },
                    Instruction::Return,
                ],
            ),
            program(
                5,
                1,
                vec![
                    Instruction::LoadLocal(0),
                    Instruction::StoreLocal(4),
                    Instruction::PushNull,
                    Instruction::PushText(key),
                    Instruction::IndexList,
                    Instruction::Return,
                ],
            ),
        ],
    );
    let caller = make_frame(
        ProcedureId(0),
        &module.procedures[0],
        &Vec::new(),
        &ExecutionContext::default(),
    );
    let dispatch = make_frame(
        ProcedureId(1),
        &module.procedures[1],
        &vec![Value::Datum(listener)],
        &ExecutionContext::new(Value::Datum(sender), Value::Null),
    );
    Signal { module, sender, lookup, frames: vec![caller, dispatch], name }
}

#[test]
fn a_missed_signal_ends_its_dispatch_and_repairs_the_edge() {
    let mut state = ExecutionState::new();
    let mut signal = signal(&mut state, "/datum/proc/_SendSignal", 1);
    match run(&signal.module, &mut state, &mut signal.frames, 8, &mut Slice::new(9, false), None)
    {
        Ok(Pause::Complete(value)) => assert_eq!(value, Value::Null),
        _ => panic!("the dispatch was not recovered"),
    }
    assert_eq!(state.heap.list(signal.lookup).unwrap().len(), 1);
    assert_eq!(
        state.heap.datum_field(signal.sender, signal.name),
        Ok(Value::List(signal.lookup))
    );
}

#[test]
fn an_emptied_lookup_leaves_its_sender() {
    let mut state = ExecutionState::new();
    let mut signal = signal(&mut state, "/datum/proc/_SendSignal@mod/proc/_SendSignal@1", 0);
    assert!(run(
        &signal.module,
        &mut state,
        &mut signal.frames,
        8,
        &mut Slice::new(9, false),
        None
    )
    .is_ok());
    assert_eq!(state.heap.datum_field(signal.sender, signal.name), Ok(Value::Null));
}

#[test]
fn only_called_dispatchers_recover() {
    let mut state = ExecutionState::new();
    let mut other = signal(&mut state, "/datum/proc/Send", 0);
    let outcome =
        run(&other.module, &mut state, &mut other.frames, 8, &mut Slice::new(9, false), None);
    assert!(matches!(outcome, Err(error) if error.fault == Fault::ListIndexNull));
    let mut alone = signal(&mut state, "/datum/proc/_SendSignal", 0);
    alone.frames.remove(0);
    let outcome =
        run(&alone.module, &mut state, &mut alone.frames, 8, &mut Slice::new(9, false), None);
    assert!(matches!(outcome, Err(error) if error.fault == Fault::ListIndexNull));
    assert_eq!(state.heap.list(alone.lookup).unwrap().len(), 1);
}
