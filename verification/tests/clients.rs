//! Clients: connecting, moving, answering, clicking and what they are shown.

use dm_vm::answers::{PromptError, PromptOutcome};
use dm_vm::activation::make_frame;
use dm_vm::appearance::LAYER_DEPTH;
use dm_vm::calling::CallTarget;
use dm_vm::clients::{Attachment, ClientError, LocalClientState};
use dm_vm::commands::ClientCommandError;
use dm_vm::coordinates::Coordinate;
use dm_vm::frame::ExecutionContext;
use dm_vm::guests::GuestError;
use dm_vm::heap::HeapError;
use dm_vm::logins::plan_login;
use dm_vm::maps::SymbolMap;
use dm_vm::pointers::{pointer_call, LocalScreenPointerEvent, PointerError};
use dm_vm::program::{Instruction, Module, ProcedureId, Program, VerbParameterType};
use dm_vm::prompts::{
    LocalClientPromptKind, LocalClientPromptResponse, PendingLocalPrompt,
    PendingPromptContinuation, PendingVerbInvocation,
};
use dm_vm::roots::append_frames_roots;
use dm_vm::snapshot::ScreenLocation;
use dm_vm::skins::{Diagnostic, DiagnosticSeverity};
use dm_vm::state::{ExecutionState, LocalMovementDirection, Skin};
use dm_vm::value::{DatumId, FieldName, Number, TypePath, Value};
use dm_vm::verbs::{
    choose_target, ClientCommand, CommandArgument, CommandError, CommandOutcome, ResolvedVerbs,
};

fn number(value: f32) -> Value {
    Value::Number(Number { bits: value.to_bits() })
}

fn make(state: &mut ExecutionState, path: &str) -> DatumId {
    let path = TypePath(state.symbols.intern(path));
    state.heap.allocate_datum(path)
}

fn set(state: &mut ExecutionState, datum: DatumId, name: &str, value: Value) {
    let name = FieldName(state.symbols.intern(name));
    assert_eq!(state.heap.set_datum_field(datum, name, value), Ok(()));
}

fn get(state: &mut ExecutionState, datum: DatumId, name: &str) -> Option<Value> {
    let name = FieldName(state.symbols.intern(name));
    state.heap.datum_field(datum, name).ok()
}

fn turf(state: &mut ExecutionState, x: f32, y: f32) -> DatumId {
    let id = make(state, "/turf");
    set(state, id, "x", number(x));
    set(state, id, "y", number(y));
    set(state, id, "z", number(1.0));
    id
}

fn list(state: &mut ExecutionState, values: &[Value]) -> Value {
    Value::List(state.create_list(&values.to_vec()))
}

fn text(state: &mut ExecutionState, text: &str) -> Value {
    Value::Text(state.symbols.intern(text))
}

fn program(parameters: &[&str]) -> Program {
    Program {
        wait_for: true,
        parameter_count: parameters.len(),
        parameter_names: parameters.iter().map(|name| name.to_string()).collect(),
        verb_parameter_types: vec![VerbParameterType::Number; parameters.len()],
        verb_name: None,
        local_count: parameters.len(),
        source_spans: Vec::new(),
        instructions: vec![Instruction::PushNull, Instruction::Return],
    }
}

fn module(procedures: Vec<Program>) -> Module {
    Module {
        identity: 1,
        paths: (0..procedures.len()).map(|at| format!("/mob/verb/v{at}")).collect(),
        procedures,
        procedure_types: Vec::new(),
    }
}

fn target(procedure: usize, src: Value) -> CallTarget {
    CallTarget {
        procedure: ProcedureId(procedure),
        context: ExecutionContext::new(src, Value::Null),
    }
}

/// A world of two cells with a connected client.
fn connected() -> (ExecutionState, DatumId, DatumId, DatumId, DatumId) {
    let mut state = ExecutionState::new();
    let west = turf(&mut state, 1.0, 1.0);
    let east = turf(&mut state, 2.0, 1.0);
    state.rebuild_world_geometry();
    let client = make(&mut state, "/client");
    let mob = make(&mut state, "/mob");
    set(&mut state, mob, "loc", Value::Datum(west));
    assert!(matches!(state.attach_local_client(client, mob), Ok(Attachment::Attached(_))));
    (state, client, mob, west, east)
}

/// The arguments of the only continuation that waits.
fn queued_arguments(state: &ExecutionState, count: usize) -> Vec<Value> {
    assert_eq!(state.scheduler.spawns.len(), 1);
    let mut roots: Vec<Value> = Vec::new();
    append_frames_roots(&mut roots, &state.scheduler.spawns[0].frames.frames);
    roots.truncate(count);
    roots
}

#[test]
fn clients_and_mobs_know_each_other() {
    let (mut state, client, mob, _, _) = connected();
    assert_eq!(get(&mut state, client, "mob"), Some(Value::Datum(mob)));
    assert_eq!(get(&mut state, mob, "client"), Some(Value::Datum(client)));
    let seen = state.local_client_state(client);
    assert_eq!(seen, Ok(LocalClientState { client, mob, x: 1, y: 1, z: 1 }));
}

#[test]
fn attaching_wants_a_client_a_mob_and_a_place() {
    let mut state = ExecutionState::new();
    let client = make(&mut state, "/client");
    let mob = make(&mut state, "/mob");
    assert!(matches!(state.attach_local_client(mob, mob), Err(ClientError::NotClient)));
    assert!(matches!(state.attach_local_client(client, client), Err(ClientError::NotMob)));
    assert!(matches!(state.attach_local_client(client, mob), Err(ClientError::EmptyWorld)));
    let place = turf(&mut state, 1.0, 1.0);
    state.rebuild_world_geometry();
    match state.attach_local_client(client, mob) {
        Ok(Attachment::Place(turf)) => assert_eq!(turf, place),
        _ => panic!("the mob has no place yet"),
    }
    assert_eq!(state.local_client_state(client), Err(ClientError::Detached));
}

#[test]
fn movements_are_taken_in_order() {
    let (mut state, client, mob, _, east) = connected();
    assert_eq!(state.queue_local_movement(client, LocalMovementDirection::East), Ok(()));
    assert_eq!(state.queue_local_movement(client, LocalMovementDirection::North), Ok(()));
    assert_eq!(
        state.queue_local_movement(mob, LocalMovementDirection::North),
        Err(ClientError::Detached)
    );
    let taken = state.take_local_movements();
    assert_eq!(taken.len(), 2);
    assert!(taken[0].sequence < taken[1].sequence);
    assert!(state.take_local_movements().is_empty());
    match state.plan_local_movement(taken[0]) {
        Ok(Some(movement)) => {
            assert_eq!((movement.mob, movement.destination), (mob, east));
        }
        _ => panic!("there is a turf to the east"),
    }
    assert!(matches!(state.plan_local_movement(taken[1]), Ok(None)));
}

#[test]
fn views_follow_the_eye() {
    let (mut state, client, _, _, east) = connected();
    set(&mut state, client, "eye", Value::Null);
    let own = state.local_client_view_coordinates(client);
    assert_eq!(own, Ok(Coordinate { x: 1, y: 1, z: 1 }));
    set(&mut state, client, "eye", Value::Datum(east));
    let eye = state.local_client_view_coordinates(client);
    assert_eq!(eye, Ok(Coordinate { x: 2, y: 1, z: 1 }));
}

#[test]
fn interaction_wants_a_session() {
    let (mut state, client, _, _, _) = connected();
    assert_eq!(state.set_local_client_interactive(client, true), Err(ClientError::NoSession));
    assert_eq!(state.client_session(client), None);
    state.install_client_session(client, Some(Skin(3)));
    assert_eq!(state.client_session(client), Some(Some(Skin(3))));
    assert_eq!(state.set_local_client_interactive(client, true), Ok(()));
}

#[test]
fn events_are_handed_out_once() {
    let (mut state, client, _, _, _) = connected();
    state.install_client_session(client, None);
    assert_eq!(state.set_local_client_interactive(client, true), Ok(()));
    state.emit_local_client_ui_event(client, 4);
    state.emit_local_client_ui_event(client, 5);
    assert_eq!(state.take_local_client_outbound_events(client), vec![4, 5]);
    assert!(state.take_local_client_outbound_events(client).is_empty());
}

#[test]
fn guests_are_numbered_and_named() {
    let module = module(vec![program(&[])]);
    let mut state = ExecutionState::new();
    assert_eq!(state.plan_local_guest(), Err(GuestError::NoTurf));
    let east = turf(&mut state, 2.0, 1.0);
    let west = turf(&mut state, 1.0, 1.0);
    state.rebuild_world_geometry();
    let plan = match state.plan_local_guest() {
        Ok(plan) => plan,
        Err(_) => panic!("there are turfs"),
    };
    assert_eq!(plan.turf, west);
    assert_eq!(plan.client_path, state.names.client_path);
    assert_eq!(plan.mob_path, state.names.mob_path);
    let client = state.heap.allocate_datum(plan.client_path);
    let mob = state.heap.allocate_datum(plan.mob_path);
    set(&mut state, client, "key", Value::Null);
    set(&mut state, client, "ckey", Value::Null);
    set(&mut state, client, "byond_version", Value::Null);
    let constructor = Some(target(0, Value::Datum(client)));
    assert_eq!(
        state.connect_local_guest(&module, client, mob, constructor),
        Err(GuestError::Client(ClientError::Heap(HeapError::MissingField(state.names.loc))))
    );
    assert_eq!(state.scheduled_task_count(), 0);
    set(&mut state, mob, "loc", Value::Datum(plan.turf));
    let attached = LocalClientState { client, mob, x: 1, y: 1, z: 1 };
    assert_eq!(state.connect_local_guest(&module, client, mob, constructor), Ok(attached));
    assert_eq!(state.local_client_state(client), Ok(attached));
    let key = text(&mut state, "Guest-1");
    let ckey = text(&mut state, "guest-1");
    assert_eq!(get(&mut state, client, "key"), Some(key));
    assert_eq!(get(&mut state, client, "ckey"), Some(ckey));
    assert_eq!(get(&mut state, client, "byond_version"), Some(number(516.0)));
    assert_eq!(get(&mut state, client, "byond_build"), None);
    assert_eq!(state.client_session(client), Some(None));
    assert_eq!(state.scheduled_task_count(), 1);
    state.set_local_client_skin(Skin(7));
    let second = make(&mut state, "/client");
    set(&mut state, second, "key", Value::Null);
    assert_eq!(
        state.connect_local_guest(&module, second, mob, None),
        Err(GuestError::NoConstructor)
    );
    let key = text(&mut state, "Guest-2");
    assert_eq!(get(&mut state, second, "key"), Some(key));
    assert_eq!(state.client_session(second), Some(Some(Skin(7))));
    let missing = Some(target(9, Value::Null));
    assert_eq!(
        state.connect_local_guest(&module, second, mob, missing),
        Err(GuestError::UnknownProcedure(ProcedureId(9)))
    );
    assert!(state.heap.has_datum(east));
}

fn finding(severity: DiagnosticSeverity, message: &str) -> Diagnostic {
    Diagnostic { severity, message: message.to_owned() }
}

#[test]
fn skins_with_errors_open_no_client() {
    let mut state = ExecutionState::new();
    let before = state.heap.live_datum_count();
    let findings = vec![
        finding(DiagnosticSeverity::Warning, "odd"),
        finding(DiagnosticSeverity::Error, "broken"),
        finding(DiagnosticSeverity::Error, "worse"),
    ];
    match state.open_local_client(&findings, Skin(1)) {
        Ok(_) => panic!("a broken skin opened a client"),
        Err(error) => {
            assert_eq!(error.diagnostics.len(), 2);
            assert_eq!(error.diagnostics[0].message, "broken");
            assert_eq!(error.diagnostics[1].message, "worse");
        }
    }
    assert_eq!(state.heap.live_datum_count(), before);
    let findings = vec![finding(DiagnosticSeverity::Warning, "odd")];
    match state.open_local_client(&findings, Skin(1)) {
        Ok(client) => {
            assert_eq!(state.client_session(client), Some(Some(Skin(1))));
            assert_eq!(state.heap.live_datum_count(), before + 1);
        }
        Err(_) => panic!("a sound skin opened no client"),
    }
}

#[test]
fn skins_are_read_once_from_the_project() {
    let mut state = ExecutionState::new();
    assert!(state.missing_skin_root().is_none());
    state.set_project_root("/games/station");
    assert_eq!(state.project_root().map(String::as_str), Some("/games/station"));
    assert_eq!(state.missing_skin_root().map(String::as_str), Some("/games/station"));
    let findings = vec![
        finding(DiagnosticSeverity::Warning, "odd"),
        finding(DiagnosticSeverity::Error, "broken"),
    ];
    assert_eq!(state.adopt_skin(&findings, Skin(2)), Err("broken".to_owned()));
    assert!(state.missing_skin_root().is_some());
    assert_eq!(state.adopt_skin(&Vec::new(), Skin(2)), Ok(()));
    assert!(state.missing_skin_root().is_none());
    assert_eq!(state.clients.skin, Some(Skin(2)));
}

#[test]
fn pointers_find_what_is_on_the_screen() {
    let (mut state, client, mob, _, _) = connected();
    let object = make(&mut state, "/obj");
    set(&mut state, client, "screen", Value::Null);
    assert_eq!(
        state.find_screen_target(client, object.0.index, object.0.generation),
        Err(PointerError::ScreenNotList)
    );
    let screen = list(&mut state, &[number(1.0), Value::Datum(object)]);
    set(&mut state, client, "screen", screen);
    assert_eq!(
        state.find_screen_target(client, object.0.index, object.0.generation),
        Ok(object)
    );
    assert_eq!(
        state.find_screen_target(client, object.0.index, object.0.generation + 1),
        Err(PointerError::StaleTarget)
    );
    assert_eq!(
        state.find_screen_target(mob, object.0.index, object.0.generation),
        Err(PointerError::Client(ClientError::Detached))
    );
}

#[test]
fn pointers_find_what_is_in_a_cell() {
    let (mut state, client, mob, west, _) = connected();
    let plain = make(&mut state, "/datum");
    let cell = Coordinate { x: 1, y: 1, z: 1 };
    let empty = Coordinate { x: 5, y: 5, z: 1 };
    let find = |state: &ExecutionState, of: DatumId, at, seen| {
        state.find_map_target(client, of.0.index, of.0.generation, at, seen)
    };
    assert_eq!(find(&state, mob, cell, Some(cell)), Ok(mob));
    assert_eq!(find(&state, west, cell, Some(cell)), Ok(west));
    assert_eq!(find(&state, plain, cell, Some(cell)), Err(PointerError::NotAtom));
    assert_eq!(find(&state, mob, cell, None), Err(PointerError::OtherCell));
    assert_eq!(find(&state, mob, empty, Some(empty)), Err(PointerError::NoTurf));
    assert_eq!(
        state.find_map_target(client, mob.0.index, mob.0.generation + 1, cell, Some(cell)),
        Err(PointerError::StaleTarget)
    );
}

#[test]
fn clicks_go_to_the_client_and_moves_to_the_atom() {
    let (_, client, mob, _, _) = connected();
    let click = pointer_call(LocalScreenPointerEvent::Click, client, mob);
    assert_eq!((click.receiver, click.method), (client, "Click"));
    let entered = pointer_call(LocalScreenPointerEvent::Entered, client, mob);
    assert_eq!((entered.receiver, entered.method), (mob, "MouseEntered"));
    let exited = pointer_call(LocalScreenPointerEvent::Exited, client, mob);
    assert_eq!((exited.receiver, exited.method), (mob, "MouseExited"));
}

#[test]
fn pointer_calls_carry_their_arguments() {
    let (mut state, client, mob, west, _) = connected();
    let module = module(vec![program(&["a", "b", "c", "d"]), program(&["a", "b"])]);
    let click = LocalScreenPointerEvent::Click;
    let call = target(0, Value::Datum(client));
    let queued = state.queue_local_atom_pointer(&module, mob, click, "", "left=1", call);
    assert_eq!(queued, Ok(()));
    let params = text(&mut state, "left=1");
    assert_eq!(
        queued_arguments(&state, 4),
        vec![Value::Datum(mob), Value::Null, Value::Null, params]
    );
    state.scheduler.spawns.clear();
    let direct = target(1, Value::Datum(mob));
    let queued = state.queue_local_atom_pointer(&module, mob, click, "map", "left=1", direct);
    assert_eq!(queued, Ok(()));
    let control = text(&mut state, "map");
    assert_eq!(queued_arguments(&state, 2), vec![control, params]);
    state.scheduler.spawns.clear();
    let entered = LocalScreenPointerEvent::Entered;
    let moved = target(0, Value::Datum(mob));
    let queued = state.queue_local_atom_pointer(&module, mob, entered, "map", "left=1", moved);
    assert_eq!(queued, Ok(()));
    assert_eq!(queued_arguments(&state, 3), vec![Value::Datum(west), control, params]);
    let missing = target(9, Value::Null);
    assert_eq!(
        state.queue_local_atom_pointer(&module, mob, entered, "", "", missing),
        Err(PointerError::UnknownProcedure(ProcedureId(9)))
    );
}

#[test]
fn topics_reach_their_client() {
    let (mut state, client, mob, _, _) = connected();
    let module = module(vec![program(&["href", "list", "source", "end"])]);
    let parameters = list(&mut state, &[]);
    let src = text(&mut state, "src");
    let reference = text(&mut state, "[0x1]");
    if let Value::List(id) = parameters {
        assert_eq!(state.heap.list_set_key(id, src, reference), Ok(()));
    }
    let found = state.topic_source(parameters).unwrap();
    assert_eq!(state.symbols.text(found), Some("[0x1]"));
    assert_eq!(state.topic_source(Value::Null), None);
    let call = target(0, Value::Datum(client));
    let queued = state.queue_local_browser_topic(
        &module,
        client,
        "?a=b",
        parameters,
        Value::Null,
        call,
    );
    assert_eq!(queued, Ok(()));
    let topic = text(&mut state, "?a=b");
    assert_eq!(
        queued_arguments(&state, 4),
        vec![topic, parameters, Value::Null, number(0.0)]
    );
    assert_eq!(
        state.queue_local_browser_topic(&module, mob, "", parameters, Value::Null, call),
        Err(PointerError::Client(ClientError::Detached))
    );
}

fn prompt(client: DatumId, kind: LocalClientPromptKind, module: &Module) -> PendingLocalPrompt {
    let mut frame = make_frame(
        ProcedureId(0),
        &module.procedures[0],
        &Vec::new(),
        &ExecutionContext::default(),
    );
    frame.instruction = 1;
    PendingLocalPrompt {
        client,
        kind,
        choices: vec![number(10.0), number(20.0)],
        can_cancel: false,
        continuation: PendingPromptContinuation::Frames(vec![frame]),
    }
}

#[test]
fn refused_answers_need_no_parameter() {
    let (mut state, client, mob, _, _) = connected();
    let module = module(vec![program(&[])]);
    let frame = make_frame(
        ProcedureId(0),
        &module.procedures[0],
        &Vec::new(),
        &ExecutionContext::default(),
    );
    let invocation = PendingVerbInvocation {
        frame,
        parameter_types: Vec::new(),
        parameter_names: Vec::new(),
        verb_name: "look".to_string(),
        parameter: 3,
    };
    state.register_prompt(
        5,
        PendingLocalPrompt {
            client,
            kind: LocalClientPromptKind::List,
            choices: vec![number(10.0)],
            can_cancel: false,
            continuation: PendingPromptContinuation::Verb(invocation),
        },
    );
    let choice = LocalClientPromptResponse::Choice(0);
    let range = LocalClientPromptResponse::Choice(1);
    assert!(!state.asks_known_parameter(client, 5, choice));
    assert!(state.asks_known_parameter(mob, 5, choice));
    assert!(state.asks_known_parameter(client, 5, range));
    assert!(matches!(
        state.submit_local_prompt_response(mob, 5, choice),
        Err(PromptError::OtherClient(5))
    ));
    assert!(matches!(
        state.submit_local_prompt_response(client, 5, range),
        Err(PromptError::ChoiceRange { id: 5, index: 1 })
    ));
    assert_eq!(state.pending_local_prompt_count(), 1);
}

#[test]
fn logins_introduce_and_hand_the_key_over() {
    let mut state = ExecutionState::new();
    let place = turf(&mut state, 1.0, 1.0);
    state.rebuild_world_geometry();
    let client = make(&mut state, "/client");
    let mob = make(&mut state, "/mob");
    let key = text(&mut state, "Guest-1");
    set(&mut state, client, "key", key);
    assert!(matches!(state.begin_login(client, mob), Ok(Attachment::Place(turf)) if turf == place));
    set(&mut state, mob, "loc", Value::Datum(place));
    assert!(state.continue_login(client, mob).is_ok());
    assert_eq!(get(&mut state, mob, "key"), None);
    set(&mut state, mob, "key", Value::Null);
    assert!(matches!(state.begin_login(client, mob), Ok(Attachment::Attached(_))));
    assert_eq!(get(&mut state, client, "mob"), Some(Value::Datum(mob)));
    assert_eq!(get(&mut state, mob, "client"), Some(Value::Datum(client)));
    assert_eq!(get(&mut state, mob, "key"), Some(key));
    assert!(matches!(state.begin_login(mob, mob), Err(ClientError::NotClient)));
    let (login, constructor) = (target(0, Value::Datum(mob)), target(1, Value::Datum(mob)));
    let plan = plan_login(login, Some(constructor));
    assert_eq!((plan.target, plan.next), (constructor, Some(login)));
    let plan = plan_login(login, None);
    assert_eq!((plan.target, plan.next), (login, None));
}

#[test]
fn prompts_take_fitting_answers_only() {
    let (mut state, client, mob, _, _) = connected();
    let module = module(vec![program(&[])]);
    state.register_prompt(3, prompt(client, LocalClientPromptKind::List, &module));
    assert_eq!(state.pending_local_prompt_count(), 1);
    let refuse = |state: &mut ExecutionState, from, id, answer| {
        match state.submit_local_prompt_response(from, id, answer) {
            Err(error) => error,
            Ok(_) => panic!("the answer was taken"),
        }
    };
    let choice = LocalClientPromptResponse::Choice(1);
    assert_eq!(refuse(&mut state, client, 4, choice), PromptError::Unknown(4));
    assert_eq!(refuse(&mut state, mob, 3, choice), PromptError::OtherClient(3));
    assert_eq!(
        refuse(&mut state, client, 3, LocalClientPromptResponse::Null),
        PromptError::NotCancellable(3)
    );
    assert_eq!(
        refuse(&mut state, client, 3, LocalClientPromptResponse::Choice(2)),
        PromptError::ChoiceRange { id: 3, index: 2 }
    );
    assert_eq!(
        refuse(
            &mut state,
            client,
            3,
            LocalClientPromptResponse::Number(Number { bits: 0 })
        ),
        PromptError::Incompatible(3)
    );
    assert_eq!(state.pending_local_prompt_count(), 1);
    assert!(matches!(
        state.submit_local_prompt_response(client, 3, choice),
        Ok(PromptOutcome::Scheduled)
    ));
    assert_eq!(state.pending_local_prompt_count(), 0);
    assert_eq!(refuse(&mut state, client, 3, choice), PromptError::Unknown(3));
    assert_eq!(state.scheduler.spawns.len(), 1);
    let mut roots: Vec<Value> = Vec::new();
    append_frames_roots(&mut roots, &state.scheduler.spawns[0].frames.frames);
    assert!(roots.contains(&number(20.0)));
}

#[test]
fn commands_convert_their_arguments() {
    let (mut state, _, mob, _, _) = connected();
    let module = module(vec![program(&["amount"])]);
    let call = target(0, Value::Datum(mob));
    let word = state.symbols.intern("three");
    let unread = vec![CommandArgument { text: word, number: None }];
    assert!(matches!(
        state.run_command(&module, "give", call, &unread),
        Err(CommandError::InvalidNumber(0))
    ));
    let two = vec![
        CommandArgument { text: word, number: Some(Number { bits: 0 }) },
        CommandArgument { text: word, number: Some(Number { bits: 0 }) },
    ];
    assert!(matches!(
        state.run_command(&module, "give", call, &two),
        Err(CommandError::TooManyArguments { limit: 1, given: 2 })
    ));
    let three = Number { bits: 3.0f32.to_bits() };
    let read = vec![CommandArgument { text: word, number: Some(three) }];
    assert!(matches!(
        state.run_command(&module, "give", call, &read),
        Ok(CommandOutcome::Scheduled)
    ));
    assert_eq!(queued_arguments(&state, 1), vec![number(3.0)]);
}

#[test]
fn inventories_list_the_verbs_of_a_type() {
    let mut state = ExecutionState::new();
    let mob = make(&mut state, "/mob");
    let mut module = module(vec![program(&[]), program(&[])]);
    module.paths[0] = "/mob/verb/look".to_string();
    module.paths[1] = "/mob/verb/say".to_string();
    for at in 0..2 {
        module.procedures[at].verb_name = Some("named".to_string());
    }
    let verbs = list(&mut state, &[]);
    set(&mut state, mob, "verbs", verbs);
    let mut parents: SymbolMap<Option<TypePath>> = SymbolMap::new();
    let path = TypePath(state.symbols.intern("/mob"));
    parents.insert(path.0, None);
    state.set_type_parents(parents);
    assert!(state.populate_local_verb_inventory(&module, mob).is_ok());
    let look = TypePath(state.symbols.intern("/mob/verb/look"));
    let say = TypePath(state.symbols.intern("/mob/verb/say"));
    assert_eq!(state.local_verb_inventory(mob), Ok(vec![look, say]));
    let known = state.symbols.count();
    assert!(state.populate_local_verb_inventory(&module, mob).is_ok());
    assert_eq!(state.local_verb_inventory(mob), Ok(vec![look, say]));
    assert_eq!(state.symbols.count(), known);
}

#[test]
fn appearances_show_fields_or_their_fallbacks() {
    let mut state = ExecutionState::new();
    let object = make(&mut state, "/obj");
    set(&mut state, object, "dir", number(4.9));
    set(&mut state, object, "plane", number(-3.0));
    let icon = make(&mut state, "/icon");
    let file = Value::File(state.symbols.intern("a.dmi"));
    set(&mut state, icon, "icon", file);
    set(&mut state, object, "icon", Value::Datum(icon));
    let shown = state.local_client_appearance(object).unwrap();
    assert_eq!((shown.dir, shown.mouse_opacity, shown.appearance_flags), (4, 1, 0));
    assert_eq!(shown.plane, Number { bits: (-3.0f32).to_bits() });
    assert_eq!(shown.alpha, Number { bits: 255.0f32.to_bits() });
    assert_eq!(shown.icon.and_then(|path| state.symbols.text(path)), Some("a.dmi"));
    assert!(shown.color.is_none() && shown.overlays.is_empty());
    let plain = make(&mut state, "/obj");
    assert_eq!(state.local_client_appearance(plain).unwrap().dir, 2);
    assert_eq!(state.heap.destroy_datum(plain), Ok(()));
    assert!(state.local_client_appearance(plain).is_none());
}

#[test]
fn icons_that_back_each_other_are_given_up() {
    let mut state = ExecutionState::new();
    let icon = make(&mut state, "/icon");
    set(&mut state, icon, "icon", Value::Datum(icon));
    assert_eq!(state.local_client_icon_resource(Value::Datum(icon)), None);
    let other = make(&mut state, "/obj");
    assert_eq!(state.local_client_icon_resource(Value::Datum(other)), None);
}

#[test]
fn layers_are_drawn_by_plane_and_layer() {
    let mut state = ExecutionState::new();
    let object = make(&mut state, "/obj");
    let low = make(&mut state, "/obj");
    let high = make(&mut state, "/obj");
    let same = make(&mut state, "/obj");
    set(&mut state, low, "layer", number(-1.0));
    set(&mut state, high, "layer", number(5.0));
    set(&mut state, same, "layer", number(5.0));
    let overlays = list(
        &mut state,
        &[
            Value::Datum(high),
            Value::Datum(low),
            number(7.0),
            Value::Datum(object),
            Value::Datum(same),
        ],
    );
    set(&mut state, object, "overlays", overlays);
    let shown = state.local_client_appearance(object).unwrap();
    let drawn: Vec<DatumId> = shown.overlays.iter().map(|layer| layer.datum).collect();
    assert_eq!(drawn, vec![low, high, same]);
}

#[test]
fn layers_are_cut_off_when_too_deep() {
    let mut state = ExecutionState::new();
    let first = make(&mut state, "/obj");
    let mut below = first;
    for _ in 0..LAYER_DEPTH + 4 {
        let next = make(&mut state, "/obj");
        set(&mut state, below, "underlays", Value::Datum(next));
        below = next;
    }
    let shown = state.local_client_appearance(first).unwrap();
    let mut depth = 1;
    let mut layer = &shown;
    while let Some(next) = layer.underlays.first() {
        layer = next;
        depth += 1;
    }
    assert_eq!(depth, LAYER_DEPTH);
}

#[test]
fn snapshots_show_a_level_row_by_row() {
    let mut state = ExecutionState::new();
    let third = turf(&mut state, 1.0, 2.0);
    let second = turf(&mut state, 3.0, 1.0);
    let first = turf(&mut state, 1.0, 1.0);
    state.rebuild_world_geometry();
    let object = make(&mut state, "/obj");
    set(&mut state, object, "layer", number(-5.0));
    let contents = list(&mut state, &[Value::Datum(object)]);
    set(&mut state, first, "contents", contents);
    let red = text(&mut state, "red");
    set(&mut state, second, "color", red);
    let snapshot = state.local_client_map_snapshot(1);
    let cells: Vec<(i32, i32)> = snapshot.tiles.iter().map(|tile| (tile.x, tile.y)).collect();
    assert_eq!(cells, vec![(1, 1), (3, 1), (1, 2)]);
    assert_eq!((snapshot.width, snapshot.height, snapshot.z), (3, 2, 1));
    assert_eq!(snapshot.tiles[0].occupants, vec![object]);
    let drawn: Vec<DatumId> =
        snapshot.tiles[0].appearances.iter().map(|layer| layer.datum).collect();
    assert_eq!(drawn, vec![object, first]);
    assert_eq!(snapshot.tiles[1].color, Some(red));
    assert_eq!(snapshot.tiles[2].appearances[0].datum, third);
    assert!(snapshot.screen.is_empty());
    let nothing = state.local_client_map_snapshot(2);
    assert!(nothing.tiles.is_empty());
    assert_eq!((nothing.width, nothing.height), (0, 0));
}

#[test]
fn screens_are_shown_in_drawing_order() {
    let (mut state, client, _, _, _) = connected();
    let front = make(&mut state, "/obj");
    let back = make(&mut state, "/obj");
    set(&mut state, front, "plane", number(2.0));
    let named = text(&mut state, "mapwindow:1,1");
    set(&mut state, front, "screen_loc", named);
    set(&mut state, back, "screen_loc", number(4.0));
    let gone = make(&mut state, "/obj");
    let screen = list(
        &mut state,
        &[Value::Datum(front), Value::Datum(gone), Value::Datum(back)],
    );
    set(&mut state, client, "screen", screen);
    assert_eq!(state.heap.destroy_datum(gone), Ok(()));
    let snapshot = state.local_client_map_snapshot_for(Some(client), 1);
    let drawn: Vec<DatumId> =
        snapshot.screen.iter().map(|entry| entry.appearance.datum).collect();
    assert_eq!(drawn, vec![back, front]);
    assert_eq!(snapshot.screen[0].insertion, 2);
    assert!(matches!(snapshot.screen[0].screen_loc, ScreenLocation::Other(value) if value == number(4.0)));
    assert_eq!(snapshot.screen[1].map_control.as_deref(), Some("mapwindow"));
    match &snapshot.screen[1].screen_loc {
        ScreenLocation::Text(place) => assert_eq!(place, "1,1"),
        ScreenLocation::Other(_) => panic!("the location is a text"),
    }
}

fn verbs_of(own: &[Option<CallTarget>], mobs: &[Option<CallTarget>]) -> ResolvedVerbs {
    ResolvedVerbs { own: own.to_vec(), mobs: Ok(mobs.to_vec()) }
}

#[test]
fn client_verbs_go_before_mob_verbs() {
    let (mut state, client, mob, _, _) = connected();
    let module = module(vec![program(&[]), program(&[]), program(&[])]);
    let own = target(2, Value::Datum(client));
    let theirs = target(1, Value::Datum(mob));
    let both = verbs_of(&[None, Some(own)], &[Some(theirs)]);
    assert_eq!(choose_target(&both), Ok(Some(own)));
    assert_eq!(choose_target(&verbs_of(&[None], &[None, Some(theirs)])), Ok(Some(theirs)));
    assert_eq!(choose_target(&verbs_of(&[], &[])), Ok(None));
    let unread = ResolvedVerbs { own: vec![Some(own)], mobs: Err(ClientError::Detached) };
    assert_eq!(choose_target(&unread), Ok(Some(own)));
    let command = match state.read_client_command(client, "look") {
        Ok(command) => command,
        Err(_) => panic!("the command was not read"),
    };
    assert!(matches!(
        state.queue_local_client_command(&module, &command, &both, &Vec::new()),
        Ok(CommandOutcome::Scheduled)
    ));
    assert_eq!(state.scheduler.spawns.len(), 1);
    assert_eq!(state.scheduler.spawns[0].due_tick, state.scheduler_tick());
    assert_eq!(state.scheduler.spawns[0].frames.frames[0].procedure, ProcedureId(2));
}

#[test]
fn verbs_without_kinds_can_still_be_asked_for() {
    let (mut state, client, mob, _, _) = connected();
    let mut module = module(vec![program(&["amount"])]);
    module.procedures[0].verb_parameter_types = Vec::new();
    let command = match state.read_client_command(client, "give") {
        Ok(command) => command,
        Err(_) => panic!("the command was not read"),
    };
    let call = verbs_of(&[], &[Some(target(0, Value::Datum(mob)))]);
    assert!(matches!(
        state.queue_local_client_command(&module, &command, &call, &Vec::new()),
        Ok(CommandOutcome::Verb(_))
    ));
}

#[test]
fn commands_are_read_looked_up_and_queued() {
    let (mut state, client, mob, _, _) = connected();
    let mut module = module(vec![program(&["amount"])]);
    module.paths[0] = "/mob/verb/give_gold".to_string();
    let verb = TypePath(state.symbols.intern("/mob/verb/give_gold@1"));
    let verbs = list(&mut state, &[Value::TypePath(verb)]);
    set(&mut state, mob, "verbs", verbs);
    let mut effective: SymbolMap<ProcedureId> = SymbolMap::new();
    effective.insert(verb.0, ProcedureId(0));
    assert!(matches!(
        state.read_client_command(client, "  "),
        Err(CommandError::Syntax(ClientCommandError::Empty))
    ));
    assert!(matches!(
        state.read_client_command(mob, "give 3"),
        Err(CommandError::Client(ClientError::Detached))
    ));
    let command = match state.read_client_command(client, " Give-Gold 3 ") {
        Ok(command) => command,
        Err(_) => panic!("the command was not read"),
    };
    assert_eq!(command.name, "Give-Gold");
    assert_eq!(command.arguments, "3");
    assert_eq!(command.mob, mob);
    let found = state.command_candidates(&module, &effective, mob, &command.name);
    assert_eq!(found, Ok(vec![verb]));
    assert_eq!(state.find_verb_selector(verb), Some("verb/give_gold".to_string()));
    let numbers = vec![Some(Number { bits: 3.0f32.to_bits() })];
    assert!(matches!(
        state.queue_local_client_command(&module, &command, &verbs_of(&[], &[None]), &numbers),
        Err(CommandError::UnknownCommand)
    ));
    let unread = ResolvedVerbs { own: Vec::new(), mobs: Err(ClientError::Detached) };
    assert!(matches!(
        state.queue_local_client_command(&module, &command, &unread, &numbers),
        Err(CommandError::Client(ClientError::Detached))
    ));
    let call = verbs_of(&[], &[None, Some(target(0, Value::Datum(mob)))]);
    let open = ClientCommand {
        client,
        mob,
        name: "give".to_string(),
        arguments: "\"3".to_string(),
    };
    assert!(matches!(
        state.queue_local_client_command(&module, &open, &call, &numbers),
        Err(CommandError::Syntax(ClientCommandError::UnterminatedQuote))
    ));
    assert!(matches!(
        state.queue_local_client_command(&module, &command, &call, &numbers),
        Ok(CommandOutcome::Scheduled)
    ));
    assert_eq!(queued_arguments(&state, 1), vec![number(3.0)]);
    let answer = LocalClientPromptResponse::Choice(0);
    assert!(state.asks_known_parameter(client, 77, answer));
}
