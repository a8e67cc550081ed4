//! Jobs, overrides, caches and savefiles that the host keeps for programs.

use dm_vm::program::{Instruction, Module, ProcedureId, Program};
use dm_vm::savefiles::store_entry;
use dm_vm::sidecar::{
    AsyncRegionCompile, PcCache, ProcedureSidecar, ProgramSidecars, RegionCompileResult,
    REGION_ENTRY_THRESHOLD,
};
use dm_vm::state::ExecutionState;
use dm_vm::value::{Number, Symbol, TypePath, Value};

fn module(identity: u64) -> Module {
    Module {
        identity,
        paths: vec!["/proc/only".to_string()],
        procedures: vec![Program {
            wait_for: true,
            parameter_count: 0,
            parameter_names: Vec::new(),
            verb_parameter_types: Vec::new(),
            verb_name: None,
            local_count: 0,
            source_spans: Vec::new(),
            instructions: vec![Instruction::PushNull, Instruction::Return],
        }],
        procedure_types: Vec::new(),
    }
}

#[test]
fn jobs_are_pending_once_and_delivered_once() {
    let mut state = ExecutionState::new();
    let first = state.enqueue_iconforge_job("one");
    let second = state.enqueue_iconforge_job("two");
    assert_eq!((first.as_str(), second.as_str()), ("dream64-iconforge-1", "dream64-iconforge-2"));
    assert_eq!(state.poll_iconforge_job(&first).as_deref(), Some("NO RESULTS YET"));
    assert_eq!(state.poll_iconforge_job(&second).as_deref(), Some("two"));
    assert_eq!(state.poll_iconforge_job(&first).as_deref(), Some("one"));
    assert_eq!(state.poll_iconforge_job(&first), None);
    assert_eq!(state.poll_iconforge_job("never submitted"), None);
}

#[test]
fn database_jobs_have_a_queue_of_their_own() {
    let mut state = ExecutionState::new();
    let id = state.enqueue_sql_job("rows");
    assert_eq!(id, "dream64-sql-1");
    assert_eq!(state.poll_iconforge_job(&id), None);
    assert_eq!(state.poll_sql_job(&id).as_deref(), Some("NO RESULTS YET"));
    assert_eq!(state.poll_sql_job(&id).as_deref(), Some("rows"));
}

#[test]
fn environment_overrides_shadow_or_unset() {
    let mut state = ExecutionState::new();
    assert_eq!(state.environment_override("HOME"), None);
    state.set_environment_override("HOME", Some(Value::Null));
    assert_eq!(state.environment_override("HOME"), Some(Some(Value::Null)));
    state.set_environment_override("HOME", None);
    assert_eq!(state.environment_override("HOME"), Some(None));
}

#[test]
fn icon_configurations_are_found_by_path() {
    let mut state = ExecutionState::new();
    assert!(!state.has_iconforge_gags_config("a.json"));
    state.load_iconforge_gags_config("a.json", "a.dmi");
    assert!(state.has_iconforge_gags_config("a.json"));
    let source = state.iconforge_gags_source("a.json").unwrap();
    assert_eq!(state.symbols.text(source), Some("a.dmi"));
    assert_eq!(state.iconforge_gags_source("b.json"), None);
}

#[test]
fn savefiles_give_back_what_was_stored() {
    let mut state = ExecutionState::new();
    let path = TypePath(state.symbols.intern("/savefile"));
    let file = state.heap.allocate_datum(path);
    let key = state.symbols.intern("score");
    let value = Value::Number(Number { bits: 3.5f32.to_bits() });
    store_entry(&mut state, file, key, value);
    let entries = &state.savefiles.files.get(file.0).unwrap().entries;
    assert_eq!(entries.get(key), Some(&value));
    assert_eq!(entries.get(Symbol(0)), None);
}

#[test]
fn regions_are_compiled_at_the_threshold() {
    let mut sidecar = ProcedureSidecar::new(3);
    for _ in 0..REGION_ENTRY_THRESHOLD - 1 {
        assert!(!sidecar.wants_region_at(0));
        sidecar.poll_region_at(0, Some(7));
        assert_eq!(sidecar.region_at(0), None);
    }
    assert!(sidecar.wants_region_at(0));
    sidecar.poll_region_at(0, Some(7));
    assert_eq!(sidecar.region_at(0), Some(7));
    assert!(sidecar.has_region_at_entry() && sidecar.has_region_at(0));
    assert!(!sidecar.has_region_at(1));
    sidecar.poll_region_at(9, Some(7));
    assert_eq!(sidecar.region_at(9), None);
}

#[test]
fn rejected_regions_are_never_tried_again() {
    let mut sidecar = ProcedureSidecar::new(2);
    sidecar.register_region_candidate(1);
    assert!(sidecar.is_region_site(1));
    assert!(!sidecar.is_region_site(0));
    for _ in 0..REGION_ENTRY_THRESHOLD {
        sidecar.poll_region_at(1, None);
    }
    assert!(matches!(sidecar.pcs[1], PcCache::RegionRejected));
    for _ in 0..100 {
        assert!(!sidecar.wants_region_at(1));
        sidecar.poll_region_at(1, Some(7));
    }
    assert_eq!(sidecar.region_at(1), None);
}

#[test]
fn field_caches_do_not_displace_regions() {
    let mut sidecar = ProcedureSidecar::new(2);
    assert!(sidecar.field_read_cache(0).is_none());
    match sidecar.field_read_cache_or_install(0) {
        Some(cache) => cache.types.push((TypePath(Symbol(1)), 4)),
        None => panic!("a cold slot takes a cache"),
    }
    assert_eq!(sidecar.field_read_cache(0).map(|cache| cache.tracked_type_count()), Some(1));
    assert_eq!(sidecar.widest_field_read(), 1);
    sidecar.poll_region_at(0, Some(7));
    assert!(sidecar.field_read_cache(0).is_some());
    sidecar.poll_region_at(1, Some(7));
    assert!(sidecar.field_read_cache_or_install(1).is_none());
    assert!(sidecar.field_read_cache_or_install(2).is_none());
}

#[test]
fn sidecars_are_kept_by_module_and_procedure() {
    let mut sidecars = ProgramSidecars::new();
    let mut lent = sidecars.resolve(1, ProcedureId(4), 2);
    lent.pcs[1] = PcCache::Region(5);
    if let Some(cache) = lent.field_read_cache_or_install(0) {
        cache.types.push((TypePath(Symbol(1)), 0));
        cache.types.push((TypePath(Symbol(2)), 0));
    }
    sidecars.give_back(1, ProcedureId(4), lent);
    assert!(sidecars.region_installed_at(1, ProcedureId(4), 1));
    assert!(!sidecars.region_installed(1, ProcedureId(4)));
    assert!(!sidecars.region_installed_at(2, ProcedureId(4), 1));
    assert_eq!(sidecars.widest_field_read_site(), 2);
    let again = sidecars.resolve(1, ProcedureId(4), 2);
    assert_eq!(again.region_at(1), Some(5));
    sidecars.give_back(1, ProcedureId(4), again);
    sidecars.clear();
    assert_eq!(sidecars.widest_field_read_site(), 0);
    assert!(!sidecars.region_installed_at(1, ProcedureId(4), 1));
}

#[test]
fn compile_requests_carry_their_module() {
    let mut queue = AsyncRegionCompile::new(&module(9));
    assert_eq!(queue.module_identity(), 9);
    queue.enqueue(ProcedureId(0), 1);
    let requests = queue.take_requests();
    assert_eq!(requests.len(), 1);
    assert_eq!((requests[0].module_identity, requests[0].entry_pc), (9, 1));
    assert!(queue.take_requests().is_empty());
    let result = RegionCompileResult {
        procedure: ProcedureId(0),
        module_identity: 9,
        entry_pc: 1,
        region: Some(3),
    };
    queue.deliver(result);
    assert_eq!(queue.drain_ready(), vec![result]);
    assert!(queue.drain_ready().is_empty());
}
