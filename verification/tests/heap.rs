//! Lists, datums and the collection of those that nothing reaches.

use dm_vm::activation::make_frame;
use dm_vm::collector::collect_unreachable_values;
use dm_vm::heap::{HeapError, ModifiedTypePath, ValueHeap};
use dm_vm::heap_gc::{adaptive_heap_collection_growth, bulk_init_aware_collection_growth};
use dm_vm::list::ListValue;
use dm_vm::operands::{read_list_value, write_list_value};
use dm_vm::fault::Fault;
use dm_vm::frame::ExecutionContext;
use dm_vm::program::{ProcedureId, Program};
use dm_vm::state::{ExecutionState, DEFAULT_HEAP_IDENTITY_CEILING, FIRST_HEAP_COLLECTION};
use dm_vm::value::{FieldName, Number, Symbol, TypePath, Value};

fn number(value: f32) -> Value {
    Value::Number(Number { bits: value.to_bits() })
}

#[test]
fn stale_handles_are_told_from_new_ones() {
    let mut heap = ValueHeap::new();
    let path = TypePath(Symbol(0));
    let name = FieldName(Symbol(1));
    let first = heap.allocate_datum(path);
    assert_eq!(heap.datum_field(first, name), Err(HeapError::MissingField(name)));
    assert_eq!(heap.set_datum_field(first, name, number(5.0)), Ok(()));
    assert_eq!(heap.datum_field(first, name), Ok(number(5.0)));
    assert_eq!(heap.destroy_datum(first), Ok(()));
    assert_eq!(heap.datum_field(first, name), Err(HeapError::StaleDatum(first)));
    assert_eq!(heap.destroy_datum(first), Err(HeapError::StaleDatum(first)));
    let second = heap.allocate_datum(path);
    assert_ne!(first, second);
    assert_eq!(heap.canonicalize(Value::Datum(first)), Value::Null);
    assert_eq!(heap.canonicalize(Value::Datum(second)), Value::Datum(second));
}

#[test]
fn lists_keep_positions_and_associations() {
    let mut list = ListValue::new();
    list.add(number(1.0));
    list.add(number(2.0));
    list.add(number(1.0));
    list.set_key(number(2.0), number(20.0));
    list.set_key(number(3.0), number(30.0));
    assert_eq!(list.len(), 4);
    assert_eq!(list.get(4), Some(number(3.0)));
    assert_eq!(list.get(0), None);
    assert_eq!(list.get(5), None);
    assert_eq!(list.get_key(number(2.0)), Some(number(20.0)));
    assert!(list.remove_last(number(1.0)));
    assert_eq!(list.get(1), Some(number(1.0)));
    assert_eq!(list.len(), 3);
    assert!(list.remove_first(number(2.0)));
    assert_eq!(list.get_key(number(2.0)), None);
    assert!(!list.remove_first(number(2.0)));
    list.resize(4);
    assert_eq!(list.get(4), Some(Value::Null));
    list.resize(1);
    assert_eq!(list.get_key(number(3.0)), None);
    assert_eq!(list.duplicate().get(1), Some(number(1.0)));
}

#[test]
fn list_values_are_read_and_written_by_position_or_key() {
    let mut heap = ValueHeap::new();
    let list = heap.allocate_list();
    assert_eq!(heap.list_add(list, number(7.0)), Ok(()));
    assert_eq!(read_list_value(&heap, list, number(1.0), false), Ok(number(7.0)));
    assert!(read_list_value(&heap, list, number(2.0), false).is_err());
    assert_eq!(write_list_value(&mut heap, list, number(1.0), number(8.0), false), Ok(()));
    assert_eq!(read_list_value(&heap, list, number(1.0), false), Ok(number(8.0)));
    let key = Value::Text(Symbol(3));
    assert_eq!(write_list_value(&mut heap, list, key, number(9.0), false), Ok(()));
    assert_eq!(read_list_value(&heap, list, key, false), Ok(number(9.0)));
    assert_eq!(heap.list_set(list, 9, Value::Null), Err(HeapError::MissingPosition(9)));
    assert!(heap.destroy_list(list));
    assert_eq!(
        read_list_value(&heap, list, number(1.0), false),
        Err(Fault::Heap(HeapError::StaleList(list)))
    );
}

#[test]
fn copies_of_lists_are_independent() {
    let mut heap = ValueHeap::new();
    let list = heap.allocate_list();
    assert_eq!(heap.list_add(list, number(1.0)), Ok(()));
    let copy = heap.copy_list(list).unwrap();
    assert_eq!(heap.list_add(list, number(2.0)), Ok(()));
    assert_eq!(heap.list(copy).map(|values| values.len()).ok(), Some(1));
    assert_eq!(heap.list(list).map(|values| values.len()).ok(), Some(2));
}

#[test]
fn only_what_roots_reach_survives_a_collection() {
    let mut heap = ValueHeap::new();
    let path = TypePath(Symbol(0));
    let name = FieldName(Symbol(1));
    let root = heap.allocate_datum(path);
    let kept = heap.allocate_list();
    let inner = heap.allocate_datum(path);
    let lost = heap.allocate_datum(path);
    let cycle = heap.allocate_list();
    assert_eq!(heap.set_datum_field(root, name, Value::List(kept)), Ok(()));
    assert_eq!(heap.list_set_key(kept, number(1.0), Value::Datum(inner)), Ok(()));
    assert_eq!(heap.list_add(cycle, Value::Datum(lost)), Ok(()));
    assert_eq!(heap.set_datum_field(lost, name, Value::List(cycle)), Ok(()));
    let overridden = heap.store_modified(ModifiedTypePath {
        base: path,
        overrides: vec![(name, Value::Datum(inner))],
    });
    let stats = collect_unreachable_values(
        &mut heap,
        &vec![Value::Datum(root), Value::ModifiedTypePath(overridden)],
    );
    assert_eq!((stats.reclaimed_datums, stats.reclaimed_lists), (1, 1));
    assert!(heap.has_datum(root) && heap.has_list(kept) && heap.has_datum(inner));
    assert!(!heap.has_datum(lost) && !heap.has_list(cycle));
    assert!(heap.modified(overridden).is_some());
    assert_eq!((heap.live_datum_count(), heap.live_list_count()), (2, 1));
}

#[test]
fn collections_wait_until_they_are_due() {
    let mut state = ExecutionState::new();
    let path = state.names.mob_path;
    let lost = state.heap.allocate_datum(path);
    assert_eq!(state.collection.next_list_collection, FIRST_HEAP_COLLECTION);
    state.maybe_collect_unreachable_lists(&Vec::new());
    assert!(state.heap.has_datum(lost));
    state.collection.next_list_collection = 1;
    state.maybe_collect_unreachable_lists(&Vec::new());
    assert!(!state.heap.has_datum(lost));
}

#[test]
fn returned_values_are_kept_until_they_are_released() {
    let mut state = ExecutionState::new();
    let path = state.names.mob_path;
    let returned = state.heap.allocate_datum(path);
    state.host_value_roots.push(Value::Datum(returned));
    state.collection.next_list_collection = 1;
    state.maybe_collect_unreachable_lists(&Vec::new());
    assert!(state.heap.has_datum(returned));
    assert_eq!(state.release_host_value_roots(), 1);
    state.collection.next_list_collection = 1;
    state.maybe_collect_unreachable_lists(&Vec::new());
    assert!(!state.heap.has_datum(returned));
}

#[test]
fn quiescent_heaps_are_collected_at_once() {
    let mut state = ExecutionState::new();
    let path = state.names.mob_path;
    let lost = state.heap.allocate_datum(path);
    let list = state.heap.allocate_list();
    let (datums, lists) = state.compact_quiescent_heap();
    assert!(datums + lists >= 2);
    assert!(!state.heap.has_datum(lost) && !state.heap.has_list(list));
}

#[test]
fn growth_follows_what_collections_reclaim() {
    let quiet = adaptive_heap_collection_growth(1_000_000, 0);
    let busy = adaptive_heap_collection_growth(1_000_000, 900_000);
    assert!(quiet >= 65_536 && busy >= 65_536);
    assert!(busy <= quiet);
    let patient = bulk_init_aware_collection_growth(1_000_000, 0, 8, DEFAULT_HEAP_IDENTITY_CEILING);
    assert!(patient >= quiet);
    assert_eq!(patient, 1_000_000);
    let near = DEFAULT_HEAP_IDENTITY_CEILING - 1;
    assert_eq!(bulk_init_aware_collection_growth(near, 0, 3, near + 1), 1);
    assert_eq!(bulk_init_aware_collection_growth(near, 0, 2, near + 1), 262_144);
    assert_eq!(bulk_init_aware_collection_growth(near, 0, 3, near), 262_144);
    assert_eq!(bulk_init_aware_collection_growth(100, 0, 3, 1_000_000), 65_536);
}

#[test]
fn fresh_states_keep_only_what_frames_hold() {
    let program = Program {
        wait_for: true,
        parameter_count: 0,
        parameter_names: Vec::new(),
        verb_parameter_types: Vec::new(),
        verb_name: None,
        local_count: 0,
        source_spans: Vec::new(),
        instructions: Vec::new(),
    };
    let mut state = ExecutionState::new();
    let held = state.heap.allocate_list();
    let lost = state.heap.allocate_list();
    let frame = |arguments: &Vec<Value>| {
        make_frame(ProcedureId(0), &program, arguments, &ExecutionContext::default())
    };
    let mut outer = frame(&Vec::new());
    outer.set_engine_post_return(Some(Box::new(frame(&vec![Value::List(held)]))));
    state.collection.next_list_collection = 2;
    state.maybe_collect_unreachable_lists(&vec![outer]);
    assert!(state.heap.has_list(held));
    assert!(!state.heap.has_list(lost));
    assert_eq!(state.heap.live_list_count(), 1);
    assert_eq!(state.collection.next_list_collection, 65_537);
}

#[test]
fn the_last_vacated_cell_is_filled_first() {
    let mut heap = ValueHeap::new();
    let kind = TypePath(Symbol(0));
    let first = heap.allocate_datum(kind);
    let second = heap.allocate_datum(kind);
    assert_eq!((first.0.index, second.0.index), (0, 1));
    assert_eq!(heap.destroy_datum(second), Ok(()));
    assert_eq!(heap.destroy_datum(first), Ok(()));
    let third = heap.allocate_datum(kind);
    assert_eq!((third.0.index, third.0.generation), (0, 1));
    let fourth = heap.allocate_datum(kind);
    assert_eq!((fourth.0.index, fourth.0.generation), (1, 1));
    assert_eq!(heap.allocate_datum(kind).0.index, 2);
    assert_eq!(heap.allocate_list().0.index, 0);
}
