//! Types, the map and what lies on it.

use dm_vm::catalog::build_type_intervals;
use dm_vm::coordinates::Coordinate;
use dm_vm::heap::{HeapError, ValueHeap};
use dm_vm::maps::SymbolMap;
use dm_vm::program::ProcedureId;
use dm_vm::resizing::PreparedDatums;
use dm_vm::state::ExecutionState;
use dm_vm::symbols::SymbolTable;
use dm_vm::types::InstanceInitializer;
use dm_vm::value::{DatumId, FieldName, Number, TypePath, Value};
use dm_vm::visibility::VisibilityError;
use dm_vm::world::WorldError;

fn number(value: f32) -> Value {
    Value::Number(Number { bits: value.to_bits() })
}

fn path(state: &mut ExecutionState, text: &str) -> TypePath {
    TypePath(state.symbols.intern(text))
}

fn field(state: &mut ExecutionState, text: &str) -> FieldName {
    FieldName(state.symbols.intern(text))
}

fn turf(state: &mut ExecutionState, x: f32, y: f32, z: f32) -> DatumId {
    let kind = path(state, "/turf/floor");
    let id = state.heap.allocate_datum(kind);
    for (name, value) in [("x", x), ("y", y), ("z", z)] {
        let name = field(state, name);
        assert_eq!(state.heap.set_datum_field(id, name, number(value)), Ok(()));
    }
    id
}

fn typed() -> ExecutionState {
    let mut state = ExecutionState::new();
    let mut parents: SymbolMap<Option<TypePath>> = SymbolMap::new();
    let mut paths: SymbolMap<()> = SymbolMap::new();
    let chain = ["/datum", "/atom", "/atom/movable", "/mob"];
    let mut parent: Option<TypePath> = None;
    for text in chain {
        let own = path(&mut state, text);
        parents.insert(own.0, parent);
        paths.insert(own.0, ());
        parent = Some(own);
    }
    let other = path(&mut state, "/client");
    parents.insert(other.0, None);
    paths.insert(other.0, ());
    state.set_type_parents(parents);
    state.set_type_paths(paths);
    state
}

#[test]
fn types_are_numbered_by_spelling_and_cycles_last() {
    let mut symbols = SymbolTable::new();
    let d = TypePath(symbols.intern("/d"));
    let c = TypePath(symbols.intern("/c"));
    let below = TypePath(symbols.intern("/a/b"));
    let a = TypePath(symbols.intern("/a"));
    let mut parents: SymbolMap<Option<TypePath>> = SymbolMap::new();
    parents.insert(a.0, None);
    parents.insert(below.0, Some(a));
    parents.insert(c.0, Some(d));
    parents.insert(d.0, Some(c));
    let intervals = build_type_intervals(&symbols, &parents);
    assert_eq!(intervals.len(), 4);
    assert_eq!(intervals.get(a.0), Some(&(0, 3)));
    assert_eq!(intervals.get(below.0), Some(&(1, 2)));
    assert_eq!(intervals.get(c.0), Some(&(4, 7)));
    assert_eq!(intervals.get(d.0), Some(&(5, 6)));
}

#[test]
fn types_descend_from_their_parents() {
    let mut state = typed();
    let mob = path(&mut state, "/mob");
    let atom = path(&mut state, "/atom");
    let client = path(&mut state, "/client");
    let unknown = path(&mut state, "/nothing");
    assert!(state.catalog.is_subtype(mob, atom));
    assert!(state.catalog.is_subtype(mob, mob));
    assert!(!state.catalog.is_subtype(atom, mob));
    assert!(!state.catalog.is_subtype(client, atom));
    assert_eq!(state.catalog.subtype_interval(unknown), None);
    let outer = state.catalog.subtype_interval(atom).unwrap();
    let inner = state.catalog.subtype_interval(mob).unwrap();
    assert!(outer.0 <= inner.0 && inner.1 <= outer.1);
}

#[test]
fn type_paths_come_in_spelling_order() {
    let state = typed();
    let spelled: Vec<&str> =
        state.type_paths().iter().map(|path| state.symbols.text(*path).unwrap()).collect();
    assert_eq!(spelled, vec!["/atom", "/atom/movable", "/client", "/datum", "/mob"]);
}

#[test]
fn initial_values_are_inherited_and_overridden() {
    let mut state = typed();
    let atom = path(&mut state, "/atom");
    let mob = path(&mut state, "/mob");
    let layer = field(&mut state, "layer");
    let density = field(&mut state, "density");
    let absent = field(&mut state, "absent");
    let mut values: SymbolMap<SymbolMap<Value>> = SymbolMap::new();
    let mut of_atom: SymbolMap<Value> = SymbolMap::new();
    of_atom.insert(layer.0, number(1.0));
    of_atom.insert(density.0, number(0.0));
    values.insert(atom.0, of_atom);
    let mut of_mob: SymbolMap<Value> = SymbolMap::new();
    of_mob.insert(layer.0, number(4.0));
    values.insert(mob.0, of_mob);
    state.set_initial_values(values);
    assert_eq!(state.initial_value(mob, layer), Some(number(4.0)));
    assert_eq!(state.initial_value(mob, density), Some(number(0.0)));
    assert_eq!(state.effective_initial_value(mob, absent), None);
    assert_eq!(state.effective_initial_value(mob, layer), Some(number(4.0)));
    assert_eq!(state.effective_initial_value(mob, layer), Some(number(4.0)));
    let inherited = state.catalog.inherited_initial_values(mob);
    assert_eq!(inherited.len(), 2);

    let datum = state.heap.allocate_datum(mob);
    assert_eq!(state.heap.set_datum_field(datum, layer, number(9.0)), Ok(()));
    assert_eq!(state.seed_native_datum_defaults(datum, mob), Ok(()));
    assert_eq!(state.heap.datum_field(datum, layer), Ok(number(9.0)));
    assert_eq!(state.heap.datum_field(datum, density), Ok(number(0.0)));
    assert_eq!(state.heap.destroy_datum(datum), Ok(()));
    assert_eq!(
        state.seed_native_datum_defaults(datum, mob),
        Err(HeapError::StaleDatum(datum))
    );
}

#[test]
fn replaced_initializers_come_back() {
    let mut state = typed();
    let mob = path(&mut state, "/mob");
    let layer = field(&mut state, "layer");
    let mut first: SymbolMap<Vec<InstanceInitializer>> = SymbolMap::new();
    first.insert(
        mob.0,
        vec![InstanceInitializer::Constant { field: layer, value: number(1.0) }],
    );
    state.set_instance_initializers(first);
    assert!(!state.catalog.has_runtime_initializers(mob));
    let previous = state.replace_instance_initializers(SymbolMap::new());
    assert_eq!(previous.len(), 1);
}

#[test]
fn geometry_is_rebuilt_from_turfs() {
    let mut state = ExecutionState::new();
    let low = turf(&mut state, 1.0, 1.0, 1.0);
    let high = turf(&mut state, 3.0, 2.0, 1.0);
    let nowhere = turf(&mut state, 0.5, 1.0, 1.0);
    state.rebuild_world_geometry();
    assert_eq!(state.turf_at(1, 1, 1), Some(low));
    assert_eq!(state.turf_at(3, 2, 1), Some(high));
    assert_eq!(state.turf_at(2, 2, 1), None);
    assert_eq!(state.turf_cell(high), Some(Coordinate { x: 3, y: 2, z: 1 }));
    assert_eq!(state.turf_cell(nowhere), None);
    assert_eq!(state.first_turf(), Some(low));
}

#[test]
fn states_around_a_heap_know_its_turfs() {
    let mut symbols = SymbolTable::new();
    let kind = TypePath(symbols.intern("/turf"));
    let names = [symbols.intern("x"), symbols.intern("y"), symbols.intern("z")];
    let mut heap = ValueHeap::new();
    let id = heap.allocate_datum(kind);
    for name in names {
        assert_eq!(heap.set_datum_field(id, FieldName(name), number(2.0)), Ok(()));
    }
    let state = ExecutionState::from_heap(symbols, heap);
    assert_eq!(state.turf_at(2, 2, 2), Some(id));
    assert_eq!(state.into_heap().live_datum_count(), 1);
}

#[test]
fn worlds_do_not_shrink_below_one() {
    let mut state = ExecutionState::new();
    let world_path = state.names.world_path;
    let world = state.heap.allocate_datum(world_path);
    let prepared = PreparedDatums { area: None, turfs: Vec::new() };
    assert_eq!(
        state.resize_world_geometry(world, (0, 1, 1), &prepared),
        Err(WorldError::NotPositive)
    );
    let maxx = field(&mut state, "maxx");
    assert_eq!(state.world_dimension(world, maxx), Ok(1));
    assert_eq!(state.heap.set_datum_field(world, maxx, number(2.5)), Ok(()));
    assert_eq!(
        state.world_dimension(world, maxx),
        Err(WorldError::Dimension(maxx, Number { bits: 2.5f32.to_bits() }))
    );
}

#[test]
fn resized_worlds_hold_exactly_their_cells() {
    let mut state = ExecutionState::new();
    let world_path = state.names.world_path;
    let world = state.heap.allocate_datum(world_path);
    let prepared = PreparedDatums { area: None, turfs: Vec::new() };
    assert_eq!(state.resize_world_geometry(world, (3, 2, 1), &prepared), Ok(()));
    let kept = state.turf_at(2, 1, 1);
    let gone = state.turf_at(3, 1, 1);
    assert!(kept.is_some() && gone.is_some());
    assert_eq!(state.turf_at(3, 3, 1), None);
    assert_eq!(
        state.resize_world_geometry(world, (3, 0, 1), &prepared),
        Err(WorldError::NotPositive)
    );
    assert_eq!(state.turf_at(3, 1, 1), gone);
    assert_eq!(state.turf_at(2, 1, 1), kept);
    assert_eq!(state.resize_world_geometry(world, (2, 3, 1), &prepared), Ok(()));
    assert_eq!(state.turf_at(2, 1, 1), kept);
    assert_eq!(state.turf_at(3, 1, 1), None);
    assert!(state.turf_at(2, 3, 1).is_some());
    let maxy = field(&mut state, "maxy");
    assert_eq!(state.world_dimension(world, maxy), Ok(3));
    match gone {
        Some(turf) => assert!(state.heap.datum(turf).is_err()),
        None => panic!("the cell was empty"),
    }
}

#[test]
fn a_second_rebuild_changes_nothing() {
    let mut state = ExecutionState::new();
    let world_path = state.names.world_path;
    let world = state.heap.allocate_datum(world_path);
    let low = turf(&mut state, 1.0, 1.0, 1.0);
    let high = turf(&mut state, 3.0, 2.0, 1.0);
    let area_kind = path(&mut state, "/area");
    let area = state.heap.allocate_datum(area_kind);
    let loc = state.names.loc;
    assert_eq!(state.heap.set_datum_field(high, loc, Value::Datum(area)), Ok(()));
    let contents = Value::List(state.heap.allocate_list());
    let name = state.names.contents;
    assert_eq!(state.heap.set_datum_field(area, name, contents), Ok(()));
    let shown = |state: &mut ExecutionState| {
        state.rebuild_world_geometry();
        let maxx = state.names.maxx;
        let owner = match contents {
            Value::List(list) => state.contents_owner(list),
            _ => None,
        };
        (
            state.turf_at(1, 1, 1),
            state.turf_at(3, 2, 1),
            state.world.areas.len(),
            owner,
            state.heap.datum_field(world, maxx),
        )
    };
    let once = shown(&mut state);
    assert_eq!(once, (Some(low), Some(high), 1, Some(area), Ok(number(3.0))));
    assert_eq!(shown(&mut state), once);
}

#[test]
fn resizes_say_what_they_need() {
    let mut state = ExecutionState::new();
    let world_path = state.names.world_path;
    let world = state.heap.allocate_datum(world_path);
    let (turf_path, area_path) = (state.names.turf_path, state.names.area_path);
    assert!(matches!(
        state.plan_world_resize(world, (1, 0, 1)),
        Err(WorldError::NotPositive)
    ));
    let plain = state.plan_world_resize(world, (2, 1, 1)).unwrap_or_else(|_| panic!("refused"));
    assert_eq!((plain.cells.len(), plain.turf, plain.area), (2, None, None));
    let layer = field(&mut state, "layer");
    let mut programs: SymbolMap<Vec<InstanceInitializer>> = SymbolMap::new();
    for path in [turf_path, area_path] {
        let program = InstanceInitializer::Program { field: layer, procedure: ProcedureId(0) };
        programs.insert(path.0, vec![program]);
    }
    state.set_instance_initializers(programs);
    let plan = state.plan_world_resize(world, (2, 1, 1)).unwrap_or_else(|_| panic!("refused"));
    let cells = vec![Coordinate { x: 1, y: 1, z: 1 }, Coordinate { x: 2, y: 1, z: 1 }];
    assert_eq!(plan.cells, cells);
    assert_eq!((plan.turf, plan.area), (Some(turf_path), Some(area_path)));
    let short = PreparedDatums { area: None, turfs: Vec::new() };
    assert_eq!(
        state.resize_world_geometry(world, (2, 1, 1), &short),
        Err(WorldError::Uninitialized(area_path))
    );
    let area = state.heap.allocate_datum(area_path);
    let later = state.plan_world_resize(world, (2, 1, 1)).unwrap_or_else(|_| panic!("refused"));
    assert_eq!(later.area, None);
    let turfs: Vec<DatumId> =
        plan.cells.iter().map(|_| state.heap.allocate_datum(turf_path)).collect();
    let prepared = PreparedDatums { area: Some(area), turfs };
    assert_eq!(state.resize_world_geometry(world, (2, 1, 1), &prepared), Ok(()));
    let done = state.plan_world_resize(world, (2, 1, 1)).unwrap_or_else(|_| panic!("refused"));
    assert!(done.cells.is_empty());
}

#[test]
fn visibility_lists_mirror_each_other() {
    let mut state = ExecutionState::new();
    let kind = path(&mut state, "/obj");
    let plain = path(&mut state, "/datum");
    let holder = state.heap.allocate_datum(kind);
    let shown = state.heap.allocate_datum(kind);
    let other = state.heap.allocate_datum(plain);
    let list = state.ensure_visibility_list(holder, true).unwrap();
    assert_eq!(state.visibility_owner(list), Some((holder, true)));
    assert_eq!(
        state.mutate_vis_contents_scalar(list, Value::Datum(shown), true),
        Ok(Some(true))
    );
    assert_eq!(
        state.mutate_vis_contents_scalar(list, Value::Datum(shown), true),
        Ok(Some(false))
    );
    assert_eq!(state.visibility_members(list), Ok(vec![shown]));
    let back = state.ensure_visibility_list(shown, false).unwrap();
    assert_eq!(state.visibility_members(back), Ok(vec![holder]));
    assert_eq!(
        state.mutate_vis_contents_scalar(list, Value::Datum(other), true),
        Err(VisibilityError::Member(Value::Datum(other)))
    );
    assert_eq!(
        state.mutate_vis_contents_scalar(list, Value::Datum(shown), false),
        Ok(Some(true))
    );
    assert_eq!(state.visibility_members(back), Ok(Vec::new()));
}

#[test]
fn heaps_are_handed_over() {
    let mut state = ExecutionState::new();
    let kind = path(&mut state, "/obj");
    let id = state.heap_mut().allocate_datum(kind);
    assert!(state.heap().has_datum(id));
    let mut kept = state.take_compact_default_datums();
    assert_eq!(kept.len(), 0);
    kept.insert(id.0, ());
    state.set_compact_default_datums(kept);
    assert_eq!(state.take_compact_default_datums().len(), 1);
    assert_eq!(state.take_compact_default_datums().len(), 0);
    state.reseed_random(77);
    assert_eq!(state.random_state(), 77);
    assert!(state.into_heap().has_datum(id));
}

#[test]
fn turfs_note_their_areas() {
    let mut state = ExecutionState::new();
    let here = turf(&mut state, 2.0, 3.0, 1.0);
    let nowhere = turf(&mut state, 0.5, 3.0, 1.0);
    let kind = path(&mut state, "/area");
    let area = state.heap.allocate_datum(kind);
    state.note_turf_area(here, area);
    state.note_turf_area(nowhere, area);
    assert_eq!(state.world.areas.get(Coordinate { x: 2, y: 3, z: 1 }), Some(&area));
    assert_eq!(state.world.areas.get(Coordinate { x: 0, y: 3, z: 1 }), None);
    let list = state.heap.allocate_list();
    assert_eq!(state.contents_owner(list), None);
}
