//! The runtime type catalog: parents, effective initial values, shared fields
//! and instance initializers.

use vstd::prelude::*;
use crate::catalog::{build_type_intervals, ends_distinct, intervals_mirror, types_numbered};
use crate::collector::value_node;
use crate::maps::{enumerates, HandleMap, SymbolMap};
use crate::program::ProcedureId;
use crate::symbols::SymbolTable;
use crate::value::{FieldName, Symbol, TypePath, Value};

verus! {

/// How one field of a new datum is set up.
#[derive(Clone, Copy, PartialEq, Eq, Structural, Debug)]
pub enum InstanceInitializer {
    /// A value known at link time.
    Constant { field: FieldName, value: Value },
    /// A program that runs for every new datum.
    Program { field: FieldName, procedure: ProcedureId },
}

/// What the catalog holds.
pub struct CatalogView {
    pub paths: Set<Symbol>,
    pub parents: Map<Symbol, Option<TypePath>>,
    pub initials: Map<Symbol, Map<Symbol, Value>>,
    pub engine: Map<Symbol, Map<Symbol, Value>>,
    pub shared: Map<Symbol, Map<Symbol, FieldName>>,
    pub initializers: Map<Symbol, Seq<InstanceInitializer>>,
}

/// One entry of a two-level map.
pub open spec fn nested<V>(map: Map<Symbol, Map<Symbol, V>>, outer: Symbol, inner: Symbol) -> Option<
    V,
> {
    if map.contains_key(outer) && map[outer].contains_key(inner) {
        Some(map[outer][inner])
    } else {
        None
    }
}

impl CatalogView {
    /// The parent that the catalog records for a type.
    pub open spec fn parent(self, path: TypePath) -> Option<TypePath> {
        if self.parents.contains_key(path.0) {
            self.parents[path.0]
        } else {
            None
        }
    }

    /// The value of a field along the chain of parents, nearest type first, over
    /// at most `steps` parents.
    pub open spec fn chain_initial(
        self,
        path: TypePath,
        field: FieldName,
        steps: nat,
    ) -> Option<Value>
        decreases steps,
    {
        match nested(self.initials, path.0, field.0) {
            Some(value) => Some(value),
            None => match self.parent(path) {
                Some(parent) => if steps > 0 {
                    self.chain_initial(parent, field, (steps - 1) as nat)
                } else {
                    None
                },
                None => None,
            },
        }
    }

    /// The effective initial value of a field. A chain that does not end yields
    /// nothing once every catalogued type could have been passed.
    pub open spec fn initial_value(self, path: TypePath, field: FieldName) -> Option<Value> {
        self.chain_initial(path, field, self.parents.dom().len())
    }

    /// The initial value of a field, the engine's own default last.
    pub open spec fn effective_initial_value(self, path: TypePath, field: FieldName) -> Option<
        Value,
    > {
        match self.initial_value(path, field) {
            Some(value) => Some(value),
            None => nested(self.engine, path.0, field.0),
        }
    }

    /// The global that stores a shared field of a type.
    pub open spec fn shared_storage(self, path: TypePath, field: FieldName) -> Option<FieldName> {
        nested(self.shared, path.0, field.0)
    }

    /// The fields that a type shares.
    pub open spec fn shared_of(self, path: TypePath) -> Map<Symbol, FieldName> {
        if self.shared.contains_key(path.0) {
            self.shared[path.0]
        } else {
            Map::empty()
        }
    }

    /// Whether a type is another one or descends from it, over at most `steps`
    /// parents.
    pub open spec fn descends(self, path: TypePath, target: TypePath, steps: nat) -> bool
        decreases steps,
    {
        ||| path == target
        ||| match self.parent(path) {
            Some(parent) => steps > 0 && self.descends(parent, target, (steps - 1) as nat),
            None => false,
        }
    }

    /// Whether a type is another one or descends from it.
    pub open spec fn is_subtype(self, path: TypePath, target: TypePath) -> bool {
        self.descends(path, target, self.parents.dom().len())
    }

    /// Whether a new datum of a type runs initializer programs, its own or
    /// inherited ones.
    pub open spec fn runs_programs(self, path: TypePath, steps: nat) -> bool
        decreases steps,
    {
        ||| self.initializers.contains_key(path.0) && exists|i: int|
            0 <= i < self.initializers[path.0].len() && (
            #[trigger] self.initializers[path.0][i]) is Program
        ||| match self.parent(path) {
            Some(parent) => steps > 0 && self.runs_programs(parent, (steps - 1) as nat),
            None => false,
        }
    }
}

spec fn nested_view<V>(map: Map<Symbol, SymbolMap<V>>) -> Map<Symbol, Map<Symbol, V>> {
    Map::new(|outer: Symbol| map.contains_key(outer), |outer: Symbol| map[outer]@)
}

fn nested_get<V: Copy>(map: &SymbolMap<SymbolMap<V>>, outer: Symbol, inner: Symbol) -> (found:
    Option<V>)
    ensures
        found == nested(nested_view(map@), outer, inner),
{
    match map.get(outer) {
        Some(fields) => match fields.get(inner) {
            Some(value) => Some(*value),
            None => None,
        },
        None => None,
    }
}

/// Whether `roots` lists every heap reference among the initial values once.
spec fn lists_references(roots: Seq<Value>, initials: Map<Symbol, Map<Symbol, Value>>) -> bool {
    &&& forall|value: Value| #[trigger]
        roots.contains(value) <==> value_node(value) is Some && exists|path: Symbol, field: Symbol|
            nested(initials, path, field) == Some(value)
    &&& roots.no_duplicates()
}

/// The runtime type catalog.
pub struct TypeCatalog {
    type_paths: SymbolMap<()>,
    type_parents: SymbolMap<Option<TypePath>>,
    type_intervals: SymbolMap<(u32, u32)>,
    initial_values: SymbolMap<SymbolMap<Value>>,
    engine_defaults: SymbolMap<SymbolMap<Value>>,
    shared_fields: SymbolMap<SymbolMap<FieldName>>,
    instance_initializers: SymbolMap<Vec<InstanceInitializer>>,
    initial_value_roots: Vec<Value>,
    effective_cache: SymbolMap<SymbolMap<Option<Value>>>,
    effective_cache_entries: usize,
    cache_entry_limit: usize,
    cache_fields_per_type: usize,
}

impl View for TypeCatalog {
    type V = CatalogView;

    closed spec fn view(&self) -> CatalogView {
        CatalogView {
            paths: self.type_paths@.dom(),
            parents: self.type_parents@,
            initials: nested_view(self.initial_values@),
            engine: nested_view(self.engine_defaults@),
            shared: nested_view(self.shared_fields@),
            initializers: Map::new(
                |path: Symbol| self.instance_initializers@.contains_key(path),
                |path: Symbol| self.instance_initializers@[path]@,
            ),
        }
    }
}

impl TypeCatalog {
    /// The interval that accelerates subtype tests.
    pub closed spec fn intervals(&self) -> Map<Symbol, (u32, u32)> {
        self.type_intervals@
    }

    /// The heap references that the initial values keep alive.
    pub closed spec fn roots(&self) -> Seq<Value> {
        self.initial_value_roots@
    }

    /// Whether the roots hold every heap reference among the initial values.
    pub open spec fn holds_initials(&self) -> bool {
        forall|path: Symbol, field: Symbol|
            match #[trigger] nested(self@.initials, path, field) {
                Some(value) => value is List || value is Datum || value is ModifiedTypePath
                    ==> self.roots().contains(value),
                None => true,
            }
    }

    #[verifier::type_invariant]
    spec fn coherent(&self) -> bool {
        &&& self.type_intervals@.dom() == self.type_parents@.dom()
        &&& 2 * self.type_parents@.dom().len() <= u32::MAX ==> intervals_mirror(
            self.type_parents@,
            self.type_intervals@,
        )
        &&& lists_references(self.initial_value_roots@, nested_view(self.initial_values@))
        &&& forall|path: TypePath, field: FieldName|
            match #[trigger] nested(nested_view(self.effective_cache@), path.0, field.0) {
                Some(cached) => cached == self@.effective_initial_value(path, field),
                None => true,
            }
    }

    /// An empty catalog whose cache holds at most `cache_entry_limit` answers,
    /// `cache_fields_per_type` of them for one type.
    pub fn new(cache_entry_limit: usize, cache_fields_per_type: usize) -> (catalog: Self)
        ensures
            catalog@ == (CatalogView {
                paths: Set::empty(),
                parents: Map::empty(),
                initials: Map::empty(),
                engine: Map::empty(),
                shared: Map::empty(),
                initializers: Map::empty(),
            }),
            catalog.roots() == Seq::<Value>::empty(),
            catalog.intervals() == Map::<Symbol, (u32, u32)>::empty(),
    {
        let catalog = TypeCatalog {
            type_paths: SymbolMap::new(),
            type_parents: SymbolMap::new(),
            type_intervals: SymbolMap::new(),
            initial_values: SymbolMap::new(),
            engine_defaults: SymbolMap::new(),
            shared_fields: SymbolMap::new(),
            instance_initializers: SymbolMap::new(),
            initial_value_roots: Vec::new(),
            effective_cache: SymbolMap::new(),
            effective_cache_entries: 0,
            cache_entry_limit,
            cache_fields_per_type,
        };
        assert(catalog@.paths =~= Set::empty());
        assert(catalog@.initials =~= Map::empty());
        assert(catalog@.engine =~= Map::empty());
        assert(catalog@.shared =~= Map::empty());
        assert(catalog@.initializers =~= Map::empty());
        catalog
    }

    /// Replaces the catalog of known types.
    pub fn set_type_paths(&mut self, paths: SymbolMap<()>)
        ensures
            final(self)@ == (CatalogView { paths: paths@.dom(), ..old(self)@ }),
            final(self).roots() == old(self).roots(),
            final(self).intervals() == old(self).intervals(),
    {
        proof {
            use_type_invariant(&*self);
        }
        self.clear_effective_initial_value_cache();
        self.type_paths = paths;
    }

    /// The catalogued types, each once.
    pub fn type_paths(&self) -> (paths: Vec<Symbol>)
        ensures
            paths@.no_duplicates(),
            forall|path: Symbol| #[trigger] paths@.contains(path) <==> self@.paths.contains(path),
    {
        let mut paths: Vec<Symbol> = Vec::new();
        let count: usize = self.type_paths.len();
        let ghost entries = self.type_paths.entries();
        let mut at: usize = 0;
        while at < count
            invariant
                at <= count == entries.len(),
                entries == self.type_paths.entries(),
                paths@.len() == at,
                forall|i: int| 0 <= i < at ==> #[trigger] paths@[i] == entries[i].0,
            decreases count - at,
        {
            paths.push(self.type_paths.entry(at).0);
            at += 1;
        }
        proof {
            assert forall|i: int, j: int| 0 <= i < paths@.len() && 0 <= j < paths@.len() && i
                != j implies paths@[i] != paths@[j] by {
                if i < j {
                    assert(entries[i].0 != entries[j].0);
                } else {
                    assert(entries[j].0 != entries[i].0);
                }
            }
            assert forall|path: Symbol| #[trigger]
                paths@.contains(path) <==> self@.paths.contains(path) by {
                if paths@.contains(path) {
                    let i = choose|i: int| 0 <= i < paths@.len() && paths@[i] == path;
                    assert(self.type_paths@.contains_key(entries[i].0));
                }
                if self@.paths.contains(path) {
                    let i = choose|i: int| 0 <= i < entries.len() && (#[trigger] entries[i]).0 == path;
                    assert(paths@[i] == path);
                }
            }
        }
        paths
    }

    /// Whether a type is catalogued.
    pub fn has_type_path(&self, path: TypePath) -> (known: bool)
        ensures
            known == self@.paths.contains(path.0),
    {
        self.type_paths.contains_key(path.0)
    }

    /// Replaces the inheritance catalog and renumbers it.
    pub fn set_type_parents(&mut self, symbols: &SymbolTable, parents: SymbolMap<Option<TypePath>>)
        ensures
            final(self)@ == (CatalogView { parents: parents@, ..old(self)@ }),
            final(self).roots() == old(self).roots(),
            types_numbered(*symbols, parents@, final(self).intervals()),
            2 * parents@.dom().len() <= u32::MAX ==> intervals_mirror(
                parents@,
                final(self).intervals(),
            ) && ends_distinct(final(self).intervals()),
    {
        proof {
            use_type_invariant(&*self);
        }
        let intervals = build_type_intervals(symbols, &parents);
        let mut replaced = TypeCatalog::new(self.cache_entry_limit, self.cache_fields_per_type);
        core::mem::swap(self, &mut replaced);
        proof {
            use_type_invariant(&replaced);
        }
        *self = TypeCatalog {
            type_paths: replaced.type_paths,
            type_parents: parents,
            type_intervals: intervals,
            initial_values: replaced.initial_values,
            engine_defaults: replaced.engine_defaults,
            shared_fields: replaced.shared_fields,
            instance_initializers: replaced.instance_initializers,
            initial_value_roots: replaced.initial_value_roots,
            effective_cache: SymbolMap::new(),
            effective_cache_entries: 0,
            cache_entry_limit: replaced.cache_entry_limit,
            cache_fields_per_type: replaced.cache_fields_per_type,
        };
    }

    /// Replaces the initial values and the references they keep alive.
    pub fn set_initial_values(&mut self, values: SymbolMap<SymbolMap<Value>>)
        ensures
            final(self)@ == (CatalogView {
                initials: values_view(values),
                ..old(self)@
            }),
            forall|value: Value| #[trigger]
                final(self).roots().contains(value) <==> value_node(value) is Some && exists|
                    path: Symbol,
                    field: Symbol,
                | nested(values_view(values), path, field) == Some(value),
            final(self).roots().no_duplicates(),
            final(self).intervals() == old(self).intervals(),
    {
        proof {
            use_type_invariant(&*self);
        }
        let roots = reference_roots(&values);
        let mut replaced = TypeCatalog::new(self.cache_entry_limit, self.cache_fields_per_type);
        core::mem::swap(self, &mut replaced);
        proof {
            use_type_invariant(&replaced);
        }
        *self = TypeCatalog {
            type_paths: replaced.type_paths,
            type_parents: replaced.type_parents,
            type_intervals: replaced.type_intervals,
            initial_values: values,
            engine_defaults: replaced.engine_defaults,
            shared_fields: replaced.shared_fields,
            instance_initializers: replaced.instance_initializers,
            initial_value_roots: roots,
            effective_cache: SymbolMap::new(),
            effective_cache_entries: 0,
            cache_entry_limit: replaced.cache_entry_limit,
            cache_fields_per_type: replaced.cache_fields_per_type,
        };
    }

    /// Replaces the defaults that the engine supplies for its own types.
    pub fn set_engine_defaults(&mut self, values: SymbolMap<SymbolMap<Value>>)
        ensures
            final(self)@ == (CatalogView { engine: values_view(values), ..old(self)@ }),
            final(self).roots() == old(self).roots(),
            final(self).intervals() == old(self).intervals(),
    {
        proof {
            use_type_invariant(&*self);
        }
        self.clear_effective_initial_value_cache();
        self.engine_defaults = values;
    }

    /// Replaces the reflection names of shared fields.
    pub fn set_shared_fields(&mut self, fields: SymbolMap<SymbolMap<FieldName>>)
        ensures
            final(self)@ == (CatalogView { shared: shared_view(fields), ..old(self)@ }),
            final(self).roots() == old(self).roots(),
            final(self).intervals() == old(self).intervals(),
    {
        proof {
            use_type_invariant(&*self);
        }
        self.clear_effective_initial_value_cache();
        self.shared_fields = fields;
    }

    /// Replaces the instance initializers and hands the previous ones out.
    pub fn replace_instance_initializers(
        &mut self,
        initializers: SymbolMap<Vec<InstanceInitializer>>,
    ) -> (previous: SymbolMap<Vec<InstanceInitializer>>)
        ensures
            final(self)@ == (CatalogView {
                initializers: initializers_view(initializers),
                ..old(self)@
            }),
            initializers_view(previous) == old(self)@.initializers,
            final(self).roots() == old(self).roots(),
            final(self).intervals() == old(self).intervals(),
    {
        proof {
            use_type_invariant(&*self);
        }
        self.clear_effective_initial_value_cache();
        let mut previous = initializers;
        core::mem::swap(&mut self.instance_initializers, &mut previous);
        previous
    }

    /// Forgets all cached answers.
    pub fn clear_effective_initial_value_cache(&mut self)
        ensures
            final(self)@ == old(self)@,
            final(self).roots() == old(self).roots(),
            final(self).intervals() == old(self).intervals(),
            final(self).uncached(),
    {
        proof {
            use_type_invariant(&*self);
        }
        self.effective_cache = SymbolMap::new();
        self.effective_cache_entries = 0;
    }

    /// Whether no answer is cached.
    pub closed spec fn uncached(&self) -> bool {
        self.effective_cache@ == Map::<Symbol, SymbolMap<Option<Value>>>::empty()
    }

    /// The parent of a type.
    pub fn type_parent(&self, path: TypePath) -> (parent: Option<TypePath>)
        ensures
            parent == self@.parent(path),
    {
        match self.type_parents.get(path.0) {
            Some(parent) => *parent,
            None => None,
        }
    }

    /// The interval of a type.
    pub fn subtype_interval(&self, path: TypePath) -> (interval: Option<(u32, u32)>)
        ensures
            interval == if self@.parents.contains_key(path.0) {
                Some(self.intervals()[path.0])
            } else {
                None
            },
            2 * self@.parents.dom().len() <= u32::MAX ==> intervals_mirror(
                self@.parents,
                self.intervals(),
            ),
    {
        proof {
            use_type_invariant(self);
        }
        match self.type_intervals.get(path.0) {
            Some(interval) => Some(*interval),
            None => None,
        }
    }

    /// The effective initial value of a field.
    pub fn initial_value(&self, path: TypePath, field: FieldName) -> (value: Option<Value>)
        ensures
            value == self@.initial_value(path, field),
    {
        let mut current = path;
        let mut steps: usize = self.type_parents.len();
        loop
            invariant
                self@.initial_value(path, field) == self@.chain_initial(
                    current,
                    field,
                    steps as nat,
                ),
            decreases steps,
        {
            if let Some(value) = nested_get(&self.initial_values, current.0, field.0) {
                return Some(value);
            }
            match self.type_parent(current) {
                Some(parent) => {
                    if steps == 0 {
                        return None;
                    }
                    steps -= 1;
                    current = parent;
                },
                None => {
                    return None;
                },
            }
        }
    }

    /// The global that stores a shared field of a type.
    pub fn shared_storage(&self, path: TypePath, field: FieldName) -> (storage: Option<FieldName>)
        ensures
            storage == self@.shared_storage(path, field),
    {
        nested_get(&self.shared_fields, path.0, field.0)
    }

    /// The fields that a type shares, with the globals that hold them.
    pub fn shared_fields(&self, path: TypePath) -> (fields: Vec<(Symbol, FieldName)>)
        ensures
            enumerates(fields@, self@.shared_of(path)),
    {
        let mut fields: Vec<(Symbol, FieldName)> = Vec::new();
        if let Some(direct) = self.shared_fields.get(path.0) {
            let count: usize = direct.len();
            let mut at: usize = 0;
            while at < count
                invariant
                    at <= count == direct.entries().len(),
                    fields@ =~= direct.entries().subrange(0, at as int),
                decreases count - at,
            {
                let entry = direct.entry(at);
                fields.push((entry.0, *entry.1));
                at += 1;
            }
            assert(fields@ =~= direct.entries());
            assert(self@.shared_of(path) == direct@);
        }
        fields
    }

    /// The initial value of a field, the engine's own default last.
    pub fn default_value(&self, path: TypePath, field: FieldName) -> (value: Option<Value>)
        ensures
            value == self@.effective_initial_value(path, field),
    {
        match self.initial_value(path, field) {
            Some(value) => Some(value),
            None => nested_get(&self.engine_defaults, path.0, field.0),
        }
    }

    /// The initial value of a field, the engine's own default last; answers,
    /// missing ones included, are cached up to the catalog's limits.
    pub fn effective_initial_value(&mut self, path: TypePath, field: FieldName) -> (value: Option<
        Value,
    >)
        ensures
            value == old(self)@.effective_initial_value(path, field),
            final(self)@ == old(self)@,
            final(self).roots() == old(self).roots(),
            final(self).intervals() == old(self).intervals(),
    {
        proof {
            use_type_invariant(&*self);
        }
        if let Some(cached) = nested_get(&self.effective_cache, path.0, field.0) {
            return cached;
        }
        let value = self.default_value(path, field);
        if self.effective_cache_entries < self.cache_entry_limit {
            let held: usize = match self.effective_cache.get(path.0) {
                Some(fields) => fields.len(),
                None => 0,
            };
            if held < self.cache_fields_per_type {
                let mut cache: SymbolMap<SymbolMap<Option<Value>>> = SymbolMap::new();
                core::mem::swap(&mut self.effective_cache, &mut cache);
                let ghost before = cache@;
                let mut fields = match cache.remove(path.0) {
                    Some(fields) => fields,
                    None => SymbolMap::new(),
                };
                let ghost known = fields@;
                fields.insert(field.0, value);
                cache.insert(path.0, fields);
                proof {
                    assert forall|p: TypePath, f: FieldName|
                        match #[trigger] nested(nested_view(cache@), p.0, f.0) {
                            Some(cached) => cached == self@.effective_initial_value(p, f),
                            None => true,
                        } by {
                        if p.0 != path.0 {
                            assert(nested(nested_view(cache@), p.0, f.0) == nested(
                                nested_view(before),
                                p.0,
                                f.0,
                            ));
                        } else if f.0 != field.0 {
                            assert(nested(nested_view(before), p.0, f.0) == if known.contains_key(
                                f.0,
                            ) {
                                Some(known[f.0])
                            } else {
                                None
                            });
                        } else {
                            assert(p == path && f == field);
                        }
                    }
                }
                self.effective_cache = cache;
                self.effective_cache_entries = self.effective_cache_entries + 1;
            }
        }
        value
    }

    /// Whether a new datum of a type runs initializer programs.
    pub fn has_runtime_initializers(&self, path: TypePath) -> (runs: bool)
        ensures
            runs == self@.runs_programs(path, self@.parents.dom().len()),
    {
        let mut current = path;
        let mut steps: usize = self.type_parents.len();
        loop
            invariant
                self@.runs_programs(path, self@.parents.dom().len()) == self@.runs_programs(
                    current,
                    steps as nat,
                ),
            decreases steps,
        {
            if let Some(initializers) = self.instance_initializers.get(current.0) {
                let mut at: usize = 0;
                while at < initializers.len()
                    invariant
                        at <= initializers@.len(),
                        self@.initializers.contains_key(current.0),
                        self@.initializers[current.0] == initializers@,
                        forall|i: int| 0 <= i < at ==> !((#[trigger] initializers@[i]) is Program),
                        self@.runs_programs(path, self@.parents.dom().len())
                            == self@.runs_programs(current, steps as nat),
                    decreases initializers@.len() - at,
                {
                    if let InstanceInitializer::Program { .. } = initializers[at] {
                        assert(self@.initializers[current.0][at as int] is Program);
                        return true;
                    }
                    at += 1;
                }
            }
            match self.type_parent(current) {
                Some(parent) => {
                    if steps == 0 {
                        return false;
                    }
                    steps -= 1;
                    current = parent;
                },
                None => {
                    return false;
                },
            }
        }
    }

    /// Whether a type is another one or descends from it.
    pub fn is_subtype(&self, path: TypePath, target: TypePath) -> (descends: bool)
        ensures
            descends == self@.is_subtype(path, target),
    {
        let mut current = path;
        let mut steps: usize = self.type_parents.len();
        loop
            invariant
                self@.is_subtype(path, target) == self@.descends(current, target, steps as nat),
            decreases steps,
        {
            if current == target {
                return true;
            }
            match self.type_parent(current) {
                Some(parent) => {
                    if steps == 0 {
                        return false;
                    }
                    steps -= 1;
                    current = parent;
                },
                None => {
                    return false;
                },
            }
        }
    }

    /// The initial values of all fields that the engine, a type or its parents
    /// declare.
    pub fn native_defaults(&self, path: TypePath) -> (values: SymbolMap<Value>)
        ensures
            forall|field: FieldName| #[trigger]
                values@.contains_key(field.0) <==> self@.effective_initial_value(
                    path,
                    field,
                ) is Some,
            forall|field: FieldName| #[trigger]
                values@.contains_key(field.0) ==> self@.effective_initial_value(path, field)
                    == Some(values@[field.0]),
    {
        let mut values = self.inherited_initial_values(path);
        if let Some(direct) = self.engine_defaults.get(path.0) {
            let count: usize = direct.len();
            let mut at: usize = 0;
            while at < count
                invariant
                    at <= count == direct.entries().len(),
                    enumerates(direct.entries(), direct@),
                    nested_view(self.engine_defaults@).contains_key(path.0),
                    self@.engine == nested_view(self.engine_defaults@),
                    self@.engine[path.0] == direct@,
                    forall|field: FieldName| #[trigger]
                        values@.contains_key(field.0) ==> self@.effective_initial_value(path, field)
                            == Some(values@[field.0]),
                    forall|field: FieldName|
                        !(#[trigger] values@.contains_key(field.0)) ==> self@.initial_value(
                            path,
                            field,
                        ) is None,
                    forall|i: int|
                        0 <= i < at ==> values@.contains_key((#[trigger] direct.entries()[i]).0),
                decreases count - at,
            {
                let entry = direct.entry(at);
                if !values.contains_key(entry.0) {
                    proof {
                        let field = FieldName(entry.0);
                        assert(nested(self@.engine, path.0, field.0) == Some(*entry.1));
                        assert(!values@.contains_key(field.0));
                    }
                    values.insert(entry.0, *entry.1);
                }
                at += 1;
            }
            proof {
                assert forall|field: FieldName| !(#[trigger] values@.contains_key(field.0))
                    implies nested(self@.engine, path.0, field.0) is None by {
                    if direct@.contains_key(field.0) {
                        let i = choose|i: int|
                            0 <= i < direct.entries().len() && (#[trigger] direct.entries()[i]).0
                                == field.0;
                        assert(values@.contains_key(direct.entries()[i].0));
                    }
                }
            }
        }
        values
    }

    /// The effective initial values of all fields that a type or its parents
    /// declare.
    pub fn inherited_initial_values(&self, path: TypePath) -> (values: SymbolMap<Value>)
        ensures
            forall|field: FieldName| #[trigger]
                values@.contains_key(field.0) <==> self@.initial_value(path, field) is Some,
            forall|field: FieldName| #[trigger]
                values@.contains_key(field.0) ==> self@.initial_value(path, field) == Some(
                    values@[field.0],
                ),
    {
        let mut values: SymbolMap<Value> = SymbolMap::new();
        let mut current = path;
        let mut steps: usize = self.type_parents.len();
        loop
            invariant
                forall|field: FieldName| #[trigger]
                    values@.contains_key(field.0) ==> self@.initial_value(path, field) == Some(
                        values@[field.0],
                    ),
                forall|field: FieldName|
                    !(#[trigger] values@.contains_key(field.0)) ==> self@.initial_value(path, field)
                        == self@.chain_initial(current, field, steps as nat),
            decreases steps,
        {
            if let Some(direct) = self.initial_values.get(current.0) {
                let count: usize = direct.len();
                let mut at: usize = 0;
                while at < count
                    invariant
                        at <= count == direct.entries().len(),
                        enumerates(direct.entries(), direct@),
                        nested_view(self.initial_values@).contains_key(current.0),
                        self@.initials == nested_view(self.initial_values@),
                        self@.initials[current.0] == direct@,
                        forall|field: FieldName| #[trigger]
                            values@.contains_key(field.0) ==> self@.initial_value(path, field)
                                == Some(values@[field.0]),
                        forall|field: FieldName|
                            !(#[trigger] values@.contains_key(field.0)) ==> self@.initial_value(
                                path,
                                field,
                            ) == self@.chain_initial(current, field, steps as nat),
                        forall|i: int|
                            0 <= i < at ==> values@.contains_key(
                                (#[trigger] direct.entries()[i]).0,
                            ),
                    decreases count - at,
                {
                    let entry = direct.entry(at);
                    if !values.contains_key(entry.0) {
                        proof {
                            let field = FieldName(entry.0);
                            assert(nested(self@.initials, current.0, field.0) == Some(*entry.1));
                            assert(!values@.contains_key(field.0));
                        }
                        values.insert(entry.0, *entry.1);
                    }
                    at += 1;
                }
                proof {
                    assert forall|field: FieldName| !(#[trigger] values@.contains_key(field.0))
                        implies nested(self@.initials, current.0, field.0) is None by {
                        if direct@.contains_key(field.0) {
                            let i = choose|i: int|
                                0 <= i < direct.entries().len() && (
                                #[trigger] direct.entries()[i]).0 == field.0;
                            assert(values@.contains_key(direct.entries()[i].0));
                        }
                    }
                }
            }
            match self.type_parent(current) {
                Some(parent) => {
                    if steps == 0 {
                        return values;
                    }
                    steps -= 1;
                    current = parent;
                },
                None => {
                    return values;
                },
            }
        }
    }

    /// The references that the initial values keep alive.
    pub fn append_roots(&self, roots: &mut Vec<Value>)
        ensures
            final(roots)@ == old(roots)@ + self.roots(),
            self.holds_initials(),
    {
        proof {
            use_type_invariant(self);
        }
        crate::roots::append_values(roots, &self.initial_value_roots);
    }
}

/// What a two-level value map holds.
pub closed spec fn values_view(values: SymbolMap<SymbolMap<Value>>) -> Map<
    Symbol,
    Map<Symbol, Value>,
> {
    nested_view(values@)
}

/// What a two-level name map holds.
pub closed spec fn shared_view(fields: SymbolMap<SymbolMap<FieldName>>) -> Map<
    Symbol,
    Map<Symbol, FieldName>,
> {
    nested_view(fields@)
}

/// What an initializer map holds.
pub open spec fn initializers_view(initializers: SymbolMap<Vec<InstanceInitializer>>) -> Map<
    Symbol,
    Seq<InstanceInitializer>,
> {
    Map::new(
        |path: Symbol| initializers@.contains_key(path),
        |path: Symbol| initializers@[path]@,
    )
}

fn reference_roots(values: &SymbolMap<SymbolMap<Value>>) -> (roots: Vec<Value>)
    ensures
        lists_references(roots@, nested_view(values@)),
{
    let ghost initials = nested_view(values@);
    let mut roots: Vec<Value> = Vec::new();
    let mut lists: HandleMap<()> = HandleMap::new();
    let mut datums: HandleMap<()> = HandleMap::new();
    let mut modified: HandleMap<()> = HandleMap::new();
    let count: usize = values.len();
    let mut at: usize = 0;
    while at < count
        invariant
            at <= count == values.entries().len(),
            enumerates(values.entries(), values@),
            initials == nested_view(values@),
            roots@.no_duplicates(),
            known_agree(roots@, lists@, datums@, modified@),
            forall|value: Value| #[trigger]
                roots@.contains(value) ==> value_node(value) is Some && exists|
                    path: Symbol,
                    field: Symbol,
                | nested(initials, path, field) == Some(value),
            forall|i: int, field: Symbol|
                #![trigger values.entries()[i], nested(initials, values.entries()[i].0, field)]
                0 <= i < at ==> match nested(initials, values.entries()[i].0, field) {
                    Some(value) => value_node(value) is Some ==> roots@.contains(value),
                    None => true,
                },
        decreases count - at,
    {
        let entry = values.entry(at);
        let fields = entry.1;
        let inner: usize = fields.len();
        let mut next: usize = 0;
        while next < inner
            invariant
                at < count == values.entries().len(),
                next <= inner == fields.entries().len(),
                enumerates(values.entries(), values@),
                enumerates(fields.entries(), fields@),
                initials == nested_view(values@),
                values@.contains_key(entry.0),
                values@[entry.0] == *fields,
                entry.0 == values.entries()[at as int].0,
                roots@.no_duplicates(),
                known_agree(roots@, lists@, datums@, modified@),
                forall|value: Value| #[trigger]
                    roots@.contains(value) ==> value_node(value) is Some && exists|
                        path: Symbol,
                        field: Symbol,
                    | nested(initials, path, field) == Some(value),
                forall|i: int, field: Symbol|
                    #![trigger values.entries()[i], nested(initials, values.entries()[i].0, field)]
                    0 <= i < at ==> match nested(initials, values.entries()[i].0, field) {
                        Some(value) => value_node(value) is Some ==> roots@.contains(value),
                        None => true,
                    },
                forall|k: int|
                    0 <= k < next ==> (value_node((#[trigger] fields.entries()[k]).1) is Some
                        ==> roots@.contains(fields.entries()[k].1)),
            decreases inner - next,
        {
            let field = fields.entry(next);
            let value = *field.1;
            let ghost before = roots@;
            let known: bool = match value {
                Value::List(id) => lists.insert(id.0, ()).is_some(),
                Value::Datum(id) => datums.insert(id.0, ()).is_some(),
                Value::ModifiedTypePath(id) => modified.insert(id.0, ()).is_some(),
                _ => true,
            };
            proof {
                assert(nested(initials, entry.0, field.0) == Some(value));
            }
            if !known {
                assert(!roots@.contains(value));
                roots.push(value);
                proof {
                    assert forall|v: Value| #[trigger] roots@.contains(v) <==> before.contains(v)
                        || v == value by {
                        if before.contains(v) {
                            let i = choose|i: int| 0 <= i < before.len() && before[i] == v;
                            assert(roots@[i] == v);
                        }
                        if v == value {
                            assert(roots@[before.len() as int] == v);
                        }
                    }
                }
            }
            assert(value_node(value) is Some ==> roots@.contains(value));
            next += 1;
        }
        proof {
            assert forall|i: int, field: Symbol|
                #![trigger values.entries()[i], nested(initials, values.entries()[i].0, field)]
                0 <= i < at + 1 implies match nested(initials, values.entries()[i].0, field) {
                Some(value) => value_node(value) is Some ==> roots@.contains(value),
                None => true,
            } by {
                if i == at {
                    if fields@.contains_key(field) {
                        let k = choose|k: int|
                            0 <= k < fields.entries().len() && (#[trigger] fields.entries()[k]).0
                                == field;
                        assert(fields.entries()[k].1 == fields@[field]);
                    }
                }
            }
        }
        at += 1;
    }
    proof {
        assert forall|value: Value|
            value_node(value) is Some && (exists|path: Symbol, field: Symbol|
                nested(initials, path, field) == Some(value)) implies #[trigger] roots@.contains(
            value,
        ) by {
            let (path, field) = choose|path: Symbol, field: Symbol|
                nested(initials, path, field) == Some(value);
            let i = choose|i: int|
                0 <= i < values.entries().len() && (#[trigger] values.entries()[i]).0 == path;
            assert(nested(initials, values.entries()[i].0, field) == Some(value));
        }
    }
    roots
}

spec fn known_agree(
    roots: Seq<Value>,
    lists: Map<crate::value::Handle, ()>,
    datums: Map<crate::value::Handle, ()>,
    modified: Map<crate::value::Handle, ()>,
) -> bool {
    forall|value: Value|
        value_node(value) is Some ==> (#[trigger] roots.contains(value) <==> match value {
            Value::List(id) => lists.contains_key(id.0),
            Value::Datum(id) => datums.contains_key(id.0),
            Value::ModifiedTypePath(id) => modified.contains_key(id.0),
            _ => false,
        })
}

} // verus!
