//! What resolution accumulates: the types resolved so far, the
//! constructions asked of the type sink, and the functions seen.

use vstd::prelude::*;
use crate::types::{TypeHandle, TypeRequest, TypeRequestView};

verus! {

/// The nesting of references beyond which resolution gives up, unless
/// another limit is chosen.
pub const DEFAULT_DEPTH_LIMIT: usize = 512;

/// The text of an optional string.
pub open spec fn opt_text(s: Option<String>) -> Option<Seq<char>> {
    match s {
        Some(s) => Some(s@),
        None => None,
    }
}

/// Named parameters, each with the key of its type, as plain values.
pub open spec fn named_keys(parameters: Seq<(String, usize)>) -> Seq<(Seq<char>, usize)> {
    Seq::new(parameters.len(), |i: int| (parameters[i].0@, parameters[i].1))
}

/// The named parameters of an optional list.
pub open spec fn opt_named_keys(parameters: Option<Vec<(String, usize)>>) -> Option<
    Seq<(Seq<char>, usize)>,
> {
    match parameters {
        Some(list) => Some(named_keys(list@)),
        None => None,
    }
}

/// What has been learned of one function from the entries that describe
/// it.
#[derive(Clone, Debug, PartialEq, Eq)]
pub struct FunctionInfoBuilder {
    pub short_name: Option<String>,
    pub full_name: Option<String>,
    pub raw_name: Option<String>,
    /// The key of the return type.
    pub return_type: Option<usize>,
    pub address: Option<u64>,
    /// The named parameters in order, each with the key of its type.
    pub parameters: Vec<(String, usize)>,
}

pub struct FunctionInfoView {
    pub short_name: Option<Seq<char>>,
    pub full_name: Option<Seq<char>>,
    pub raw_name: Option<Seq<char>>,
    pub return_type: Option<usize>,
    pub address: Option<u64>,
    pub parameters: Seq<(Seq<char>, usize)>,
}

/// One sighting of a function: what a single entry says of it.
pub struct Sighting {
    pub short_name: Option<Seq<char>>,
    pub full_name: Option<Seq<char>>,
    pub raw_name: Option<Seq<char>>,
    pub return_type: Option<usize>,
    pub address: Option<u64>,
    pub parameters: Option<Seq<(Seq<char>, usize)>>,
}

/// The later value where there is one, and the earlier otherwise.
pub open spec fn later_or<T>(earlier: Option<T>, later: Option<T>) -> Option<T> {
    if later is Some {
        later
    } else {
        earlier
    }
}

impl Sighting {
    /// The record of a function of which this sighting is the first.
    pub open spec fn first(self) -> FunctionInfoView {
        FunctionInfoView {
            short_name: self.short_name,
            full_name: self.full_name,
            raw_name: self.raw_name,
            return_type: self.return_type,
            address: self.address,
            parameters: match self.parameters {
                Some(list) => list,
                None => Seq::empty(),
            },
        }
    }
}

impl FunctionInfoView {
    /// The record after a further sighting: each field takes the later
    /// value where the sighting has one and keeps its own otherwise. A list
    /// of parameters counts as a value only if it names a parameter.
    pub open spec fn update(self, s: Sighting) -> FunctionInfoView {
        FunctionInfoView {
            short_name: later_or(self.short_name, s.short_name),
            full_name: later_or(self.full_name, s.full_name),
            raw_name: later_or(self.raw_name, s.raw_name),
            return_type: later_or(self.return_type, s.return_type),
            address: later_or(self.address, s.address),
            parameters: match s.parameters {
                Some(list) => if list.len() > 0 {
                    list
                } else {
                    self.parameters
                },
                None => self.parameters,
            },
        }
    }
}

/// A later sighting never clears what an earlier one has set, and what it
/// sets itself is what the record then holds.
pub proof fn lemma_update_keeps_and_overwrites(record: FunctionInfoView, s: Sighting)
    ensures
        ({
            let merged = record.update(s);
            &&& record.short_name is Some ==> merged.short_name is Some
            &&& record.full_name is Some ==> merged.full_name is Some
            &&& record.raw_name is Some ==> merged.raw_name is Some
            &&& record.return_type is Some ==> merged.return_type is Some
            &&& record.address is Some ==> merged.address is Some
            &&& record.parameters.len() > 0 ==> merged.parameters.len() > 0
            &&& s.short_name is Some ==> merged.short_name == s.short_name
            &&& s.full_name is Some ==> merged.full_name == s.full_name
            &&& s.raw_name is Some ==> merged.raw_name == s.raw_name
            &&& s.return_type is Some ==> merged.return_type == s.return_type
            &&& s.address is Some ==> merged.address == s.address
            &&& s.parameters is Some && s.parameters->0.len() > 0 ==> merged.parameters
                == s.parameters->0
        }),
{
}

/// A declaration that carries the names and the signature, and a definition
/// that carries only the address, merge in either order into one record
/// that has all of them.
pub proof fn lemma_declaration_and_definition_merge(declaration: Sighting, definition: Sighting)
    requires
        declaration.address is None,
        definition.short_name is None,
        definition.full_name is None,
        definition.raw_name is None,
        definition.return_type is None,
        definition.parameters is None || definition.parameters->0.len() == 0,
    ensures
        declaration.first().update(definition) == (FunctionInfoView {
            address: definition.address,
            ..declaration.first()
        }),
        definition.first().update(declaration) == (FunctionInfoView {
            address: definition.address,
            ..declaration.first()
        }),
{
    let a = declaration.first().update(definition);
    let b = definition.first().update(declaration);
    assert(a.parameters =~= declaration.first().parameters);
    assert(b.parameters =~= declaration.first().parameters);
}

impl View for FunctionInfoBuilder {
    type V = FunctionInfoView;

    open spec fn view(&self) -> FunctionInfoView {
        FunctionInfoView {
            short_name: opt_text(self.short_name),
            full_name: opt_text(self.full_name),
            raw_name: opt_text(self.raw_name),
            return_type: self.return_type,
            address: self.address,
            parameters: named_keys(self.parameters@),
        }
    }
}

/// What one entry says of a function, as the values that were read.
pub open spec fn sighting(
    short_name: Option<String>,
    full_name: Option<String>,
    raw_name: Option<String>,
    return_type: Option<usize>,
    address: Option<u64>,
    parameters: Option<Vec<(String, usize)>>,
) -> Sighting {
    Sighting {
        short_name: opt_text(short_name),
        full_name: opt_text(full_name),
        raw_name: opt_text(raw_name),
        return_type,
        address,
        parameters: opt_named_keys(parameters),
    }
}

impl FunctionInfoBuilder {
    /// Merges a further sighting of the function into the record.
    pub fn update(
        &mut self,
        short_name: Option<String>,
        full_name: Option<String>,
        raw_name: Option<String>,
        return_type: Option<usize>,
        address: Option<u64>,
        parameters: Option<Vec<(String, usize)>>,
    )
        ensures
            final(self)@ == old(self)@.update(
                sighting(short_name, full_name, raw_name, return_type, address, parameters),
            ),
    {
        if short_name.is_some() {
            self.short_name = short_name;
        }
        if full_name.is_some() {
            self.full_name = full_name;
        }
        if raw_name.is_some() {
            self.raw_name = raw_name;
        }
        if return_type.is_some() {
            self.return_type = return_type;
        }
        if address.is_some() {
            self.address = address;
        }
        match parameters {
            Some(list) => {
                if list.len() > 0 {
                    self.parameters = list;
                }
            },
            None => {},
        }
    }
}

/// A resolved type: the entry it was resolved from, its display name, and
/// the handle of the constructed type.
#[derive(Clone, Debug, PartialEq, Eq)]
pub struct TypeEntry {
    pub key: usize,
    pub name: String,
    pub handle: TypeHandle,
}

pub struct TypeEntryView {
    pub key: usize,
    pub name: Seq<char>,
    pub handle: TypeHandle,
}

impl View for TypeEntry {
    type V = TypeEntryView;

    open spec fn view(&self) -> TypeEntryView {
        TypeEntryView { key: self.key, name: self.name@, handle: self.handle }
    }
}

/// A function record under the key of its canonical declaration.
#[derive(Clone, Debug, PartialEq, Eq)]
pub struct FunctionEntry {
    pub key: usize,
    pub info: FunctionInfoBuilder,
}

pub struct FunctionEntryView {
    pub key: usize,
    pub info: FunctionInfoView,
}

impl View for FunctionEntry {
    type V = FunctionEntryView;

    open spec fn view(&self) -> FunctionEntryView {
        FunctionEntryView { key: self.key, info: self.info@ }
    }
}

/// Whether `i` is a position in `types` of a type registered under `key`.
pub open spec fn registered_at(types: Seq<TypeEntryView>, key: usize, i: int) -> bool {
    0 <= i < types.len() && types[i].key == key
}

/// The state of a resolution as plain values.
pub struct BuilderView {
    /// The function records, in the order in which their keys were first
    /// seen.
    pub functions: Seq<FunctionEntryView>,
    /// The resolved types, in the order in which they were registered.
    pub types: Seq<TypeEntryView>,
    /// The constructions asked of the type sink, in order. The handle of a
    /// constructed type is the index of its request.
    pub requests: Seq<TypeRequestView>,
    pub depth_limit: nat,
}

impl BuilderView {
    /// No key has two types or two function records, every registered
    /// handle was handed out by the sink, and every request refers only to
    /// types that were constructed before it.
    pub open spec fn wf(self) -> bool {
        &&& forall|i: int, j: int|
            0 <= i < j < self.types.len() ==> self.types[i].key != self.types[j].key
        &&& forall|i: int, j: int|
            0 <= i < j < self.functions.len() ==> self.functions[i].key != self.functions[j].key
        &&& forall|i: int|
            0 <= i < self.types.len() ==> (#[trigger] self.types[i]).handle.index
                < self.requests.len()
        &&& forall|i: int|
            0 <= i < self.requests.len() ==> (#[trigger] self.requests[i]).refers_below(i as nat)
    }

    /// Whether `i` is a position at which a type is registered under `key`.
    pub open spec fn type_at(self, key: usize, i: int) -> bool {
        registered_at(self.types, key, i)
    }

    pub open spec fn contains_type(self, key: usize) -> bool {
        exists|i: int| registered_at(self.types, key, i)
    }

    /// A position at which a type is registered under `key`.
    pub open spec fn type_index(self, key: usize) -> int {
        choose|i: int| registered_at(self.types, key, i)
    }

    pub open spec fn get_type(self, key: usize) -> Option<TypeEntryView> {
        if self.contains_type(key) {
            Some(self.types[self.type_index(key)])
        } else {
            None
        }
    }

    /// The handle of the type registered under `key`.
    pub open spec fn handle_of(self, key: usize) -> Option<TypeHandle> {
        match self.get_type(key) {
            Some(entry) => Some(entry.handle),
            None => None,
        }
    }

    /// The state after a type is registered.
    pub open spec fn add_type(self, key: usize, name: Seq<char>, handle: TypeHandle) -> BuilderView {
        BuilderView { types: self.types.push(TypeEntryView { key, name, handle }), ..self }
    }

    /// The state after the type under `key`, if any, is taken out.
    pub open spec fn remove_type(self, key: usize) -> BuilderView {
        if self.contains_type(key) {
            BuilderView { types: self.types.remove(self.type_index(key)), ..self }
        } else {
            self
        }
    }

    /// The handle that the sink hands back for its next construction.
    pub open spec fn next_handle(self) -> TypeHandle {
        TypeHandle { index: self.requests.len() as usize }
    }

    /// The state after a construction is asked of the sink.
    pub open spec fn create(self, request: TypeRequestView) -> BuilderView {
        BuilderView { requests: self.requests.push(request), ..self }
    }

    /// Whether `i` is a position at which a function is recorded under
    /// `key`.
    pub open spec fn function_at(self, key: usize, i: int) -> bool {
        0 <= i < self.functions.len() && self.functions[i].key == key
    }

    pub open spec fn contains_function(self, key: usize) -> bool {
        exists|i: int| self.function_at(key, i)
    }

    /// A position at which a function is recorded under `key`.
    pub open spec fn function_index(self, key: usize) -> int {
        choose|i: int| self.function_at(key, i)
    }

    pub open spec fn get_function(self, key: usize) -> Option<FunctionInfoView> {
        if self.contains_function(key) {
            Some(self.functions[self.function_index(key)].info)
        } else {
            None
        }
    }

    /// The state after a sighting of the function under `key`: merged into
    /// the record that is there, or else the first of a new record.
    pub open spec fn insert_function(self, key: usize, s: Sighting) -> BuilderView {
        if self.contains_function(key) {
            let i = self.function_index(key);
            BuilderView {
                functions: self.functions.update(
                    i,
                    FunctionEntryView { key, info: self.functions[i].info.update(s) },
                ),
                ..self
            }
        } else {
            BuilderView {
                functions: self.functions.push(FunctionEntryView { key, info: s.first() }),
                ..self
            }
        }
    }
}

/// Two sightings of one function leave one record, which holds what each
/// field's last value was.
pub proof fn lemma_insert_function_merges(state: BuilderView, key: usize, a: Sighting, b: Sighting)
    requires
        state.wf(),
        !state.contains_function(key),
    ensures
        ({
            let after = state.insert_function(key, a).insert_function(key, b);
            &&& after.functions.len() == state.functions.len() + 1
            &&& after.get_function(key) == Some(a.first().update(b))
            &&& after.wf()
        }),
{
    let mid = state.insert_function(key, a);
    let n = state.functions.len() as int;
    assert(mid.function_at(key, n));
    assert forall|i: int| mid.function_at(key, i) implies i == n by {
        if i < n {
            assert(state.function_at(key, i));
        }
    }
    let after = mid.insert_function(key, b);
    assert(after.function_at(key, n));
    assert forall|i: int| after.function_at(key, i) implies i == n by {
        assert(mid.function_at(key, i));
    }
    assert forall|i: int, j: int| 0 <= i < j < after.functions.len() implies after.functions[i].key
        != after.functions[j].key by {
        if j == n {
            assert(!state.function_at(key, i));
        }
    }
}

/// The resolved types as plain values.
pub open spec fn types_view(types: Seq<TypeEntry>) -> Seq<TypeEntryView> {
    Seq::new(types.len(), |i: int| types[i]@)
}

/// The function records as plain values.
pub open spec fn functions_view(functions: Seq<FunctionEntry>) -> Seq<FunctionEntryView> {
    Seq::new(functions.len(), |i: int| functions[i]@)
}

/// The requests as plain values.
pub open spec fn requests_view(requests: Seq<TypeRequest>) -> Seq<TypeRequestView> {
    Seq::new(requests.len(), |i: int| requests[i]@)
}

/// The state that one resolution works on and every call within it
/// extends.
#[derive(Debug)]
pub struct DebugInfoBuilder {
    functions: Vec<FunctionEntry>,
    types: Vec<TypeEntry>,
    requests: Vec<TypeRequest>,
    depth_limit: usize,
}

impl View for DebugInfoBuilder {
    type V = BuilderView;

    closed spec fn view(&self) -> BuilderView {
        BuilderView {
            functions: functions_view(self.functions@),
            types: types_view(self.types@),
            requests: requests_view(self.requests@),
            depth_limit: self.depth_limit as nat,
        }
    }
}

impl DebugInfoBuilder {
    /// The validity of the state: see `BuilderView::wf`.
    pub open spec fn wf(&self) -> bool {
        self@.wf()
    }

    /// An empty state with the default depth limit.
    pub fn new() -> (b: DebugInfoBuilder)
        ensures
            b.wf(),
            b@ == (BuilderView {
                functions: Seq::empty(),
                types: Seq::empty(),
                requests: Seq::empty(),
                depth_limit: DEFAULT_DEPTH_LIMIT as nat,
            }),
    {
        let b = DebugInfoBuilder {
            functions: Vec::new(),
            types: Vec::new(),
            requests: Vec::new(),
            depth_limit: DEFAULT_DEPTH_LIMIT,
        };
        assert(b@.functions =~= Seq::empty());
        assert(b@.types =~= Seq::empty());
        assert(b@.requests =~= Seq::empty());
        b
    }

    /// An empty state in which references may nest `depth_limit` deep.
    pub fn with_depth_limit(depth_limit: usize) -> (b: DebugInfoBuilder)
        ensures
            b.wf(),
            b@ == (BuilderView {
                functions: Seq::empty(),
                types: Seq::empty(),
                requests: Seq::empty(),
                depth_limit: depth_limit as nat,
            }),
    {
        let b = DebugInfoBuilder {
            functions: Vec::new(),
            types: Vec::new(),
            requests: Vec::new(),
            depth_limit,
        };
        assert(b@.functions =~= Seq::empty());
        assert(b@.types =~= Seq::empty());
        assert(b@.requests =~= Seq::empty());
        b
    }

    pub fn depth_limit(&self) -> (limit: usize)
        ensures
            limit == self@.depth_limit,
    {
        self.depth_limit
    }

    /// The function records, in the order in which their keys were first
    /// seen.
    pub fn functions(&self) -> (r: &Vec<FunctionEntry>)
        ensures
            functions_view(r@) == self@.functions,
    {
        &self.functions
    }

    /// The resolved types, in the order in which they were registered.
    pub fn types(&self) -> (r: &Vec<TypeEntry>)
        ensures
            types_view(r@) == self@.types,
    {
        &self.types
    }

    /// The constructions asked of the type sink, in order.
    pub fn requests(&self) -> (r: &Vec<TypeRequest>)
        ensures
            requests_view(r@) == self@.requests,
    {
        &self.requests
    }

    /// The position of the type registered under `key`.
    fn find_type(&self, key: usize) -> (r: Option<usize>)
        ensures
            match r {
                Some(i) => self@.type_at(key, i as int),
                None => !self@.contains_type(key),
            },
    {
        let mut i: usize = 0;
        while i < self.types.len()
            invariant
                i <= self.types.len(),
                forall|k: int| 0 <= k < i ==> !registered_at(self@.types, key, k),
            decreases self.types.len() - i,
        {
            if self.types[i].key == key {
                return Some(i);
            }
            i += 1;
        }
        None
    }

    /// The position of the function recorded under `key`.
    fn find_function(&self, key: usize) -> (r: Option<usize>)
        ensures
            match r {
                Some(i) => self@.function_at(key, i as int),
                None => !self@.contains_function(key),
            },
    {
        let mut i: usize = 0;
        while i < self.functions.len()
            invariant
                i <= self.functions.len(),
                forall|k: int| 0 <= k < i ==> !self@.function_at(key, k),
            decreases self.functions.len() - i,
        {
            if self.functions[i].key == key {
                return Some(i);
            }
            i += 1;
        }
        None
    }

    /// Whether a type is registered under `key`.
    pub fn contains_type(&self, key: usize) -> (b: bool)
        ensures
            b == self@.contains_type(key),
    {
        self.find_type(key).is_some()
    }

    /// The type registered under `key`.
    pub fn get_type(&self, key: usize) -> (r: Option<&TypeEntry>)
        requires
            self.wf(),
        ensures
            match r {
                Some(entry) => self@.get_type(key) == Some(entry@),
                None => self@.get_type(key) is None,
            },
    {
        match self.find_type(key) {
            Some(i) => {
                proof {
                    self@.lemma_type_index(key, i as int);
                }
                Some(&self.types[i])
            },
            None => None,
        }
    }

    /// The handle of the type registered under `key`.
    pub fn handle_of(&self, key: usize) -> (r: Option<TypeHandle>)
        requires
            self.wf(),
        ensures
            r == self@.handle_of(key),
            r is Some ==> r->0.index < self@.requests.len(),
    {
        match self.find_type(key) {
            Some(i) => {
                proof {
                    self@.lemma_type_index(key, i as int);
                }
                Some(self.types[i].handle)
            },
            None => None,
        }
    }

    /// Registers a type under a key that has none yet.
    pub fn add_type(&mut self, key: usize, name: String, handle: TypeHandle)
        requires
            old(self).wf(),
            !old(self)@.contains_type(key),
            handle.index < old(self)@.requests.len(),
        ensures
            final(self).wf(),
            final(self)@ == old(self)@.add_type(key, name@, handle),
    {
        let ghost before = self@;
        self.types.push(TypeEntry { key, name, handle });
        proof {
            assert(self@.types =~= before.types.push(TypeEntryView { key, name: name@, handle }));
            assert forall|i: int, j: int| 0 <= i < j < self@.types.len() implies self@.types[i].key
                != self@.types[j].key by {
                if j == before.types.len() {
                    assert(!before.type_at(key, i));
                }
            }
        }
    }

    /// Takes out the type registered under `key`, if there is one.
    pub fn remove_type(&mut self, key: usize)
        requires
            old(self).wf(),
        ensures
            final(self).wf(),
            final(self)@ == old(self)@.remove_type(key),
    {
        let ghost before = self@;
        match self.find_type(key) {
            Some(i) => {
                proof {
                    before.lemma_type_index(key, i as int);
                }
                self.types.remove(i);
                proof {
                    assert(self@.types =~= before.types.remove(i as int));
                }
            },
            None => {},
        }
    }

    /// Asks the type sink for a construction and returns the handle of the
    /// constructed type.
    pub fn create(&mut self, request: TypeRequest) -> (handle: TypeHandle)
        requires
            old(self).wf(),
            request@.refers_below(old(self)@.requests.len()),
        ensures
            final(self).wf(),
            handle == old(self)@.next_handle(),
            handle.index == old(self)@.requests.len(),
            final(self)@ == old(self)@.create(request@),
    {
        let ghost before = self@;
        let handle = TypeHandle { index: self.requests.len() };
        self.requests.push(request);
        proof {
            assert(self@.requests =~= before.requests.push(request@));
            assert(self@.types =~= before.types);
            assert forall|i: int| 0 <= i < self@.requests.len() implies (
            #[trigger] self@.requests[i]).refers_below(i as nat) by {
                if i < before.requests.len() {
                    assert(before.requests[i].refers_below(i as nat));
                }
            }
        }
        handle
    }

    /// Records a sighting of the function under `key`: merged into the
    /// record that is there, or else the first of a new record.
    pub fn insert_function(
        &mut self,
        function_uid: usize,
        short_name: Option<String>,
        full_name: Option<String>,
        raw_name: Option<String>,
        return_type: Option<usize>,
        address: Option<u64>,
        parameters: Option<Vec<(String, usize)>>,
    )
        requires
            old(self).wf(),
        ensures
            final(self).wf(),
            final(self)@ == old(self)@.insert_function(
                function_uid,
                sighting(short_name, full_name, raw_name, return_type, address, parameters),
            ),
    {
        let ghost before = self@;
        let ghost s = sighting(short_name, full_name, raw_name, return_type, address, parameters);
        match self.find_function(function_uid) {
            Some(i) => {
                proof {
                    before.lemma_function_index(function_uid, i as int);
                }
                let entry = &mut self.functions[i];
                entry.info.update(short_name, full_name, raw_name, return_type, address, parameters);
                proof {
                    assert(self@.functions =~= before.functions.update(
                        i as int,
                        FunctionEntryView {
                            key: function_uid,
                            info: before.functions[i as int].info.update(s),
                        },
                    ));
                    assert(self@.types =~= before.types);
                    assert(self@.requests =~= before.requests);
                }
            },
            None => {
                let list = match parameters {
                    Some(list) => list,
                    None => Vec::new(),
                };
                let info = FunctionInfoBuilder {
                    short_name,
                    full_name,
                    raw_name,
                    return_type,
                    address,
                    parameters: list,
                };
                proof {
                    assert(info@.parameters =~= s.first().parameters);
                }
                self.functions.push(FunctionEntry { key: function_uid, info });
                proof {
                    assert(self@.functions =~= before.functions.push(
                        FunctionEntryView { key: function_uid, info: s.first() },
                    ));
                    assert(self@.types =~= before.types);
                    assert(self@.requests =~= before.requests);
                    assert forall|i: int, j: int|
                        0 <= i < j < self@.functions.len() implies self@.functions[i].key
                        != self@.functions[j].key by {
                        if j == before.functions.len() {
                            assert(!before.function_at(function_uid, i));
                        }
                    }
                }
            },
        }
    }
}

impl BuilderView {
    /// Whether `later` keeps what this state has resolved: the same
    /// requests in the same places, and for every key that has a type here
    /// the same type.
    pub open spec fn keeps(self, later: BuilderView) -> bool {
        &&& later.depth_limit == self.depth_limit
        &&& self.requests.len() <= later.requests.len()
        &&& forall|i: int|
            0 <= i < self.requests.len() ==> #[trigger] later.requests[i] == self.requests[i]
        &&& forall|key: usize| #[trigger]
            self.contains_type(key) ==> later.contains_type(key) && later.get_type(key)
                == self.get_type(key)
    }

    /// Whether `later` has everything that this state has: the same
    /// functions, and what this state has resolved.
    pub open spec fn extends_to(self, later: BuilderView) -> bool {
        later.functions == self.functions && self.keeps(later)
    }

    /// Keeping what an earlier state has resolved carries over states.
    pub proof fn lemma_keeps_transitive(self, mid: BuilderView, later: BuilderView)
        requires
            self.keeps(mid),
            mid.keeps(later),
        ensures
            self.keeps(later),
    {
        assert forall|key: usize| #[trigger] self.contains_type(key) implies later.contains_type(
            key,
        ) && later.get_type(key) == self.get_type(key) by {
            assert(mid.contains_type(key));
        }
    }

    /// A sighting of a function changes nothing that was resolved.
    pub proof fn lemma_insert_function_keeps(self, key: usize, s: Sighting)
        ensures
            self.keeps(self.insert_function(key, s)),
    {
        let later = self.insert_function(key, s);
        assert(later.types == self.types);
        assert forall|k: usize| #[trigger] self.contains_type(k) implies later.contains_type(k)
            && later.get_type(k) == self.get_type(k) by {}
    }

    /// A construction takes nothing away.
    pub proof fn lemma_create_extends(self, request: TypeRequestView)
        ensures
            self.extends_to(self.create(request)),
    {
        let later = self.create(request);
        assert(later.types == self.types);
        assert forall|key: usize| #[trigger] self.contains_type(key) implies later.contains_type(
            key,
        ) && later.get_type(key) == self.get_type(key) by {}
    }

    /// A registration under a new key takes nothing away, and the key has
    /// the registered type afterwards.
    pub proof fn lemma_add_type_extends(self, key: usize, name: Seq<char>, handle: TypeHandle)
        requires
            self.wf(),
            !self.contains_type(key),
            handle.index < self.requests.len(),
        ensures
            self.add_type(key, name, handle).wf(),
            self.extends_to(self.add_type(key, name, handle)),
            self.add_type(key, name, handle).get_type(key) == Some(
                TypeEntryView { key, name, handle },
            ),
    {
        let later = self.add_type(key, name, handle);
        let n = self.types.len() as int;
        assert forall|i: int, j: int| 0 <= i < j < later.types.len() implies later.types[i].key
            != later.types[j].key by {
            if j == n {
                assert(!self.type_at(key, i));
            }
        }
        assert(later.type_at(key, n));
        later.lemma_type_index(key, n);
        assert forall|k: usize| #[trigger] self.contains_type(k) implies later.contains_type(k)
            && later.get_type(k) == self.get_type(k) by {
            let i = self.type_index(k);
            assert(self.type_at(k, i));
            assert(later.type_at(k, i));
            later.lemma_type_index(k, i);
        }
    }

    /// Taking out the type of one key leaves the key without a type and
    /// every other key with the type it had.
    pub proof fn lemma_remove_type(self, key: usize)
        requires
            self.wf(),
        ensures
            self.remove_type(key).wf(),
            !self.remove_type(key).contains_type(key),
            self.remove_type(key).functions == self.functions,
            self.remove_type(key).requests == self.requests,
            self.remove_type(key).depth_limit == self.depth_limit,
            forall|k: usize|
                k != key && #[trigger] self.contains_type(k) ==> self.remove_type(key).contains_type(
                    k,
                ) && self.remove_type(key).get_type(k) == self.get_type(k),
    {
        let later = self.remove_type(key);
        if self.contains_type(key) {
            let at = self.type_index(key);
            assert(self.type_at(key, at));
            assert forall|i: int| 0 <= i < later.types.len() implies #[trigger] later.types[i] == (
            if i < at {
                self.types[i]
            } else {
                self.types[i + 1]
            }) by {}
            assert forall|i: int| !later.type_at(key, i) by {
                if later.type_at(key, i) {
                    if i < at {
                        self.lemma_type_index(key, i);
                    } else {
                        self.lemma_type_index(key, i + 1);
                    }
                }
            }
            assert forall|k: usize| k != key && #[trigger] self.contains_type(k) implies
                later.contains_type(k) && later.get_type(k) == self.get_type(k) by {
                let i = self.type_index(k);
                assert(self.type_at(k, i));
                let j = if i < at {
                    i
                } else {
                    i - 1
                };
                assert(later.type_at(k, j));
                later.lemma_type_index(k, j);
            }
        }
    }

    /// Having everything of an earlier state carries over states.
    pub proof fn lemma_extends_transitive(self, mid: BuilderView, later: BuilderView)
        requires
            self.extends_to(mid),
            mid.extends_to(later),
        ensures
            self.extends_to(later),
    {
        assert forall|key: usize| #[trigger] self.contains_type(key) implies later.contains_type(
            key,
        ) && later.get_type(key) == self.get_type(key) by {
            assert(mid.contains_type(key));
        }
    }

    /// In a valid state a key has one position only.
    pub proof fn lemma_type_index(self, key: usize, i: int)
        requires
            self.wf(),
            self.type_at(key, i),
        ensures
            self.contains_type(key),
            self.type_index(key) == i,
    {
        let c = self.type_index(key);
        assert(self.type_at(key, c));
        if c < i {
            assert(self.types[c].key != self.types[i].key);
        } else if i < c {
            assert(self.types[i].key != self.types[c].key);
        }
    }

    /// In a valid state a key has one function record only.
    pub proof fn lemma_function_index(self, key: usize, i: int)
        requires
            self.wf(),
            self.function_at(key, i),
        ensures
            self.contains_function(key),
            self.function_index(key) == i,
    {
        let c = self.function_index(key);
        assert(self.function_at(key, c));
        if c < i {
            assert(self.functions[c].key != self.functions[i].key);
        } else if i < c {
            assert(self.functions[i].key != self.functions[c].key);
        }
    }
}

} // verus!
