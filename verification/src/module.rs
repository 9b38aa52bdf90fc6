//! A compiled BEAM module in IR form: its functions, exports, imports and
//! metadata, and the compilation unit that pairs it with its type context.
//!
//! The function table and the import table are insertion-ordered maps of
//! the `indexmap` crate.  Their contents are named below as lists of
//! entries in order, and each map operation the module makes has a
//! wrapper that states what the crate documents it does to them.

use crate::function::IRFunction;
use crate::type_system::IRType;
use crate::{IRFunctionId, TypeId};
use indexmap::IndexMap;
use vstd::prelude::*;

verus! {

broadcast use vstd::seq::group_seq_axioms, vstd::std_specs::vec::group_vec_axioms;

#[verifier::external_type_specification]
#[verifier::external_body]
#[verifier::reject_recursive_types(K)]
#[verifier::reject_recursive_types(V)]
#[verifier::reject_recursive_types(S)]
pub struct ExIndexMap<K, V, S>(IndexMap<K, V, S>);

/// The entries of a function table, in insertion order.
pub uninterp spec fn function_entries(m: IndexMap<(u64, u32), IRFunctionId>) -> Seq<(
    (u64, u32),
    IRFunctionId,
)>;

/// The entries of an import table, in insertion order, each list of
/// imported functions by its view.
pub uninterp spec fn import_entries(m: IndexMap<u64, Vec<(u64, u32)>>) -> Seq<(u64, Seq<(u64, u32)>)>;

/// The position of the entry with key `k`, or -1 when there is none.
pub open spec fn entry_index<K, V>(s: Seq<(K, V)>, k: K) -> int
    decreases s.len(),
{
    if s.len() == 0 {
        -1
    } else if s.last().0 == k {
        s.len() - 1
    } else {
        entry_index(s.drop_last(), k)
    }
}

/// The value stored under `k`, if any.
pub open spec fn entry_lookup<K, V>(s: Seq<(K, V)>, k: K) -> Option<V> {
    let i = entry_index(s, k);
    if i >= 0 {
        Some(s[i].1)
    } else {
        None
    }
}

/// The entries after storing `v` under `k`: an existing key keeps its
/// place and takes the new value; a new key is added last.
pub open spec fn entry_insert<K, V>(s: Seq<(K, V)>, k: K, v: V) -> Seq<(K, V)> {
    let i = entry_index(s, k);
    if i >= 0 {
        s.update(i, (k, v))
    } else {
        s.push((k, v))
    }
}

proof fn lemma_entry_index_range<K, V>(s: Seq<(K, V)>, k: K)
    ensures
        -1 <= entry_index(s, k) < s.len(),
        entry_index(s, k) >= 0 ==> s[entry_index(s, k)].0 == k,
    decreases s.len(),
{
    if s.len() > 0 && s.last().0 != k {
        lemma_entry_index_range(s.drop_last(), k);
    }
}

/// Calls `IndexMap::new`: an empty map.
#[verifier::external_body]
fn new_function_table() -> (r: IndexMap<(u64, u32), IRFunctionId>)
    ensures
        function_entries(r) == Seq::<((u64, u32), IRFunctionId)>::empty(),
{
    IndexMap::new()
}

/// Calls `IndexMap::new`: an empty map.
#[verifier::external_body]
fn new_import_table() -> (r: IndexMap<u64, Vec<(u64, u32)>>)
    ensures
        import_entries(r) == Seq::<(u64, Seq<(u64, u32)>)>::empty(),
{
    IndexMap::new()
}

/// Calls `IndexMap::insert`: an existing key keeps its place in the order
/// and takes the new value, whose old value is returned; a new key is
/// added last and `None` is returned.
#[verifier::external_body]
fn insert_function(m: &mut IndexMap<(u64, u32), IRFunctionId>, key: (u64, u32), id: IRFunctionId)
    -> (r: Option<IRFunctionId>)
    ensures
        function_entries(*final(m)) == entry_insert(function_entries(*old(m)), key, id),
        r == entry_lookup(function_entries(*old(m)), key),
{
    m.insert(key, id)
}

/// Calls `IndexMap::get`: the value stored under the key, if any.
#[verifier::external_body]
fn lookup_function(m: &IndexMap<(u64, u32), IRFunctionId>, key: &(u64, u32)) -> (r: Option<
    IRFunctionId,
>)
    ensures
        r == entry_lookup(function_entries(*m), *key),
{
    m.get(key).copied()
}

/// Calls `IndexMap::insert`: an existing key keeps its place in the order
/// and takes the new list; a new key is added last.
#[verifier::external_body]
fn insert_imports(m: &mut IndexMap<u64, Vec<(u64, u32)>>, module: u64, list: Vec<(u64, u32)>)
    ensures
        import_entries(*final(m)) == entry_insert(import_entries(*old(m)), module, list@),
{
    m.insert(module, list);
}

/// Calls `IndexMap::get`: a copy of the list stored under the key, if any.
#[verifier::external_body]
fn lookup_imports(m: &IndexMap<u64, Vec<(u64, u32)>>, module: &u64) -> (r: Option<Vec<(u64, u32)>>)
    ensures
        match entry_lookup(import_entries(*m), *module) {
            Some(s) => r matches Some(v) && v@ == s,
            None => r is None,
        },
{
    m.get(module).cloned()
}


// ── The module ────────────────────────────────────────────────────────────

/// Compile-time information about a module.
#[derive(Debug, Clone)]
pub struct CompileInfo {
    /// Source file name
    pub source_file: Option<String>,
    /// Compiler options
    pub options: Vec<String>,
    /// Compiler version
    pub version: Option<String>,
    /// Whether debug info is available
    pub debug_info: bool,
}

impl Default for CompileInfo {
    /// No source file, options or version, and no debug info.
    fn default() -> (r: Self)
        ensures
            r.source_file is None,
            r.options@.len() == 0,
            r.version is None,
            !r.debug_info,
    {
        CompileInfo { source_file: None, options: Vec::new(), version: None, debug_info: false }
    }
}

/// An IR module representing a compiled BEAM module.
#[derive(Debug)]
pub struct IRModule {
    /// Module name (atom index)
    pub name: u64,
    /// Functions in this module by name and arity, in order of addition
    pub functions: IndexMap<(u64, u32), IRFunctionId>,
    /// Function definitions, by function ID
    pub function_bodies: Vec<IRFunction>,
    /// Exported functions (name, arity) pairs
    pub exports: Vec<(u64, u32)>,
    /// Imports: for each module, the (function, arity) pairs imported
    pub imports: IndexMap<u64, Vec<(u64, u32)>>,
    /// Attributes (module-level metadata)
    pub attributes: Vec<(u64, u64)>,
    /// Compile info
    pub compile_info: CompileInfo,
    /// Literal table
    pub literals: Vec<u64>,
    /// Line information for debugging: (file atom, line)
    pub line_info: Vec<(u32, u32)>,
}

/// Whether a list of (name, arity) pairs holds the given one.
pub open spec fn has_pair(s: Seq<(u64, u32)>, p: (u64, u32)) -> bool {
    exists|i: int| 0 <= i < s.len() && s[i] == p
}

impl IRModule {
    /// Whether every function ID in the table names a body: what adding
    /// functions keeps.
    pub open spec fn ids_in_range(&self) -> bool {
        forall|i: int|
            0 <= i < function_entries(self.functions).len() ==> (#[trigger] function_entries(
                self.functions,
            )[i]).1.0 < self.function_bodies@.len()
    }

    /// A module with the given name and nothing in it.
    pub fn new(name: u64) -> (r: Self)
        ensures
            r.name == name,
            function_entries(r.functions).len() == 0,
            r.function_bodies@.len() == 0,
            r.exports@.len() == 0,
            import_entries(r.imports).len() == 0,
            r.attributes@.len() == 0,
            r.compile_info.source_file is None,
            r.compile_info.options@.len() == 0,
            r.compile_info.version is None,
            !r.compile_info.debug_info,
            r.literals@.len() == 0,
            r.line_info@.len() == 0,
            r.ids_in_range(),
    {
        IRModule {
            name,
            functions: new_function_table(),
            function_bodies: Vec::new(),
            exports: Vec::new(),
            imports: new_import_table(),
            attributes: Vec::new(),
            compile_info: CompileInfo::default(),
            literals: Vec::new(),
            line_info: Vec::new(),
        }
    }

    /// Adds a function with the given name and arity: its body is a new
    /// function of this module, its ID the next body index, and the table
    /// maps (name, arity) to it.
    pub fn add_function(&mut self, name: u64, arity: u32) -> (r: IRFunctionId)
        ensures
            r.0 == old(self).function_bodies@.len(),
            final(self).function_bodies@.len() == old(self).function_bodies@.len() + 1,
            final(self).function_bodies@.take(old(self).function_bodies@.len() as int)
                == old(self).function_bodies@,
            final(self).function_bodies@.last().module == old(self).name,
            final(self).function_bodies@.last().name == name,
            final(self).function_bodies@.last().arity == arity,
            function_entries(final(self).functions) == entry_insert(
                function_entries(old(self).functions),
                (name, arity),
                r,
            ),
            final(self).name == old(self).name,
            final(self).exports@ == old(self).exports@,
            import_entries(final(self).imports) == import_entries(old(self).imports),
            final(self).literals@ == old(self).literals@,
            old(self).ids_in_range() ==> final(self).ids_in_range(),
    {
        let id = IRFunctionId(self.function_bodies.len());
        let func = IRFunction::new(self.name, name, arity);
        let _ = insert_function(&mut self.functions, (name, arity), id);
        let ghost before = self.function_bodies@;
        self.function_bodies.push(func);
        proof {
            assert(self.function_bodies@.take(before.len() as int) =~= before);
            let e0 = function_entries(old(self).functions);
            lemma_entry_index_range(e0, (name, arity));
            if old(self).ids_in_range() {
                let e1 = function_entries(self.functions);
                assert forall|i: int| 0 <= i < e1.len() implies (#[trigger] e1[i]).1.0
                    < self.function_bodies@.len() by {
                    if i < e0.len() && i != entry_index(e0, (name, arity)) {
                        assert(e1[i] == e0[i]);
                    }
                }
            }
        }
        id
    }

    /// The function with the given name and arity, if there is one.
    pub fn get_function(&self, name: u64, arity: u32) -> (r: Option<IRFunctionId>)
        ensures
            r == entry_lookup(function_entries(self.functions), (name, arity)),
    {
        lookup_function(&self.functions, &(name, arity))
    }

    /// The body of a function.
    pub fn get_function_body(&self, id: IRFunctionId) -> (r: &IRFunction)
        requires
            id.0 < self.function_bodies@.len(),
        ensures
            *r == self.function_bodies@[id.0 as int],
    {
        &self.function_bodies[id.0]
    }

    /// The body of a function, for changing it.
    pub fn get_function_body_mut(&mut self, id: IRFunctionId) -> (r: &mut IRFunction)
        requires
            id.0 < old(self).function_bodies@.len(),
        ensures
            *r == old(self).function_bodies@[id.0 as int],
            final(self).function_bodies@ == old(self).function_bodies@.update(id.0 as int, *final(r)),
            final(self).name == old(self).name,
            final(self).functions == old(self).functions,
            final(self).exports@ == old(self).exports@,
            final(self).imports == old(self).imports,
            final(self).literals@ == old(self).literals@,
    {
        &mut self.function_bodies[id.0]
    }

    /// Adds an export.
    pub fn add_export(&mut self, name: u64, arity: u32)
        ensures
            final(self).exports@ == old(self).exports@.push((name, arity)),
            final(self).function_bodies@ == old(self).function_bodies@,
            final(self).functions == old(self).functions,
            final(self).imports == old(self).imports,
            final(self).literals@ == old(self).literals@,
    {
        self.exports.push((name, arity));
    }

    /// Adds an import of `function/arity` from `module`: appended to the
    /// module's list, which is created empty, last in order, when the
    /// module has none yet.
    pub fn add_import(&mut self, module: u64, function: u64, arity: u32)
        ensures
            import_entries(final(self).imports) == entry_insert(
                import_entries(old(self).imports),
                module,
                match entry_lookup(import_entries(old(self).imports), module) {
                    Some(s) => s,
                    None => Seq::<(u64, u32)>::empty(),
                }.push((function, arity)),
            ),
            final(self).exports@ == old(self).exports@,
            final(self).function_bodies@ == old(self).function_bodies@,
            final(self).functions == old(self).functions,
            final(self).literals@ == old(self).literals@,
    {
        let mut list = match lookup_imports(&self.imports, &module) {
            Some(v) => v,
            None => Vec::new(),
        };
        list.push((function, arity));
        insert_imports(&mut self.imports, module, list);
    }

    /// Adds a literal; its index is the table's length before, taken
    /// modulo 2^32.
    pub fn add_literal(&mut self, value: u64) -> (r: u32)
        ensures
            r == old(self).literals@.len() as u32,
            final(self).literals@ == old(self).literals@.push(value),
            final(self).exports@ == old(self).exports@,
            final(self).function_bodies@ == old(self).function_bodies@,
            final(self).functions == old(self).functions,
            final(self).imports == old(self).imports,
    {
        let idx = self.literals.len() as u32;
        self.literals.push(value);
        idx
    }

    /// Whether `name/arity` is exported.
    pub fn is_exported(&self, name: u64, arity: u32) -> (r: bool)
        ensures
            r == has_pair(self.exports@, (name, arity)),
    {
        let mut i: usize = 0;
        while i < self.exports.len()
            invariant
                i <= self.exports@.len(),
                forall|k: int| 0 <= k < i ==> self.exports@[k] != (name, arity),
            decreases self.exports.len() - i,
        {
            if self.exports[i].0 == name && self.exports[i].1 == arity {
                return true;
            }
            i = i + 1;
        }
        false
    }

    /// The exported functions, in order of export.
    pub fn exported_functions(&self) -> (r: &[(u64, u32)])
        ensures
            r@ == self.exports@,
    {
        self.exports.as_slice()
    }

    /// The number of functions.
    pub fn function_count(&self) -> (r: usize)
        ensures
            r == self.function_bodies@.len(),
    {
        self.function_bodies.len()
    }
}

/// A compilation unit: an IR module with its type context and constants.
pub struct CompilationUnit {
    /// The module being compiled
    pub module: IRModule,
    /// Type context
    pub types: Vec<IRType>,
    /// Constant pool
    pub constants: Vec<u64>,
}

impl CompilationUnit {
    /// A compilation unit of the module with no type or constant.
    pub fn new(module: IRModule) -> (r: Self)
        ensures
            r.module == module,
            r.types@.len() == 0,
            r.constants@.len() == 0,
    {
        CompilationUnit { module, types: Vec::new(), constants: Vec::new() }
    }

    /// Adds a type; its ID is the table's length before.
    pub fn add_type(&mut self, ty: IRType) -> (r: TypeId)
        ensures
            r.0 == old(self).types@.len(),
            final(self).types@ == old(self).types@.push(ty),
            final(self).constants@ == old(self).constants@,
            final(self).module == old(self).module,
    {
        let id = TypeId(self.types.len());
        self.types.push(ty);
        id
    }

    /// Adds a constant; its index is the pool's length before, taken
    /// modulo 2^32.
    pub fn add_constant(&mut self, value: u64) -> (r: u32)
        ensures
            r == old(self).constants@.len() as u32,
            final(self).constants@ == old(self).constants@.push(value),
            final(self).types@ == old(self).types@,
            final(self).module == old(self).module,
    {
        let idx = self.constants.len() as u32;
        self.constants.push(value);
        idx
    }
}

} // verus!
