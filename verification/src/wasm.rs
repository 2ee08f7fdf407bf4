//! Reading the surface of a compiled module.
//!
//! The module is parsed by `walrus`. What the parser found is read out item
//! by item and checked against the contract.

use crate::contract::{
    check_module, conforms, export_views, first_foreign, lemma_verdict_conforms, verdict,
    ContractError, Export, ExportKind, ExportView, ModuleImport, ModuleSurface, ValueType,
};
use vstd::prelude::*;

verus! {

/// `walrus::Module`: a parsed module.
#[verifier::external_type_specification]
#[verifier::external_body]
pub struct ExModule(walrus::Module);

/// The exports that a parsed module holds, in the order in which the parser
/// hands them out.
pub uninterp spec fn parsed_exports(m: walrus::Module) -> Seq<ExportView>;

/// The imports that a parsed module holds, each a namespace and a name, in
/// the order in which the parser hands them out.
pub uninterp spec fn parsed_imports(m: walrus::Module) -> Seq<(Seq<char>, Seq<char>)>;

/// The number of memories that a parsed module holds.
pub uninterp spec fn parsed_memories(m: walrus::Module) -> nat;

/// Whether a parsed module declares a start function.
pub uninterp spec fn parsed_start(m: walrus::Module) -> bool;

/// Whether every function that a module exports is still among the
/// functions of the module and has the type of a function. That is so for
/// a module as the parser hands it out; it can fail for a module from which
/// functions were deleted afterwards.
pub uninterp spec fn exports_live(m: walrus::Module) -> bool;

/// Whether the parser accepts `wasm` as a module.
pub uninterp spec fn parses(wasm: Seq<u8>) -> bool;

/// The exports of the module that the parser finds in `wasm`.
pub uninterp spec fn exports_in(wasm: Seq<u8>) -> Seq<ExportView>;

/// The imports of the module that the parser finds in `wasm`.
pub uninterp spec fn imports_in(wasm: Seq<u8>) -> Seq<(Seq<char>, Seq<char>)>;

/// The number of memories of the module that the parser finds in `wasm`.
pub uninterp spec fn memories_in(wasm: Seq<u8>) -> nat;

/// Whether the module that the parser finds in `wasm` declares a start
/// function.
pub uninterp spec fn start_in(wasm: Seq<u8>) -> bool;

/// `walrus::Module::from_buffer`: parses and validates a module with the
/// default configuration. Whether that succeeds, and what the module then
/// holds, depends on the bytes alone; both are named, not spelled out. The
/// functions that a parsed module exports are all live.
#[verifier::external_body]
fn parse(wasm: &[u8]) -> (r: Option<walrus::Module>)
    ensures
        r is Some <==> parses(wasm@),
        r matches Some(m) ==> {
            &&& exports_live(m)
            &&& parsed_exports(m) == exports_in(wasm@)
            &&& parsed_imports(m) == imports_in(wasm@)
            &&& parsed_memories(m) == memories_in(wasm@)
            &&& parsed_start(m) == start_in(wasm@)
        },
{
    walrus::Module::from_buffer(wasm).ok()
}

/// `walrus::ModuleExports::iter`, counted: the number of exports.
#[verifier::external_body]
fn export_count(m: &walrus::Module) -> (n: usize)
    ensures
        n == parsed_exports(*m).len(),
{
    m.exports.iter().count()
}

/// The field `name` of the export number `i` that
/// `walrus::ModuleExports::iter` hands out.
#[verifier::external_body]
fn export_name(m: &walrus::Module, i: usize) -> (name: String)
    requires
        i < parsed_exports(*m).len(),
    ensures
        name@ == parsed_exports(*m)[i as int].name,
{
    m.exports.iter().nth(i).unwrap().name.clone()
}

/// The variant of the field `item` of the export number `i` that
/// `walrus::ModuleExports::iter` hands out.
#[verifier::external_body]
fn export_kind(m: &walrus::Module, i: usize) -> (kind: ExportKind)
    requires
        i < parsed_exports(*m).len(),
    ensures
        kind == parsed_exports(*m)[i as int].kind,
{
    match m.exports.iter().nth(i).unwrap().item {
        walrus::ExportItem::Function(_) => ExportKind::Function,
        walrus::ExportItem::Table(_) => ExportKind::Table,
        walrus::ExportItem::Memory(_) => ExportKind::Memory,
        walrus::ExportItem::Global(_) => ExportKind::Global,
        walrus::ExportItem::Tag(_) => ExportKind::Tag,
    }
}

/// `walrus::Type::params` of the type of the function that the export
/// number `i` refers to, each type by its variant (vectors and references
/// are `Other`); nothing for an export of another kind. The module is one
/// whose exported functions are all live, as a parsed module is: on a
/// function that was deleted from the module the lookup would panic.
#[verifier::external_body]
fn export_params(m: &walrus::Module, i: usize) -> (params: Vec<ValueType>)
    requires
        exports_live(*m),
        i < parsed_exports(*m).len(),
    ensures
        params@ == parsed_exports(*m)[i as int].params,
{
    let walrus::ExportItem::Function(f) = m.exports.iter().nth(i).unwrap().item else {
        return Vec::new();
    };
    m.types.get(m.funcs.get(f).ty()).params().iter().map(|t| match t {
        walrus::ValType::I32 => ValueType::I32,
        walrus::ValType::I64 => ValueType::I64,
        walrus::ValType::F32 => ValueType::F32,
        walrus::ValType::F64 => ValueType::F64,
        walrus::ValType::V128 => ValueType::Other,
        walrus::ValType::Ref(_) => ValueType::Other,
    }).collect()
}

/// `walrus::Type::results` of the type of the function that the export
/// number `i` refers to, each type by its variant (vectors and references
/// are `Other`); nothing for an export of another kind. The module is one
/// whose exported functions are all live, as a parsed module is: on a
/// function that was deleted from the module the lookup would panic.
#[verifier::external_body]
fn export_results(m: &walrus::Module, i: usize) -> (results: Vec<ValueType>)
    requires
        exports_live(*m),
        i < parsed_exports(*m).len(),
    ensures
        results@ == parsed_exports(*m)[i as int].results,
{
    let walrus::ExportItem::Function(f) = m.exports.iter().nth(i).unwrap().item else {
        return Vec::new();
    };
    m.types.get(m.funcs.get(f).ty()).results().iter().map(|t| match t {
        walrus::ValType::I32 => ValueType::I32,
        walrus::ValType::I64 => ValueType::I64,
        walrus::ValType::F32 => ValueType::F32,
        walrus::ValType::F64 => ValueType::F64,
        walrus::ValType::V128 => ValueType::Other,
        walrus::ValType::Ref(_) => ValueType::Other,
    }).collect()
}

/// `walrus::ModuleImports::iter`, counted: the number of imports.
#[verifier::external_body]
fn import_count(m: &walrus::Module) -> (n: usize)
    ensures
        n == parsed_imports(*m).len(),
{
    m.imports.iter().count()
}

/// The field `module` of the import number `i` that
/// `walrus::ModuleImports::iter` hands out.
#[verifier::external_body]
fn import_module(m: &walrus::Module, i: usize) -> (name: String)
    requires
        i < parsed_imports(*m).len(),
    ensures
        name@ == parsed_imports(*m)[i as int].0,
{
    m.imports.iter().nth(i).unwrap().module.clone()
}

/// The field `name` of the import number `i` that
/// `walrus::ModuleImports::iter` hands out.
#[verifier::external_body]
fn import_name(m: &walrus::Module, i: usize) -> (name: String)
    requires
        i < parsed_imports(*m).len(),
    ensures
        name@ == parsed_imports(*m)[i as int].1,
{
    m.imports.iter().nth(i).unwrap().name.clone()
}

/// `walrus::ModuleMemories::iter`, counted: the number of memories.
#[verifier::external_body]
fn memory_count(m: &walrus::Module) -> (n: usize)
    ensures
        n == parsed_memories(*m),
{
    m.memories.iter().count()
}

/// Whether the field `start` of a `walrus::Module` holds a function.
#[verifier::external_body]
fn has_start(m: &walrus::Module) -> (b: bool)
    ensures
        b == parsed_start(*m),
{
    m.start.is_some()
}

/// The surface `s` is that of the parsed module `m`.
pub open spec fn surface_of(s: &ModuleSurface, m: walrus::Module) -> bool {
    &&& export_views(s.exports@) == parsed_exports(m)
    &&& s.imports@.len() == parsed_imports(m).len()
    &&& forall|k: int|
        0 <= k < s.imports@.len() ==> ((#[trigger] s.imports@[k]).module@, s.imports@[k].name@)
            == parsed_imports(m)[k]
    &&& s.has_start == parsed_start(m)
    &&& s.memories == parsed_memories(m)
}

/// Reads the surface of a parsed module: its exports with their kinds and
/// signatures, its imports, whether it declares a start function and how
/// many memories it has.
pub fn module_surface(m: &walrus::Module) -> (s: ModuleSurface)
    requires
        exports_live(*m),
    ensures
        surface_of(&s, *m),
{
    let mut exports: Vec<Export> = Vec::new();
    let n = export_count(m);
    let mut i: usize = 0;
    while i < n
        invariant
            0 <= i <= n,
            exports_live(*m),
            n == parsed_exports(*m).len(),
            exports@.len() == i,
            forall|j: int| 0 <= j < i ==> (#[trigger] exports@[j])@ == parsed_exports(*m)[j],
        decreases n - i,
    {
        let e = Export {
            name: export_name(m, i),
            kind: export_kind(m, i),
            params: export_params(m, i),
            results: export_results(m, i),
        };
        exports.push(e);
        i = i + 1;
    }
    assert(export_views(exports@) =~= parsed_exports(*m));
    let mut imports: Vec<ModuleImport> = Vec::new();
    let count = import_count(m);
    let mut k: usize = 0;
    while k < count
        invariant
            0 <= k <= count,
            count == parsed_imports(*m).len(),
            imports@.len() == k,
            forall|j: int|
                0 <= j < k ==> ((#[trigger] imports@[j]).module@, imports@[j].name@)
                    == parsed_imports(*m)[j],
        decreases count - k,
    {
        imports.push(ModuleImport { module: import_module(m, k), name: import_name(m, k) });
        k = k + 1;
    }
    ModuleSurface { exports, imports, has_start: has_start(m), memories: memory_count(m) }
}

/// Why a compiled module is not accepted.
#[derive(Clone, Copy, Debug, PartialEq, Eq, Structural)]
pub enum ValidateError {
    /// The bytes could not be parsed as a module.
    Malformed,
    /// The module breaks the contract.
    Contract(ContractError),
}

/// What the check of a parsed module comes to: malformed when nothing was
/// parsed, else what the contract says of the surface of the module.
pub fn judge(parsed: Option<walrus::Module>) -> (r: Result<ModuleSurface, ValidateError>)
    requires
        parsed matches Some(m) ==> exports_live(m),
    ensures
        parsed is None ==> r == Err::<ModuleSurface, ValidateError>(ValidateError::Malformed),
        parsed matches Some(m) ==> match r {
            Ok(s) => surface_of(&s, m) && conforms(&s),
            Err(ValidateError::Contract(e)) => exists|s: ModuleSurface|
                surface_of(&s, m) && verdict(&s) == Err::<(), ContractError>(e),
            Err(ValidateError::Malformed) => false,
        },
{
    match parsed {
        None => Err(ValidateError::Malformed),
        Some(m) => {
            let s = module_surface(&m);
            match check_module(&s) {
                Ok(()) => Ok(s),
                Err(e) => Err(ValidateError::Contract(e)),
            }
        },
    }
}

/// The surface `s` is that of the module that the parser finds in `wasm`.
pub open spec fn surface_in(s: &ModuleSurface, wasm: Seq<u8>) -> bool {
    &&& export_views(s.exports@) == exports_in(wasm)
    &&& s.imports@.len() == imports_in(wasm).len()
    &&& forall|k: int|
        0 <= k < s.imports@.len() ==> ((#[trigger] s.imports@[k]).module@, s.imports@[k].name@)
            == imports_in(wasm)[k]
    &&& s.has_start == start_in(wasm)
    &&& s.memories == memories_in(wasm)
}

/// Whether the module that the parser finds in `wasm` meets the contract.
pub open spec fn meets_contract(wasm: Seq<u8>) -> bool {
    exists|s: ModuleSurface| surface_in(&s, wasm) && conforms(&s)
}

/// Surfaces with the same imports have their first foreign import at the
/// same place.
proof fn lemma_same_foreign(a: &ModuleSurface, b: &ModuleSurface, from: int)
    requires
        a.imports@.len() == b.imports@.len(),
        forall|k: int|
            0 <= k < a.imports@.len() ==> (#[trigger] a.imports@[k]).module@
                == b.imports@[k].module@,
        0 <= from <= a.imports@.len(),
    ensures
        first_foreign(a.imports@, from) == first_foreign(b.imports@, from),
    decreases a.imports@.len() - from,
{
    if from < a.imports@.len() {
        assert(a.imports@[from].module@ == b.imports@[from].module@);
        lemma_same_foreign(a, b, from + 1);
    }
}

/// The verdict on a module depends on nothing but what its surface holds.
pub proof fn lemma_same_verdict(a: &ModuleSurface, b: &ModuleSurface, wasm: Seq<u8>)
    requires
        surface_in(a, wasm),
        surface_in(b, wasm),
    ensures
        verdict(a) == verdict(b),
        conforms(a) == conforms(b),
{
    assert forall|k: int| 0 <= k < a.imports@.len() implies (#[trigger] a.imports@[k]).module@
        == b.imports@[k].module@ by {
        assert((a.imports@[k].module@, a.imports@[k].name@) == imports_in(wasm)[k]);
        assert((b.imports@[k].module@, b.imports@[k].name@) == imports_in(wasm)[k]);
    }
    lemma_same_foreign(a, b, 0);
    lemma_verdict_conforms(a);
    lemma_verdict_conforms(b);
}

/// Reads the surface of the module in `wasm`: parses the bytes and reads
/// out what the parser found. Nothing when the parser does not accept the
/// bytes.
pub fn read_surface(wasm: &[u8]) -> (r: Option<ModuleSurface>)
    ensures
        r is Some <==> parses(wasm@),
        r matches Some(s) ==> surface_in(&s, wasm@),
{
    match parse(wasm) {
        None => None,
        Some(m) => Some(module_surface(&m)),
    }
}

/// Checks a compiled module against the contract: reads its surface and
/// checks it. The result is `Malformed` exactly when the parser does not
/// accept the bytes. Else the surface of the module in the bytes is handed
/// back when it meets the contract, and the first reason for which it does
/// not otherwise.
pub fn validate(wasm: &[u8]) -> (r: Result<ModuleSurface, ValidateError>)
    ensures
        r matches Err(ValidateError::Malformed) <==> !parses(wasm@),
        parses(wasm@) ==> (r is Ok <==> meets_contract(wasm@)),
        r matches Ok(s) ==> surface_in(&s, wasm@) && conforms(&s),
        r matches Err(ValidateError::Contract(e)) ==> forall|s: ModuleSurface|
            surface_in(&s, wasm@) ==> verdict(&s) == Err::<(), ContractError>(e),
{
    match read_surface(wasm) {
        None => Err(ValidateError::Malformed),
        Some(found) => {
            match check_module(&found) {
                Ok(()) => Ok(found),
                Err(e) => {
                    proof {
                        assert forall|s: ModuleSurface| surface_in(&s, wasm@) implies verdict(&s)
                            == Err::<(), ContractError>(e) && !conforms(&s) by {
                            lemma_same_verdict(&s, &found, wasm@);
                            lemma_verdict_conforms(&s);
                        }
                    }
                    Err(ValidateError::Contract(e))
                },
            }
        },
    }
}

} // verus!
