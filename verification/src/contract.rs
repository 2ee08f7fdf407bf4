//! The module contract: what a module exports and imports.
//!
//! The host loads a module only if it exports one linear memory under the
//! name `memory`, the five runtime functions `__new`, `__pin`, `__unpin`,
//! `__collect` and `abort` with their exact signatures, and one function of
//! one 32-bit parameter for each handler; if it imports from the namespace
//! `env` alone; and if it declares no start function.
//!
//! A handler is registered under the name of its source function. The
//! export is named as the registration says, or else by the source name
//! turned from snake style into camel style.


use crate::asc::{decode, FromAscPtr};
use crate::host::Import;
use crate::memory::{as_unsigned32, to_unsigned32, Memory};
use vstd::prelude::*;
use vstd::string::StrSliceExecFns;

verus! {

/// The upper-case form of an ASCII lower-case letter; any other character
/// unchanged.
pub open spec fn ascii_upper(c: char) -> char {
    if 'a' <= c <= 'z' {
        ((c as u32) - 32) as char
    } else {
        c
    }
}

/// The character that the camel-style name has for position `i` of `s`,
/// which holds no underscore: upper-cased when it follows an underscore.
pub open spec fn camel_char(s: Seq<char>, i: int) -> char {
    if i > 0 && s[i - 1] == '_' {
        ascii_upper(s[i])
    } else {
        s[i]
    }
}

/// The camel-style name for the first `n` characters of `s`: the
/// underscores are dropped and each character that follows one is
/// upper-cased.
pub open spec fn camel_prefix(s: Seq<char>, n: nat) -> Seq<char>
    decreases n,
{
    if n == 0 || n > s.len() {
        Seq::empty()
    } else if s[n - 1] == '_' {
        camel_prefix(s, (n - 1) as nat)
    } else {
        camel_prefix(s, (n - 1) as nat).push(camel_char(s, n - 1))
    }
}

/// The camel-style name for the snake-style name `s`.
pub open spec fn camel(s: Seq<char>) -> Seq<char> {
    camel_prefix(s, s.len())
}

/// The upper-case form of an ASCII lower-case letter; any other character
/// unchanged.
pub fn to_ascii_upper(c: char) -> (r: char)
    ensures
        r == ascii_upper(c),
{
    let cp: u32 = c as u32;
    if 97 <= cp && cp <= 122 {
        ((cp - 32) as u8) as char
    } else {
        c
    }
}

/// Turns a snake-style name into a camel-style name: `handle_transfer`
/// becomes `handleTransfer`.
pub fn snake_to_camel(s: &str) -> (r: String)
    ensures
        r@ == camel(s@),
{
    let mut result = String::new();
    let mut capitalize_next = false;
    for c in it: s.chars()
        invariant
            it.seq() == s@,
            result@ == camel_prefix(s@, it.index() as nat),
            capitalize_next == (it.index() > 0 && s@[it.index() - 1] == '_'),
    {
        assert(c == s@[it.index()]);
        if c == '_' {
            capitalize_next = true;
        } else if capitalize_next {
            result.push(to_ascii_upper(c));
            capitalize_next = false;
        } else {
            result.push(c);
        }
    }
    result
}

/// The first position at or after `from` where `s` holds the character `c`,
/// or the length of `s` when there is none.
pub open spec fn find_char(s: Seq<char>, c: char, from: int) -> int
    decreases s.len() - from,
{
    if from < 0 || from >= s.len() {
        s.len() as int
    } else if s[from] == c {
        from
    } else {
        find_char(s, c, from + 1)
    }
}

/// Whether `s` holds the word `name` at position `i`.
pub open spec fn name_at(s: Seq<char>, i: int) -> bool {
    &&& 0 <= i
    &&& i + 4 <= s.len()
    &&& s[i] == 'n'
    &&& s[i + 1] == 'a'
    &&& s[i + 2] == 'm'
    &&& s[i + 3] == 'e'
}

/// The first position at or after `from` where `s` holds the word `name`,
/// or the length of `s` when there is none.
pub open spec fn find_name(s: Seq<char>, from: int) -> int
    decreases s.len() - from,
{
    if from < 0 || from >= s.len() {
        s.len() as int
    } else if name_at(s, from) {
        from
    } else {
        find_name(s, from + 1)
    }
}

/// The name that the registration arguments `args` give explicitly: what
/// stands between the first two double quotes after the first `=` after the
/// first `name`. `None` when one of them is missing.
pub open spec fn explicit_name(args: Seq<char>) -> Option<Seq<char>> {
    let start = find_name(args, 0);
    let eq = find_char(args, '=', start);
    let open = find_char(args, '"', eq + 1);
    let close = find_char(args, '"', open + 1);
    if start < args.len() && eq < args.len() && open < args.len() && close < args.len() {
        Some(args.subrange(open + 1, close))
    } else {
        None
    }
}

/// The name under which the handler `fn_name`, registered with the
/// arguments `args`, is exported.
pub open spec fn handler_name(args: Seq<char>, fn_name: Seq<char>) -> Seq<char> {
    match explicit_name(args) {
        Some(name) => name,
        None => camel(fn_name),
    }
}

/// The characters of `s`.
fn chars_of(s: &str) -> (v: Vec<char>)
    ensures
        v@ == s@,
{
    let mut v: Vec<char> = Vec::new();
    for c in it: s.chars()
        invariant
            it.seq() == s@,
            v@ == s@.take(it.index()),
    {
        assert(c == s@[it.index()]);
        assert(s@.take(it.index() + 1) =~= s@.take(it.index()).push(c));
        v.push(c);
    }
    assert(s@.take(s@.len() as int) =~= s@);
    v
}

/// The first position at or after `from` where `s` holds `c`, or the length
/// of `s`.
fn position_of(s: &Vec<char>, c: char, from: usize) -> (r: usize)
    ensures
        r == find_char(s@, c, from as int),
        r <= s@.len(),
        r < s@.len() ==> from <= r,
{
    let mut i = from;
    while i < s.len()
        invariant
            from <= i,
            find_char(s@, c, from as int) == find_char(s@, c, i as int),
        decreases s.len() - i,
    {
        if s[i] == c {
            return i;
        }
        i = i + 1;
    }
    s.len()
}

/// The first position where `s` holds the word `name`, or the length of `s`.
fn position_of_name(s: &Vec<char>) -> (r: usize)
    ensures
        r == find_name(s@, 0),
        r <= s@.len(),
{
    let mut i: usize = 0;
    while i < s.len()
        invariant
            find_name(s@, 0) == find_name(s@, i as int),
        decreases s.len() - i,
    {
        if s.len() - i >= 4 && s[i] == 'n' && s[i + 1] == 'a' && s[i + 2] == 'm' && s[i + 3]
            == 'e' {
            return i;
        }
        i = i + 1;
    }
    s.len()
}

/// The name under which a handler is exported: the name that the
/// registration arguments give between double quotes after `name =`, or
/// else the camel-style form of the name of the source function.
pub fn parse_handler_name(attr_args: &str, fn_name: &str) -> (r: String)
    ensures
        r@ == handler_name(attr_args@, fn_name@),
{
    let args = chars_of(attr_args);
    let n = args.len();
    let start = position_of_name(&args);
    if start < n {
        let eq = position_of(&args, '=', start);
        if eq < n {
            let open = position_of(&args, '"', eq + 1);
            if open < n {
                let close = position_of(&args, '"', open + 1);
                if close < n {
                    let mut name = String::new();
                    let mut i = open + 1;
                    while i < close
                        invariant
                            open + 1 <= i <= close < n,
                            n == args@.len(),
                            name@ == args@.subrange(open + 1, i as int),
                        decreases close - i,
                    {
                        name.push(args[i]);
                        assert(args@.subrange(open + 1, i + 1) =~= args@.subrange(
                            open + 1,
                            i as int,
                        ).push(args@[i as int]));
                        i = i + 1;
                    }
                    return name;
                }
            }
        }
    }
    snake_to_camel(fn_name)
}


/// The argument of a handler that the host calls with `ptr`: the value that
/// the pointer refers to, read as the type of the parameter of the handler.
/// Nothing when the memory does not hold such a value there, in which case
/// the export has to trap.
pub fn handler_argument<T: FromAscPtr>(mem: &Memory, ptr: i32) -> (r: Option<T>)
    requires
        mem.wf(),
    ensures
        r is Some <==> T::readable(mem@, as_unsigned32(ptr)),
        r matches Some(v) ==> v@ == T::decoded(mem@, as_unsigned32(ptr)),
{
    decode(mem, to_unsigned32(ptr))
}

/// The type of a parameter or a result.
#[derive(Clone, Copy, Debug, PartialEq, Eq, Structural)]
pub enum ValueType {
    /// A 32-bit integer.
    I32,
    /// A 64-bit integer.
    I64,
    /// A 32-bit floating-point number.
    F32,
    /// A 64-bit floating-point number.
    F64,
    /// Any other type: a vector or a reference.
    Other,
}

/// What an export refers to.
#[derive(Clone, Copy, Debug, PartialEq, Eq, Structural)]
pub enum ExportKind {
    Function,
    Table,
    Memory,
    Global,
    Tag,
}

/// An export of a module. The signature is that of the function for an
/// export of a function, and empty for the others.
#[derive(Debug)]
pub struct Export {
    pub name: String,
    pub kind: ExportKind,
    pub params: Vec<ValueType>,
    pub results: Vec<ValueType>,
}

/// What an `Export` stands for.
pub struct ExportView {
    pub name: Seq<char>,
    pub kind: ExportKind,
    pub params: Seq<ValueType>,
    pub results: Seq<ValueType>,
}

impl View for Export {
    type V = ExportView;

    open spec fn view(&self) -> ExportView {
        ExportView {
            name: self.name@,
            kind: self.kind,
            params: self.params@,
            results: self.results@,
        }
    }
}

/// An import of a module: the namespace and the name.
#[derive(Debug)]
pub struct ModuleImport {
    pub module: String,
    pub name: String,
}

/// What of a module the host looks at.
#[derive(Debug)]
pub struct ModuleSurface {
    pub exports: Vec<Export>,
    pub imports: Vec<ModuleImport>,
    pub has_start: bool,
    pub memories: usize,
}

/// The number of exports that every module has.
pub const REQUIRED_EXPORTS: usize = 6;

/// The name of the required export number `i`.
pub open spec fn required_name(i: int) -> Seq<char> {
    if i == 0 {
        "memory"@
    } else if i == 1 {
        "__new"@
    } else if i == 2 {
        "__pin"@
    } else if i == 3 {
        "__unpin"@
    } else if i == 4 {
        "__collect"@
    } else {
        "abort"@
    }
}

/// The required export number `i`: the memory, then the allocation entry
/// `__new: (i32, i32) -> i32`, the collector hooks `__pin: (i32) -> i32`,
/// `__unpin: (i32) -> ()` and `__collect: () -> ()`, and
/// `abort: (i32, i32, i32, i32) -> ()`.
pub open spec fn required_export(i: int) -> ExportView {
    ExportView {
        name: required_name(i),
        kind: if i == 0 {
            ExportKind::Memory
        } else {
            ExportKind::Function
        },
        params: if i == 1 {
            seq![ValueType::I32, ValueType::I32]
        } else if i == 2 || i == 3 {
            seq![ValueType::I32]
        } else if i == 5 {
            seq![ValueType::I32, ValueType::I32, ValueType::I32, ValueType::I32]
        } else {
            Seq::empty()
        },
        results: if i == 1 || i == 2 {
            seq![ValueType::I32]
        } else {
            Seq::empty()
        },
    }
}

/// The export of a handler named `name`: a function of one 32-bit parameter
/// without a result.
pub open spec fn handler_export(name: Seq<char>) -> ExportView {
    ExportView {
        name,
        kind: ExportKind::Function,
        params: seq![ValueType::I32],
        results: Seq::empty(),
    }
}

/// The exports of a module with the handlers `handlers`: the six required
/// exports, then one for each handler, in order.
pub open spec fn module_exports(handlers: Seq<Seq<char>>) -> Seq<ExportView> {
    Seq::new(
        6 + handlers.len(),
        |i: int|
            if i < 6 {
                required_export(i)
            } else {
                handler_export(handlers[i - 6])
            },
    )
}

/// Whether `name` is the name of a required export.
pub open spec fn is_required_name(name: Seq<char>) -> bool {
    exists|i: int| 0 <= i < 6 && name == #[trigger] required_name(i)
}

/// Whether `name` begins with two underscores.
pub open spec fn is_reserved_name(name: Seq<char>) -> bool {
    name.len() >= 2 && name[0] == '_' && name[1] == '_'
}

/// Whether `exports` holds `e`, name, kind and signature.
pub open spec fn has_export(exports: Seq<ExportView>, e: ExportView) -> bool {
    exists|j: int| 0 <= j < exports.len() && #[trigger] exports[j] == e
}

/// Whether `e` may stand beside the required exports: it is one of them, or
/// it is the export of a handler whose name does not begin with two
/// underscores.
pub open spec fn export_allowed(e: ExportView) -> bool {
    (exists|i: int| 0 <= i < 6 && e == #[trigger] required_export(i)) || (e == handler_export(
        e.name,
    ) && !is_reserved_name(e.name) && !is_required_name(e.name))
}

/// What the views of the exports of a surface are.
pub open spec fn export_views(exports: Seq<Export>) -> Seq<ExportView> {
    Seq::new(exports.len(), |i: int| exports[i]@)
}

/// The first required export that `exports` lacks, or 6.
pub open spec fn first_missing(exports: Seq<ExportView>, from: int) -> int
    decreases 6 - from,
{
    if from < 0 || from >= 6 {
        6
    } else if !has_export(exports, required_export(from)) {
        from
    } else {
        first_missing(exports, from + 1)
    }
}

/// The first export at or after `from` that is not allowed, or the number
/// of exports.
pub open spec fn first_unexpected(exports: Seq<ExportView>, from: int) -> int
    decreases exports.len() - from,
{
    if from < 0 || from >= exports.len() {
        exports.len() as int
    } else if !export_allowed(exports[from]) {
        from
    } else {
        first_unexpected(exports, from + 1)
    }
}

/// The first import at or after `from` whose namespace is not `env`, or the
/// number of imports.
pub open spec fn first_foreign(imports: Seq<ModuleImport>, from: int) -> int
    decreases imports.len() - from,
{
    if from < 0 || from >= imports.len() {
        imports.len() as int
    } else if imports[from].module@ != "env"@ {
        from
    } else {
        first_foreign(imports, from + 1)
    }
}

/// Why the host would reject a module.
#[derive(Clone, Copy, Debug, PartialEq, Eq, Structural)]
pub enum ContractError {
    /// The required export with this number is missing, or has another kind
    /// or signature.
    MissingExport(usize),
    /// The export at this position is neither required nor the export of a
    /// handler.
    UnexpectedExport(usize),
    /// The module declares a start function.
    StartFunction,
    /// The module does not have exactly one memory.
    MemoryCount,
    /// The import at this position comes from another namespace than `env`.
    ForeignImport(usize),
}

/// Whether the host accepts a module with the surface `s`: it has the six
/// required exports with their kinds and signatures; every other export is
/// that of a handler, a function `(i32) -> ()` whose name does not begin
/// with two underscores; it declares no start function; it has exactly one
/// memory; and every import comes from `env`.
pub open spec fn conforms(s: &ModuleSurface) -> bool {
    &&& forall|i: int|
        0 <= i < 6 ==> has_export(export_views(s.exports@), #[trigger] required_export(i))
    &&& forall|j: int| 0 <= j < s.exports@.len() ==> export_allowed(#[trigger] s.exports@[j]@)
    &&& !s.has_start
    &&& s.memories == 1
    &&& forall|k: int| 0 <= k < s.imports@.len() ==> (#[trigger] s.imports@[k]).module@ == "env"@
}

/// The first reason for which the host would reject a module with the
/// surface `s`, if there is one: a missing export before an unexpected one,
/// then a start function, the number of memories, and a foreign import.
pub open spec fn verdict(s: &ModuleSurface) -> Result<(), ContractError> {
    let exports = export_views(s.exports@);
    if first_missing(exports, 0) < 6 {
        Err(ContractError::MissingExport(first_missing(exports, 0) as usize))
    } else if first_unexpected(exports, 0) < exports.len() {
        Err(ContractError::UnexpectedExport(first_unexpected(exports, 0) as usize))
    } else if s.has_start {
        Err(ContractError::StartFunction)
    } else if s.memories != 1 {
        Err(ContractError::MemoryCount)
    } else if first_foreign(s.imports@, 0) < s.imports@.len() {
        Err(ContractError::ForeignImport(first_foreign(s.imports@, 0) as usize))
    } else {
        Ok(())
    }
}

/// What the first missing export is.
pub proof fn lemma_first_missing(exports: Seq<ExportView>, from: int)
    requires
        0 <= from <= 6,
    ensures
        from <= first_missing(exports, from) <= 6,
        first_missing(exports, from) < 6 ==> !has_export(
            exports,
            required_export(first_missing(exports, from)),
        ),
        forall|i: int|
            from <= i < first_missing(exports, from) ==> has_export(
                exports,
                #[trigger] required_export(i),
            ),
    decreases 6 - from,
{
    if from < 6 && has_export(exports, required_export(from)) {
        lemma_first_missing(exports, from + 1);
    }
}

/// What the first unexpected export is.
pub proof fn lemma_first_unexpected(exports: Seq<ExportView>, from: int)
    requires
        0 <= from <= exports.len(),
    ensures
        from <= first_unexpected(exports, from) <= exports.len(),
        first_unexpected(exports, from) < exports.len() ==> !export_allowed(
            exports[first_unexpected(exports, from)],
        ),
        forall|j: int|
            from <= j < first_unexpected(exports, from) ==> export_allowed(#[trigger] exports[j]),
    decreases exports.len() - from,
{
    if from < exports.len() && export_allowed(exports[from]) {
        lemma_first_unexpected(exports, from + 1);
    }
}

/// What the first foreign import is.
pub proof fn lemma_first_foreign(imports: Seq<ModuleImport>, from: int)
    requires
        0 <= from <= imports.len(),
    ensures
        from <= first_foreign(imports, from) <= imports.len(),
        first_foreign(imports, from) < imports.len() ==> imports[first_foreign(
            imports,
            from,
        )].module@ != "env"@,
        forall|k: int|
            from <= k < first_foreign(imports, from) ==> (#[trigger] imports[k]).module@ == "env"@,
    decreases imports.len() - from,
{
    if from < imports.len() && imports[from].module@ == "env"@ {
        lemma_first_foreign(imports, from + 1);
    }
}

/// The host accepts a module exactly when there is no reason to reject it.
pub proof fn lemma_verdict_conforms(s: &ModuleSurface)
    ensures
        verdict(s) is Ok <==> conforms(s),
{
    let exports = export_views(s.exports@);
    lemma_first_missing(exports, 0);
    lemma_first_unexpected(exports, 0);
    lemma_first_foreign(s.imports@, 0);
    if verdict(s) is Ok {
        assert forall|j: int| 0 <= j < s.exports@.len() implies export_allowed(
            #[trigger] s.exports@[j]@,
        ) by {
            assert(exports[j] == s.exports@[j]@);
        }
    }
    if conforms(s) {
        if first_unexpected(exports, 0) < exports.len() {
            let j = first_unexpected(exports, 0);
            assert(exports[j] == s.exports@[j]@);
        }
    }
}


/// Whether the two lists hold the same types in the same order.
fn same_types(a: &Vec<ValueType>, b: &Vec<ValueType>) -> (r: bool)
    ensures
        r == (a@ == b@),
{
    if a.len() != b.len() {
        return false;
    }
    let mut i: usize = 0;
    while i < a.len()
        invariant
            0 <= i <= a.len(),
            a.len() == b.len(),
            forall|j: int| 0 <= j < i ==> a@[j] == b@[j],
        decreases a.len() - i,
    {
        if a[i] != b[i] {
            return false;
        }
        i = i + 1;
    }
    assert(a@ =~= b@);
    true
}

/// Whether the two exports agree in name, kind and signature.
pub fn same_export(a: &Export, b: &Export) -> (r: bool)
    ensures
        r == (a@ == b@),
{
    a.name == b.name && a.kind == b.kind && same_types(&a.params, &b.params) && same_types(
        &a.results,
        &b.results,
    )
}

/// The required export number `i`.
pub fn required(i: usize) -> (e: Export)
    requires
        i < 6,
    ensures
        e@ == required_export(i as int),
{
    let mut params: Vec<ValueType> = Vec::new();
    let mut results: Vec<ValueType> = Vec::new();
    let name = if i == 0 {
        "memory"
    } else if i == 1 {
        params.push(ValueType::I32);
        params.push(ValueType::I32);
        results.push(ValueType::I32);
        "__new"
    } else if i == 2 {
        params.push(ValueType::I32);
        results.push(ValueType::I32);
        "__pin"
    } else if i == 3 {
        params.push(ValueType::I32);
        "__unpin"
    } else if i == 4 {
        "__collect"
    } else {
        params.push(ValueType::I32);
        params.push(ValueType::I32);
        params.push(ValueType::I32);
        params.push(ValueType::I32);
        "abort"
    };
    let kind = if i == 0 {
        ExportKind::Memory
    } else {
        ExportKind::Function
    };
    assert(params@ =~= required_export(i as int).params);
    assert(results@ =~= required_export(i as int).results);
    Export { name: name.to_owned(), kind, params, results }
}

/// The export of a handler named `name`.
pub fn handler(name: &str) -> (e: Export)
    ensures
        e@ == handler_export(name@),
{
    let mut params: Vec<ValueType> = Vec::new();
    params.push(ValueType::I32);
    let results: Vec<ValueType> = Vec::new();
    assert(params@ =~= seq![ValueType::I32]);
    Export { name: name.to_owned(), kind: ExportKind::Function, params, results }
}

/// The names of `handlers`, in order.
pub open spec fn names_of(handlers: Seq<String>) -> Seq<Seq<char>> {
    Seq::new(handlers.len(), |i: int| handlers[i]@)
}

/// The exports of a module with the handlers `handlers`: exactly the six
/// required exports and one for each handler.
pub fn exports_for(handlers: &Vec<String>) -> (exports: Vec<Export>)
    ensures
        export_views(exports@) == module_exports(names_of(handlers@)),
{
    let mut exports: Vec<Export> = Vec::new();
    let mut i: usize = 0;
    while i < 6
        invariant
            0 <= i <= 6,
            exports@.len() == i,
            forall|j: int| 0 <= j < i ==> (#[trigger] exports@[j])@ == required_export(j),
        decreases 6 - i,
    {
        exports.push(required(i));
        i = i + 1;
    }
    let mut k: usize = 0;
    while k < handlers.len()
        invariant
            0 <= k <= handlers.len(),
            exports@.len() == 6 + k,
            forall|j: int| 0 <= j < 6 ==> (#[trigger] exports@[j])@ == required_export(j),
            forall|j: int|
                6 <= j < 6 + k ==> (#[trigger] exports@[j])@ == handler_export(handlers@[j - 6]@),
        decreases handlers.len() - k,
    {
        exports.push(handler(handlers[k].as_str()));
        k = k + 1;
    }
    assert(export_views(exports@) =~= module_exports(names_of(handlers@)));
    exports
}

/// The surface of a module with the handlers `handlers`: the exports of
/// `exports_for`, every host function imported from `env`, no start
/// function and one memory.
pub fn surface_for(handlers: &Vec<String>) -> (s: ModuleSurface)
    ensures
        export_views(s.exports@) == module_exports(names_of(handlers@)),
        !s.has_start,
        s.memories == 1,
        s.imports@.len() == crate::host::IMPORT_COUNT,
        forall|k: int|
            0 <= k < s.imports@.len() ==> (#[trigger] s.imports@[k]).module@ == "env"@
                && s.imports@[k].name@ == crate::host::import_at(k).spec_name(),
{
    let all = Import::all();
    let mut imports: Vec<ModuleImport> = Vec::new();
    let mut k: usize = 0;
    while k < all.len()
        invariant
            0 <= k <= all.len(),
            all@.len() == crate::host::IMPORT_COUNT,
            forall|i: Import| #[trigger] all@[i.spec_index()] == i,
            imports@.len() == k,
            forall|j: int|
                0 <= j < k ==> (#[trigger] imports@[j]).module@ == "env"@ && imports@[j].name@
                    == crate::host::import_at(j).spec_name(),
        decreases all.len() - k,
    {
        let i = all[k];
        proof {
            crate::host::lemma_index_of(k as int);
            let j = crate::host::import_at(k as int);
            assert(all@[j.spec_index()] == j);
        }
        let entry = ModuleImport { module: i.module().to_owned(), name: i.name().to_owned() };
        imports.push(entry);
        k = k + 1;
    }
    ModuleSurface { exports: exports_for(handlers), imports, has_start: false, memories: 1 }
}

/// Export surface: the host accepts every module built for handlers whose
/// names do not begin with two underscores and are not names of required
/// exports. Such a module exports exactly the six required exports and one
/// function for each handler, has one memory, exported as `memory`, and no
/// start function.
pub proof fn lemma_built_module_conforms(s: &ModuleSurface, handlers: Seq<Seq<char>>)
    requires
        export_views(s.exports@) == module_exports(handlers),
        !s.has_start,
        s.memories == 1,
        forall|k: int| 0 <= k < s.imports@.len() ==> (#[trigger] s.imports@[k]).module@ == "env"@,
        forall|h: int|
            0 <= h < handlers.len() ==> !is_reserved_name(#[trigger] handlers[h])
                && !is_required_name(handlers[h]),
    ensures
        conforms(s),
        verdict(s) is Ok,
        s.exports@.len() == 6 + handlers.len(),
        forall|i: int| 0 <= i < 6 ==> (#[trigger] s.exports@[i])@ == required_export(i),
        forall|j: int|
            6 <= j < s.exports@.len() ==> (#[trigger] s.exports@[j])@ == handler_export(
                handlers[j - 6],
            ),
{
    let exports = export_views(s.exports@);
    assert(exports.len() == s.exports@.len());
    assert forall|i: int| 0 <= i < s.exports@.len() implies (#[trigger] s.exports@[i])@
        == module_exports(handlers)[i] by {
        assert(exports[i] == s.exports@[i]@);
    }
    assert forall|i: int| 0 <= i < 6 implies has_export(exports, #[trigger] required_export(i)) by {
        assert(exports[i] == required_export(i));
    }
    assert forall|j: int| 0 <= j < s.exports@.len() implies export_allowed(
        #[trigger] s.exports@[j]@,
    ) by {
        if j < 6 {
            assert(s.exports@[j]@ == required_export(j));
        } else {
            assert(s.exports@[j]@ == handler_export(handlers[j - 6]));
        }
    }
    lemma_verdict_conforms(s);
}

/// Whether `name` begins with two underscores.
fn reserved_name(name: &str) -> (r: bool)
    ensures
        r == is_reserved_name(name@),
{
    name.unicode_len() >= 2 && name.get_char(0) == '_' && name.get_char(1) == '_'
}

/// Whether `e` is the required export number `i`.
fn is_required(e: &Export, i: usize) -> (r: bool)
    requires
        i < 6,
    ensures
        r == (e@ == required_export(i as int)),
{
    let wanted = required(i);
    same_export(e, &wanted)
}

/// Whether `name` is the name of a required export.
fn required_name_exec(name: &String) -> (r: bool)
    ensures
        r == is_required_name(name@),
{
    let mut i: usize = 0;
    while i < 6
        invariant
            0 <= i <= 6,
            forall|j: int| 0 <= j < i ==> name@ != #[trigger] required_name(j),
        decreases 6 - i,
    {
        let wanted = required(i);
        assert(wanted@.name == required_name(i as int));
        if *name == wanted.name {
            return true;
        }
        i = i + 1;
    }
    false
}

/// Whether `e` may stand beside the required exports.
fn allowed(e: &Export) -> (r: bool)
    ensures
        r == export_allowed(e@),
{
    let mut i: usize = 0;
    while i < 6
        invariant
            0 <= i <= 6,
            forall|j: int| 0 <= j < i ==> e@ != #[trigger] required_export(j),
        decreases 6 - i,
    {
        if is_required(e, i) {
            return true;
        }
        i = i + 1;
    }
    let wanted = handler(e.name.as_str());
    same_export(e, &wanted) && !reserved_name(e.name.as_str()) && !required_name_exec(&e.name)
}

/// Whether `exports` holds the required export number `i`.
fn has_required(exports: &Vec<Export>, i: usize) -> (r: bool)
    requires
        i < 6,
    ensures
        r == has_export(export_views(exports@), required_export(i as int)),
{
    let ghost views = export_views(exports@);
    let mut j: usize = 0;
    while j < exports.len()
        invariant
            0 <= j <= exports.len(),
            i < 6,
            views == export_views(exports@),
            forall|k: int| 0 <= k < j ==> #[trigger] views[k] != required_export(i as int),
        decreases exports.len() - j,
    {
        if is_required(&exports[j], i) {
            assert(views[j as int] == required_export(i as int));
            return true;
        }
        assert(views[j as int] == exports@[j as int]@);
        j = j + 1;
    }
    false
}

/// The required exports, by their numbers in ascending order, that
/// `exports` lacks among the first `n`.
pub open spec fn missing_among(exports: Seq<ExportView>, n: nat) -> Seq<usize>
    decreases n,
{
    if n == 0 || n > 6 {
        Seq::empty()
    } else if has_export(exports, required_export(n - 1)) {
        missing_among(exports, (n - 1) as nat)
    } else {
        missing_among(exports, (n - 1) as nat).push((n - 1) as usize)
    }
}

/// No required export is missing exactly when there is no first one that
/// is.
pub proof fn lemma_none_missing(exports: Seq<ExportView>, n: nat)
    requires
        n <= 6,
    ensures
        missing_among(exports, n).len() == 0 <==> forall|i: int|
            0 <= i < n ==> has_export(exports, #[trigger] required_export(i)),
        forall|k: int|
            0 <= k < missing_among(exports, n).len() ==> (#[trigger] missing_among(exports, n)[k])
                < n && !has_export(exports, required_export(missing_among(exports, n)[k] as int)),
    decreases n,
{
    if n > 0 {
        lemma_none_missing(exports, (n - 1) as nat);
        if has_export(exports, required_export(n - 1)) {
            assert forall|i: int| 0 <= i < n && (forall|j: int|
                0 <= j < n - 1 ==> has_export(
                    exports,
                    #[trigger] required_export(j),
                )) implies has_export(exports, #[trigger] required_export(i)) by {}
        }
    }
}

/// All required exports that the surface `s` lacks, by their numbers in
/// ascending order: those that are missing or have another kind or
/// signature.
pub fn missing_exports(s: &ModuleSurface) -> (r: Vec<usize>)
    ensures
        r@ == missing_among(export_views(s.exports@), 6),
        r@.len() == 0 <==> first_missing(export_views(s.exports@), 0) == 6,
        forall|k: int| 0 <= k < r@.len() ==> #[trigger] r@[k] < 6,
{
    let ghost exports = export_views(s.exports@);
    let mut r: Vec<usize> = Vec::new();
    let mut i: usize = 0;
    while i < 6
        invariant
            0 <= i <= 6,
            exports == export_views(s.exports@),
            r@ == missing_among(exports, i as nat),
        decreases 6 - i,
    {
        if !has_required(&s.exports, i) {
            r.push(i);
        }
        i = i + 1;
    }
    proof {
        lemma_none_missing(exports, 6);
        lemma_first_missing(exports, 0);
    }
    r
}

/// Whether an export of the name `name` is taken for a handler: the name
/// is none of the required ones and does not begin with two underscores.
pub open spec fn names_handler(name: Seq<char>) -> bool {
    !is_required_name(name) && !is_reserved_name(name)
}

/// The names among the first `n` exports that are taken for handlers, in
/// the order of the exports.
pub open spec fn handlers_among(exports: Seq<ExportView>, n: nat) -> Seq<Seq<char>>
    decreases n,
{
    if n == 0 || n > exports.len() {
        Seq::empty()
    } else if names_handler(exports[n - 1].name) {
        handlers_among(exports, (n - 1) as nat).push(exports[n - 1].name)
    } else {
        handlers_among(exports, (n - 1) as nat)
    }
}

/// The names of the exports of `s` that are taken for handlers, in the
/// order of the exports.
pub fn handler_names(s: &ModuleSurface) -> (r: Vec<String>)
    ensures
        names_of(r@) == handlers_among(export_views(s.exports@), s.exports@.len()),
{
    let ghost exports = export_views(s.exports@);
    let mut r: Vec<String> = Vec::new();
    let mut j: usize = 0;
    while j < s.exports.len()
        invariant
            0 <= j <= s.exports@.len(),
            exports == export_views(s.exports@),
            names_of(r@) == handlers_among(exports, j as nat),
        decreases s.exports@.len() - j,
    {
        let ghost before = r@;
        let name = &s.exports[j].name;
        assert(exports[j as int].name == name@);
        if !required_name_exec(name) && !reserved_name(name.as_str()) {
            r.push(name.clone());
            assert(names_of(r@) =~= names_of(before).push(name@));
        }
        j = j + 1;
    }
    r
}

/// Checks the surface of a module against the contract. The error is the
/// first reason for which the host would reject the module: a missing
/// export, an unexpected export, a start function, the number of memories,
/// a foreign import, in that order.
pub fn check_module(s: &ModuleSurface) -> (r: Result<(), ContractError>)
    ensures
        r == verdict(s),
        r is Ok <==> conforms(s),
{
    let ghost exports = export_views(s.exports@);
    proof {
        lemma_verdict_conforms(s);
    }
    let mut i: usize = 0;
    while i < 6
        invariant
            0 <= i <= 6,
            exports == export_views(s.exports@),
            first_missing(exports, 0) == first_missing(exports, i as int),
        decreases 6 - i,
    {
        if !has_required(&s.exports, i) {
            return Err(ContractError::MissingExport(i));
        }
        i = i + 1;
    }
    let mut j: usize = 0;
    while j < s.exports.len()
        invariant
            0 <= j <= s.exports.len(),
            exports == export_views(s.exports@),
            first_missing(exports, 0) == 6,
            first_unexpected(exports, 0) == first_unexpected(exports, j as int),
        decreases s.exports.len() - j,
    {
        assert(exports[j as int] == s.exports@[j as int]@);
        if !allowed(&s.exports[j]) {
            return Err(ContractError::UnexpectedExport(j));
        }
        j = j + 1;
    }
    if s.has_start {
        return Err(ContractError::StartFunction);
    }
    if s.memories != 1 {
        return Err(ContractError::MemoryCount);
    }
    let env = "env".to_owned();
    let mut k: usize = 0;
    while k < s.imports.len()
        invariant
            0 <= k <= s.imports.len(),
            env@ == "env"@,
            exports == export_views(s.exports@),
            first_missing(exports, 0) == 6,
            first_unexpected(exports, 0) == exports.len(),
            !s.has_start,
            s.memories == 1,
            first_foreign(s.imports@, 0) == first_foreign(s.imports@, k as int),
        decreases s.imports.len() - k,
    {
        if s.imports[k].module != env {
            return Err(ContractError::ForeignImport(k));
        }
        k = k + 1;
    }
    Ok(())
}

} // verus!
