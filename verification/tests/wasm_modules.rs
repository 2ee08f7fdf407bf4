use yogurt::contract::{
    check_module, handler_names, missing_exports, ContractError, ExportKind, ModuleSurface,
    ValueType,
};
use yogurt::wasm::{judge, read_surface, validate, ValidateError};

fn leb(mut n: usize) -> Vec<u8> {
    let mut out = Vec::new();
    loop {
        let byte = (n & 0x7f) as u8;
        n >>= 7;
        if n == 0 {
            out.push(byte);
            return out;
        }
        out.push(byte | 0x80);
    }
}

fn name(s: &str) -> Vec<u8> {
    let mut out = leb(s.len());
    out.extend_from_slice(s.as_bytes());
    out
}

fn section(id: u8, items: Vec<Vec<u8>>) -> Vec<u8> {
    let mut body = leb(items.len());
    for item in items {
        body.extend(item);
    }
    let mut out = vec![id];
    out.extend(leb(body.len()));
    out.extend(body);
    out
}

fn func_type(params: usize, results: usize) -> Vec<u8> {
    let mut out = vec![0x60];
    out.extend(leb(params));
    out.extend(vec![0x7f; params]);
    out.extend(leb(results));
    out.extend(vec![0x7f; results]);
    out
}

struct Spec {
    imports: Vec<(&'static str, &'static str)>,
    exports: Vec<(&'static str, usize)>,
    export_memory: Option<&'static str>,
    start: bool,
}

fn runtime() -> Spec {
    Spec {
        imports: vec![("env", "store.get"), ("env", "log.log")],
        exports: vec![
            ("__new", 0),
            ("__pin", 1),
            ("__unpin", 2),
            ("__collect", 3),
            ("abort", 4),
            ("handleTransfer", 2),
        ],
        export_memory: Some("memory"),
        start: false,
    }
}

fn assemble(spec: &Spec) -> Vec<u8> {
    let mut wasm = vec![0x00, 0x61, 0x73, 0x6d, 0x01, 0x00, 0x00, 0x00];
    wasm.extend(section(
        1,
        vec![func_type(2, 1), func_type(1, 1), func_type(1, 0), func_type(0, 0), func_type(4, 0)],
    ));
    let imports = spec
        .imports
        .iter()
        .map(|(m, n)| {
            let mut item = name(m);
            item.extend(name(n));
            item.extend([0x00, 0x00]);
            item
        })
        .collect::<Vec<_>>();
    let imported = imports.len();
    wasm.extend(section(2, imports));
    wasm.extend(section(3, spec.exports.iter().map(|(_, t)| leb(*t)).collect()));
    wasm.extend(section(5, vec![vec![0x00, 0x01]]));
    let mut exports = Vec::new();
    if let Some(memory) = spec.export_memory {
        let mut item = name(memory);
        item.extend([0x02, 0x00]);
        exports.push(item);
    }
    for (i, (n, _)) in spec.exports.iter().enumerate() {
        let mut item = name(n);
        item.push(0x00);
        item.extend(leb(imported + i));
        exports.push(item);
    }
    wasm.extend(section(7, exports));
    if spec.start {
        let mut out = vec![8];
        let index = leb(imported + 3);
        out.extend(leb(index.len()));
        out.extend(index);
        wasm.extend(out);
    }
    let bodies = spec
        .exports
        .iter()
        .map(|(_, t)| match t {
            0 => vec![0x04, 0x00, 0x41, 0x00, 0x0b],
            1 => vec![0x04, 0x00, 0x20, 0x00, 0x0b],
            4 => vec![0x03, 0x00, 0x00, 0x0b],
            _ => vec![0x02, 0x00, 0x0b],
        })
        .collect();
    wasm.extend(section(10, bodies));
    wasm
}

#[test]
fn test_wasm_is_valid() {
    let wasm = assemble(&runtime());
    assert!(walrus::Module::from_buffer(&wasm).is_ok());
    assert!(validate(&wasm).is_ok());
}

#[test]
fn test_full_compatibility_check() {
    let surface = validate(&assemble(&runtime())).unwrap();
    let required_exports = ["memory", "__new", "__pin", "__unpin", "__collect", "abort"];
    let mut missing = Vec::new();
    for &name in &required_exports {
        if !surface.exports.iter().any(|e| e.name == name) {
            missing.push(name);
        }
    }
    assert!(missing.is_empty(), "Missing required exports: {:?}", missing);
    let handler_count = surface
        .exports
        .iter()
        .filter(|e| {
            e.kind == ExportKind::Function
                && !required_exports.contains(&e.name.as_str())
                && !e.name.starts_with("__")
        })
        .count();
    assert!(
        handler_count > 0,
        "No handler exports found. Subgraph needs at least one handler."
    );
    assert_eq!(handler_count, 1);
}

#[test]
fn test_imports_use_correct_modules() {
    let surface = validate(&assemble(&runtime())).unwrap();
    assert_eq!(surface.imports.len(), 2);
    for import in surface.imports.iter() {
        assert_eq!(import.module, "env");
    }
    assert_eq!(surface.imports[0].name, "store.get");
    assert_eq!(surface.imports[1].name, "log.log");
}

#[test]
fn surface_is_read_from_the_module() {
    let surface = validate(&assemble(&runtime())).unwrap();
    assert!(!surface.has_start);
    assert_eq!(surface.memories, 1);
    assert_eq!(surface.exports.len(), 7);
    let find = |n: &str| surface.exports.iter().find(|e| e.name == n).unwrap();
    assert_eq!(find("memory").kind, ExportKind::Memory);
    assert!(find("memory").params.is_empty());
    assert_eq!(find("__new").kind, ExportKind::Function);
    assert_eq!(find("__new").params, vec![ValueType::I32, ValueType::I32]);
    assert_eq!(find("__new").results, vec![ValueType::I32]);
    assert_eq!(find("__pin").params, vec![ValueType::I32]);
    assert_eq!(find("__pin").results, vec![ValueType::I32]);
    assert_eq!(find("__unpin").params, vec![ValueType::I32]);
    assert!(find("__unpin").results.is_empty());
    assert!(find("__collect").params.is_empty());
    assert!(find("__collect").results.is_empty());
    assert_eq!(find("abort").params, vec![ValueType::I32; 4]);
    assert!(find("abort").results.is_empty());
    assert_eq!(find("handleTransfer").params, vec![ValueType::I32]);
    assert!(find("handleTransfer").results.is_empty());
    assert_eq!(check_module(&surface), Ok(()));
}

#[test]
fn broken_modules_are_rejected() {
    assert_eq!(validate(&[]).unwrap_err(), ValidateError::Malformed);
    assert_eq!(validate(b"not wasm at all").unwrap_err(), ValidateError::Malformed);
    assert_eq!(judge(None).unwrap_err(), ValidateError::Malformed);

    let mut spec = runtime();
    spec.export_memory = None;
    assert_eq!(
        validate(&assemble(&spec)).unwrap_err(),
        ValidateError::Contract(ContractError::MissingExport(0))
    );
    let mut spec = runtime();
    spec.export_memory = Some("mem");
    assert_eq!(
        validate(&assemble(&spec)).unwrap_err(),
        ValidateError::Contract(ContractError::MissingExport(0))
    );
    let mut spec = runtime();
    spec.exports.remove(3);
    assert_eq!(
        validate(&assemble(&spec)).unwrap_err(),
        ValidateError::Contract(ContractError::MissingExport(4))
    );
    let mut spec = runtime();
    spec.exports[1].1 = 2;
    assert_eq!(
        validate(&assemble(&spec)).unwrap_err(),
        ValidateError::Contract(ContractError::MissingExport(2))
    );
    let mut spec = runtime();
    spec.exports.push(("__data_end", 3));
    assert!(matches!(
        validate(&assemble(&spec)).unwrap_err(),
        ValidateError::Contract(ContractError::UnexpectedExport(_))
    ));
    let mut spec = runtime();
    spec.exports.push(("returnsValue", 1));
    assert!(matches!(
        validate(&assemble(&spec)).unwrap_err(),
        ValidateError::Contract(ContractError::UnexpectedExport(_))
    ));
    let mut spec = runtime();
    spec.start = true;
    assert_eq!(
        validate(&assemble(&spec)).unwrap_err(),
        ValidateError::Contract(ContractError::StartFunction)
    );
    let mut spec = runtime();
    spec.imports.push(("wasi_snapshot_preview1", "fd_write"));
    assert_eq!(
        validate(&assemble(&spec)).unwrap_err(),
        ValidateError::Contract(ContractError::ForeignImport(2))
    );
    let mut spec = runtime();
    spec.imports[0].0 = "store";
    assert_eq!(
        validate(&assemble(&spec)).unwrap_err(),
        ValidateError::Contract(ContractError::ForeignImport(0))
    );
    let parsed = walrus::Module::from_buffer(&assemble(&runtime())).ok();
    assert!(judge(parsed).is_ok());
}

fn load_poc_module() -> ModuleSurface {
    validate(&assemble(&runtime())).expect("Failed to parse WASM")
}

fn get_export_func_signature(
    module: &ModuleSurface,
    name: &str,
) -> Option<(Vec<ValueType>, Vec<ValueType>)> {
    for export in module.exports.iter() {
        if export.name == name && export.kind == ExportKind::Function {
            return Some((export.params.clone(), export.results.clone()));
        }
    }
    None
}

fn has_function_export(module: &ModuleSurface, name: &str) -> bool {
    module.exports.iter().any(|e| e.name == name && e.kind == ExportKind::Function)
}

fn has_memory_export(module: &ModuleSurface, name: &str) -> bool {
    module.exports.iter().any(|e| e.name == name && e.kind == ExportKind::Memory)
}

#[test]
fn test_exports_memory() {
    let module = load_poc_module();
    assert!(has_memory_export(&module, "memory"), "Missing required export: memory");
}

#[test]
fn test_exports_new() {
    let module = load_poc_module();
    assert!(has_function_export(&module, "__new"), "Missing required export: __new");
}

#[test]
fn test_exports_pin() {
    let module = load_poc_module();
    assert!(has_function_export(&module, "__pin"), "Missing required export: __pin");
}

#[test]
fn test_exports_unpin() {
    let module = load_poc_module();
    assert!(has_function_export(&module, "__unpin"), "Missing required export: __unpin");
}

#[test]
fn test_exports_collect() {
    let module = load_poc_module();
    assert!(has_function_export(&module, "__collect"), "Missing required export: __collect");
}

#[test]
fn test_exports_abort() {
    let module = load_poc_module();
    assert!(has_function_export(&module, "abort"), "Missing required export: abort");
}

#[test]
fn test_handler_exports_exist() {
    let module = load_poc_module();
    assert!(
        has_function_export(&module, "handleTransfer"),
        "Missing handler export: handleTransfer"
    );
}

#[test]
fn test_wasm_size_under_limit() {
    let wasm_bytes = assemble(&runtime());
    let size_kb = wasm_bytes.len() / 1024;
    assert!(size_kb < 100, "WASM size ({} KB) exceeds 100 KB target", size_kb);
}

#[test]
fn test_no_start_function() {
    let module = load_poc_module();
    assert!(
        !module.has_start,
        "WASM should not have a start function - graph-node doesn't expect one"
    );
}

#[test]
fn test_new_signature() {
    let module = load_poc_module();
    let (params, results) = get_export_func_signature(&module, "__new").expect("__new not found");
    assert_eq!(params.len(), 2, "__new should take 2 parameters");
    assert_eq!(params[0], ValueType::I32, "__new first param should be i32");
    assert_eq!(params[1], ValueType::I32, "__new second param should be i32");
    assert_eq!(results.len(), 1, "__new should return 1 value");
    assert_eq!(results[0], ValueType::I32, "__new should return i32");
}

#[test]
fn test_pin_signature() {
    let module = load_poc_module();
    let (params, results) = get_export_func_signature(&module, "__pin").expect("__pin not found");
    assert_eq!(params.len(), 1, "__pin should take 1 parameter");
    assert_eq!(params[0], ValueType::I32, "__pin param should be i32");
    assert_eq!(results.len(), 1, "__pin should return 1 value");
    assert_eq!(results[0], ValueType::I32, "__pin should return i32");
}

#[test]
fn test_unpin_signature() {
    let module = load_poc_module();
    let (params, results) =
        get_export_func_signature(&module, "__unpin").expect("__unpin not found");
    assert_eq!(params.len(), 1, "__unpin should take 1 parameter");
    assert_eq!(params[0], ValueType::I32, "__unpin param should be i32");
    assert_eq!(results.len(), 0, "__unpin should return nothing");
}

#[test]
fn test_collect_signature() {
    let module = load_poc_module();
    let (params, results) =
        get_export_func_signature(&module, "__collect").expect("__collect not found");
    assert_eq!(params.len(), 0, "__collect should take 0 parameters");
    assert_eq!(results.len(), 0, "__collect should return nothing");
}

#[test]
fn test_abort_signature() {
    let module = load_poc_module();
    let (params, results) = get_export_func_signature(&module, "abort").expect("abort not found");
    assert_eq!(params.len(), 4, "abort should take 4 parameters");
    for (i, param) in params.iter().enumerate() {
        assert_eq!(*param, ValueType::I32, "abort param {} should be i32", i);
    }
    assert_eq!(results.len(), 0, "abort should not return");
}

#[test]
fn test_handler_signature() {
    let module = load_poc_module();
    let (params, results) =
        get_export_func_signature(&module, "handleTransfer").expect("handleTransfer not found");
    assert_eq!(params.len(), 1, "Handler should take 1 parameter (event pointer)");
    assert_eq!(params[0], ValueType::I32, "Handler param should be i32 (pointer)");
    assert_eq!(results.len(), 0, "Handler should return nothing");
}

#[test]
fn test_no_wasi_imports() {
    let module = load_poc_module();
    for import in module.imports.iter() {
        assert!(
            !import.module.starts_with("wasi"),
            "WASI import detected: {}::{}. graph-node does not support WASI.",
            import.module,
            import.name
        );
    }
}

#[test]
fn test_single_memory() {
    let module = load_poc_module();
    let memory_count = module.memories;
    assert_eq!(memory_count, 1, "WASM should have exactly 1 memory, found {}", memory_count);
}

#[test]
fn test_memory_is_exported() {
    let module = load_poc_module();
    let memory_exports: Vec<_> =
        module.exports.iter().filter(|e| e.kind == ExportKind::Memory).collect();
    assert_eq!(memory_exports.len(), 1, "Should export exactly 1 memory");
    assert_eq!(memory_exports[0].name, "memory", "Memory export should be named 'memory'");
}

#[test]
fn every_missing_export_is_reported() {
    let surface = read_surface(&assemble(&runtime())).unwrap();
    assert_eq!(missing_exports(&surface), Vec::<usize>::new());

    let mut spec = runtime();
    spec.export_memory = None;
    spec.exports.remove(3);
    spec.exports[1].1 = 2;
    let wasm = assemble(&spec);
    let surface = read_surface(&wasm).unwrap();
    assert_eq!(missing_exports(&surface), vec![0, 2, 4]);
    assert_eq!(
        validate(&wasm).unwrap_err(),
        ValidateError::Contract(ContractError::MissingExport(0))
    );

    let mut spec = runtime();
    spec.exports.clear();
    spec.export_memory = None;
    let surface = read_surface(&assemble(&spec)).unwrap();
    assert_eq!(missing_exports(&surface), vec![0, 1, 2, 3, 4, 5]);
}

#[test]
fn handlers_are_listed_by_name() {
    let mut spec = runtime();
    spec.exports.insert(0, ("handleApproval", 2));
    spec.exports.push(("__data_end", 3));
    spec.exports.push(("returnsValue", 1));
    let surface = read_surface(&assemble(&spec)).unwrap();
    assert_eq!(handler_names(&surface), vec!["handleApproval", "handleTransfer", "returnsValue"]);

    let mut spec = runtime();
    spec.exports.pop();
    let surface = read_surface(&assemble(&spec)).unwrap();
    assert!(handler_names(&surface).is_empty());
}

#[test]
fn surface_of_what_is_no_module() {
    assert!(read_surface(&[]).is_none());
    assert!(read_surface(b"\0asm").is_none());
    let wasm = assemble(&runtime());
    assert!(read_surface(&wasm[..wasm.len() - 1]).is_none());
    let surface = read_surface(&wasm).unwrap();
    assert_eq!(surface.exports.len(), 7);
    assert_eq!(surface.imports.len(), 2);
    assert_eq!(surface.memories, 1);
    assert!(!surface.has_start);
}
