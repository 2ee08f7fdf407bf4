use yogurt::contract::{
    check_module, exports_for, handler, required, same_export, surface_for, ContractError, Export,
    ExportKind, ModuleImport, ModuleSurface, ValueType,
};
use yogurt::host::{Import, ResultType};

fn names(handlers: &[&str]) -> Vec<String> {
    handlers.iter().map(|h| h.to_string()).collect()
}

fn find<'a>(exports: &'a [Export], name: &str) -> Option<&'a Export> {
    exports.iter().find(|e| e.name == name)
}

fn signature(exports: &[Export], name: &str) -> (Vec<ValueType>, Vec<ValueType>) {
    let e = find(exports, name).unwrap();
    assert_eq!(e.kind, ExportKind::Function);
    (e.params.clone(), e.results.clone())
}

#[test]
fn module_without_handlers_exports_the_runtime() {
    let exports = exports_for(&Vec::new());
    let listed: Vec<&str> = exports.iter().map(|e| e.name.as_str()).collect();
    assert_eq!(listed, vec!["memory", "__new", "__pin", "__unpin", "__collect", "abort"]);
    assert_eq!(exports[0].kind, ExportKind::Memory);
    assert!(check_module(&surface_for(&Vec::new())).is_ok());
}

#[test]
fn built_module_exports_memory() {
    let module = surface_for(&names(&["handleTransfer"]));
    assert!(
        module.exports.iter().any(|e| e.name == "memory" && e.kind == ExportKind::Memory),
        "Missing required export: memory"
    );
}

#[test]
fn built_module_exports_handlers() {
    let module = surface_for(&names(&["handleTransfer"]));
    assert!(
        module.exports.iter().any(|e| e.name == "handleTransfer" && e.kind == ExportKind::Function),
        "Missing handler export: handleTransfer"
    );
    assert_eq!(module.exports.len(), 7);
}

#[test]
fn built_module_has_no_start() {
    let module = surface_for(&names(&["handleTransfer"]));
    assert!(!module.has_start);
}

#[test]
fn built_module_has_one_memory() {
    let module = surface_for(&names(&["handleTransfer"]));
    assert_eq!(module.memories, 1);
}

#[test]
fn built_module_exports_one_memory() {
    let module = surface_for(&names(&["handleTransfer"]));
    let memory_exports: Vec<_> =
        module.exports.iter().filter(|e| e.kind == ExportKind::Memory).collect();
    assert_eq!(memory_exports.len(), 1, "Should export exactly 1 memory");
    assert_eq!(memory_exports[0].name, "memory", "Memory export should be named 'memory'");
}

#[test]
fn built_new_signature() {
    let exports = exports_for(&names(&["handleTransfer"]));
    let (params, results) = signature(&exports, "__new");
    assert_eq!(params.len(), 2, "__new should take 2 parameters");
    assert_eq!(params[0], ValueType::I32, "__new first param should be i32");
    assert_eq!(params[1], ValueType::I32, "__new second param should be i32");
    assert_eq!(results.len(), 1, "__new should return 1 value");
    assert_eq!(results[0], ValueType::I32, "__new should return i32");
}

#[test]
fn built_pin_signature() {
    let exports = exports_for(&names(&["handleTransfer"]));
    let (params, results) = signature(&exports, "__pin");
    assert_eq!(params.len(), 1, "__pin should take 1 parameter");
    assert_eq!(params[0], ValueType::I32, "__pin param should be i32");
    assert_eq!(results.len(), 1, "__pin should return 1 value");
    assert_eq!(results[0], ValueType::I32, "__pin should return i32");
}

#[test]
fn built_unpin_signature() {
    let exports = exports_for(&names(&["handleTransfer"]));
    let (params, results) = signature(&exports, "__unpin");
    assert_eq!(params.len(), 1, "__unpin should take 1 parameter");
    assert_eq!(params[0], ValueType::I32, "__unpin param should be i32");
    assert_eq!(results.len(), 0, "__unpin should return nothing");
}

#[test]
fn built_collect_signature() {
    let exports = exports_for(&names(&["handleTransfer"]));
    let (params, results) = signature(&exports, "__collect");
    assert_eq!(params.len(), 0, "__collect should take 0 parameters");
    assert_eq!(results.len(), 0, "__collect should return nothing");
}

#[test]
fn built_abort_signature() {
    let exports = exports_for(&names(&["handleTransfer"]));
    let (params, results) = signature(&exports, "abort");
    assert_eq!(params.len(), 4, "abort should take 4 parameters");
    for (i, param) in params.iter().enumerate() {
        assert_eq!(*param, ValueType::I32, "abort param {} should be i32", i);
    }
    assert_eq!(results.len(), 0, "abort should not return");
}

#[test]
fn built_handler_signature() {
    let exports = exports_for(&names(&["handleTransfer"]));
    let (params, results) = signature(&exports, "handleTransfer");
    assert_eq!(params.len(), 1, "Handler should take 1 parameter (event pointer)");
    assert_eq!(params[0], ValueType::I32, "Handler param should be i32 (pointer)");
    assert_eq!(results.len(), 0, "Handler should return nothing");
}

#[test]
fn built_module_imports_from_env() {
    let module = surface_for(&names(&["handleTransfer"]));
    assert_eq!(module.imports.len(), 43);
    for import in module.imports.iter() {
        assert_eq!(import.module, "env");
        assert!(!import.module.starts_with("wasi"));
    }
}

#[test]
fn built_modules_conform() {
    for handlers in [
        vec![],
        vec!["handleTransfer"],
        vec!["handleTransfer", "handlePairCreated", "onBlock", "simple", "_x", "a__b"],
    ] {
        assert_eq!(check_module(&surface_for(&names(&handlers))), Ok(()));
    }
}

#[test]
fn checker_reports_the_first_violation() {
    let good = || surface_for(&names(&["handleTransfer"]));
    for i in 0..6 {
        let mut s = good();
        s.exports.remove(i);
        assert_eq!(check_module(&s), Err(ContractError::MissingExport(i)));
    }
    let mut s = good();
    s.exports[1].params.pop();
    assert_eq!(check_module(&s), Err(ContractError::MissingExport(1)));
    let mut s = good();
    s.exports[2].results.push(ValueType::I32);
    assert_eq!(check_module(&s), Err(ContractError::MissingExport(2)));
    let mut s = good();
    s.exports[3].params[0] = ValueType::I64;
    assert_eq!(check_module(&s), Err(ContractError::MissingExport(3)));
    let mut s = good();
    s.exports[0].kind = ExportKind::Global;
    assert_eq!(check_module(&s), Err(ContractError::MissingExport(0)));

    let mut s = good();
    s.exports.push(handler("__hidden"));
    assert_eq!(check_module(&s), Err(ContractError::UnexpectedExport(7)));
    let mut s = good();
    s.exports[6].results.push(ValueType::I32);
    assert_eq!(check_module(&s), Err(ContractError::UnexpectedExport(6)));
    let mut s = good();
    s.exports.insert(
        2,
        Export { name: "__heap_base".to_string(), kind: ExportKind::Global, params: vec![], results: vec![] },
    );
    assert_eq!(check_module(&s), Err(ContractError::UnexpectedExport(2)));
    let mut s = good();
    s.exports.push(Export {
        name: "memory2".to_string(),
        kind: ExportKind::Memory,
        params: vec![],
        results: vec![],
    });
    assert_eq!(check_module(&s), Err(ContractError::UnexpectedExport(7)));
    let mut s = good();
    s.exports.push(handler("abort"));
    assert_eq!(check_module(&s), Err(ContractError::UnexpectedExport(7)));

    let mut s = good();
    s.has_start = true;
    assert_eq!(check_module(&s), Err(ContractError::StartFunction));
    let mut s = good();
    s.memories = 2;
    assert_eq!(check_module(&s), Err(ContractError::MemoryCount));
    let mut s = good();
    s.memories = 0;
    assert_eq!(check_module(&s), Err(ContractError::MemoryCount));
    let mut s = good();
    s.imports[5].module = "wasi_snapshot_preview1".to_string();
    s.imports[9].module = "store".to_string();
    assert_eq!(check_module(&s), Err(ContractError::ForeignImport(5)));

    let mut s = good();
    s.has_start = true;
    s.memories = 3;
    s.exports.remove(4);
    assert_eq!(check_module(&s), Err(ContractError::MissingExport(4)));
    let empty = ModuleSurface { exports: vec![], imports: vec![], has_start: false, memories: 1 };
    assert_eq!(check_module(&empty), Err(ContractError::MissingExport(0)));
    let mut s = good();
    s.imports.clear();
    assert_eq!(check_module(&s), Ok(()));
    s.imports.push(ModuleImport { module: "env".to_string(), name: "anything".to_string() });
    assert_eq!(check_module(&s), Ok(()));
}

#[test]
fn export_equality() {
    assert!(same_export(&required(1), &required(1)));
    assert!(!same_export(&required(1), &required(2)));
    assert!(same_export(&handler("h"), &handler("h")));
    assert!(!same_export(&handler("h"), &handler("g")));
    assert_eq!(required(5).name, "abort");
    assert_eq!(required(4).name, "__collect");
}

#[test]
fn import_table() {
    let all = Import::all();
    assert_eq!(all.len(), 43);
    let mut names: Vec<&str> = all.iter().map(|i| i.name()).collect();
    assert!(all.iter().all(|i| i.module() == "env"));
    assert_eq!(names[0], "store.get");
    assert_eq!(names[42], "ens.nameByHash");
    names.sort();
    names.dedup();
    assert_eq!(names.len(), 43);
    let sig = |i: Import| (i.name(), i.param_count(), i.result());
    assert_eq!(sig(Import::StoreGet), ("store.get", 2, ResultType::I32));
    assert_eq!(sig(Import::StoreSet), ("store.set", 3, ResultType::Unit));
    assert_eq!(sig(Import::StoreRemove), ("store.remove", 2, ResultType::Unit));
    assert_eq!(sig(Import::EthereumCall), ("ethereum.call", 1, ResultType::I32));
    assert_eq!(sig(Import::EthereumDecode), ("ethereum.decode", 2, ResultType::I32));
    assert_eq!(sig(Import::BytesToBase58), ("typeConversion.bytesToBase58", 1, ResultType::I32));
    assert_eq!(sig(Import::BigIntDividedBy), ("bigInt.dividedBy", 2, ResultType::I32));
    assert_eq!(sig(Import::BigDecimalEquals), ("bigDecimal.equals", 2, ResultType::I32));
    assert_eq!(sig(Import::BigDecimalFromString), ("bigDecimal.fromString", 1, ResultType::I32));
    assert_eq!(sig(Import::JsonToI64), ("json.toI64", 1, ResultType::I64));
    assert_eq!(sig(Import::JsonToU64), ("json.toU64", 1, ResultType::U64));
    assert_eq!(sig(Import::JsonToF64), ("json.toF64", 1, ResultType::F64));
    assert_eq!(sig(Import::IpfsMap), ("ipfs.map", 4, ResultType::Unit));
    assert_eq!(sig(Import::LogLog), ("log.log", 2, ResultType::Unit));
    assert_eq!(sig(Import::DataSourceCreate), ("dataSource.create", 2, ResultType::Unit));
    assert_eq!(sig(Import::DataSourceAddress), ("dataSource.address", 0, ResultType::I32));
    assert_eq!(sig(Import::EnsNameByHash), ("ens.nameByHash", 1, ResultType::I32));
    let module = surface_for(&Vec::new());
    for (entry, import) in module.imports.iter().zip(all.iter()) {
        assert_eq!(entry.name, import.name());
    }
}
