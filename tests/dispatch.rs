use graph_runtime_wasm::dispatch::{
    DispatchTarget, HostFunctionRef, HostModuleDecl, HostModulesImportResolver, ModuleGroup,
};
use graph_runtime_wasm::error::InstantiationError;

fn module(name: &str, functions: &[&str]) -> HostModuleDecl {
    HostModuleDecl {
        name: name.to_string(),
        functions: functions.iter().map(|f| f.to_string()).collect(),
    }
}

fn resolver() -> HostModulesImportResolver {
    let builtin = vec![
        module("typeConversion", &["typeConversion.bytesToString", "typeConversion.bytesToHex"]),
        module("store", &["store.get", "store.set", "store.remove"]),
    ];
    let custom = vec![module("m", &["m.foo", "m.bar"])];
    HostModulesImportResolver::new(builtin, custom)
}

#[test]
fn abort_and_gas_have_reserved_indices() {
    let r = resolver();
    assert_eq!(r.resolve_func("abort"), Ok(0));
    assert_eq!(r.resolve_func("gas"), Ok(1));
    assert_eq!(r.lookup(0), Some(DispatchTarget::Abort));
    assert_eq!(r.lookup(1), Some(DispatchTarget::Gas));
}

#[test]
fn builtin_functions_come_first_in_declaration_order() {
    let r = resolver();
    assert_eq!(r.resolve_func("typeConversion.bytesToString"), Ok(2));
    assert_eq!(r.resolve_func("typeConversion.bytesToHex"), Ok(3));
    assert_eq!(r.resolve_func("store.get"), Ok(4));
    assert_eq!(r.resolve_func("store.remove"), Ok(6));
    assert_eq!(
        r.lookup(5),
        Some(DispatchTarget::Host(HostFunctionRef { group: ModuleGroup::Builtin, module: 1, function: 1 }))
    );
}

#[test]
fn custom_module_function_dispatches_to_its_module() {
    let r = resolver();
    let index = r.resolve_func("m.bar").unwrap();
    assert_eq!(index, 8);
    assert_eq!(
        r.lookup(index),
        Some(DispatchTarget::Host(HostFunctionRef { group: ModuleGroup::Custom, module: 0, function: 1 }))
    );
    assert_eq!(r.function_name(index).map(|s| s.as_str()), Some("m.bar"));
}

#[test]
fn unknown_import_fails() {
    let r = resolver();
    assert_eq!(
        r.resolve_func("ipfs.cat"),
        Err(InstantiationError::UnresolvedImport("ipfs.cat".to_string()))
    );
}

#[test]
fn index_past_the_table_has_no_function() {
    let r = resolver();
    assert_eq!(r.lookup(9), None);
    assert_eq!(r.function_name(1), None);
    assert_eq!(r.function_name(9), None);
}

#[test]
fn first_of_two_equal_names_wins() {
    let r = HostModulesImportResolver::new(
        vec![module("a", &["x.f"])],
        vec![module("b", &["x.f"])],
    );
    assert_eq!(r.resolve_func("x.f"), Ok(2));
}

#[test]
fn import_table_has_one_distinct_index_per_import() {
    let r = resolver();
    let imports: Vec<String> = ["m.bar", "abort", "store.set", "gas", "m.foo"]
        .iter()
        .map(|s| s.to_string())
        .collect();
    let indices = r.resolve_imports(&imports).unwrap();
    assert_eq!(indices, vec![8, 0, 5, 1, 7]);
    for (i, a) in indices.iter().enumerate() {
        for (j, b) in indices.iter().enumerate() {
            if i != j {
                assert_ne!(a, b);
            }
        }
    }
    for (name, index) in imports.iter().zip(indices.iter()) {
        match r.lookup(*index).unwrap() {
            DispatchTarget::Abort => assert_eq!(name, "abort"),
            DispatchTarget::Gas => assert_eq!(name, "gas"),
            DispatchTarget::Host(_) => assert_eq!(r.function_name(*index).unwrap(), name),
        }
    }
}

#[test]
fn first_unresolved_import_is_reported() {
    let r = resolver();
    let imports: Vec<String> = ["m.foo", "nope.one", "nope.two"].iter().map(|s| s.to_string()).collect();
    assert_eq!(
        r.resolve_imports(&imports),
        Err(InstantiationError::UnresolvedImport("nope.one".to_string()))
    );
}

#[test]
fn empty_module_sets_resolve_only_builtins() {
    let r = HostModulesImportResolver::new(vec![], vec![]);
    assert_eq!(r.resolve_func("abort"), Ok(0));
    assert!(r.resolve_func("store.get").is_err());
    assert_eq!(r.lookup(2), None);
}
