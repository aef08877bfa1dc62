use tscc::compile_source;
use tscc::modules::{check_module, dependency_order, import_sources, imported_symbols_for};
use tscc::parser::ast::{ImportSpecifier, StmtKind};
use tscc::lexer::token::Span;
use tscc::types::ty::Type;

#[test]
fn dependencies_come_first_and_entry_last() {
    // 0 imports 1 and 2; 1 imports 3; 2 imports 3
    let deps = vec![vec![1, 2], vec![3], vec![3], vec![]];
    assert_eq!(dependency_order(&deps, 0), vec![3, 1, 2, 0]);
    // Unreachable modules are left out
    let deps = vec![vec![], vec![0]];
    assert_eq!(dependency_order(&deps, 0), vec![0]);
    // A cycle does not loop
    let deps = vec![vec![1], vec![0]];
    assert_eq!(dependency_order(&deps, 0), vec![1, 0]);
}

#[test]
fn import_sources_in_order() {
    let p = compile_source("import { a } from \"./one\";\nimport { b as c } from \"./two\";\nlet x = 1;");
    // The checker does not know the imported names yet, but the imports themselves pass
    let p = p.unwrap();
    assert_eq!(import_sources(&p), vec!["./one".to_string(), "./two".to_string()]);
    match &p.statements[1].kind {
        StmtKind::Import { specifiers, .. } => {
            assert_eq!(specifiers[0].imported, "b");
            assert_eq!(specifiers[0].local, "c");
        }
        _ => panic!(),
    }
}

fn spec(imported: &str, local: &str) -> ImportSpecifier {
    ImportSpecifier { imported: imported.to_string(), local: local.to_string(), span: Span::new(0, 0, 1, 1) }
}

#[test]
fn imported_symbols_follow_the_exports() {
    let exports = vec![("add".to_string(), Type::Number), ("name".to_string(), Type::String)];
    let got = imported_symbols_for(&vec![spec("add", "sum"), spec("missing", "m"), spec("name", "name")], &exports);
    assert_eq!(got.len(), 2);
    assert_eq!(got[0].0, "sum");
    assert!(matches!(got[0].1, Type::Number));
    assert_eq!(got[1].0, "name");
    assert!(matches!(got[1].1, Type::String));
}

#[test]
fn modules_are_checked_against_their_imports() {
    let lib = compile_source("export function add(a: number, b: number): number { return a + b; }").unwrap();
    let exports = check_module(&lib, Vec::new()).unwrap();
    assert_eq!(exports.len(), 1);
    assert_eq!(exports[0].0, "add");
    assert_eq!(exports[0].1.to_display_string(), "(number, number) => number");

    let main_src = "import { add as sum } from \"./lib\";\nlet r: number = sum(1, 2);";
    let tokens = tscc::lexer::scanner::Scanner::new(main_src).scan_tokens().unwrap();
    let main = tscc::parser::parser::Parser::new(tokens).parse().unwrap();
    let specs = match &main.statements[0].kind {
        StmtKind::Import { specifiers, .. } => specifiers,
        _ => panic!(),
    };
    let imports = imported_symbols_for(specs, &exports);
    assert!(check_module(&main, imports).is_ok());
    // Without the import the name is unknown
    let e = check_module(&main, Vec::new()).unwrap_err();
    assert_eq!(e.message, "Cannot find name 'sum'");
}

#[test]
fn exported_functions_are_exported() {
    let lib = compile_source(
        "export function f(): number { return 1; }\nfunction hidden(): number { return 2; }\nexport let v = \"s\";",
    )
    .unwrap();
    let exports = check_module(&lib, Vec::new()).unwrap();
    let names: Vec<&str> = exports.iter().map(|(n, _)| n.as_str()).collect();
    assert_eq!(names, vec!["f", "v"]);
}

#[test]
fn exported_tuple_initialized_from_an_array_is_not_recorded() {
    let lib = compile_source("export let t: [number, string] = [1, \"a\"];").unwrap();
    let exports = check_module(&lib, Vec::new()).unwrap();
    assert!(exports.is_empty());
}

#[test]
fn imports_bind_the_first_export_of_a_name_in_specifier_order() {
    let exports = vec![
        ("x".to_string(), Type::Boolean),
        ("y".to_string(), Type::String),
        ("x".to_string(), Type::Number),
    ];
    let got = imported_symbols_for(&vec![spec("y", "b"), spec("x", "a"), spec("x", "c")], &exports);
    assert_eq!(got.len(), 3);
    assert_eq!(got[0].0, "b");
    assert!(matches!(got[0].1, Type::String));
    assert_eq!(got[1].0, "a");
    assert!(matches!(got[1].1, Type::Boolean));
    assert_eq!(got[2].0, "c");
    assert!(matches!(got[2].1, Type::Boolean));
}

#[test]
fn a_module_of_statements_that_cannot_fail_is_accepted() {
    let p = compile_source("let a = 1;\nlet b = (\"s\");\ntrue;\nnull;\n;").unwrap();
    let exports = check_module(&p, Vec::new()).unwrap();
    assert_eq!(exports.len(), 0);
}
