use tscc::codegen::analysis::jump_target;
use tscc::codegen::analysis::copy_var_type;
use tscc::codegen::analysis::{
    analyze_integer_functions, capture_candidates, collect_idents_in_stmts, infer_expr_var_type,
    is_expr_integer_safe, type_string_to_var_type, union_tag_for_var_type, var_type_suffix,
    var_types_compatible, VarType, VarTypeEnv,
};
use tscc::compile_source;
use tscc::parser::ast::{ExprKind, Program, StmtKind};

fn program(src: &str) -> Program {
    match compile_source(src) {
        Ok(p) => p,
        Err(e) => panic!("{}", e.message()),
    }
}

#[test]
fn integer_functions_are_found() {
    let p = program(
        "function fib(n: number): number { if (n < 2) { return n; } return fib(n - 1) + fib(n - 2); }\n\
         function half(n: number): number { return n / 2; }\n\
         function twice(n: number): number { return fib(n) * 2; }\n\
         function frac(): number { return 1.5; }\n\
         function whole(): number { return 2.0; }\n\
         function pick<T>(x: T): T { return x; }",
    );
    let found = analyze_integer_functions(&p);
    assert_eq!(found, vec!["fib".to_string(), "twice".to_string(), "whole".to_string()]);
}

#[test]
fn calls_of_later_functions_are_not_integer_safe() {
    let p = program(
        "function a(n: number): number { return b(n); }\nfunction b(n: number): number { return n; }",
    );
    assert_eq!(analyze_integer_functions(&p), vec!["b".to_string()]);
}

#[test]
fn loops_over_arrays_are_not_integer_safe() {
    let p = program("function s(): number { let t = 0; for (const x of [1, 2]) { t = t + x; } return t; }");
    assert!(analyze_integer_functions(&p).is_empty());
}

#[test]
fn expression_safety() {
    let p = program("let a = 4 % 3;\nlet b = 4 ** 2;\nlet c = \"s\";");
    let known: Vec<String> = Vec::new();
    let f = "f".to_string();
    let init = |i: usize| match &p.statements[i].kind {
        StmtKind::VariableDecl { initializer: Some(e), .. } => e,
        _ => panic!(),
    };
    assert!(is_expr_integer_safe(init(0), &f, &known));
    assert!(!is_expr_integer_safe(init(1), &f, &known));
    assert!(!is_expr_integer_safe(init(2), &f, &known));
}

#[test]
fn captured_names_exclude_parameters() {
    let p = program(
        "let base = 10;\nlet scale = 2;\nlet f = (x: number): number => { let y = x * scale; return y + base + x; };",
    );
    let (params, body) = match &p.statements[2].kind {
        StmtKind::VariableDecl { initializer: Some(e), .. } => match &e.kind {
            ExprKind::ArrowFunction { params, body: tscc::parser::ast::ArrowBody::Block(b), .. } => (params, b),
            _ => panic!(),
        },
        _ => panic!(),
    };
    let mut caps = capture_candidates(body, params);
    caps.sort();
    assert_eq!(caps, vec!["base".to_string(), "scale".to_string(), "y".to_string()]);
    let mut all: Vec<String> = Vec::new();
    collect_idents_in_stmts(body, &mut all);
    all.sort();
    assert_eq!(all, vec!["base".to_string(), "scale".to_string(), "x".to_string(), "y".to_string()]);
}

#[test]
fn inferred_kinds() {
    let p = program("let a = \"s\" + 1;\nlet b = 1 < 2;\nlet c = (3);\nlet d = null ?? \"x\";");
    let kind = |i: usize| match &p.statements[i].kind {
        StmtKind::VariableDecl { initializer: Some(e), .. } => infer_expr_var_type(e),
        _ => panic!(),
    };
    assert!(matches!(kind(0), VarType::String));
    assert!(matches!(kind(1), VarType::Boolean));
    assert!(matches!(kind(2), VarType::Number));
    assert!(matches!(kind(3), VarType::String));
}

#[test]
fn kind_helpers() {
    assert!(var_types_compatible(&VarType::Number, &VarType::Integer));
    assert!(var_types_compatible(&VarType::Integer, &VarType::Number));
    assert!(!var_types_compatible(&VarType::String, &VarType::Number));
    assert!(!var_types_compatible(&VarType::StringArray, &VarType::StringArray));
    assert_eq!(var_type_suffix(&VarType::Integer), "i");
    assert_eq!(var_type_suffix(&VarType::StringArray), "a");
    assert_eq!(var_type_suffix(&VarType::Union(vec![])), "u");
    assert_eq!(union_tag_for_var_type(&VarType::Integer), 0);
    assert_eq!(union_tag_for_var_type(&VarType::String), 1);
    assert_eq!(union_tag_for_var_type(&VarType::Boolean), 2);
    assert_eq!(union_tag_for_var_type(&VarType::Array), 3);
    assert!(matches!(type_string_to_var_type(&"boolean".to_string()), VarType::Boolean));
    assert!(matches!(type_string_to_var_type(&"object".to_string()), VarType::Number));
}

#[test]
fn annotation_kinds() {
    let p = program(
        "let a: number = 1;\nlet b: string | boolean = \"x\";\nlet c: { x: number, y: string } = { x: 1, y: \"s\" };\nlet d: [number, string] = [1, \"a\"];",
    );
    let mut env = VarTypeEnv {
        number_mode: VarType::Integer,
        type_substitutions: Vec::new(),
        class_fields: Vec::new(),
        aliases: Vec::new(),
        generic_alias_params: Vec::new(),
    };
    let ann = |i: usize| match &p.statements[i].kind {
        StmtKind::VariableDecl { type_ann: Some(t), .. } => t,
        _ => panic!(),
    };
    assert!(matches!(env.type_ann_to_var_type(ann(0), 8), VarType::Integer));
    match env.type_ann_to_var_type(ann(1), 8) {
        VarType::Union(vs) => {
            assert_eq!(vs.len(), 2);
            assert!(matches!(vs[0], VarType::String));
            assert!(matches!(vs[1], VarType::Boolean));
        }
        other => panic!("{:?}", other),
    }
    match env.type_ann_to_var_type(ann(2), 8) {
        VarType::Object { struct_type_name, fields } => {
            assert_eq!(struct_type_name, "__anon_obj_2");
            assert_eq!(fields[0].0, "x");
            assert!(matches!(fields[0].1, VarType::Integer));
            assert!(matches!(fields[1].1, VarType::String));
        }
        other => panic!("{:?}", other),
    }
    assert!(matches!(env.type_ann_to_var_type(ann(3), 8), VarType::Tuple(ref v) if v.len() == 2));
}

#[test]
fn copies_of_kinds_are_the_same_kind() {
    let vt = VarType::Closure {
        fn_name: "f".to_string(),
        param_types: vec![VarType::Integer, VarType::Union(vec![VarType::String, VarType::Boolean])],
        return_type: Box::new(VarType::Object {
            struct_type_name: "P".to_string(),
            fields: vec![("x".to_string(), VarType::Number)],
        }),
    };
    assert_eq!(format!("{:?}", copy_var_type(&vt)), format!("{:?}", vt));
}

#[test]
fn named_annotations_take_substitutions_then_classes() {
    let tokens = tscc::lexer::scanner::Scanner::new(
        "let a: T = 1;\nlet b: Point = 1;\nlet c: Other = 1;\nlet d: (x: number) => string = 1;",
    )
    .scan_tokens()
    .unwrap();
    let p = tscc::parser::parser::Parser::new(tokens).parse().unwrap();
    let mut env = VarTypeEnv {
        number_mode: VarType::Number,
        type_substitutions: vec![("T".to_string(), VarType::StringArray)],
        class_fields: vec![
            ("Point".to_string(), vec![("x".to_string(), VarType::Number)]),
            ("T".to_string(), vec![]),
        ],
        aliases: Vec::new(),
        generic_alias_params: Vec::new(),
    };
    let ann = |i: usize| match &p.statements[i].kind {
        StmtKind::VariableDecl { type_ann: Some(t), .. } => t,
        _ => panic!(),
    };
    assert!(matches!(env.type_ann_to_var_type(ann(0), 8), VarType::StringArray));
    match env.type_ann_to_var_type(ann(1), 8) {
        VarType::Object { struct_type_name, fields } => {
            assert_eq!(struct_type_name, "Point");
            assert_eq!(fields.len(), 1);
            assert_eq!(fields[0].0, "x");
        }
        other => panic!("{:?}", other),
    }
    assert!(matches!(env.type_ann_to_var_type(ann(2), 8), VarType::Number));
    match env.type_ann_to_var_type(ann(3), 8) {
        VarType::Closure { fn_name, param_types, return_type } => {
            assert_eq!(fn_name, "");
            assert_eq!(param_types.len(), 1);
            assert!(matches!(*return_type, VarType::String));
        }
        other => panic!("{:?}", other),
    }
}

#[test]
fn jumps_go_to_the_innermost_matching_loop() {
    let labels = vec![None, Some("outer".to_string()), None];
    assert_eq!(jump_target(&labels, &None), Some(2));
    assert_eq!(jump_target(&labels, &Some("outer".to_string())), Some(1));
    assert_eq!(jump_target(&labels, &Some("inner".to_string())), None);
    assert_eq!(jump_target(&Vec::new(), &None), None);
}
