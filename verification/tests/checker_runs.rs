use tscc::modules::check_module;
use tscc::parser::ast::{ArrowBody, ExprKind, StmtKind, TypeAnnKind};
use tscc::types::ty::Type;
use tscc::{compile_source, Stage};

fn type_error_of(src: &str) -> String {
    match compile_source(src) {
        Ok(_) => panic!("expected a type error for {:?}", src),
        Err(e) => {
            assert!(matches!(e.stage, Stage::Type), "stage of {:?}", src);
            e.error.message.clone()
        }
    }
}

fn accepts(src: &str) {
    if let Err(e) = compile_source(src) {
        panic!("{:?} was refused: {}", src, e.message());
    }
}

fn parse_program(src: &str) -> tscc::parser::ast::Program {
    let tokens = tscc::lexer::scanner::Scanner::new(src).scan_tokens().unwrap();
    tscc::parser::parser::Parser::new(tokens).parse().unwrap()
}

#[test]
fn constants_declared_earlier_refuse_assignment() {
    assert_eq!(type_error_of("const c = 1\nc = 2"), "Cannot assign to 'c' because it is a constant");
    assert_eq!(type_error_of("q = 1"), "Cannot find name 'q'");
    accepts("let v = 1\nv = 2");
}

#[test]
fn block_bindings_end_with_the_block() {
    assert_eq!(type_error_of("{ let y = 1 }\ny"), "Cannot find name 'y'");
    accepts("let y = 1\n{ y }");
}

#[test]
fn returns_in_a_function_follow_its_declared_type() {
    assert_eq!(
        type_error_of("function f(): number { return \"s\" }"),
        "Type 'string' is not assignable to return type 'number'"
    );
    accepts("function f(): number { return 1 }");
}

#[test]
fn calls_check_arity_and_argument_types() {
    let d = "function f(a: number): number { return a }\n";
    assert_eq!(type_error_of(&format!("{}f(1, 2)", d)), "Expected 1 arguments, got 2");
    assert_eq!(
        type_error_of(&format!("{}f(\"s\")", d)),
        "Argument of type 'string' is not assignable to parameter of type 'number'"
    );
    accepts(&format!("{}f()", d));
}

#[test]
fn conditions_and_loop_bodies_are_checked() {
    assert_eq!(type_error_of("while (q) { }"), "Cannot find name 'q'");
    assert_eq!(type_error_of("while (true) { q }"), "Cannot find name 'q'");
    assert_eq!(type_error_of("if (true) { } else { q }"), "Cannot find name 'q'");
    assert_eq!(type_error_of("do { } while (q)"), "Cannot find name 'q'");
    accepts("let n = 0\nwhile (n < 3) { n = n + 1 }");
}

#[test]
fn hoisted_exported_functions_pass_and_are_exported() {
    let p = parse_program(
        "console.log(add(1, 2))\nexport function add(a: number, b: number): number { return a + b }",
    );
    let exports = check_module(&p, Vec::new()).unwrap();
    assert_eq!(exports.len(), 1);
    assert_eq!(exports[0].0, "add");
    assert!(exports[0].1.equals(&Type::Function {
        params: vec![Type::Number, Type::Number],
        return_type: Box::new(Type::Number),
    }));
}

#[test]
fn destructuring_declarations_parse_their_names() {
    let p = parse_program("const { x, y: z } = p; let [a, b] = q");
    assert_eq!(p.statements.len(), 2);
    match &p.statements[0].kind {
        StmtKind::ObjectDestructure { names, initializer, is_const } => {
            let pairs: Vec<(String, String)> = names.clone();
            assert_eq!(
                pairs,
                vec![("x".to_string(), "x".to_string()), ("z".to_string(), "y".to_string())]
            );
            assert!(matches!(&initializer.kind, ExprKind::Identifier(n) if n == "p"));
            assert!(*is_const);
        }
        _ => panic!("not an object destructuring"),
    }
    match &p.statements[1].kind {
        StmtKind::ArrayDestructure { names, initializer, is_const } => {
            assert_eq!(names.clone(), vec!["a".to_string(), "b".to_string()]);
            assert!(matches!(&initializer.kind, ExprKind::Identifier(n) if n == "q"));
            assert!(!*is_const);
        }
        _ => panic!("not an array destructuring"),
    }
}

#[test]
fn intersections_bind_tighter_than_unions() {
    let p = parse_program("let v: A & B | C[]");
    match &p.statements[0].kind {
        StmtKind::VariableDecl { type_ann: Some(t), .. } => match &t.kind {
            TypeAnnKind::Union(vs) => {
                assert_eq!(vs.len(), 2);
                match &vs[0].kind {
                    TypeAnnKind::Intersection(ps) => {
                        assert_eq!(ps.len(), 2);
                        assert!(matches!(&ps[0].kind, TypeAnnKind::Named(n) if n == "A"));
                        assert!(matches!(&ps[1].kind, TypeAnnKind::Named(n) if n == "B"));
                    }
                    _ => panic!("not an intersection"),
                }
                match &vs[1].kind {
                    TypeAnnKind::Array(e) => {
                        assert!(matches!(&e.kind, TypeAnnKind::Named(n) if n == "C"))
                    }
                    _ => panic!("not an array"),
                }
            }
            _ => panic!("not a union"),
        },
        _ => panic!("not an annotated declaration"),
    }
}

#[test]
fn arrow_parameters_are_read() {
    let p = parse_program("(a, b) => a");
    match &p.statements[0].kind {
        StmtKind::Expression { expr } => match &expr.kind {
            ExprKind::ArrowFunction { params, return_type, body, .. } => {
                let names: Vec<String> = params.iter().map(|q| q.name.clone()).collect();
                assert_eq!(names, vec!["a".to_string(), "b".to_string()]);
                assert!(return_type.is_none());
                assert!(matches!(body, ArrowBody::Expr(e) if matches!(&e.kind, ExprKind::Identifier(n) if n == "a")));
            }
            _ => panic!("not an arrow function"),
        },
        _ => panic!("not an expression statement"),
    }
}

#[test]
fn new_expressions_keep_class_and_arguments() {
    let p = parse_program("new C(1, 2)");
    match &p.statements[0].kind {
        StmtKind::Expression { expr } => match &expr.kind {
            ExprKind::NewExpr { class_name, args } => {
                assert_eq!(class_name, "C");
                assert_eq!(args.len(), 2);
            }
            _ => panic!("not a new expression"),
        },
        _ => panic!("not an expression statement"),
    }
}

#[test]
fn object_literals_keep_their_properties() {
    let p = parse_program("let o = { x: 1, y: b }");
    match &p.statements[0].kind {
        StmtKind::VariableDecl { initializer: Some(init), .. } => match &init.kind {
            ExprKind::ObjectLiteral { properties } => {
                assert_eq!(properties.len(), 2);
                assert_eq!(properties[0].key, "x");
                assert!(matches!(&properties[0].value.kind, ExprKind::NumberLiteral(n) if n == "1"));
                assert_eq!(properties[1].key, "y");
                assert!(matches!(&properties[1].value.kind, ExprKind::Identifier(n) if n == "b"));
                assert!(properties.iter().all(|q| !q.is_spread && !q.is_method && q.computed_key.is_none()));
            }
            _ => panic!("not an object literal"),
        },
        _ => panic!("not a declaration"),
    }
}

#[test]
fn for_loops_bind_their_variable_in_the_body_only() {
    accepts("let xs = [1, 2]\nfor (const x of xs) { let y: number = x }");
    assert_eq!(type_error_of("let xs = [1, 2]\nfor (const x of xs) { }\nx"), "Cannot find name 'x'");
    assert_eq!(type_error_of("for (const k in q) { }"), "Cannot find name 'q'");
}

#[test]
fn conditionals_take_the_shared_or_known_type() {
    accepts("let v: number = true ? 1 : 2");
    assert_eq!(
        type_error_of("let v: string = true ? 1 : 2"),
        "Type 'number' is not assignable to type 'string'"
    );
    assert_eq!(
        type_error_of("let v: string = true ? console : 1"),
        "Type 'number' is not assignable to type 'string'"
    );
    accepts("let v: string = true ? 1 : \"s\"");
    assert_eq!(type_error_of("let v = q ? 1 : 2"), "Cannot find name 'q'");
}

#[test]
fn math_calls_check_arity_and_argument_types() {
    accepts("let v: number = Math.floor(2)");
    assert_eq!(type_error_of("Math.floor(1, 2)"), "Math.floor expects 1 argument, got 2");
    assert_eq!(type_error_of("Math.pow(1)"), "Math.pow expects 2 arguments, got 1");
    assert_eq!(
        type_error_of("Math.sqrt(\"s\")"),
        "Math.sqrt expects number arguments, got 'string'"
    );
    assert_eq!(type_error_of("Math.nope(1)"), "'Math.nope' is not a known Math method");
}

#[test]
fn console_calls_check_their_arguments() {
    accepts("console.log(1, \"s\", true)");
    assert_eq!(type_error_of("console.log(q)"), "Cannot find name 'q'");
}

#[test]
fn for_switch_and_try_bodies_are_checked() {
    assert_eq!(type_error_of("for (;;) { q }"), "Cannot find name 'q'");
    assert_eq!(type_error_of("for (let i = 0; i < q; i = i + 1) { }"), "Cannot find name 'q'");
    assert_eq!(type_error_of("for (let i = 0; i < 3; i = i + 1) { }\ni"), "Cannot find name 'i'");
    assert_eq!(type_error_of("switch (q) { }"), "Cannot find name 'q'");
    assert_eq!(type_error_of("switch (1) { case 1: q }"), "Cannot find name 'q'");
    assert_eq!(type_error_of("try { q } catch (e) { }"), "Cannot find name 'q'");
    assert_eq!(type_error_of("try { } catch (e) { q }"), "Cannot find name 'q'");
    assert_eq!(type_error_of("try { } finally { q }"), "Cannot find name 'q'");
    accepts("try { } catch (e) { e }");
    assert_eq!(type_error_of("outer: while (true) { q }"), "Cannot find name 'q'");
}

#[test]
fn exported_functions_carry_their_signature() {
    let p = parse_program("export function f(a: string): number { return 1 }\nlet z = 2");
    let exports = check_module(&p, Vec::new()).unwrap();
    assert_eq!(exports.len(), 1);
    assert_eq!(exports[0].0, "f");
    assert!(exports[0].1.equals(&Type::Function {
        params: vec![Type::String],
        return_type: Box::new(Type::Number),
    }));
}

#[test]
fn if_while_and_blocks_parse_their_bodies() {
    let p = parse_program("if (a) { b } else { c; d }\nwhile (x) { y }\n{ z }");
    assert_eq!(p.statements.len(), 3);
    match &p.statements[0].kind {
        StmtKind::If { condition, then_branch, else_branch } => {
            assert!(matches!(&condition.kind, ExprKind::Identifier(n) if n == "a"));
            assert_eq!(then_branch.len(), 1);
            assert_eq!(else_branch.as_ref().unwrap().len(), 2);
        }
        _ => panic!("expected an if"),
    }
    match &p.statements[1].kind {
        StmtKind::While { body, .. } => assert_eq!(body.len(), 1),
        _ => panic!("expected a while"),
    }
    match &p.statements[2].kind {
        StmtKind::Block { statements } => assert_eq!(statements.len(), 1),
        _ => panic!("expected a block"),
    }
}
