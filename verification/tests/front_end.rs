use tscc::parser::ast::{ExprKind, StmtKind};
use tscc::{compile_source, Stage};

fn type_error_of(src: &str) -> String {
    match compile_source(src) {
        Ok(_) => panic!("expected a type error for {:?}", src),
        Err(e) => {
            assert!(matches!(e.stage, Stage::Type), "stage of {:?}", src);
            e.error.message.clone()
        }
    }
}

fn accepts(src: &str) {
    if let Err(e) = compile_source(src) {
        panic!("{:?} was refused: {}", src, e.message());
    }
}

#[test]
fn accepts_simple_program() {
    accepts("let x: number = 1 + 2;\nconsole.log(x);");
}

#[test]
fn function_can_be_called_before_its_declaration() {
    accepts("let r = add(1, 2);\nfunction add(a: number, b: number): number { return a + b; }");
}

#[test]
fn typeof_test_narrows_a_union() {
    accepts(
        "function f(x: string | number): number {\n  if (typeof x === \"string\") { return x.length; } else { return x; }\n}",
    );
}

#[test]
fn union_without_narrowing_is_refused() {
    assert_eq!(
        type_error_of("function f(x: string | number): number { return x; }"),
        "Type 'string | number' is not assignable to return type 'number'"
    );
}

#[test]
fn mismatched_initializer() {
    assert_eq!(
        type_error_of("let x: number = \"hi\";"),
        "Type 'string' is not assignable to type 'number'"
    );
}

#[test]
fn unknown_name() {
    assert_eq!(type_error_of("let x = y;"), "Cannot find name 'y'");
}

#[test]
fn assignment_to_constant() {
    assert_eq!(
        type_error_of("const x = 1;\nx = 2;"),
        "Cannot assign to 'x' because it is a constant"
    );
}

#[test]
fn arithmetic_on_a_string() {
    assert_eq!(
        type_error_of("let a = 1 - \"s\";"),
        "Operator cannot be applied to types 'number' and 'string'"
    );
}

#[test]
fn plus_on_booleans() {
    assert_eq!(
        type_error_of("let a = true + false;"),
        "Operator '+' cannot be applied to types 'boolean' and 'boolean'"
    );
}

#[test]
fn string_concatenation_is_a_string() {
    accepts("let s: string = \"n = \" + 4;");
}

#[test]
fn tuple_length_mismatch() {
    assert_eq!(
        type_error_of("let t: [number, string] = [1, \"a\", 3];"),
        "Tuple of length 3 is not assignable to tuple of length 2"
    );
}

#[test]
fn tuple_element_mismatch_and_index() {
    assert_eq!(
        type_error_of("let t: [number, string] = [1, 2];"),
        "Type 'number' is not assignable to type 'string'"
    );
    accepts("let t: [number, string] = [1, \"a\"];\nlet s: string = t[1];");
    assert_eq!(
        type_error_of("let t: [number, string] = [1, \"a\"];\nlet s = t[5];"),
        "Tuple index 5 out of bounds for tuple of length 2"
    );
}

#[test]
fn too_many_arguments() {
    assert_eq!(
        type_error_of("function f(a: number): number { return a; }\nf(1, 2);"),
        "Expected 1 arguments, got 2"
    );
}

#[test]
fn argument_type_mismatch() {
    assert_eq!(
        type_error_of("function f(a: number): number { return a; }\nf(\"x\");"),
        "Argument of type 'string' is not assignable to parameter of type 'number'"
    );
}

#[test]
fn rest_parameters_take_any_number_of_arguments() {
    accepts("function sum(...xs: number[]): number { return 0; }\nsum(1, 2, 3, 4);");
}

#[test]
fn math_methods_are_checked() {
    assert_eq!(
        type_error_of("Math.floor(1, 2);"),
        "Math.floor expects 1 argument, got 2"
    );
    assert_eq!(
        type_error_of("Math.pow(1);"),
        "Math.pow expects 2 arguments, got 1"
    );
    assert_eq!(
        type_error_of("Math.foo(1);"),
        "'Math.foo' is not a known Math method"
    );
    assert_eq!(
        type_error_of("Math.sqrt(\"a\");"),
        "Math.sqrt expects number arguments, got 'string'"
    );
    accepts("let r: number = Math.max(1, 2) + Math.PI;");
}

#[test]
fn string_methods_are_checked() {
    accepts("let s = \"abc\".toUpperCase();\nlet n: number = s.indexOf(\"B\");");
    assert_eq!(type_error_of("\"abc\".trim(1);"), "'trim' takes no arguments");
    assert_eq!(
        type_error_of("\"abc\".shout();"),
        "Property 'shout' does not exist on type 'string'"
    );
}

#[test]
fn unknown_class() {
    assert_eq!(type_error_of("let p = new Q();"), "Cannot find class 'Q'");
}

#[test]
fn return_type_mismatch() {
    assert_eq!(
        type_error_of("function f(): number { return \"s\"; }"),
        "Type 'string' is not assignable to return type 'number'"
    );
}

#[test]
fn negating_a_string() {
    assert_eq!(
        type_error_of("let a = -\"s\";"),
        "Unary '-' requires number, got 'string'"
    );
}

#[test]
fn variable_without_type_or_initializer() {
    assert_eq!(
        type_error_of("let v;"),
        "Variable must have either a type annotation or initializer"
    );
}

#[test]
fn classes_fields_and_methods() {
    accepts(
        "class P {\n  x: number;\n  constructor(x: number) { this.x = x; }\n  get(): number { return this.x; }\n}\nlet p = new P(1);\nlet y: number = p.x + p.get();",
    );
    assert_eq!(
        type_error_of("class A extends B { }"),
        "Cannot find base class 'B'"
    );
}

#[test]
fn interfaces_are_structural() {
    accepts(
        "interface Pt { x: number; y: number }\nlet p: Pt = { x: 1, y: 2, z: 3 };\nlet q: number = p.y;",
    );
    assert_eq!(
        type_error_of("interface Pt { x: number; y: number }\nlet p: Pt = { x: 1 };"),
        "Type '{ x: number }' is not assignable to type '{ x: number, y: number }'"
    );
}

#[test]
fn literal_types_widen() {
    accepts("type Dir = \"up\" | \"down\";\nlet d: Dir = \"up\";\nlet s: string = d;");
}

#[test]
fn generic_functions_and_aliases() {
    accepts("function id<T>(x: T): T { return x; }\nlet n = id(5);");
    accepts("type IsNum<T> = T extends number ? \"yes\" : \"no\";\nlet a: IsNum<number> = \"yes\";");
}

#[test]
fn this_outside_a_class() {
    assert_eq!(
        type_error_of("let a = this;"),
        "'this' is only valid inside a class method or object method"
    );
}

#[test]
fn try_catch_and_throw() {
    accepts("try { throw \"bad\"; } catch (e) { console.log(e); } finally { let z = 1; }");
}

#[test]
fn lexer_errors_come_first() {
    let e = compile_source("let s = \"abc").unwrap_err();
    assert!(matches!(e.stage, Stage::Lexer));
    assert_eq!(e.message(), "Lexer error: Unterminated string literal");
    let e = compile_source("let a = 1 # 2;").unwrap_err();
    assert_eq!(e.message(), "Lexer error: Unexpected character '#'");
}

#[test]
fn parse_errors_are_reported_as_such() {
    let e = compile_source("let = 5;").unwrap_err();
    assert!(matches!(e.stage, Stage::Parse));
    assert!(e.message().starts_with("Parse error: "));
}

#[test]
fn type_error_message_has_prefix() {
    let e = compile_source("let x = y;").unwrap_err();
    assert_eq!(e.message(), "Type error: Cannot find name 'y'");
    assert_eq!(e.error.span.line, 1);
}

#[test]
fn builtins_are_known() {
    accepts("let n: number = parseInt(\"4\") + parseFloat(\"2.5\") + NaN + Infinity;");
    assert_eq!(
        type_error_of("parseInt(4);"),
        "Argument of type 'number' is not assignable to parameter of type 'string'"
    );
    assert_eq!(
        type_error_of("NaN = 1;"),
        "Cannot assign to 'NaN' because it is a constant"
    );
}

#[test]
fn inner_scopes_end_with_their_block() {
    assert_eq!(
        type_error_of("if (true) { let inner = 1; }\nlet outer = inner;"),
        "Cannot find name 'inner'"
    );
    accepts("let a = 1;\n{ let a = \"shadow\"; let s: string = a; }\nlet n: number = a;");
}

#[test]
fn await_has_the_type_of_its_operand() {
    accepts("async function f(): number { let x: number = await 5; return x; }");
}

#[test]
fn update_operators_need_numbers() {
    accepts("let i = 0;\ni++;\n--i;");
    assert_eq!(
        type_error_of("let s = \"a\";\ns++;"),
        "Operator '++/--' requires number, got 'string'"
    );
}

#[test]
fn a_source_without_tokens_compiles_to_an_empty_program() {
    let p = compile_source("  // nothing here\n/* at all */\n").unwrap();
    assert_eq!(p.statements.len(), 0);
}

#[test]
fn copies_are_the_same_tree() {
    let p = compile_source(
        "function f(a: number): number { let t: [number, string] = [a, \"x\"]; return a > 1 ? f(a - 1) : -a; }\nlet g = (x: number) => { while (x < 3) { x++; } return x; };",
    )
    .unwrap();
    for s in &p.statements {
        let c = tscc::parser::copy::copy_stmt(s);
        assert_eq!(format!("{:?}", c), format!("{:?}", s));
    }
    let copied = tscc::parser::copy::copy_stmts(&p.statements);
    assert_eq!(format!("{:?}", copied), format!("{:?}", p.statements));
}

#[test]
fn statements_take_the_form_their_first_token_starts() {
    let tokens = tscc::lexer::scanner::Scanner::new(
        "; let a = 1; if (a) { } while (a) { } for (;;) { } return; x: for (;;) { } type T = number; a;",
    )
    .scan_tokens()
    .unwrap();
    let p = tscc::parser::parser::Parser::new(tokens).parse().unwrap();
    let kinds: Vec<&str> = p
        .statements
        .iter()
        .map(|s| match &s.kind {
            StmtKind::Empty => "empty",
            StmtKind::VariableDecl { .. } => "let",
            StmtKind::If { .. } => "if",
            StmtKind::While { .. } => "while",
            StmtKind::For { .. } => "for",
            StmtKind::Return { .. } => "return",
            StmtKind::Labeled { .. } => "labeled",
            StmtKind::TypeAlias { .. } => "alias",
            StmtKind::Expression { .. } => "expr",
            _ => "other",
        })
        .collect();
    assert_eq!(kinds, vec!["empty", "let", "if", "while", "for", "return", "labeled", "alias", "expr"]);
}

#[test]
fn array_methods_count_their_arguments() {
    assert_eq!(
        type_error_of("let a: number[] = [1];\na.push(1, 2);"),
        "push expects 1 argument, got 2"
    );
    assert_eq!(type_error_of("let a: number[] = [1];\na.pop(1);"), "pop takes no arguments");
    assert_eq!(
        type_error_of("let a: number[] = [1];\na.reduce(1);"),
        "reduce expects 2 arguments, got 1"
    );
    assert_eq!(
        type_error_of("let a: number[] = [1];\na.sort();"),
        "Property 'sort' does not exist on type 'array'"
    );
    accepts("let a: number[] = [1];\nlet n: number = a.push(2);\na.forEach(1);");
}

#[test]
fn number_methods_count_their_arguments() {
    assert_eq!(type_error_of("Number.isNaN(1, 2);"), "Number.isNaN expects 1 argument");
    assert_eq!(
        type_error_of("Number.parse(1);"),
        "'Number.parse' is not a known Number method"
    );
    assert_eq!(type_error_of("let n = 5;\nn.toFixed(1, 2);"), "toFixed expects 1 argument");
    accepts("let ok: boolean = Number.isInteger(3);\nlet n = 5;\nlet s: string = n.toFixed(2);");
}

#[test]
fn calling_a_number_is_refused() {
    assert_eq!(type_error_of("let n = 5;\nn();"), "Type 'number' is not callable");
}

#[test]
fn number_literal_types_are_written_canonically() {
    assert_eq!(
        type_error_of("let x: 007.50 = \"a\";"),
        "Type 'string' is not assignable to type '7.5'"
    );
    assert_eq!(
        type_error_of("let x: 3.0 = \"a\";"),
        "Type 'string' is not assignable to type '3'"
    );
}

fn parse_program(src: &str) -> tscc::parser::ast::Program {
    let tokens = tscc::lexer::scanner::Scanner::new(src).scan_tokens().unwrap();
    tscc::parser::parser::Parser::new(tokens).parse().unwrap()
}

fn show(e: &tscc::parser::ast::Expr) -> String {
    match &e.kind {
        ExprKind::Binary { left, op, right } => {
            format!("({} {:?} {})", show(left), op, show(right))
        }
        ExprKind::NumberLiteral(n) => n.clone(),
        ExprKind::Identifier(n) => n.clone(),
        ExprKind::Assignment { name, value } => format!("{} = {}", name, show(value)),
        ExprKind::Grouping { expr } => format!("[{}]", show(expr)),
        _ => "?".to_string(),
    }
}

fn only_expression(src: &str) -> String {
    let p = parse_program(src);
    assert_eq!(p.statements.len(), 1);
    match &p.statements[0].kind {
        StmtKind::Expression { expr } => show(expr),
        _ => panic!("not an expression statement"),
    }
}

#[test]
fn operators_bind_by_precedence_and_associativity() {
    assert_eq!(
        only_expression("1 - 2 * 3 - 4"),
        "((1 Subtract (2 Multiply 3)) Subtract 4)"
    );
    assert_eq!(only_expression("2 ** 3 ** 2"), "(2 Power (3 Power 2))");
    assert_eq!(only_expression("a % b / c;"), "((a Modulo b) Divide c)");
}

#[test]
fn compound_assignment_is_an_assignment_of_the_operation() {
    assert_eq!(only_expression("x += 2"), "x = (x Add 2)");
}

#[test]
fn a_failed_arrow_attempt_reads_a_grouping() {
    assert_eq!(only_expression("(a) + 1"), "([a] Add 1)");
}

#[test]
fn bare_semicolons_are_empty_statements() {
    let p = parse_program(";;");
    assert_eq!(p.statements.len(), 2);
    assert!(p.statements.iter().all(|s| matches!(s.kind, StmtKind::Empty)));
}

#[test]
fn invalid_assignment_targets_are_refused() {
    let tokens = tscc::lexer::scanner::Scanner::new("1 = 2").scan_tokens().unwrap();
    let e = tscc::parser::parser::Parser::new(tokens).parse().unwrap_err();
    assert_eq!(e.message, "Invalid assignment target");
    let tokens = tscc::lexer::scanner::Scanner::new("await f()").scan_tokens().unwrap();
    let e = tscc::parser::parser::Parser::new(tokens).parse().unwrap_err();
    assert_eq!(e.message, "'await' can only be used inside an async function");
}

#[test]
fn a_block_keeps_its_names_to_itself() {
    assert_eq!(type_error_of("{ let x = 1; }\nx;"), "Cannot find name 'x'");
    accepts("let x = 1;\n{ let y = x; }\nx;");
}

#[test]
fn satisfies_keeps_the_inner_type() {
    accepts("let p = { x: 1, y: 2 } satisfies { x: number };\nlet n: number = p.y;");
    assert_eq!(
        type_error_of("let p = { x: 1, y: 2 } satisfies { z: number };"),
        "Type '{ x: number, y: number }' does not satisfy '{ z: number }'"
    );
}

#[test]
fn annotated_declarations_and_returns_are_checked() {
    assert_eq!(
        type_error_of("let x: number = \"a\";"),
        "Type 'string' is not assignable to type 'number'"
    );
    accepts("let x: number = 1 + 2;");
    assert_eq!(
        type_error_of("function f(): number { return \"s\"; }"),
        "Type 'string' is not assignable to return type 'number'"
    );
    accepts("function f(): number { return 1; }");
}

#[test]
fn array_literals_take_their_first_element_type() {
    accepts("let a: string[] = [\"x\", \"y\"];\nlet b: number[] = [];");
    assert_eq!(
        type_error_of("let a: boolean[] = [1, 2];"),
        "Type 'number[]' is not assignable to type 'boolean[]'"
    );
}

#[test]
fn array_literals_hold_their_elements() {
    let p = parse_program("[1, 2 + 3];");
    match &p.statements[0].kind {
        StmtKind::Expression { expr } => match &expr.kind {
            ExprKind::ArrayLiteral { elements } => {
                let shown: Vec<String> = elements.iter().map(show).collect();
                assert_eq!(shown, vec!["1".to_string(), "(2 Add 3)".to_string()]);
            }
            _ => panic!("not an array literal"),
        },
        _ => panic!("not an expression statement"),
    }
}
