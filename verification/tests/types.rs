use tscc::lexer::token::Span;
use tscc::parser::ast::BinOp;
use tscc::types::assign::is_assignable;
use tscc::types::checker::{check_binary_op, is_same_type_category, type_string_to_type};
use tscc::types::ty::Type;

fn arr(t: Type) -> Type {
    Type::Array(Box::new(t))
}

fn obj(fields: Vec<(&str, Type)>) -> Type {
    Type::Object { fields: fields.into_iter().map(|(n, t)| (n.to_string(), t)).collect() }
}

#[test]
fn display_of_types() {
    assert_eq!(Type::Number.to_display_string(), "number");
    assert_eq!(arr(Type::String).to_display_string(), "string[]");
    assert_eq!(
        Type::Union(vec![Type::String, Type::Number]).to_display_string(),
        "string | number"
    );
    assert_eq!(
        Type::Tuple(vec![Type::Number, Type::Boolean]).to_display_string(),
        "[number, boolean]"
    );
    assert_eq!(
        obj(vec![("x", Type::Number), ("y", Type::Null)]).to_display_string(),
        "{ x: number, y: null }"
    );
    assert_eq!(
        Type::Function { params: vec![Type::Number], return_type: Box::new(Type::Void) }
            .to_display_string(),
        "(number) => void"
    );
    assert_eq!(Type::StringLiteral("up".to_string()).to_display_string(), "\"up\"");
    assert_eq!(Type::NumberLiteral("42".to_string()).to_display_string(), "42");
}

#[test]
fn assignability_rules() {
    // Reflexive, and unknown accepts and is accepted by everything
    assert!(is_assignable(&arr(Type::Number), &arr(Type::Number)));
    assert!(is_assignable(&Type::Unknown, &Type::String));
    assert!(is_assignable(&Type::Boolean, &Type::Unknown));
    // Literals widen both ways
    assert!(is_assignable(&Type::StringLiteral("a".to_string()), &Type::String));
    assert!(is_assignable(&Type::Number, &Type::NumberLiteral("1".to_string())));
    assert!(!is_assignable(&Type::StringLiteral("a".to_string()), &Type::StringLiteral("b".to_string())));
    // Unions
    assert!(is_assignable(&Type::Number, &Type::Union(vec![Type::String, Type::Number])));
    assert!(!is_assignable(&Type::Union(vec![Type::String, Type::Number]), &Type::Number));
    // Objects are structural
    assert!(is_assignable(
        &obj(vec![("x", Type::Number), ("y", Type::Number)]),
        &obj(vec![("x", Type::Number)])
    ));
    assert!(!is_assignable(&obj(vec![("x", Type::Number)]), &obj(vec![("y", Type::Number)])));
    // Functions compare arity, parameters and results
    let f1 = Type::Function { params: vec![Type::Number], return_type: Box::new(Type::String) };
    let f2 = Type::Function { params: vec![Type::Number, Type::Number], return_type: Box::new(Type::String) };
    assert!(!is_assignable(&f1, &f2));
    // Tuples compare element by element
    assert!(is_assignable(
        &Type::Tuple(vec![Type::Number, Type::String]),
        &Type::Tuple(vec![Type::Number, Type::String])
    ));
    assert!(!is_assignable(
        &Type::Tuple(vec![Type::Number, Type::String]),
        &Type::Tuple(vec![Type::String, Type::String])
    ));
    assert!(!is_assignable(&Type::Number, &Type::String));
}

#[test]
fn binary_operator_typing() {
    let sp = Span::new(0, 1, 1, 1);
    let t = check_binary_op(&Type::Number, BinOp::Add, &Type::Number, sp).unwrap();
    assert!(matches!(t, Type::Number));
    let t = check_binary_op(&Type::String, BinOp::Add, &Type::Boolean, sp).unwrap();
    assert!(matches!(t, Type::String));
    let t = check_binary_op(&Type::Unknown, BinOp::Multiply, &Type::String, sp).unwrap();
    assert!(matches!(t, Type::Number));
    let t = check_binary_op(&Type::Unknown, BinOp::Add, &Type::String, sp).unwrap();
    assert!(matches!(t, Type::String));
    let t = check_binary_op(&Type::Null, BinOp::NullishCoalescing, &Type::String, sp).unwrap();
    assert!(matches!(t, Type::String));
    let t = check_binary_op(&Type::Number, BinOp::NullishCoalescing, &Type::String, sp).unwrap();
    assert!(matches!(t, Type::Number));
    let t = check_binary_op(&Type::String, BinOp::Less, &Type::Boolean, sp).unwrap();
    assert!(matches!(t, Type::Boolean));
    let e = check_binary_op(&Type::Boolean, BinOp::Divide, &Type::Number, sp).unwrap_err();
    assert_eq!(e.message, "Operator cannot be applied to types 'boolean' and 'number'");
    assert_eq!(e.span, sp);
}

#[test]
fn typeof_strings_and_categories() {
    assert!(matches!(type_string_to_type(&"number".to_string()), Type::Number));
    assert!(matches!(type_string_to_type(&"boolean".to_string()), Type::Boolean));
    assert!(matches!(type_string_to_type(&"bigint".to_string()), Type::Unknown));
    match type_string_to_type(&"function".to_string()) {
        Type::Function { params, return_type } => {
            assert!(params.is_empty());
            assert!(matches!(*return_type, Type::Void));
        }
        other => panic!("{:?}", other),
    }
    assert!(is_same_type_category(&Type::NumberLiteral("3".to_string()), &Type::Number));
    assert!(is_same_type_category(&Type::String, &Type::StringLiteral("x".to_string())));
    assert!(!is_same_type_category(&Type::String, &Type::Number));
    // Symmetric on concrete values
    assert_eq!(
        is_same_type_category(&Type::Number, &Type::NumberLiteral("1".to_string())),
        is_same_type_category(&Type::NumberLiteral("1".to_string()), &Type::Number)
    );
}

#[test]
fn structural_equality_and_copies() {
    let t = obj(vec![("a", arr(Type::Number)), ("b", Type::Union(vec![Type::Null, Type::String]))]);
    let c = t.deep_copy();
    assert!(t.equals(&c));
    assert!(!t.equals(&Type::Number));
    assert_eq!(t.to_display_string(), c.to_display_string());
}
