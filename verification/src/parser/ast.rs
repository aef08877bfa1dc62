//! Syntax tree produced by the parser. Numeric literals keep their source text.
use vstd::prelude::*;

use crate::lexer::token::Span;

verus! {

#[derive(Debug)]
pub struct Program {
    pub statements: Vec<Statement>,
}

#[derive(Debug)]
pub struct Statement {
    pub kind: StmtKind,
    pub span: Span,
}

#[derive(Debug)]
pub enum StmtKind {
    VariableDecl {
        name: String,
        is_const: bool,
        type_ann: Option<TypeAnnotation>,
        initializer: Option<Expr>,
        is_exported: bool,
    },
    FunctionDecl {
        name: String,
        type_params: Vec<TypeParam>,
        params: Vec<Parameter>,
        return_type: Option<TypeAnnotation>,
        body: Vec<Statement>,
        is_exported: bool,
        is_async: bool,
    },
    ClassDecl {
        name: String,
        type_params: Vec<TypeParam>,
        parent: Option<String>,
        parent_type_args: Vec<TypeAnnotation>,
        fields: Vec<ClassField>,
        constructor: Option<ClassConstructor>,
        methods: Vec<ClassMethod>,
    },
    InterfaceDecl {
        name: String,
        extends: Vec<String>,
        fields: Vec<(String, TypeAnnotation)>,
    },
    If {
        condition: Expr,
        then_branch: Vec<Statement>,
        else_branch: Option<Vec<Statement>>,
    },
    While {
        condition: Expr,
        body: Vec<Statement>,
    },
    DoWhile {
        body: Vec<Statement>,
        condition: Expr,
    },
    For {
        init: Option<Box<Statement>>,
        condition: Option<Expr>,
        update: Option<Expr>,
        body: Vec<Statement>,
    },
    Return {
        value: Option<Expr>,
    },
    Expression {
        expr: Expr,
    },
    Block {
        statements: Vec<Statement>,
    },
    Import {
        specifiers: Vec<ImportSpecifier>,
        source: String,
    },
    Switch {
        discriminant: Expr,
        cases: Vec<SwitchCase>,
    },
    ForOf {
        var_name: String,
        is_const: bool,
        iterable: Expr,
        body: Vec<Statement>,
    },
    ForIn {
        var_name: String,
        object: Expr,
        body: Vec<Statement>,
    },
    ArrayDestructure {
        names: Vec<String>,
        initializer: Expr,
        is_const: bool,
    },
    ObjectDestructure {
        /// (binding_name, key_name) pairs
        names: Vec<(String, String)>,
        initializer: Expr,
        is_const: bool,
    },
    TypeAlias {
        name: String,
        type_params: Vec<TypeParam>,
        type_ann: TypeAnnotation,
    },
    EnumDecl {
        name: String,
        members: Vec<EnumMember>,
    },
    Break {
        label: Option<String>,
    },
    Continue {
        label: Option<String>,
    },
    Labeled {
        label: String,
        body: Box<Statement>,
    },
    Throw {
        value: Expr,
    },
    TryCatch {
        body: Vec<Statement>,
        catch_binding: Option<String>,
        catch_body: Option<Vec<Statement>>,
        finally_body: Option<Vec<Statement>>,
    },
    Empty,
}

#[derive(Debug)]
pub struct SwitchCase {
    pub test: Option<Expr>,
    pub body: Vec<Statement>,
}

#[derive(Debug)]
pub struct ClassField {
    pub name: String,
    pub type_ann: Option<TypeAnnotation>,
    pub initializer: Option<Expr>,
    pub span: Span,
}

#[derive(Debug)]
pub struct ClassConstructor {
    pub params: Vec<Parameter>,
    pub body: Vec<Statement>,
    pub span: Span,
}

#[derive(Debug)]
pub struct ClassMethod {
    pub name: String,
    pub params: Vec<Parameter>,
    pub return_type: Option<TypeAnnotation>,
    pub body: Vec<Statement>,
    pub span: Span,
}

#[derive(Debug)]
pub struct EnumMember {
    pub name: String,
    pub value: Option<EnumValue>,
    pub span: Span,
}

/// An enum member's initializer; a number keeps its literal text.
#[derive(Debug)]
pub enum EnumValue {
    Number(String),
    String(String),
}

#[derive(Debug)]
pub struct ImportSpecifier {
    pub imported: String,
    pub local: String,
    pub span: Span,
}

#[derive(Debug)]
pub struct TypeParam {
    pub name: String,
    pub constraint: Option<TypeAnnotation>,
    pub span: Span,
}

#[derive(Debug)]
pub struct Parameter {
    pub name: String,
    pub type_ann: Option<TypeAnnotation>,
    pub default: Option<Expr>,
    pub is_rest: bool,
    pub span: Span,
}

#[derive(Debug)]
pub struct TypeAnnotation {
    pub kind: TypeAnnKind,
    pub span: Span,
}

#[derive(Debug)]
pub enum TypeAnnKind {
    Number,
    String,
    Boolean,
    Void,
    Null,
    Undefined,
    Array(Box<TypeAnnotation>),
    Object {
        fields: Vec<(String, TypeAnnotation)>,
    },
    /// A named type reference (e.g., a class or interface name)
    Named(String),
    /// typeof x — resolved by looking up the variable's type
    Typeof(String),
    /// String literal type: "red", "blue", etc.
    StringLiteral(String),
    /// Number literal type, by its literal text: 0, 1, 42, etc.
    NumberLiteral(String),
    /// Boolean literal type: true / false
    BooleanLiteral(bool),
    /// Union type: string | number
    Union(Vec<TypeAnnotation>),
    /// Intersection type: Named & Aged
    Intersection(Vec<TypeAnnotation>),
    /// keyof Type — resolves to union of string literal keys
    Keyof(Box<TypeAnnotation>),
    /// Tuple type: [number, string]
    Tuple(Vec<TypeAnnotation>),
    /// Generic named type reference with type arguments: IsNumber<number>
    Generic {
        name: String,
        type_args: Vec<TypeAnnotation>,
    },
    /// Conditional type: T extends number ? "yes" : "no"
    Conditional {
        check_type: Box<TypeAnnotation>,
        extends_type: Box<TypeAnnotation>,
        true_type: Box<TypeAnnotation>,
        false_type: Box<TypeAnnotation>,
    },
    /// Mapped type: { [P in keyof T]: T[P] }
    Mapped {
        param: String,
        constraint: Box<TypeAnnotation>,
        value_type: Box<TypeAnnotation>,
    },
    /// Indexed access type: T[P]
    IndexedAccess {
        object_type: Box<TypeAnnotation>,
        index_type: Box<TypeAnnotation>,
    },
    /// Function type: (params) => return_type
    FunctionType {
        params: Vec<TypeAnnotation>,
        return_type: Box<TypeAnnotation>,
    },
    /// Type predicate: `param is Type`
    TypePredicate {
        param: String,
        ty: Box<TypeAnnotation>,
    },
}

#[derive(Debug)]
pub struct Expr {
    pub kind: ExprKind,
    pub span: Span,
}

/// A single property in an object literal.
#[derive(Debug)]
pub struct ObjectProperty {
    pub key: String,
    /// For computed keys: `{ [expr]: value }`
    pub computed_key: Option<Expr>,
    pub value: Expr,
    /// For spread elements: `{ ...expr }`
    pub is_spread: bool,
    pub is_method: bool,
    /// For methods: the parameters
    pub params: Vec<Parameter>,
    /// For methods: the return type annotation
    pub return_type: Option<TypeAnnotation>,
    pub span: Span,
}

#[derive(Debug)]
pub enum ExprKind {
    /// A numeric literal, by its source text.
    NumberLiteral(String),
    StringLiteral(String),
    BooleanLiteral(bool),
    NullLiteral,
    UndefinedLiteral,
    Identifier(String),
    This,
    ArrayLiteral {
        elements: Vec<Expr>,
    },
    ObjectLiteral {
        properties: Vec<ObjectProperty>,
    },
    IndexAccess {
        object: Box<Expr>,
        index: Box<Expr>,
    },
    Binary {
        left: Box<Expr>,
        op: BinOp,
        right: Box<Expr>,
    },
    Unary {
        op: UnaryOp,
        operand: Box<Expr>,
    },
    Typeof {
        operand: Box<Expr>,
    },
    Await {
        expr: Box<Expr>,
    },
    Call {
        callee: Box<Expr>,
        args: Vec<Expr>,
    },
    Member {
        object: Box<Expr>,
        property: String,
    },
    OptionalMember {
        object: Box<Expr>,
        property: String,
    },
    Spread {
        expr: Box<Expr>,
    },
    Assignment {
        name: String,
        value: Box<Expr>,
    },
    /// Assignment to an object property: obj.prop = value
    MemberAssignment {
        object: Box<Expr>,
        property: String,
        value: Box<Expr>,
    },
    ArrowFunction {
        params: Vec<Parameter>,
        return_type: Option<TypeAnnotation>,
        body: ArrowBody,
        is_async: bool,
    },
    NewExpr {
        class_name: String,
        args: Vec<Expr>,
    },
    Conditional {
        condition: Box<Expr>,
        consequent: Box<Expr>,
        alternate: Box<Expr>,
    },
    Grouping {
        expr: Box<Expr>,
    },
    PostfixUpdate {
        target: Box<Expr>,
        op: UpdateOp,
    },
    PrefixUpdate {
        target: Box<Expr>,
        op: UpdateOp,
    },
    /// Type assertion: expr as Type (erased at codegen)
    TypeAssertion {
        expr: Box<Expr>,
        target_type: TypeAnnotation,
    },
    /// Satisfies operator: expr satisfies Type (erased at codegen)
    Satisfies {
        expr: Box<Expr>,
        target_type: TypeAnnotation,
    },
}

#[derive(Debug)]
pub enum ArrowBody {
    Expr(Box<Expr>),
    Block(Vec<Statement>),
}

#[derive(Debug, Clone, Copy, PartialEq, Eq, Structural)]
pub enum BinOp {
    Add,
    Subtract,
    Multiply,
    Divide,
    Modulo,
    Equal,
    StrictEqual,
    NotEqual,
    StrictNotEqual,
    Less,
    Greater,
    LessEqual,
    GreaterEqual,
    And,
    Or,
    NullishCoalescing,
    Power,
}

#[derive(Debug, Clone, Copy, PartialEq, Eq, Structural)]
pub enum UnaryOp {
    Negate,
    Not,
}

#[derive(Debug, Clone, Copy, PartialEq, Eq, Structural)]
pub enum UpdateOp {
    Increment,
    Decrement,
}

} // verus!
