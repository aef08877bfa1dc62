//! Deep copies of syntax trees. Syntax trees hold vectors, which are equal
//! only as the same value, so a copy is stated to be the *same tree* as what
//! it copies: the same shape, texts and spans, vector element by element.
use vstd::prelude::*;

use crate::parser::ast::{
    ArrowBody, ClassConstructor, ClassField, ClassMethod, EnumMember, EnumValue, Expr, ExprKind,
    ImportSpecifier, ObjectProperty, Parameter, Statement, StmtKind, SwitchCase, TypeAnnKind,
    TypeAnnotation, TypeParam,
};

verus! {

/// `a` and `b` are the same type annotation: the same shape, texts and spans.
pub open spec fn same_type_ann(a: TypeAnnotation, b: TypeAnnotation) -> bool
    decreases a,
{
    &&& a.span == b.span
    &&& match a.kind {
        TypeAnnKind::Array(x) => b.kind matches TypeAnnKind::Array(y) && same_type_ann(*x, *y),
        TypeAnnKind::Object { fields } => b.kind matches TypeAnnKind::Object { fields: g }
            && same_ann_fields(fields@, g@),
        TypeAnnKind::Union(v) => b.kind matches TypeAnnKind::Union(w) && same_type_anns(v@, w@),
        TypeAnnKind::Intersection(v) => b.kind matches TypeAnnKind::Intersection(w) && same_type_anns(
            v@,
            w@,
        ),
        TypeAnnKind::Keyof(x) => b.kind matches TypeAnnKind::Keyof(y) && same_type_ann(*x, *y),
        TypeAnnKind::Tuple(v) => b.kind matches TypeAnnKind::Tuple(w) && same_type_anns(v@, w@),
        TypeAnnKind::Generic { name, type_args } => b.kind matches TypeAnnKind::Generic {
            name: n2,
            type_args: a2,
        } && name == n2 && same_type_anns(type_args@, a2@),
        TypeAnnKind::Conditional { check_type, extends_type, true_type, false_type } => b.kind matches TypeAnnKind::Conditional {
            check_type: c2,
            extends_type: e2,
            true_type: t2,
            false_type: f2,
        } && same_type_ann(*check_type, *c2) && same_type_ann(*extends_type, *e2) && same_type_ann(
            *true_type,
            *t2,
        ) && same_type_ann(*false_type, *f2),
        TypeAnnKind::Mapped { param, constraint, value_type } => b.kind matches TypeAnnKind::Mapped {
            param: p2,
            constraint: c2,
            value_type: v2,
        } && param == p2 && same_type_ann(*constraint, *c2) && same_type_ann(*value_type, *v2),
        TypeAnnKind::IndexedAccess { object_type, index_type } => b.kind matches TypeAnnKind::IndexedAccess {
            object_type: o2,
            index_type: i2,
        } && same_type_ann(*object_type, *o2) && same_type_ann(*index_type, *i2),
        TypeAnnKind::FunctionType { params, return_type } => b.kind matches TypeAnnKind::FunctionType {
            params: p2,
            return_type: r2,
        } && same_type_anns(params@, p2@) && same_type_ann(*return_type, *r2),
        TypeAnnKind::TypePredicate { param, ty } => b.kind matches TypeAnnKind::TypePredicate {
            param: p2,
            ty: t2,
        } && param == p2 && same_type_ann(*ty, *t2),
        _ => b.kind == a.kind,
    }
}

pub open spec fn same_type_anns(a: Seq<TypeAnnotation>, b: Seq<TypeAnnotation>) -> bool
    decreases a,
{
    &&& a.len() == b.len()
    &&& forall|i: int| 0 <= i < a.len() ==> same_type_ann(#[trigger] a[i], b[i])
}

pub open spec fn same_ann_fields(a: Seq<(String, TypeAnnotation)>, b: Seq<(String, TypeAnnotation)>) -> bool
    decreases a,
{
    &&& a.len() == b.len()
    &&& forall|i: int| 0 <= i < a.len() ==> (#[trigger] a[i]).0 == b[i].0 && same_type_ann(a[i].1, b[i].1)
}

pub open spec fn same_opt_type_ann(a: Option<TypeAnnotation>, b: Option<TypeAnnotation>) -> bool {
    match a {
        Some(x) => b matches Some(y) && same_type_ann(x, y),
        None => b is None,
    }
}

pub open spec fn same_type_params(a: Seq<TypeParam>, b: Seq<TypeParam>) -> bool {
    &&& a.len() == b.len()
    &&& forall|i: int|
        0 <= i < a.len() ==> (#[trigger] a[i]).name == b[i].name && a[i].span == b[i].span
            && same_opt_type_ann(a[i].constraint, b[i].constraint)
}


/// `a` and `b` are the same expression: the same shape, texts and spans.
pub open spec fn same_expr(a: Expr, b: Expr) -> bool
    decreases a,
{
    &&& a.span == b.span
    &&& match a.kind {
        ExprKind::ArrayLiteral { elements } => b.kind matches ExprKind::ArrayLiteral { elements: e2 }
            && same_exprs(elements@, e2@),
        ExprKind::ObjectLiteral { properties } => b.kind matches ExprKind::ObjectLiteral {
            properties: p2,
        } && same_props(properties@, p2@),
        ExprKind::IndexAccess { object, index } => b.kind matches ExprKind::IndexAccess {
            object: o2,
            index: i2,
        } && same_expr(*object, *o2) && same_expr(*index, *i2),
        ExprKind::Binary { left, op, right } => b.kind matches ExprKind::Binary {
            left: l2,
            op: op2,
            right: r2,
        } && op == op2 && same_expr(*left, *l2) && same_expr(*right, *r2),
        ExprKind::Unary { op, operand } => b.kind matches ExprKind::Unary { op: op2, operand: x2 }
            && op == op2 && same_expr(*operand, *x2),
        ExprKind::Typeof { operand } => b.kind matches ExprKind::Typeof { operand: x2 } && same_expr(
            *operand,
            *x2,
        ),
        ExprKind::Await { expr } => b.kind matches ExprKind::Await { expr: x2 } && same_expr(*expr, *x2),
        ExprKind::Call { callee, args } => b.kind matches ExprKind::Call { callee: c2, args: a2 }
            && same_expr(*callee, *c2) && same_exprs(args@, a2@),
        ExprKind::Member { object, property } => b.kind matches ExprKind::Member {
            object: o2,
            property: p2,
        } && property == p2 && same_expr(*object, *o2),
        ExprKind::OptionalMember { object, property } => b.kind matches ExprKind::OptionalMember {
            object: o2,
            property: p2,
        } && property == p2 && same_expr(*object, *o2),
        ExprKind::Spread { expr } => b.kind matches ExprKind::Spread { expr: x2 } && same_expr(*expr, *x2),
        ExprKind::Assignment { name, value } => b.kind matches ExprKind::Assignment {
            name: n2,
            value: v2,
        } && name == n2 && same_expr(*value, *v2),
        ExprKind::MemberAssignment { object, property, value } => b.kind matches ExprKind::MemberAssignment {
            object: o2,
            property: p2,
            value: v2,
        } && property == p2 && same_expr(*object, *o2) && same_expr(*value, *v2),
        ExprKind::ArrowFunction { params, return_type, body, is_async } => b.kind matches ExprKind::ArrowFunction {
            params: p2,
            return_type: t2,
            body: b2,
            is_async: a2,
        } && is_async == a2 && same_params(params@, p2@) && same_opt_type_ann(return_type, t2)
            && match body {
            ArrowBody::Expr(x) => b2 matches ArrowBody::Expr(y) && same_expr(*x, *y),
            ArrowBody::Block(ss) => b2 matches ArrowBody::Block(tt) && same_stmts(ss@, tt@),
        },
        ExprKind::NewExpr { class_name, args } => b.kind matches ExprKind::NewExpr {
            class_name: c2,
            args: a2,
        } && class_name == c2 && same_exprs(args@, a2@),
        ExprKind::Conditional { condition, consequent, alternate } => b.kind matches ExprKind::Conditional {
            condition: c2,
            consequent: t2,
            alternate: f2,
        } && same_expr(*condition, *c2) && same_expr(*consequent, *t2) && same_expr(*alternate, *f2),
        ExprKind::Grouping { expr } => b.kind matches ExprKind::Grouping { expr: x2 } && same_expr(
            *expr,
            *x2,
        ),
        ExprKind::PostfixUpdate { target, op } => b.kind matches ExprKind::PostfixUpdate {
            target: t2,
            op: op2,
        } && op == op2 && same_expr(*target, *t2),
        ExprKind::PrefixUpdate { target, op } => b.kind matches ExprKind::PrefixUpdate {
            target: t2,
            op: op2,
        } && op == op2 && same_expr(*target, *t2),
        ExprKind::TypeAssertion { expr, target_type } => b.kind matches ExprKind::TypeAssertion {
            expr: x2,
            target_type: t2,
        } && same_expr(*expr, *x2) && same_type_ann(target_type, t2),
        ExprKind::Satisfies { expr, target_type } => b.kind matches ExprKind::Satisfies {
            expr: x2,
            target_type: t2,
        } && same_expr(*expr, *x2) && same_type_ann(target_type, t2),
        _ => b.kind == a.kind,
    }
}

pub open spec fn same_exprs(a: Seq<Expr>, b: Seq<Expr>) -> bool
    decreases a,
{
    &&& a.len() == b.len()
    &&& forall|i: int| 0 <= i < a.len() ==> same_expr(#[trigger] a[i], b[i])
}

pub open spec fn same_opt_expr(a: Option<Expr>, b: Option<Expr>) -> bool
    decreases a,
{
    match a {
        Some(x) => b matches Some(y) && same_expr(x, y),
        None => b is None,
    }
}

pub open spec fn same_params(a: Seq<Parameter>, b: Seq<Parameter>) -> bool
    decreases a,
{
    &&& a.len() == b.len()
    &&& forall|i: int|
        0 <= i < a.len() ==> {
            &&& (#[trigger] a[i]).name == b[i].name
            &&& a[i].is_rest == b[i].is_rest
            &&& a[i].span == b[i].span
            &&& same_opt_type_ann(a[i].type_ann, b[i].type_ann)
            &&& same_opt_expr(a[i].default, b[i].default)
        }
}

pub open spec fn same_props(a: Seq<ObjectProperty>, b: Seq<ObjectProperty>) -> bool
    decreases a,
{
    &&& a.len() == b.len()
    &&& forall|i: int|
        0 <= i < a.len() ==> {
            &&& (#[trigger] a[i]).key == b[i].key
            &&& a[i].is_spread == b[i].is_spread
            &&& a[i].is_method == b[i].is_method
            &&& a[i].span == b[i].span
            &&& same_opt_expr(a[i].computed_key, b[i].computed_key)
            &&& same_expr(a[i].value, b[i].value)
            &&& same_params(a[i].params@, b[i].params@)
            &&& same_opt_type_ann(a[i].return_type, b[i].return_type)
        }
}

/// `a` and `b` are the same statement: the same shape, texts and spans.
pub open spec fn same_stmt(a: Statement, b: Statement) -> bool
    decreases a,
{
    &&& a.span == b.span
    &&& match a.kind {
        StmtKind::VariableDecl { name, is_const, type_ann, initializer, is_exported } => b.kind matches StmtKind::VariableDecl {
            name: n2,
            is_const: c2,
            type_ann: t2,
            initializer: i2,
            is_exported: e2,
        } && name == n2 && is_const == c2 && is_exported == e2 && same_opt_type_ann(type_ann, t2)
            && same_opt_expr(initializer, i2),
        StmtKind::FunctionDecl { name, type_params, params, return_type, body, is_exported, is_async } => b.kind matches StmtKind::FunctionDecl {
            name: n2,
            type_params: tp2,
            params: p2,
            return_type: r2,
            body: b2,
            is_exported: e2,
            is_async: a2,
        } && name == n2 && is_exported == e2 && is_async == a2 && same_type_params(type_params@, tp2@)
            && same_params(params@, p2@) && same_opt_type_ann(return_type, r2) && same_stmts(
            body@,
            b2@,
        ),
        StmtKind::ClassDecl { name, type_params, parent, parent_type_args, fields, constructor, methods } => b.kind matches StmtKind::ClassDecl {
            name: n2,
            type_params: tp2,
            parent: p2,
            parent_type_args: pa2,
            fields: f2,
            constructor: c2,
            methods: m2,
        } && name == n2 && parent == p2 && same_type_params(type_params@, tp2@) && same_type_anns(
            parent_type_args@,
            pa2@,
        ) && same_class_fields(fields@, f2@) && same_opt_constructor(constructor, c2) && same_methods(
            methods@,
            m2@,
        ),
        StmtKind::InterfaceDecl { name, extends, fields } => b.kind matches StmtKind::InterfaceDecl {
            name: n2,
            extends: x2,
            fields: f2,
        } && name == n2 && extends@ == x2@ && same_ann_fields(fields@, f2@),
        StmtKind::If { condition, then_branch, else_branch } => b.kind matches StmtKind::If {
            condition: c2,
            then_branch: t2,
            else_branch: e2,
        } && same_expr(condition, c2) && same_stmts(then_branch@, t2@) && same_opt_stmts(
            else_branch,
            e2,
        ),
        StmtKind::While { condition, body } => b.kind matches StmtKind::While { condition: c2, body: b2 }
            && same_expr(condition, c2) && same_stmts(body@, b2@),
        StmtKind::DoWhile { body, condition } => b.kind matches StmtKind::DoWhile {
            body: b2,
            condition: c2,
        } && same_expr(condition, c2) && same_stmts(body@, b2@),
        StmtKind::For { init, condition, update, body } => b.kind matches StmtKind::For {
            init: i2,
            condition: c2,
            update: u2,
            body: b2,
        } && same_opt_expr(condition, c2) && same_opt_expr(update, u2) && same_stmts(body@, b2@)
            && match init {
            Some(x) => i2 matches Some(y) && same_stmt(*x, *y),
            None => i2 is None,
        },
        StmtKind::Return { value } => b.kind matches StmtKind::Return { value: v2 } && same_opt_expr(
            value,
            v2,
        ),
        StmtKind::Expression { expr } => b.kind matches StmtKind::Expression { expr: x2 } && same_expr(
            expr,
            x2,
        ),
        StmtKind::Block { statements } => b.kind matches StmtKind::Block { statements: s2 }
            && same_stmts(statements@, s2@),
        StmtKind::Import { specifiers, source } => b.kind matches StmtKind::Import {
            specifiers: sp2,
            source: so2,
        } && specifiers@ == sp2@ && source == so2,
        StmtKind::Switch { discriminant, cases } => b.kind matches StmtKind::Switch {
            discriminant: d2,
            cases: c2,
        } && same_expr(discriminant, d2) && same_cases(cases@, c2@),
        StmtKind::ForOf { var_name, is_const, iterable, body } => b.kind matches StmtKind::ForOf {
            var_name: v2,
            is_const: c2,
            iterable: i2,
            body: b2,
        } && var_name == v2 && is_const == c2 && same_expr(iterable, i2) && same_stmts(body@, b2@),
        StmtKind::ForIn { var_name, object, body } => b.kind matches StmtKind::ForIn {
            var_name: v2,
            object: o2,
            body: b2,
        } && var_name == v2 && same_expr(object, o2) && same_stmts(body@, b2@),
        StmtKind::ArrayDestructure { names, initializer, is_const } => b.kind matches StmtKind::ArrayDestructure {
            names: n2,
            initializer: i2,
            is_const: c2,
        } && names@ == n2@ && is_const == c2 && same_expr(initializer, i2),
        StmtKind::ObjectDestructure { names, initializer, is_const } => b.kind matches StmtKind::ObjectDestructure {
            names: n2,
            initializer: i2,
            is_const: c2,
        } && names@ == n2@ && is_const == c2 && same_expr(initializer, i2),
        StmtKind::TypeAlias { name, type_params, type_ann } => b.kind matches StmtKind::TypeAlias {
            name: n2,
            type_params: tp2,
            type_ann: t2,
        } && name == n2 && same_type_params(type_params@, tp2@) && same_type_ann(type_ann, t2),
        StmtKind::EnumDecl { name, members } => b.kind matches StmtKind::EnumDecl { name: n2, members: m2 }
            && name == n2 && members@ == m2@,
        StmtKind::Labeled { label, body } => b.kind matches StmtKind::Labeled { label: l2, body: b2 }
            && label == l2 && same_stmt(*body, *b2),
        StmtKind::Throw { value } => b.kind matches StmtKind::Throw { value: v2 } && same_expr(value, v2),
        StmtKind::TryCatch { body, catch_binding, catch_body, finally_body } => b.kind matches StmtKind::TryCatch {
            body: b2,
            catch_binding: cb2,
            catch_body: c2,
            finally_body: f2,
        } && catch_binding == cb2 && same_stmts(body@, b2@) && same_opt_stmts(catch_body, c2)
            && same_opt_stmts(finally_body, f2),
        _ => b.kind == a.kind,
    }
}

pub open spec fn same_stmts(a: Seq<Statement>, b: Seq<Statement>) -> bool
    decreases a,
{
    &&& a.len() == b.len()
    &&& forall|i: int| 0 <= i < a.len() ==> same_stmt(#[trigger] a[i], b[i])
}

pub open spec fn same_opt_stmts(a: Option<Vec<Statement>>, b: Option<Vec<Statement>>) -> bool
    decreases a,
{
    match a {
        Some(x) => b matches Some(y) && same_stmts(x@, y@),
        None => b is None,
    }
}

pub open spec fn same_cases(a: Seq<SwitchCase>, b: Seq<SwitchCase>) -> bool
    decreases a,
{
    &&& a.len() == b.len()
    &&& forall|i: int|
        0 <= i < a.len() ==> same_opt_expr((#[trigger] a[i]).test, b[i].test) && same_stmts(
            a[i].body@,
            b[i].body@,
        )
}

pub open spec fn same_class_fields(a: Seq<ClassField>, b: Seq<ClassField>) -> bool
    decreases a,
{
    &&& a.len() == b.len()
    &&& forall|i: int|
        0 <= i < a.len() ==> {
            &&& (#[trigger] a[i]).name == b[i].name
            &&& a[i].span == b[i].span
            &&& same_opt_type_ann(a[i].type_ann, b[i].type_ann)
            &&& same_opt_expr(a[i].initializer, b[i].initializer)
        }
}

pub open spec fn same_methods(a: Seq<ClassMethod>, b: Seq<ClassMethod>) -> bool
    decreases a,
{
    &&& a.len() == b.len()
    &&& forall|i: int|
        0 <= i < a.len() ==> {
            &&& (#[trigger] a[i]).name == b[i].name
            &&& a[i].span == b[i].span
            &&& same_params(a[i].params@, b[i].params@)
            &&& same_opt_type_ann(a[i].return_type, b[i].return_type)
            &&& same_stmts(a[i].body@, b[i].body@)
        }
}

pub open spec fn same_opt_constructor(a: Option<ClassConstructor>, b: Option<ClassConstructor>) -> bool
    decreases a,
{
    match a {
        Some(c) => b matches Some(d) && c.span == d.span && same_params(c.params@, d.params@)
            && same_stmts(c.body@, d.body@),
        None => b is None,
    }
}

fn copy_opt_string(s: &Option<String>) -> (r: Option<String>)
    ensures
        r == *s,
{
    match s {
        Some(x) => Some(x.clone()),
        None => None,
    }
}

fn copy_strings(v: &Vec<String>) -> (r: Vec<String>)
    ensures
        r@ == v@,
{
    let mut out: Vec<String> = Vec::new();
    let mut i: usize = 0;
    while i < v.len()
        invariant
            i <= v@.len(),
            out@ == v@.take(i as int),
        decreases v@.len() - i,
    {
        out.push(v[i].clone());
        i = i + 1;
        assert(out@ =~= v@.take(i as int));
    }
    assert(v@.take(v@.len() as int) =~= v@);
    out
}

fn copy_string_pairs(v: &Vec<(String, String)>) -> (r: Vec<(String, String)>)
    ensures
        r@ == v@,
{
    let mut out: Vec<(String, String)> = Vec::new();
    let mut i: usize = 0;
    while i < v.len()
        invariant
            i <= v@.len(),
            out@ == v@.take(i as int),
        decreases v@.len() - i,
    {
        out.push((v[i].0.clone(), v[i].1.clone()));
        i = i + 1;
        assert(out@ =~= v@.take(i as int));
    }
    assert(v@.take(v@.len() as int) =~= v@);
    out
}

/// A deep copy of a type annotation.
pub fn copy_type_ann(t: &TypeAnnotation) -> (r: TypeAnnotation)
    ensures
        same_type_ann(*t, r),
    decreases t,
{
    let kind = match &t.kind {
        TypeAnnKind::Number => TypeAnnKind::Number,
        TypeAnnKind::String => TypeAnnKind::String,
        TypeAnnKind::Boolean => TypeAnnKind::Boolean,
        TypeAnnKind::Void => TypeAnnKind::Void,
        TypeAnnKind::Null => TypeAnnKind::Null,
        TypeAnnKind::Undefined => TypeAnnKind::Undefined,
        TypeAnnKind::Array(inner) => TypeAnnKind::Array(Box::new(copy_type_ann(inner))),
        TypeAnnKind::Object { fields } => TypeAnnKind::Object { fields: copy_ann_fields(fields) },
        TypeAnnKind::Named(n) => TypeAnnKind::Named(n.clone()),
        TypeAnnKind::Typeof(n) => TypeAnnKind::Typeof(n.clone()),
        TypeAnnKind::StringLiteral(n) => TypeAnnKind::StringLiteral(n.clone()),
        TypeAnnKind::NumberLiteral(n) => TypeAnnKind::NumberLiteral(n.clone()),
        TypeAnnKind::BooleanLiteral(b) => TypeAnnKind::BooleanLiteral(*b),
        TypeAnnKind::Union(v) => TypeAnnKind::Union(copy_type_anns(v)),
        TypeAnnKind::Intersection(v) => TypeAnnKind::Intersection(copy_type_anns(v)),
        TypeAnnKind::Keyof(inner) => TypeAnnKind::Keyof(Box::new(copy_type_ann(inner))),
        TypeAnnKind::Tuple(v) => TypeAnnKind::Tuple(copy_type_anns(v)),
        TypeAnnKind::Generic { name, type_args } => TypeAnnKind::Generic {
            name: name.clone(),
            type_args: copy_type_anns(type_args),
        },
        TypeAnnKind::Conditional { check_type, extends_type, true_type, false_type } =>
            TypeAnnKind::Conditional {
            check_type: Box::new(copy_type_ann(check_type)),
            extends_type: Box::new(copy_type_ann(extends_type)),
            true_type: Box::new(copy_type_ann(true_type)),
            false_type: Box::new(copy_type_ann(false_type)),
        },
        TypeAnnKind::Mapped { param, constraint, value_type } => TypeAnnKind::Mapped {
            param: param.clone(),
            constraint: Box::new(copy_type_ann(constraint)),
            value_type: Box::new(copy_type_ann(value_type)),
        },
        TypeAnnKind::IndexedAccess { object_type, index_type } => TypeAnnKind::IndexedAccess {
            object_type: Box::new(copy_type_ann(object_type)),
            index_type: Box::new(copy_type_ann(index_type)),
        },
        TypeAnnKind::FunctionType { params, return_type } => TypeAnnKind::FunctionType {
            params: copy_type_anns(params),
            return_type: Box::new(copy_type_ann(return_type)),
        },
        TypeAnnKind::TypePredicate { param, ty } => TypeAnnKind::TypePredicate {
            param: param.clone(),
            ty: Box::new(copy_type_ann(ty)),
        },
    };
    TypeAnnotation { kind, span: t.span }
}

/// Deep copies of type annotations, in order.
pub fn copy_type_anns(v: &Vec<TypeAnnotation>) -> (r: Vec<TypeAnnotation>)
    ensures
        same_type_anns(v@, r@),
    decreases v,
{
    let mut out: Vec<TypeAnnotation> = Vec::new();
    let mut i: usize = 0;
    while i < v.len()
        invariant
            i <= v@.len(),
            out@.len() == i,
            forall|j: int| 0 <= j < i ==> same_type_ann(#[trigger] v@[j], out@[j]),
        decreases v@.len() - i,
    {
        out.push(copy_type_ann(&v[i]));
        i = i + 1;
    }
    out
}

/// Deep copies of named type annotations, in order.
pub fn copy_ann_fields(v: &Vec<(String, TypeAnnotation)>) -> (r: Vec<(String, TypeAnnotation)>)
    ensures
        same_ann_fields(v@, r@),
    decreases v,
{
    let mut out: Vec<(String, TypeAnnotation)> = Vec::new();
    let mut i: usize = 0;
    while i < v.len()
        invariant
            i <= v@.len(),
            out@.len() == i,
            forall|j: int| 0 <= j < i ==> (#[trigger] v@[j]).0 == out@[j].0 && same_type_ann(v@[j].1, out@[j].1),
        decreases v@.len() - i,
    {
        assert(decreases_to!(v => v@[i as int]));
        out.push((v[i].0.clone(), copy_type_ann(&v[i].1)));
        i = i + 1;
    }
    out
}

/// A deep copy of an optional type annotation.
pub fn copy_opt_type_ann(t: &Option<TypeAnnotation>) -> (r: Option<TypeAnnotation>)
    ensures
        same_opt_type_ann(*t, r),
    decreases t,
{
    match t {
        Some(x) => Some(copy_type_ann(x)),
        None => None,
    }
}

/// Deep copies of type parameters, in order.
pub fn copy_type_params(v: &Vec<TypeParam>) -> (r: Vec<TypeParam>)
    ensures
        same_type_params(v@, r@),
    decreases v,
{
    let mut out: Vec<TypeParam> = Vec::new();
    let mut i: usize = 0;
    while i < v.len()
        invariant
            i <= v@.len(),
            out@.len() == i,
            forall|j: int|
                0 <= j < i ==> (#[trigger] v@[j]).name == out@[j].name && v@[j].span == out@[j].span
                    && same_opt_type_ann(v@[j].constraint, out@[j].constraint),
        decreases v@.len() - i,
    {
        let tp = &v[i];
        assert(decreases_to!(v => v@[i as int]));
        out.push(TypeParam {
            name: tp.name.clone(),
            constraint: copy_opt_type_ann(&tp.constraint),
            span: tp.span,
        });
        i = i + 1;
    }
    out
}

/// Deep copies of parameters, in order.
pub fn copy_params(v: &Vec<Parameter>) -> (r: Vec<Parameter>)
    ensures
        same_params(v@, r@),
    decreases v,
{
    let mut out: Vec<Parameter> = Vec::new();
    let mut i: usize = 0;
    while i < v.len()
        invariant
            i <= v@.len(),
            out@.len() == i,
            forall|j: int|
                0 <= j < i ==> {
                    &&& (#[trigger] v@[j]).name == out@[j].name
                    &&& v@[j].is_rest == out@[j].is_rest
                    &&& v@[j].span == out@[j].span
                    &&& same_opt_type_ann(v@[j].type_ann, out@[j].type_ann)
                    &&& same_opt_expr(v@[j].default, out@[j].default)
                },
        decreases v@.len() - i,
    {
        let p = &v[i];
        assert(decreases_to!(v => v@[i as int]));
        out.push(Parameter {
            name: p.name.clone(),
            type_ann: copy_opt_type_ann(&p.type_ann),
            default: copy_opt_expr(&p.default),
            is_rest: p.is_rest,
            span: p.span,
        });
        i = i + 1;
    }
    out
}

/// A deep copy of an optional expression.
pub fn copy_opt_expr(e: &Option<Expr>) -> (r: Option<Expr>)
    ensures
        same_opt_expr(*e, r),
    decreases e,
{
    match e {
        Some(x) => Some(copy_expr(x)),
        None => None,
    }
}

/// Deep copies of expressions, in order.
pub fn copy_exprs(v: &Vec<Expr>) -> (r: Vec<Expr>)
    ensures
        same_exprs(v@, r@),
    decreases v,
{
    let mut out: Vec<Expr> = Vec::new();
    let mut i: usize = 0;
    while i < v.len()
        invariant
            i <= v@.len(),
            out@.len() == i,
            forall|j: int| 0 <= j < i ==> same_expr(#[trigger] v@[j], out@[j]),
        decreases v@.len() - i,
    {
        out.push(copy_expr(&v[i]));
        i = i + 1;
    }
    out
}

fn copy_properties(v: &Vec<ObjectProperty>) -> (r: Vec<ObjectProperty>)
    ensures
        same_props(v@, r@),
    decreases v,
{
    let mut out: Vec<ObjectProperty> = Vec::new();
    let mut i: usize = 0;
    while i < v.len()
        invariant
            i <= v@.len(),
            out@.len() == i,
            forall|j: int|
                0 <= j < i ==> {
                    &&& (#[trigger] v@[j]).key == out@[j].key
                    &&& v@[j].is_spread == out@[j].is_spread
                    &&& v@[j].is_method == out@[j].is_method
                    &&& v@[j].span == out@[j].span
                    &&& same_opt_expr(v@[j].computed_key, out@[j].computed_key)
                    &&& same_expr(v@[j].value, out@[j].value)
                    &&& same_params(v@[j].params@, out@[j].params@)
                    &&& same_opt_type_ann(v@[j].return_type, out@[j].return_type)
                },
        decreases v@.len() - i,
    {
        let p = &v[i];
        assert(decreases_to!(v => v@[i as int]));
        out.push(ObjectProperty {
            key: p.key.clone(),
            computed_key: copy_opt_expr(&p.computed_key),
            value: copy_expr(&p.value),
            is_spread: p.is_spread,
            is_method: p.is_method,
            params: copy_params(&p.params),
            return_type: copy_opt_type_ann(&p.return_type),
            span: p.span,
        });
        i = i + 1;
    }
    out
}

/// A deep copy of an expression.
pub fn copy_expr(e: &Expr) -> (r: Expr)
    ensures
        same_expr(*e, r),
    decreases e,
{
    let kind = match &e.kind {
        ExprKind::NumberLiteral(s) => ExprKind::NumberLiteral(s.clone()),
        ExprKind::StringLiteral(s) => ExprKind::StringLiteral(s.clone()),
        ExprKind::BooleanLiteral(b) => ExprKind::BooleanLiteral(*b),
        ExprKind::NullLiteral => ExprKind::NullLiteral,
        ExprKind::UndefinedLiteral => ExprKind::UndefinedLiteral,
        ExprKind::Identifier(s) => ExprKind::Identifier(s.clone()),
        ExprKind::This => ExprKind::This,
        ExprKind::ArrayLiteral { elements } => ExprKind::ArrayLiteral {
            elements: copy_exprs(elements),
        },
        ExprKind::ObjectLiteral { properties } => ExprKind::ObjectLiteral {
            properties: copy_properties(properties),
        },
        ExprKind::IndexAccess { object, index } => ExprKind::IndexAccess {
            object: Box::new(copy_expr(object)),
            index: Box::new(copy_expr(index)),
        },
        ExprKind::Binary { left, op, right } => ExprKind::Binary {
            left: Box::new(copy_expr(left)),
            op: *op,
            right: Box::new(copy_expr(right)),
        },
        ExprKind::Unary { op, operand } => ExprKind::Unary {
            op: *op,
            operand: Box::new(copy_expr(operand)),
        },
        ExprKind::Typeof { operand } => ExprKind::Typeof { operand: Box::new(copy_expr(operand)) },
        ExprKind::Await { expr } => ExprKind::Await { expr: Box::new(copy_expr(expr)) },
        ExprKind::Call { callee, args } => ExprKind::Call {
            callee: Box::new(copy_expr(callee)),
            args: copy_exprs(args),
        },
        ExprKind::Member { object, property } => ExprKind::Member {
            object: Box::new(copy_expr(object)),
            property: property.clone(),
        },
        ExprKind::OptionalMember { object, property } => ExprKind::OptionalMember {
            object: Box::new(copy_expr(object)),
            property: property.clone(),
        },
        ExprKind::Spread { expr } => ExprKind::Spread { expr: Box::new(copy_expr(expr)) },
        ExprKind::Assignment { name, value } => ExprKind::Assignment {
            name: name.clone(),
            value: Box::new(copy_expr(value)),
        },
        ExprKind::MemberAssignment { object, property, value } => ExprKind::MemberAssignment {
            object: Box::new(copy_expr(object)),
            property: property.clone(),
            value: Box::new(copy_expr(value)),
        },
        ExprKind::ArrowFunction { params, return_type, body, is_async } =>
            ExprKind::ArrowFunction {
            params: copy_params(params),
            return_type: copy_opt_type_ann(return_type),
            body: match body {
                ArrowBody::Expr(x) => ArrowBody::Expr(Box::new(copy_expr(x))),
                ArrowBody::Block(stmts) => ArrowBody::Block(copy_stmts(stmts)),
            },
            is_async: *is_async,
        },
        ExprKind::NewExpr { class_name, args } => ExprKind::NewExpr {
            class_name: class_name.clone(),
            args: copy_exprs(args),
        },
        ExprKind::Conditional { condition, consequent, alternate } => ExprKind::Conditional {
            condition: Box::new(copy_expr(condition)),
            consequent: Box::new(copy_expr(consequent)),
            alternate: Box::new(copy_expr(alternate)),
        },
        ExprKind::Grouping { expr } => ExprKind::Grouping { expr: Box::new(copy_expr(expr)) },
        ExprKind::PostfixUpdate { target, op } => ExprKind::PostfixUpdate {
            target: Box::new(copy_expr(target)),
            op: *op,
        },
        ExprKind::PrefixUpdate { target, op } => ExprKind::PrefixUpdate {
            target: Box::new(copy_expr(target)),
            op: *op,
        },
        ExprKind::TypeAssertion { expr, target_type } => ExprKind::TypeAssertion {
            expr: Box::new(copy_expr(expr)),
            target_type: copy_type_ann(target_type),
        },
        ExprKind::Satisfies { expr, target_type } => ExprKind::Satisfies {
            expr: Box::new(copy_expr(expr)),
            target_type: copy_type_ann(target_type),
        },
    };
    Expr { kind, span: e.span }
}

/// Deep copies of statements, in order.
pub fn copy_stmts(v: &Vec<Statement>) -> (r: Vec<Statement>)
    ensures
        same_stmts(v@, r@),
    decreases v,
{
    let mut out: Vec<Statement> = Vec::new();
    let mut i: usize = 0;
    while i < v.len()
        invariant
            i <= v@.len(),
            out@.len() == i,
            forall|j: int| 0 <= j < i ==> same_stmt(#[trigger] v@[j], out@[j]),
        decreases v@.len() - i,
    {
        out.push(copy_stmt(&v[i]));
        i = i + 1;
    }
    out
}

fn copy_opt_stmts(v: &Option<Vec<Statement>>) -> (r: Option<Vec<Statement>>)
    ensures
        same_opt_stmts(*v, r),
    decreases v,
{
    match v {
        Some(x) => Some(copy_stmts(x)),
        None => None,
    }
}

fn copy_cases(v: &Vec<SwitchCase>) -> (r: Vec<SwitchCase>)
    ensures
        same_cases(v@, r@),
    decreases v,
{
    let mut out: Vec<SwitchCase> = Vec::new();
    let mut i: usize = 0;
    while i < v.len()
        invariant
            i <= v@.len(),
            out@.len() == i,
            forall|j: int|
                0 <= j < i ==> same_opt_expr((#[trigger] v@[j]).test, out@[j].test) && same_stmts(
                    v@[j].body@,
                    out@[j].body@,
                ),
        decreases v@.len() - i,
    {
        let c = &v[i];
        assert(decreases_to!(v => v@[i as int]));
        out.push(SwitchCase { test: copy_opt_expr(&c.test), body: copy_stmts(&c.body) });
        i = i + 1;
    }
    out
}

fn copy_class_fields(v: &Vec<ClassField>) -> (r: Vec<ClassField>)
    ensures
        same_class_fields(v@, r@),
    decreases v,
{
    let mut out: Vec<ClassField> = Vec::new();
    let mut i: usize = 0;
    while i < v.len()
        invariant
            i <= v@.len(),
            out@.len() == i,
            forall|j: int|
                0 <= j < i ==> {
                    &&& (#[trigger] v@[j]).name == out@[j].name
                    &&& v@[j].span == out@[j].span
                    &&& same_opt_type_ann(v@[j].type_ann, out@[j].type_ann)
                    &&& same_opt_expr(v@[j].initializer, out@[j].initializer)
                },
        decreases v@.len() - i,
    {
        let f = &v[i];
        assert(decreases_to!(v => v@[i as int]));
        out.push(ClassField {
            name: f.name.clone(),
            type_ann: copy_opt_type_ann(&f.type_ann),
            initializer: copy_opt_expr(&f.initializer),
            span: f.span,
        });
        i = i + 1;
    }
    out
}

fn copy_methods(v: &Vec<ClassMethod>) -> (r: Vec<ClassMethod>)
    ensures
        same_methods(v@, r@),
    decreases v,
{
    let mut out: Vec<ClassMethod> = Vec::new();
    let mut i: usize = 0;
    while i < v.len()
        invariant
            i <= v@.len(),
            out@.len() == i,
            forall|j: int|
                0 <= j < i ==> {
                    &&& (#[trigger] v@[j]).name == out@[j].name
                    &&& v@[j].span == out@[j].span
                    &&& same_params(v@[j].params@, out@[j].params@)
                    &&& same_opt_type_ann(v@[j].return_type, out@[j].return_type)
                    &&& same_stmts(v@[j].body@, out@[j].body@)
                },
        decreases v@.len() - i,
    {
        let m = &v[i];
        assert(decreases_to!(v => v@[i as int]));
        out.push(ClassMethod {
            name: m.name.clone(),
            params: copy_params(&m.params),
            return_type: copy_opt_type_ann(&m.return_type),
            body: copy_stmts(&m.body),
            span: m.span,
        });
        i = i + 1;
    }
    out
}

fn copy_import_specs(v: &Vec<ImportSpecifier>) -> (r: Vec<ImportSpecifier>)
    ensures
        r@ == v@,
{
    let mut out: Vec<ImportSpecifier> = Vec::new();
    let mut i: usize = 0;
    while i < v.len()
        invariant
            i <= v@.len(),
            out@ == v@.take(i as int),
        decreases v@.len() - i,
    {
        let sp = &v[i];
        out.push(ImportSpecifier {
            imported: sp.imported.clone(),
            local: sp.local.clone(),
            span: sp.span,
        });
        i = i + 1;
        assert(out@ =~= v@.take(i as int));
    }
    assert(v@.take(v@.len() as int) =~= v@);
    out
}

fn copy_members(v: &Vec<EnumMember>) -> (r: Vec<EnumMember>)
    ensures
        r@ == v@,
{
    let mut out: Vec<EnumMember> = Vec::new();
    let mut i: usize = 0;
    while i < v.len()
        invariant
            i <= v@.len(),
            out@ == v@.take(i as int),
        decreases v@.len() - i,
    {
        let m = &v[i];
        let value = match &m.value {
            Some(EnumValue::Number(s)) => Some(EnumValue::Number(s.clone())),
            Some(EnumValue::String(s)) => Some(EnumValue::String(s.clone())),
            None => None,
        };
        out.push(EnumMember { name: m.name.clone(), value, span: m.span });
        i = i + 1;
        assert(out@ =~= v@.take(i as int));
    }
    assert(v@.take(v@.len() as int) =~= v@);
    out
}

fn copy_opt_constructor(c: &Option<ClassConstructor>) -> (r: Option<ClassConstructor>)
    ensures
        same_opt_constructor(*c, r),
    decreases c,
{
    match c {
        Some(c) => Some(
            ClassConstructor { params: copy_params(&c.params), body: copy_stmts(&c.body), span: c.span },
        ),
        None => None,
    }
}

fn copy_opt_boxed_stmt(s: &Option<Box<Statement>>) -> (r: Option<Box<Statement>>)
    ensures
        match *s {
            Some(x) => r matches Some(y) && same_stmt(*x, *y),
            None => r is None,
        },
    decreases s,
{
    match s {
        Some(b) => Some(Box::new(copy_stmt(b))),
        None => None,
    }
}

/// A deep copy of a statement.
pub fn copy_stmt(s: &Statement) -> (r: Statement)
    ensures
        same_stmt(*s, r),
    decreases s,
{
    let kind = match &s.kind {
        StmtKind::VariableDecl { name, is_const, type_ann, initializer, is_exported } =>
            StmtKind::VariableDecl {
            name: name.clone(),
            is_const: *is_const,
            type_ann: copy_opt_type_ann(type_ann),
            initializer: copy_opt_expr(initializer),
            is_exported: *is_exported,
        },
        StmtKind::FunctionDecl {
            name,
            type_params,
            params,
            return_type,
            body,
            is_exported,
            is_async,
        } => StmtKind::FunctionDecl {
            name: name.clone(),
            type_params: copy_type_params(type_params),
            params: copy_params(params),
            return_type: copy_opt_type_ann(return_type),
            body: copy_stmts(body),
            is_exported: *is_exported,
            is_async: *is_async,
        },
        StmtKind::ClassDecl {
            name,
            type_params,
            parent,
            parent_type_args,
            fields,
            constructor,
            methods,
        } => StmtKind::ClassDecl {
            name: name.clone(),
            type_params: copy_type_params(type_params),
            parent: copy_opt_string(parent),
            parent_type_args: copy_type_anns(parent_type_args),
            fields: copy_class_fields(fields),
            constructor: copy_opt_constructor(constructor),
            methods: copy_methods(methods),
        },
        StmtKind::InterfaceDecl { name, extends, fields } => StmtKind::InterfaceDecl {
            name: name.clone(),
            extends: copy_strings(extends),
            fields: copy_ann_fields(fields),
        },
        StmtKind::If { condition, then_branch, else_branch } => StmtKind::If {
            condition: copy_expr(condition),
            then_branch: copy_stmts(then_branch),
            else_branch: copy_opt_stmts(else_branch),
        },
        StmtKind::While { condition, body } => StmtKind::While {
            condition: copy_expr(condition),
            body: copy_stmts(body),
        },
        StmtKind::DoWhile { body, condition } => StmtKind::DoWhile {
            body: copy_stmts(body),
            condition: copy_expr(condition),
        },
        StmtKind::For { init, condition, update, body } => StmtKind::For {
            init: copy_opt_boxed_stmt(init),
            condition: copy_opt_expr(condition),
            update: copy_opt_expr(update),
            body: copy_stmts(body),
        },
        StmtKind::Return { value } => StmtKind::Return { value: copy_opt_expr(value) },
        StmtKind::Expression { expr } => StmtKind::Expression { expr: copy_expr(expr) },
        StmtKind::Block { statements } => StmtKind::Block { statements: copy_stmts(statements) },
        StmtKind::Import { specifiers, source } => StmtKind::Import {
            specifiers: copy_import_specs(specifiers),
            source: source.clone(),
        },
        StmtKind::Switch { discriminant, cases } => StmtKind::Switch {
            discriminant: copy_expr(discriminant),
            cases: copy_cases(cases),
        },
        StmtKind::ForOf { var_name, is_const, iterable, body } => StmtKind::ForOf {
            var_name: var_name.clone(),
            is_const: *is_const,
            iterable: copy_expr(iterable),
            body: copy_stmts(body),
        },
        StmtKind::ForIn { var_name, object, body } => StmtKind::ForIn {
            var_name: var_name.clone(),
            object: copy_expr(object),
            body: copy_stmts(body),
        },
        StmtKind::ArrayDestructure { names, initializer, is_const } =>
            StmtKind::ArrayDestructure {
            names: copy_strings(names),
            initializer: copy_expr(initializer),
            is_const: *is_const,
        },
        StmtKind::ObjectDestructure { names, initializer, is_const } =>
            StmtKind::ObjectDestructure {
            names: copy_string_pairs(names),
            initializer: copy_expr(initializer),
            is_const: *is_const,
        },
        StmtKind::TypeAlias { name, type_params, type_ann } => StmtKind::TypeAlias {
            name: name.clone(),
            type_params: copy_type_params(type_params),
            type_ann: copy_type_ann(type_ann),
        },
        StmtKind::EnumDecl { name, members } => StmtKind::EnumDecl {
            name: name.clone(),
            members: copy_members(members),
        },
        StmtKind::Break { label } => StmtKind::Break { label: copy_opt_string(label) },
        StmtKind::Continue { label } => StmtKind::Continue { label: copy_opt_string(label) },
        StmtKind::Labeled { label, body } => StmtKind::Labeled {
            label: label.clone(),
            body: Box::new(copy_stmt(body)),
        },
        StmtKind::Throw { value } => StmtKind::Throw { value: copy_expr(value) },
        StmtKind::TryCatch { body, catch_binding, catch_body, finally_body } =>
            StmtKind::TryCatch {
            body: copy_stmts(body),
            catch_binding: copy_opt_string(catch_binding),
            catch_body: copy_opt_stmts(catch_body),
            finally_body: copy_opt_stmts(finally_body),
        },
        StmtKind::Empty => StmtKind::Empty,
    };
    Statement { kind, span: s.span }
}

} // verus!
