//! Type checker: structural typing with inference.
use vstd::prelude::*;

use crate::diagnostics::{CompileError, Severity};
use crate::lexer::token::Span;
use crate::parser::ast::{
    ArrowBody, BinOp, EnumValue, Expr, ExprKind, ObjectProperty, Parameter, Program, Statement,
    StmtKind, SwitchCase,
    TypeAnnKind, TypeAnnotation, UnaryOp,
};
use crate::parser::copy::copy_type_ann;
use crate::text::{append_decimal, decimal, eq_str, push_char, string_of};
use crate::types::assign::{assignable, is_assignable};
use crate::types::ty::{
    copy_fields, copy_types, lemma_type_eq_refl, lemma_types_eq_pointwise, type_eq, type_text,
    types_eq, Type,
};

verus! {

broadcast use vstd::std_specs::vec::group_vec_axioms;

/// How deeply generic type aliases are expanded inside one another before the
/// checker gives up on an annotation and treats it as `unknown`.
pub const ALIAS_EXPANSION_LIMIT: usize = 1000;

/// What every type error is: an error-severity diagnostic without a hint.
pub open spec fn type_error(e: CompileError) -> bool {
    e.severity == Severity::Error && e.hint is None
}

pub struct Symbol {
    pub ty: Type,
    pub is_const: bool,
}

pub struct Scope {
    pub symbols: Vec<(String, Symbol)>,
}

struct GenericSignature {
    type_params: Vec<String>,
    params: Vec<Type>,
    return_type: Type,
}

struct GenericAlias {
    type_params: Vec<String>,
    body: TypeAnnotation,
}

/// The value recorded under key `k` in an association list: the first entry
/// whose key is `k`.
pub open spec fn entry_for<V>(s: Seq<(String, V)>, k: Seq<char>) -> Option<V>
    decreases s.len(),
{
    if s.len() == 0 {
        None
    } else if s[0].0@ == k {
        Some(s[0].1)
    } else {
        entry_for(s.subrange(1, s.len() as int), k)
    }
}

/// Every key of `a` is a key of `b`.
pub open spec fn keys_kept<V>(a: Seq<(String, V)>, b: Seq<(String, V)>) -> bool {
    forall|k: Seq<char>| (#[trigger] entry_for(a, k)) is Some ==> entry_for(b, k) is Some
}

/// A function type with `n` parameters.
pub open spec fn function_of_arity(t: Type, n: nat) -> bool {
    t matches Type::Function { params, .. } && params@.len() == n
}

/// An object type with `n` fields.
pub open spec fn object_of_size(t: Type, n: nat) -> bool {
    t matches Type::Object { fields } && fields@.len() == n
}

/// A name resolves to a symbol of the given constness.
pub open spec fn bound_as(scopes: Seq<Scope>, name: Seq<char>, is_const: bool) -> bool {
    lookup_in(scopes, name) matches Some(sym) && sym.is_const == is_const
}

/// A name resolves to a number symbol of the given constness.
pub open spec fn bound_number(scopes: Seq<Scope>, name: Seq<char>, is_const: bool) -> bool {
    lookup_in(scopes, name) matches Some(sym) && sym.is_const == is_const && sym.ty is Number
}

/// What a declaration binds, as the scopes show it afterwards: a variable with
/// its constness, a function (constant, with its arity), a class, an interface
/// or an enum (constant, as a class or object type), and each destructured name.
pub open spec fn binds(s: Statement, scopes: Seq<Scope>) -> bool {
    match s.kind {
        StmtKind::VariableDecl { name, is_const, .. } => bound_as(scopes, name@, is_const),
        StmtKind::FunctionDecl { name, params, .. } => bound_as(scopes, name@, true) && signature_of(
            lookup_in(scopes, name@)->0.ty,
            params@,
        ),
        StmtKind::ClassDecl { name, .. } => bound_as(scopes, name@, true) && lookup_in(
            scopes,
            name@,
        )->0.ty is Class,
        StmtKind::InterfaceDecl { name, .. } => bound_as(scopes, name@, true) && lookup_in(
            scopes,
            name@,
        )->0.ty is Object,
        StmtKind::EnumDecl { name, members } => bound_as(scopes, name@, true) && object_of_size(
            lookup_in(scopes, name@)->0.ty,
            members@.len(),
        ),
        StmtKind::ArrayDestructure { names, is_const, .. } => forall|i: int|
            0 <= i < names@.len() ==> #[trigger] bound_number(scopes, names@[i]@, is_const),
        StmtKind::ObjectDestructure { names, is_const, .. } => forall|i: int|
            0 <= i < names@.len() ==> #[trigger] bound_as(scopes, names@[i].0@, is_const),
        _ => true,
    }
}

/// Whether `s` declares the name `k` in the scope where it stands: the name
/// of a variable, function, class, interface or enum, or one of the names a
/// destructuring binds. Statements with bodies of their own declare nothing
/// there; a labeled statement declares what its body does.
pub open spec fn declares(s: Statement, k: Seq<char>) -> bool
    decreases s,
{
    match s.kind {
        StmtKind::VariableDecl { name, .. } => name@ == k,
        StmtKind::FunctionDecl { name, .. } => name@ == k,
        StmtKind::ClassDecl { name, .. } => name@ == k,
        StmtKind::InterfaceDecl { name, .. } => name@ == k,
        StmtKind::EnumDecl { name, .. } => name@ == k,
        StmtKind::ArrayDestructure { names, .. } => exists|i: int|
            0 <= i < names@.len() && #[trigger] names@[i]@ == k,
        StmtKind::ObjectDestructure { names, .. } => exists|i: int|
            0 <= i < names@.len() && #[trigger] names@[i].0@ == k,
        StmtKind::Labeled { body, .. } => declares(*body, k),
        _ => false,
    }
}

/// The scopes a statement that passes leaves, given those it started in: as
/// many of them, what it declares bound as `binds` says, and every name it
/// does not declare resolving as before.
pub open spec fn scopes_after(s: Statement, before: Seq<Scope>, after: Seq<Scope>) -> bool {
    &&& after.len() == before.len()
    &&& before.len() > 0 ==> binds(s, after)
    &&& forall|k: Seq<char>| !declares(s, k) ==> #[trigger] lookup_in(after, k) == lookup_in(before, k)
}

/// The name of a function declaration.
pub open spec fn fn_decl_name(s: Statement) -> Option<Seq<char>> {
    match s.kind {
        StmtKind::FunctionDecl { name, .. } => Some(name@),
        _ => None,
    }
}

/// Whether one of the first `n` statements declares a function named `k`.
pub open spec fn hoists(stmts: Seq<Statement>, n: int, k: Seq<char>) -> bool {
    exists|q: int| 0 <= q < n && #[trigger] fn_decl_name(stmts[q]) == Some(k)
}

/// Whether statement `q` is the last of the first `n` to declare a function
/// named `k`.
pub open spec fn last_decl(stmts: Seq<Statement>, n: int, q: int, k: Seq<char>) -> bool {
    &&& 0 <= q < n
    &&& fn_decl_name(stmts[q]) == Some(k)
    &&& forall|m: int| q < m < n ==> fn_decl_name(#[trigger] stmts[m]) != Some(k)
}

/// The scopes checking `stmts` starts from, given the scopes `base` the
/// checker stood in and the symbols it imports: as many scopes; each function
/// the statements declare bound, hoisted, as a constant function; each
/// imported name that no such function takes bound as a constant; every
/// other name resolving as in `base`.
pub open spec fn hoisted_start(
    base: Seq<Scope>,
    imports: Seq<(String, Type)>,
    stmts: Seq<Statement>,
    start: Seq<Scope>,
) -> bool {
    let n = stmts.len() as int;
    &&& start.len() == base.len()
    &&& forall|x: Seq<char>|
        entry_for(imports, x) is None && !hoists(stmts, n, x) ==> #[trigger] lookup_in(start, x)
            == lookup_in(base, x)
    &&& base.len() > 0 ==> forall|x: Seq<char>|
        hoists(stmts, n, x) ==> (#[trigger] lookup_in(start, x) matches Some(sym) && sym.is_const
            && sym.ty is Function)
    &&& base.len() > 0 ==> forall|x: Seq<char>, q: int|
        #[trigger] last_decl(stmts, n, q, x) ==> (lookup_in(start, x) matches Some(sym)
            && signature_of(sym.ty, stmts[q].kind->FunctionDecl_params@))
    &&& base.len() > 0 ==> forall|x: Seq<char>|
        entry_for(imports, x) is Some && !hoists(stmts, n, x) ==> (#[trigger] lookup_in(start, x) matches Some(
            sym,
        ) && sym.is_const)
}

/// The scopes a fresh checker that imports `imports` starts checking
/// `stmts` from: one scope, where each function the statements declare is
/// bound (hoisted) as a constant function, each imported name that no such
/// function takes as a constant, and no other name but the builtin ones.
pub open spec fn fresh_start(
    imports: Seq<(String, Type)>,
    stmts: Seq<Statement>,
    start: Seq<Scope>,
) -> bool {
    let n = stmts.len() as int;
    &&& start.len() == 1
    &&& forall|x: Seq<char>|
        !builtin_name(x) && entry_for(imports, x) is None && !hoists(stmts, n, x)
            ==> #[trigger] lookup_in(start, x) is None
    &&& forall|x: Seq<char>|
        hoists(stmts, n, x) ==> (#[trigger] lookup_in(start, x) matches Some(sym) && sym.is_const
            && sym.ty is Function)
    &&& forall|x: Seq<char>, q: int|
        #[trigger] last_decl(stmts, n, q, x) ==> (lookup_in(start, x) matches Some(sym)
            && signature_of(sym.ty, stmts[q].kind->FunctionDecl_params@))
    &&& forall|x: Seq<char>|
        entry_for(imports, x) is Some && !hoists(stmts, n, x) ==> (#[trigger] lookup_in(start, x) matches Some(
            sym,
        ) && sym.is_const)
}

/// What checking `stmts` with a fresh checker that imports `imports` gives:
/// the statements checked in order from the scopes `fresh_start` describes,
/// each in the scopes the ones before it left (`TypeChecker::run_of`).
pub open spec fn checks_fresh(
    imports: Seq<(String, Type)>,
    stmts: Seq<Statement>,
    r: Result<(), CompileError>,
) -> bool {
    exists|ss: Seq<Seq<Scope>>|
        #[trigger] TypeChecker::run_of(None, None, stmts, ss, r) && fresh_start(imports, stmts, ss[0])
}

/// Checking with a fresh checker starts from the scopes `fresh_start` describes.
pub proof fn lemma_fresh_start(
    base: Seq<Scope>,
    imports: Seq<(String, Type)>,
    stmts: Seq<Statement>,
    start: Seq<Scope>,
)
    requires
        hoisted_start(base, imports, stmts, start),
        base.len() == 1,
        forall|x: Seq<char>| !builtin_name(x) ==> #[trigger] lookup_in(base, x) is None,
    ensures
        fresh_start(imports, stmts, start),
{
}

/// A result that carries no value, as its variant and error alone.
pub open spec fn unit_result(r: Result<(), CompileError>) -> Result<(), CompileError> {
    match r {
        Ok(_) => Ok(()),
        Err(e) => Err(e),
    }
}

/// An optional expression fails with `e`: it is there and checking it fails so.
pub open spec fn opt_fails(scopes: Seq<Scope>, this_type: Option<Type>, o: Option<Expr>, e: CompileError) -> bool {
    o matches Some(x) && TypeChecker::expr_outcome(scopes, this_type, x, Err::<Type, CompileError>(e))
}

/// An optional expression passes: it is absent or checking it can succeed.
pub open spec fn opt_passes(scopes: Seq<Scope>, this_type: Option<Type>, o: Option<Expr>) -> bool {
    o matches Some(x) ==> TypeChecker::expr_passes(scopes, this_type, x)
}

/// The scopes a `catch` body is checked in: one more scope over `scopes`,
/// where the caught value's name, if any, is bound as a variable of type
/// `unknown`.
pub open spec fn catch_frame(scopes: Seq<Scope>, binding: Option<String>, inner: Seq<Scope>) -> bool {
    match binding {
        Some(b) => var_frame(scopes, b@, Type::Unknown, inner),
        None => new_frame(scopes, inner),
    }
}

/// Whether a record of scopes starts with `sc`.
pub open spec fn starts_with(ss: Seq<Seq<Scope>>, sc: Seq<Scope>) -> bool {
    ss.len() > 0 && ss[0] == sc
}

/// Whether `inner` are the scopes of a body checked in a scope of its own
/// opened over `scopes`: one more scope, empty, over the same ones.
pub open spec fn new_frame(scopes: Seq<Scope>, inner: Seq<Scope>) -> bool {
    &&& inner.len() == scopes.len() + 1
    &&& inner.drop_last() == scopes
    &&& inner.last().symbols@.len() == 0
}

/// Whether `inner` are the scopes a branch of an `if` on `condition` is
/// checked in: one more scope over `scopes`, where every name resolves as in
/// `scopes` but the variable whose `typeof` the condition tests, if it does.
pub open spec fn narrow_frame(scopes: Seq<Scope>, condition: Expr, inner: Seq<Scope>) -> bool {
    &&& inner.len() == scopes.len() + 1
    &&& inner.drop_last() == scopes
    &&& forall|k: Seq<char>|
        !(typeof_test(condition) matches Some((v, _, _)) && v == k) ==> #[trigger] lookup_in(inner, k)
            == lookup_in(scopes, k)
}

/// Whether `inner` are the scopes a loop body is checked in, opened over
/// `scopes` with the loop variable `name` bound as a variable of type `t`:
/// every other name resolves as in `scopes`.
pub open spec fn var_frame(scopes: Seq<Scope>, name: Seq<char>, t: Type, inner: Seq<Scope>) -> bool {
    &&& inner.len() == scopes.len() + 1
    &&& inner.drop_last() == scopes
    &&& lookup_in(inner, name) == Some(Symbol { ty: t, is_const: false })
    &&& forall|k: Seq<char>| k != name ==> #[trigger] lookup_in(inner, k) == lookup_in(scopes, k)
}

/// Whether parameter `j` is the last one of its name.
pub open spec fn last_param(params: Seq<Parameter>, j: int) -> bool {
    &&& 0 <= j < params.len()
    &&& forall|l: int| j < l < params.len() ==> params[l].name@ != params[j].name@
}

/// Whether `inner` are the scopes the body of function `fname` with
/// parameters `params` is checked in, given the scopes `scopes` its
/// declaration stands in: one more scope; each parameter bound as a variable;
/// the function itself, unless a parameter takes its name, bound as a
/// constant function; every other name resolving as in `scopes`.
pub open spec fn fn_frame(
    scopes: Seq<Scope>,
    fname: Seq<char>,
    params: Seq<Parameter>,
    inner: Seq<Scope>,
) -> bool {
    &&& inner.len() == scopes.len() + 1
    &&& forall|k: Seq<char>|
        k != fname && (forall|j: int| 0 <= j < params.len() ==> params[j].name@ != k)
            ==> #[trigger] lookup_in(inner, k) == lookup_in(scopes, k)
    &&& scopes.len() > 0 ==> forall|j: int|
        #[trigger] last_param(params, j) ==> (lookup_in(inner, params[j].name@) matches Some(sym)
            && !sym.is_const)
    &&& scopes.len() > 0 && (forall|j: int| 0 <= j < params.len() ==> params[j].name@ != fname)
        ==> (lookup_in(inner, fname) matches Some(sym) && sym.is_const && sym.ty is Function)
}

/// Whether `inner` are the scopes a function body is checked in, opened
/// over `scopes`: one more scope, each parameter bound as a variable, every
/// other name resolving as in `scopes`.
pub open spec fn param_frame(scopes: Seq<Scope>, params: Seq<Parameter>, inner: Seq<Scope>) -> bool {
    &&& inner.len() == scopes.len() + 1
    &&& forall|k: Seq<char>|
        (forall|j: int| 0 <= j < params.len() ==> params[j].name@ != k) ==> #[trigger] lookup_in(
            inner,
            k,
        ) == lookup_in(scopes, k)
    &&& forall|j: int|
        #[trigger] last_param(params, j) ==> (lookup_in(inner, params[j].name@) matches Some(sym)
            && !sym.is_const)
}

/// A scope opened empty hides no name.
pub proof fn lemma_new_frame_lookup(scopes: Seq<Scope>, inner: Seq<Scope>)
    requires
        new_frame(scopes, inner),
    ensures
        forall|k: Seq<char>| #[trigger] lookup_in(inner, k) == lookup_in(scopes, k),
{
    assert forall|k: Seq<char>| #[trigger] lookup_in(inner, k) == lookup_in(scopes, k) by {
        assert(entry_for(inner.last().symbols@, k) is None);
    }
}

/// Whether `t` is the return type a function with the return annotation `ann`
/// is checked against: `void` without one, the annotated type where it is a
/// plain one.
pub open spec fn declared_return(ann: Option<TypeAnnotation>, t: Type) -> bool {
    &&& ann is None ==> t is Void
    &&& ann matches Some(a) ==> (plain_ann_type(a.kind) matches Some(p) ==> t == p)
}

/// Whether `t` is the type a function with parameters `params` is given: a
/// function type with a parameter type for each parameter, and for each
/// parameter that is not a rest one and is annotated with a plain type,
/// that type.
pub open spec fn signature_of(t: Type, params: Seq<Parameter>) -> bool {
    t matches Type::Function { params: ps, .. } && ps@.len() == params.len() && forall|j: int|
        (0 <= j < params.len() && !params[j].is_rest) ==> (#[trigger] params[j].type_ann matches Some(
            a,
        ) ==> (plain_ann_type(a.kind) matches Some(p) ==> type_eq(ps@[j], p)))
}

/// Whether an expression is built of literals and names with binary
/// operators, assignments and parentheses only.
pub open spec fn chain_expr(e: Expr) -> bool
    decreases e,
{
    match e.kind {
        ExprKind::NumberLiteral(_) | ExprKind::StringLiteral(_) | ExprKind::BooleanLiteral(_)
        | ExprKind::NullLiteral | ExprKind::UndefinedLiteral | ExprKind::Identifier(_) => true,
        ExprKind::Binary { left, right, .. } => chain_expr(*left) && chain_expr(*right),
        ExprKind::Assignment { value, .. } => chain_expr(*value),
        ExprKind::Grouping { expr } => chain_expr(*expr),
        _ => false,
    }
}

/// Whether a statement declares and exports nothing: it is empty, a jump,
/// an expression statement, `return` or unexported variable declaration over
/// such expressions, or a block, `if` or `while` of such statements.
pub open spec fn plain_stmt(s: Statement) -> bool
    decreases s,
{
    match s.kind {
        StmtKind::Empty | StmtKind::Break { .. } | StmtKind::Continue { .. } => true,
        StmtKind::Expression { expr } => chain_expr(expr),
        StmtKind::Return { value } => match value {
            Some(v) => chain_expr(v),
            None => true,
        },
        StmtKind::VariableDecl { is_exported, initializer, .. } => !is_exported && match initializer {
            Some(v) => chain_expr(v),
            None => true,
        },
        StmtKind::Block { statements } => forall|i: int|
            0 <= i < statements@.len() ==> plain_stmt(#[trigger] statements@[i]),
        StmtKind::If { condition, then_branch, else_branch } => chain_expr(condition) && (forall|i: int|
            0 <= i < then_branch@.len() ==> plain_stmt(#[trigger] then_branch@[i])) && match else_branch {
            Some(eb) => forall|i: int| 0 <= i < eb@.len() ==> plain_stmt(#[trigger] eb@[i]),
            None => true,
        },
        StmtKind::While { condition, body } => chain_expr(condition) && forall|i: int|
            0 <= i < body@.len() ==> plain_stmt(#[trigger] body@[i]),
        _ => false,
    }
}

/// Whether every statement of `ss` is plain (`plain_stmt`).
pub open spec fn plain_stmts(ss: Seq<Statement>) -> bool {
    forall|i: int| 0 <= i < ss.len() ==> plain_stmt(#[trigger] ss[i])
}

/// Whether `t` is the function type a function with parameters `params` and
/// return annotation `ann` is exported with: its signature (`signature_of`)
/// and, for a plain return annotation or none, that return type.
pub open spec fn exported_signature(t: Type, params: Seq<Parameter>, ann: Option<TypeAnnotation>) -> bool {
    &&& signature_of(t, params)
    &&& t matches Type::Function { return_type, .. } && (ann is None ==> *return_type is Void) && (
    ann matches Some(a) ==> (plain_ann_type(a.kind) matches Some(p) ==> type_eq(*return_type, p)))
}

/// Structurally equal types agree with a plain type.
pub proof fn lemma_type_eq_plain(a: Type, b: Type, p: Type)
    requires
        type_eq(a, b),
        type_eq(b, p),
        p is Number || p is String || p is Boolean || p is Void || p is Null || p is Undefined,
    ensures
        type_eq(a, p),
{
}

/// A structural copy of an exported function type is exported with the
/// same signature.
pub proof fn lemma_exported_signature_copy(
    a: Type,
    b: Type,
    params: Seq<Parameter>,
    ann: Option<TypeAnnotation>,
)
    requires
        type_eq(a, b),
        exported_signature(b, params, ann),
    ensures
        exported_signature(a, params, ann),
{
    assert(a is Function);
    let pa = a->Function_params@;
    let pb = b->Function_params@;
    assert(types_eq(pa, pb) && type_eq(*a->Function_return_type, *b->Function_return_type));
    lemma_types_eq_pointwise(pa, pb);
    assert(pa.len() == params.len());
    if ann is None {
        assert(*b->Function_return_type is Void);
        assert(*a->Function_return_type is Void);
    }
    assert forall|j: int|
        (0 <= j < params.len() && !params[j].is_rest) implies (#[trigger] params[j].type_ann matches Some(
            x,
        ) ==> (plain_ann_type(x.kind) matches Some(p) ==> type_eq(pa[j], p))) by {
        if params[j].type_ann is Some {
            let x = params[j].type_ann->0;
            if let Some(p) = plain_ann_type(x.kind) {
                assert(type_eq(pa[j], pb[j]));
                lemma_type_eq_plain(pa[j], pb[j], p);
            }
        }
    }
    if ann is Some {
        if let Some(p) = plain_ann_type(ann->0.kind) {
            lemma_type_eq_plain(*a->Function_return_type, *b->Function_return_type, p);
        }
    }
}

/// A function type taking one string and returning a number.
pub open spec fn string_to_number(t: Type) -> bool {
    t matches Type::Function { params, return_type } && params@.len() == 1 && params@[0] is String
        && *return_type is Number
}

/// Whether `exports` holds the signature (`exported_signature`) of `s` when
/// `s` declares an exported function whose body, like every statement of
/// `later`, is plain (`plain_stmts`): those declare and export nothing that
/// could take its place.
pub open spec fn export_typed(s: Statement, later: Seq<Statement>, exports: Seq<(String, Type)>) -> bool {
    match s.kind {
        StmtKind::FunctionDecl { is_exported, params, return_type, body, name, .. } => is_exported
            && plain_stmts(body@) && plain_stmts(later) ==> (entry_for(exports, name@) matches Some(t)
            && exported_signature(t, params@, return_type)),
        _ => true,
    }
}

/// The name of a statement that declares an exported function.
pub open spec fn exported_function(s: Statement) -> Option<Seq<char>> {
    match s.kind {
        StmtKind::FunctionDecl { name, is_exported, .. } => if is_exported {
            Some(name@)
        } else {
            None
        },
        _ => None,
    }
}

/// The symbol a name resolves to: its entry in the innermost scope that has one.
pub open spec fn lookup_in(scopes: Seq<Scope>, k: Seq<char>) -> Option<Symbol>
    decreases scopes.len(),
{
    if scopes.len() == 0 {
        None
    } else {
        match entry_for(scopes.last().symbols@, k) {
            Some(sym) => Some(sym),
            None => lookup_in(scopes.drop_last(), k),
        }
    }
}

proof fn lemma_entry_for_index<V>(s: Seq<(String, V)>, k: Seq<char>, i: int)
    requires
        0 <= i < s.len(),
        s[i].0@ == k,
        forall|j: int| 0 <= j < i ==> s[j].0@ != k,
    ensures
        entry_for(s, k) == Some(s[i].1),
    decreases s.len(),
{
    if i > 0 {
        let t = s.subrange(1, s.len() as int);
        assert forall|j: int| 0 <= j < i - 1 implies t[j].0@ != k by {
            assert(t[j] == s[j + 1]);
        }
        lemma_entry_for_index(t, k, i - 1);
    }
}

pub proof fn lemma_entry_for_none<V>(s: Seq<(String, V)>, k: Seq<char>)
    requires
        forall|j: int| 0 <= j < s.len() ==> s[j].0@ != k,
    ensures
        entry_for(s, k) is None,
    decreases s.len(),
{
    if s.len() > 0 {
        let t = s.subrange(1, s.len() as int);
        assert forall|j: int| 0 <= j < t.len() implies t[j].0@ != k by {
            assert(t[j] == s[j + 1]);
        }
        lemma_entry_for_none(t, k);
    }
}

proof fn lemma_entry_for_absent<V>(s: Seq<(String, V)>, k: Seq<char>)
    requires
        entry_for(s, k) is None,
    ensures
        forall|j: int| 0 <= j < s.len() ==> s[j].0@ != k,
    decreases s.len(),
{
    if s.len() > 0 {
        let t = s.subrange(1, s.len() as int);
        lemma_entry_for_absent(t, k);
        assert forall|j: int| 0 <= j < s.len() implies s[j].0@ != k by {
            if j > 0 {
                assert(t[j - 1] == s[j]);
            }
        }
    }
}

proof fn lemma_entry_for_push<V>(s: Seq<(String, V)>, x: (String, V), key: Seq<char>)
    requires
        x.0@ != key,
    ensures
        entry_for(s.push(x), key) == entry_for(s, key),
    decreases s.len(),
{
    let t = s.push(x);
    if s.len() == 0 {
        let e = t.subrange(1, t.len() as int);
        assert(e =~= Seq::<(String, V)>::empty());
        assert(entry_for(e, key) is None);
        assert(entry_for(t, key) == entry_for(e, key));
    } else {
        assert(t[0] == s[0]);
        assert(t.subrange(1, t.len() as int) =~= s.subrange(1, s.len() as int).push(x));
        lemma_entry_for_push(s.subrange(1, s.len() as int), x, key);
    }
}

/// What a key finds after an entry is appended: what it found before, if
/// anything, else the new entry where the keys agree.
proof fn lemma_entry_for_push_any<V>(s: Seq<(String, V)>, x: (String, V), key: Seq<char>)
    ensures
        entry_for(s.push(x), key) == (if entry_for(s, key) is Some {
            entry_for(s, key)
        } else if x.0@ == key {
            Some(x.1)
        } else {
            None
        }),
    decreases s.len(),
{
    let t = s.push(x);
    if x.0@ != key {
        lemma_entry_for_push(s, x, key);
    } else if s.len() == 0 {
        lemma_entry_for_index(t, key, 0);
    } else if s[0].0@ == key {
        assert(t[0] == s[0]);
    } else {
        assert(t[0] == s[0]);
        assert(t.subrange(1, t.len() as int) =~= s.subrange(1, s.len() as int).push(x));
        lemma_entry_for_push_any(s.subrange(1, s.len() as int), x, key);
    }
}

proof fn lemma_entry_for_set<V>(s: Seq<(String, V)>, i: int, x: (String, V), key: Seq<char>)
    requires
        0 <= i < s.len(),
        x.0@ != key,
        s[i].0@ != key,
    ensures
        entry_for(s.update(i, x), key) == entry_for(s, key),
    decreases s.len(),
{
    let t = s.update(i, x);
    if i == 0 {
        assert(t.subrange(1, t.len() as int) =~= s.subrange(1, s.len() as int));
    } else {
        assert(t[0] == s[0]);
        assert(t.subrange(1, t.len() as int) =~= s.subrange(1, s.len() as int).update(i - 1, x));
        lemma_entry_for_set(s.subrange(1, s.len() as int), i - 1, x, key);
    }
}

/// Index of the first entry with key `k`.
fn find_index<V>(m: &Vec<(String, V)>, k: &str) -> (r: Option<usize>)
    ensures
        match r {
            Some(i) => i < m@.len() && m@[i as int].0@ == k@ && entry_for(m@, k@) == Some(
                m@[i as int].1,
            ) && (forall|j: int| 0 <= j < i ==> m@[j].0@ != k@),
            None => entry_for(m@, k@) is None,
        },
{
    let mut i: usize = 0;
    while i < m.len()
        invariant
            i <= m@.len(),
            forall|j: int| 0 <= j < i ==> m@[j].0@ != k@,
        decreases m@.len() - i,
    {
        if eq_str(&m[i].0, k) {
            proof {
                lemma_entry_for_index(m@, k@, i as int);
            }
            return Some(i);
        }
        i = i + 1;
    }
    proof {
        lemma_entry_for_none(m@, k@);
    }
    None
}

/// Records `v` under `k`, replacing an earlier entry with that key; the
/// entries under other keys stay.
fn insert_entry<V>(m: &mut Vec<(String, V)>, k: String, v: V)
    ensures
        entry_for(final(m)@, k@) == Some(v),
        forall|key: Seq<char>| key != k@ ==> entry_for(final(m)@, key) == entry_for(old(m)@, key),
{
    match find_index(m, k.as_str()) {
        Some(i) => {
            let ghost key = k@;
            let ghost entry = (k, v);
            m.set(i, (k, v));
            proof {
                assert(m@ == old(m)@.update(i as int, entry));
                assert forall|other: Seq<char>| other != key implies entry_for(m@, other)
                    == entry_for(old(m)@, other) by {
                    lemma_entry_for_set(old(m)@, i as int, entry, other);
                }
                assert forall|j: int| 0 <= j < i implies m@[j].0@ != key by {
                    assert(m@[j] == old(m)@[j]);
                }
                lemma_entry_for_index(m@, key, i as int);
            }
        },
        None => {
            let ghost key = k@;
            let ghost n = m@.len();
            let ghost entry = (k, v);
            proof {
                lemma_entry_for_absent(m@, key);
            }
            m.push((k, v));
            proof {
                assert(m@ == old(m)@.push(entry));
                assert forall|other: Seq<char>| other != key implies entry_for(m@, other)
                    == entry_for(old(m)@, other) by {
                    lemma_entry_for_push(old(m)@, entry, other);
                }
                assert forall|j: int| 0 <= j < n implies m@[j].0@ != key by {
                    assert(m@[j] == old(m)@[j]);
                }
            }
            proof {
                lemma_entry_for_index(m@, key, n as int);
            }
        },
    }
}

} // verus!

verus! {

/// `a` + `name` + `b`.
fn msg_name(a: &str, name: &String, b: &str) -> (r: String)
    ensures
        r@ == a@ + name@ + b@,
{
    let mut m = string_of(a);
    m.append(name.as_str());
    m.append(b);
    m
}

/// `a` + the decimal digits of `n`.
fn msg_count(a: &str, n: usize) -> (r: String)
    ensures
        r@ == a@ + decimal(n as nat),
{
    let mut m = string_of(a);
    append_decimal(&mut m, n);
    m
}

/// `a` + the type written out + `b`.
fn msg_type(a: &str, t: &Type, b: &str) -> (r: String)
    ensures
        r@ == a@ + type_text(*t) + b@,
{
    let mut m = string_of(a);
    m.append(t.to_display_string().as_str());
    m.append(b);
    m
}

/// `a` + first type + `b` + second type + `c`.
fn msg_types(a: &str, t1: &Type, b: &str, t2: &Type, c: &str) -> (r: String)
    ensures
        r@ == a@ + type_text(*t1) + b@ + type_text(*t2) + c@,
{
    let mut m = string_of(a);
    m.append(t1.to_display_string().as_str());
    m.append(b);
    m.append(t2.to_display_string().as_str());
    m.append(c);
    m
}

/// `a` + first number + `b` + second number + `c`.
fn msg_counts(a: &str, n1: usize, b: &str, n2: usize, c: &str) -> (r: String)
    ensures
        r@ == a@ + decimal(n1 as nat) + b@ + decimal(n2 as nat) + c@,
{
    let mut m = string_of(a);
    append_decimal(&mut m, n1);
    m.append(b);
    append_decimal(&mut m, n2);
    m.append(c);
    m
}

fn type_err(message: String, span: Span) -> (e: CompileError)
    ensures
        type_error(e),
        e.message == message,
        e.span == span,
{
    CompileError::error(message, span)
}

fn function_type(params: Vec<Type>, ret: Type) -> (r: Type)
    ensures
        r == (Type::Function { params, return_type: Box::new(ret) }),
{
    Type::Function { params, return_type: Box::new(ret) }
}

/// Whether `c` is a decimal digit.
pub open spec fn is_digit(c: char) -> bool {
    '0' <= c && c <= '9'
}

/// The index of the first character at or after `i` that is not a digit
/// (the length of `s` if there is none).
pub open spec fn digit_run_end(s: Seq<char>, i: nat) -> nat
    decreases s.len() - i,
{
    if i < s.len() && is_digit(s[i as int]) {
        digit_run_end(s, i + 1)
    } else {
        i
    }
}

/// The value of the first `k` characters of `s` read as decimal digits.
pub open spec fn decimal_value(s: Seq<char>, k: nat) -> nat
    decreases k,
{
    if k == 0 {
        0
    } else {
        decimal_value(s, (k - 1) as nat) * 10 + ((s[k - 1] as int - '0' as int) as nat)
    }
}

/// The value of the digits that begin `s`, saturated at `usize::MAX`.
pub open spec fn leading_index(s: Seq<char>) -> nat {
    let v = decimal_value(s, digit_run_end(s, 0));
    if v >= usize::MAX {
        usize::MAX as nat
    } else {
        v
    }
}

/// Integer part of a numeric literal's text, saturated at `usize::MAX`
/// (what casting the literal's value to `usize` gives).
fn literal_to_index(text: &String) -> (r: usize)
    ensures
        r == leading_index(text@),
{
    let s = text.as_str();
    let n = s.unicode_len();
    let mut v: usize = 0;
    let mut i: usize = 0;
    while i < n
        invariant
            n == s@.len(),
            s@ == text@,
            i <= n,
            digit_run_end(s@, 0) == digit_run_end(s@, i as nat),
            forall|j: int| 0 <= j < i ==> is_digit(#[trigger] s@[j]),
            v == (if decimal_value(s@, i as nat) >= usize::MAX {
                usize::MAX as nat
            } else {
                decimal_value(s@, i as nat)
            }),
        ensures
            digit_run_end(s@, 0) == i,
            v == (if decimal_value(s@, i as nat) >= usize::MAX {
                usize::MAX as nat
            } else {
                decimal_value(s@, i as nat)
            }),
        decreases n - i,
    {
        let c = s.get_char(i);
        if c < '0' || c > '9' {
            break;
        }
        let d = (c as u32 - '0' as u32) as usize;
        let ghost old_val = decimal_value(s@, i as nat);
        assert(decimal_value(s@, (i + 1) as nat) == old_val * 10 + d);
        if v > (usize::MAX - d) / 10 {
            proof {
                saturation_step(v as int, d as int, old_val as int);
            }
            v = usize::MAX;
        } else {
            proof {
                saturation_step(v as int, d as int, old_val as int);
            }
            v = v * 10 + d;
        }
        i = i + 1;
    }
    v
}

/// One step of a saturated decimal reading: where `v` is the value read so
/// far saturated at `usize::MAX`, the next digit `d` keeps it so.
proof fn saturation_step(v: int, d: int, val: int)
    requires
        0 <= d <= 9,
        0 <= val,
        v == (if val >= usize::MAX { usize::MAX as int } else { val }),
    ensures
        v > (usize::MAX - d) / 10 ==> val * 10 + d >= usize::MAX,
        v <= (usize::MAX - d) / 10 ==> v * 10 + d == val * 10 + d && v * 10 + d <= usize::MAX,
{
    let m = usize::MAX as int;
    if v > (m - d) / 10 {
        if val >= m {
            assert(val * 10 + d >= m) by (nonlinear_arith)
                requires
                    val >= m,
                    m > 0,
                    d >= 0,
            ;
        } else {
            assert(val * 10 + d >= m) by (nonlinear_arith)
                requires
                    val > (m - d) / 10,
                    0 <= d <= 9,
                    m > 9,
            ;
        }
    } else {
        assert(v * 10 + d <= m) by (nonlinear_arith)
            requires
                v <= (m - d) / 10,
                0 <= d <= 9,
                m > 9,
        ;
    }
}

/// The index of the first `.` at or after `i` (the length of `s` if there is none).
pub open spec fn first_dot(s: Seq<char>, i: nat) -> nat
    decreases s.len() - i,
{
    if i >= s.len() {
        s.len()
    } else if s[i as int] == '.' {
        i
    } else {
        first_dot(s, i + 1)
    }
}

/// Where the integer part `s[i..dot]` starts once its leading zeros are
/// dropped, keeping at least one digit.
pub open spec fn skip_leading_zeros(s: Seq<char>, i: nat, dot: nat) -> nat
    decreases dot - i,
{
    if i < dot && i + 1 < dot && s[i as int] == '0' {
        skip_leading_zeros(s, i + 1, dot)
    } else {
        i
    }
}

/// Where the fraction `s[dot + 1..e]` ends once its trailing zeros are dropped.
pub open spec fn trim_trailing_zeros(s: Seq<char>, e: nat, dot: nat) -> nat
    decreases e,
{
    if e > dot + 1 && s[e - 1] == '0' {
        trim_trailing_zeros(s, (e - 1) as nat, dot)
    } else {
        e
    }
}

/// The canonical text of a numeric literal `s`: the integer part without
/// leading zeros (but at least one digit), then, where the fraction keeps a
/// digit once its trailing zeros are dropped, the point and that fraction.
pub open spec fn canonical_number_text(s: Seq<char>) -> Seq<char> {
    let dot = first_dot(s, 0);
    let int_part = s.subrange(skip_leading_zeros(s, 0, dot) as int, dot as int);
    let end = trim_trailing_zeros(s, s.len(), dot);
    if dot < s.len() && end > dot + 1 {
        int_part + seq!['.'] + s.subrange((dot + 1) as int, end as int)
    } else {
        int_part
    }
}

/// The canonical decimal text of a numeric literal: leading zeros of the
/// integer part and trailing zeros of the fraction dropped, and the point
/// dropped with an empty fraction (`007.50` is `7.5`, `3.0` is `3`).
fn canonical_number(text: &String) -> (r: String)
    ensures
        r@ == canonical_number_text(text@),
{
    let s = text.as_str();
    let n = s.unicode_len();
    // Split at the point, if any.
    let mut dot = n;
    let mut i: usize = 0;
    while i < n
        invariant
            n == s@.len(),
            s@ == text@,
            i <= n,
            dot <= n,
            dot == n ==> first_dot(s@, 0) == first_dot(s@, i as nat),
            dot < n ==> first_dot(s@, 0) == dot,
        decreases n - i,
    {
        if s.get_char(i) == '.' && dot == n {
            dot = i;
        }
        i = i + 1;
    }
    let mut out = String::new();
    // Integer part without leading zeros, but at least one digit.
    let mut start: usize = 0;
    while start < dot && start + 1 < dot && s.get_char(start) == '0'
        invariant
            n == s@.len(),
            s@ == text@,
            dot <= n,
            dot == first_dot(s@, 0),
            start <= dot,
            skip_leading_zeros(s@, 0, dot as nat) == skip_leading_zeros(s@, start as nat, dot as nat),
        decreases dot - start,
    {
        start = start + 1;
    }
    let mut j = start;
    while j < dot
        invariant
            n == s@.len(),
            s@ == text@,
            dot <= n,
            dot == first_dot(s@, 0),
            start == skip_leading_zeros(s@, 0, dot as nat),
            start <= j <= dot,
            out@ == s@.subrange(start as int, j as int),
        decreases dot - j,
    {
        push_char(&mut out, s.get_char(j));
        j = j + 1;
        assert(out@ =~= s@.subrange(start as int, j as int));
    }
    if dot < n {
        // Fraction without trailing zeros.
        let mut end = n;
        while end > dot + 1 && s.get_char(end - 1) == '0'
            invariant
                n == s@.len(),
                s@ == text@,
                dot < n,
                dot + 1 <= end <= n,
                trim_trailing_zeros(s@, n as nat, dot as nat) == trim_trailing_zeros(
                    s@,
                    end as nat,
                    dot as nat,
                ),
            decreases end,
        {
            end = end - 1;
        }
        if end > dot + 1 {
            push_char(&mut out, '.');
            let ghost int_part = s@.subrange(start as int, dot as int);
            let mut k = dot + 1;
            while k < end
                invariant
                    n == s@.len(),
                    s@ == text@,
                    dot + 1 <= k <= end,
                    end <= n,
                    out@ == int_part + seq!['.'] + s@.subrange(dot + 1, k as int),
                decreases end - k,
            {
                push_char(&mut out, s.get_char(k));
                k = k + 1;
                assert(out@ =~= int_part + seq!['.'] + s@.subrange(dot + 1, k as int));
            }
        }
    }
    out
}

} // verus!

verus! {

/// The names bound before a program is checked: the global objects and
/// functions every program can use.
pub open spec fn builtin_name(k: Seq<char>) -> bool {
    ||| k == "console"@
    ||| k == "Math"@
    ||| k == "Number"@
    ||| k == "NaN"@
    ||| k == "Infinity"@
    ||| k == "parseInt"@
    ||| k == "parseFloat"@
}

/// The builtin names differ from one another: by length, and the two of
/// equal length by their first letter.
proof fn lemma_builtin_names()
    ensures
        "console"@.len() == 7,
        "Math"@.len() == 4,
        "Number"@.len() == 6,
        "NaN"@.len() == 3,
        "Infinity"@.len() == 8,
        "parseInt"@.len() == 8,
        "parseFloat"@.len() == 10,
        "Infinity"@[0] != "parseInt"@[0],
{
    reveal_strlit("console");
    reveal_strlit("Math");
    reveal_strlit("Number");
    reveal_strlit("NaN");
    reveal_strlit("Infinity");
    reveal_strlit("parseInt");
    reveal_strlit("parseFloat");
}

pub struct TypeChecker {
    scopes: Vec<Scope>,
    current_return_type: Option<Type>,
    /// Symbols exported from this module
    pub exported_symbols: Vec<(String, Type)>,
    /// Symbols imported from other modules (populated before check)
    pub imported_symbols: Vec<(String, Type)>,
    /// Current `this` type (set inside class methods / object methods)
    current_this_type: Option<Type>,
    /// Registered class types by name
    class_types: Vec<(String, Type)>,
    /// Registered interface types (and resolved type aliases) by name
    interface_types: Vec<(String, Type)>,
    /// Registered type aliases by name
    type_aliases: Vec<(String, TypeAnnotation)>,
    /// Active type parameter substitutions (for generic function body checking)
    type_param_types: Vec<(String, Type)>,
    /// Generic function signatures by name
    generic_functions: Vec<(String, GenericSignature)>,
    /// Generic type aliases by name
    generic_type_aliases: Vec<(String, GenericAlias)>,
}

impl TypeChecker {
    /// Number of open scopes.
    pub closed spec fn depth(&self) -> nat {
        self.scopes@.len()
    }

    /// The symbols this module exports, by name.
    pub closed spec fn exports(&self) -> Seq<(String, Type)> {
        self.exported_symbols@
    }

    /// The type of `this` where the checker stands, if inside a method.
    pub closed spec fn this_type(&self) -> Option<Type> {
        self.current_this_type
    }

    /// The return type expected where the checker stands, if inside a function.
    pub closed spec fn expected_return(&self) -> Option<Type> {
        self.current_return_type
    }

    /// The symbols imported from other modules, by name.
    pub closed spec fn imports(&self) -> Seq<(String, Type)> {
        self.imported_symbols@
    }

    /// The symbol a name currently resolves to.
    pub closed spec fn symbol_of(&self, name: Seq<char>) -> Option<Symbol> {
        lookup_in(self.scopes@, name)
    }

    /// The open scopes.
    pub closed spec fn scope_stack(&self) -> Seq<Scope> {
        self.scopes@
    }

    /// What checking a statement leaves as it found it when it succeeds: the
    /// number of open scopes and every scope but the innermost (where a
    /// declaration binds its names), the expected return type and the `this`
    /// type; and every export stays exported.
    spec fn restored(o: TypeChecker, n: TypeChecker) -> bool {
        &&& n.scopes@.len() == o.scopes@.len()
        &&& o.scopes@.len() > 0 ==> n.scopes@.drop_last() == o.scopes@.drop_last()
        &&& n.current_return_type == o.current_return_type
        &&& n.current_this_type == o.current_this_type
        &&& keys_kept(o.exported_symbols@, n.exported_symbols@)
    }

    /// What checking an expression (or a body in a scope of its own) leaves as
    /// it found it when it succeeds: all the scopes, the expected return type
    /// and the `this` type; and every export stays exported.
    spec fn kept(o: TypeChecker, n: TypeChecker) -> bool {
        &&& n.scopes@ == o.scopes@
        &&& n.current_return_type == o.current_return_type
        &&& n.current_this_type == o.current_this_type
        &&& keys_kept(o.exported_symbols@, n.exported_symbols@)
    }

    spec fn checked<T>(o: TypeChecker, n: TypeChecker, r: Result<T, CompileError>) -> bool {
        match r {
            Ok(_) => Self::restored(o, n),
            Err(e) => type_error(e),
        }
    }

    spec fn checked_expr<T>(o: TypeChecker, n: TypeChecker, r: Result<T, CompileError>) -> bool {
        match r {
            Ok(_) => Self::kept(o, n),
            Err(e) => type_error(e),
        }
    }

    pub fn new() -> (r: Self)
        ensures
            r.depth() == 1,
            r.this_type() is None,
            r.expected_return() is None,
            r.exports().len() == 0,
            r.imports().len() == 0,
            r.symbol_of("console"@) matches Some(s) && s.ty is Unknown && s.is_const,
            r.symbol_of("Math"@) matches Some(s) && s.ty is Unknown && s.is_const,
            r.symbol_of("Number"@) matches Some(s) && s.ty is Unknown && s.is_const,
            r.symbol_of("NaN"@) matches Some(s) && s.ty is Number && s.is_const,
            r.symbol_of("Infinity"@) matches Some(s) && s.ty is Number && s.is_const,
            r.symbol_of("parseInt"@) matches Some(s) && s.is_const && string_to_number(s.ty),
            r.symbol_of("parseFloat"@) matches Some(s) && s.is_const && string_to_number(s.ty),
            r.scope_stack().len() == 1,
            forall|k: Seq<char>| !builtin_name(k) ==> #[trigger] lookup_in(r.scope_stack(), k) is None,
    {
        let mut checker = Self {
            scopes: Vec::new(),
            current_return_type: None,
            exported_symbols: Vec::new(),
            imported_symbols: Vec::new(),
            current_this_type: None,
            class_types: Vec::new(),
            interface_types: Vec::new(),
            type_aliases: Vec::new(),
            type_param_types: Vec::new(),
            generic_functions: Vec::new(),
            generic_type_aliases: Vec::new(),
        };
        checker.push_scope();
        assert forall|k: Seq<char>| #[trigger] lookup_in(checker.scopes@, k) is None by {
            assert(checker.scopes@.drop_last().len() == 0);
            assert(lookup_in(checker.scopes@.drop_last(), k) is None);
            assert(entry_for(checker.scopes@.last().symbols@, k) is None);
        }
        checker.register_builtins();
        checker
    }

    /// Replaces the symbols imported from other modules (defined when `check` starts).
    pub fn set_imports(&mut self, imports: Vec<(String, Type)>)
        ensures
            final(self).imports() == imports@,
            final(self).exports() == old(self).exports(),
            final(self).depth() == old(self).depth(),
            final(self).this_type() == old(self).this_type(),
            final(self).expected_return() == old(self).expected_return(),
            final(self).scope_stack() == old(self).scope_stack(),
    {
        self.imported_symbols = imports;
    }

    /// The symbols this module exports.
    pub fn take_exports(self) -> (r: Vec<(String, Type)>)
        ensures
            r@ == self.exports(),
    {
        self.exported_symbols
    }

    fn register_builtins(&mut self)
        requires
            old(self).scopes@.len() > 0,
        ensures
            final(self).scopes@.len() == old(self).scopes@.len(),
            final(self).exported_symbols == old(self).exported_symbols,
            final(self).imported_symbols == old(self).imported_symbols,
            final(self).current_this_type == old(self).current_this_type,
            final(self).current_return_type == old(self).current_return_type,
            lookup_in(final(self).scopes@, "console"@) matches Some(s) && s.ty is Unknown && s.is_const,
            lookup_in(final(self).scopes@, "Math"@) matches Some(s) && s.ty is Unknown && s.is_const,
            lookup_in(final(self).scopes@, "Number"@) matches Some(s) && s.ty is Unknown && s.is_const,
            lookup_in(final(self).scopes@, "NaN"@) matches Some(s) && s.ty is Number && s.is_const,
            lookup_in(final(self).scopes@, "Infinity"@) matches Some(s) && s.ty is Number && s.is_const,
            lookup_in(final(self).scopes@, "parseInt"@) matches Some(s) && s.is_const && string_to_number(s.ty),
            lookup_in(final(self).scopes@, "parseFloat"@) matches Some(s) && s.is_const && string_to_number(s.ty),
            forall|k: Seq<char>|
                !builtin_name(k) ==> #[trigger] lookup_in(final(self).scopes@, k) == lookup_in(
                    old(self).scopes@,
                    k,
                ),
    {
        proof {
            lemma_builtin_names();
        }
        // console (special object)
        self.define(string_of("console"), Type::Unknown, true);
        // Math (special object)
        self.define(string_of("Math"), Type::Unknown, true);
        // Number (special object with static methods)
        self.define(string_of("Number"), Type::Unknown, true);
        // NaN global constant
        self.define(string_of("NaN"), Type::Number, true);
        // Infinity global constant
        self.define(string_of("Infinity"), Type::Number, true);

        // Global functions
        let mut p1: Vec<Type> = Vec::new();
        p1.push(Type::String);
        self.define(string_of("parseInt"), function_type(p1, Type::Number), true);
        let mut p2: Vec<Type> = Vec::new();
        p2.push(Type::String);
        self.define(string_of("parseFloat"), function_type(p2, Type::Number), true);
    }

    /// Checks a program. Imported symbols are defined first and function
    /// declarations are hoisted, so functions can be called before they are
    /// declared. The statements are then checked in order, each in the scopes
    /// the ones before it left (`run_of`), from the scopes `hoisted_start`
    /// describes; the first one that fails gives the error. Each exported
    /// function is exported under its name, and with its signature where
    /// neither its body nor a later statement declares or exports anything
    /// (`export_typed`).
    pub fn check(&mut self, program: &Program) -> (r: Result<(), CompileError>)
        ensures
            match r {
                Ok(_) => {
                    &&& final(self).depth() == old(self).depth()
                    &&& keys_kept(old(self).exports(), final(self).exports())
                    &&& forall|i: int|
                        0 <= i < program.statements@.len() ==> (#[trigger] exported_function(
                            program.statements@[i],
                        ) matches Some(n) ==> entry_for(final(self).exports(), n) is Some)
                    &&& forall|i: int|
                        0 <= i < program.statements@.len() ==> #[trigger] export_typed(
                            program.statements@[i],
                            program.statements@.subrange(i + 1, program.statements@.len() as int),
                            final(self).exports(),
                        )
                },
                Err(e) => type_error(e),
            },
            (forall|i: int| 0 <= i < program.statements@.len() ==> #[trigger] infallible_stmt(
                program.statements@[i],
            )) ==> r is Ok,
            exists|ss: Seq<Seq<Scope>>|
                #[trigger] Self::run_of(
                    old(self).this_type(),
                    old(self).expected_return(),
                    program.statements@,
                    ss,
                    r,
                ) && hoisted_start(
                    old(self).scope_stack(),
                    old(self).imports(),
                    program.statements@,
                    ss[0],
                ),
    {
        let ghost stmts = program.statements@;
        // Register imported symbols in the current scope
        let mut k: usize = 0;
        while k < self.imported_symbols.len()
            invariant
                self.scopes@.len() == old(self).scopes@.len(),
                self.exported_symbols == old(self).exported_symbols,
                self.imported_symbols == old(self).imported_symbols,
                self.current_this_type == old(self).current_this_type,
                self.current_return_type == old(self).current_return_type,
                k <= self.imported_symbols@.len(),
                forall|x: Seq<char>|
                    (forall|q: int| 0 <= q < k ==> #[trigger] self.imported_symbols@[q].0@ != x)
                        ==> #[trigger] lookup_in(self.scopes@, x) == lookup_in(old(self).scopes@, x),
                old(self).scopes@.len() > 0 ==> forall|q: int|
                    0 <= q < k ==> (lookup_in(self.scopes@, #[trigger] self.imported_symbols@[q].0@) matches Some(
                        sym,
                    ) && sym.is_const),
            decreases self.imported_symbols@.len() - k,
        {
            let name = self.imported_symbols[k].0.clone();
            let ty = self.imported_symbols[k].1.deep_copy();
            let ghost before = self.scopes@;
            self.define(name, ty, true);
            proof {
                if old(self).scopes@.len() > 0 {
                    assert forall|q: int| 0 <= q < k + 1 implies (lookup_in(
                        self.scopes@,
                        #[trigger] self.imported_symbols@[q].0@,
                    ) matches Some(sym) && sym.is_const) by {
                        if self.imported_symbols@[q].0@ != self.imported_symbols@[k as int].0@ {
                            assert(lookup_in(self.scopes@, self.imported_symbols@[q].0@) == lookup_in(
                                before,
                                self.imported_symbols@[q].0@,
                            ));
                        }
                    }
                }
            }
            k = k + 1;
        }
        proof {
            let imps = old(self).imported_symbols@;
            assert forall|x: Seq<char>| entry_for(imps, x) is None implies #[trigger] lookup_in(
                self.scopes@,
                x,
            ) == lookup_in(old(self).scopes@, x) by {
                lemma_entry_for_absent(imps, x);
            }
            if old(self).scopes@.len() > 0 {
                assert forall|x: Seq<char>| entry_for(imps, x) is Some implies (#[trigger] lookup_in(
                    self.scopes@,
                    x,
                ) matches Some(sym) && sym.is_const) by {
                    if forall|q: int| 0 <= q < imps.len() ==> imps[q].0@ != x {
                        lemma_entry_for_none(imps, x);
                    }
                }
            }
        }

        // Hoist function declarations: pre-scan and register signatures
        let mut i: usize = 0;
        while i < program.statements.len()
            invariant
                i <= stmts.len(),
                stmts == program.statements@,
                self.scopes@.len() == old(self).scopes@.len(),
                keys_kept(old(self).exported_symbols@, self.exported_symbols@),
                self.current_this_type == old(self).current_this_type,
                self.current_return_type == old(self).current_return_type,
                forall|x: Seq<char>|
                    entry_for(old(self).imported_symbols@, x) is None && !hoists(stmts, i as int, x)
                        ==> #[trigger] lookup_in(self.scopes@, x) == lookup_in(old(self).scopes@, x),
                old(self).scopes@.len() > 0 ==> forall|x: Seq<char>|
                    hoists(stmts, i as int, x) ==> (#[trigger] lookup_in(self.scopes@, x) matches Some(
                        sym,
                    ) && sym.is_const && sym.ty is Function),
                old(self).scopes@.len() > 0 ==> forall|x: Seq<char>, q: int|
                    #[trigger] last_decl(stmts, i as int, q, x) ==> (lookup_in(self.scopes@, x) matches Some(
                        sym,
                    ) && signature_of(sym.ty, stmts[q].kind->FunctionDecl_params@)),
                old(self).scopes@.len() > 0 ==> forall|x: Seq<char>|
                    entry_for(old(self).imported_symbols@, x) is Some && !hoists(stmts, i as int, x)
                        ==> (#[trigger] lookup_in(self.scopes@, x) matches Some(sym) && sym.is_const),
            decreases program.statements@.len() - i,
        {
            let ghost before = self.scopes@;
            if let StmtKind::FunctionDecl {
                name,
                type_params,
                params,
                return_type,
                is_exported,
                ..
            } = &program.statements[i].kind {
                let (_, _, prev) = self.register_function(
                    name,
                    type_params,
                    params,
                    return_type,
                    *is_exported,
                );
                self.type_param_types = prev;
            }
            proof {
                if old(self).scopes@.len() > 0 {
                    assert forall|x: Seq<char>, q: int|
                        #[trigger] last_decl(stmts, i + 1, q, x) implies (lookup_in(self.scopes@, x) matches Some(
                            sym,
                        ) && signature_of(sym.ty, stmts[q].kind->FunctionDecl_params@)) by {
                        if q < i {
                            assert(last_decl(stmts, i as int, q, x));
                            assert(fn_decl_name(stmts[i as int]) != Some(x));
                        }
                    }
                }
                assert forall|x: Seq<char>| #[trigger] hoists(stmts, i + 1, x) == (hoists(stmts, i as int, x)
                    || fn_decl_name(stmts[i as int]) == Some(x)) by {
                    if fn_decl_name(stmts[i as int]) == Some(x) {
                        assert(hoists(stmts, i + 1, x));
                    }
                    if hoists(stmts, i + 1, x) {
                        let q = choose|q: int| 0 <= q < i + 1 && #[trigger] fn_decl_name(stmts[q]) == Some(x);
                        if q < i {
                            assert(hoists(stmts, i as int, x));
                        }
                    }
                }
            }
            i = i + 1;
        }

        let ghost start = self.scopes@;
        assert(hoisted_start(old(self).scopes@, old(self).imported_symbols@, stmts, start));
        let ghost mut ss: Seq<Seq<Scope>> = seq![self.scopes@];
        let mut j: usize = 0;
        while j < program.statements.len()
            invariant
                j <= program.statements@.len(),
                stmts == program.statements@,
                self.scopes@.len() == old(self).scopes@.len(),
                keys_kept(old(self).exported_symbols@, self.exported_symbols@),
                forall|i: int|
                    0 <= i < j ==> (#[trigger] exported_function(program.statements@[i]) matches Some(
                        n,
                    ) ==> entry_for(self.exported_symbols@, n) is Some),
                forall|i: int|
                    0 <= i < j ==> #[trigger] export_typed(
                        stmts[i],
                        stmts.subrange(i + 1, j as int),
                        self.exported_symbols@,
                    ),
                self.current_this_type == old(self).current_this_type,
                self.current_return_type == old(self).current_return_type,
                ss.len() == j + 1,
                ss[0] == start,
                hoisted_start(old(self).scopes@, old(self).imported_symbols@, stmts, start),
                ss.last() == self.scopes@,
                forall|i: int|
                    0 <= i < j ==> Self::stmt_outcome(
                        ss[i],
                        old(self).current_this_type,
                        old(self).current_return_type,
                        #[trigger] stmts[i],
                        Ok::<(), CompileError>(()),
                    ) && scopes_after(stmts[i], ss[i], ss[i + 1]),
            decreases program.statements@.len() - j,
        {
            let ghost before = *self;
            match self.check_statement(&program.statements[j]) {
                Ok(_) => {
                    proof {
                        assert forall|i: int| 0 <= i < j + 1 implies #[trigger] export_typed(
                            stmts[i],
                            stmts.subrange(i + 1, j + 1),
                            self.exported_symbols@,
                        ) by {
                            if i < j {
                                let later = stmts.subrange(i + 1, j + 1);
                                if plain_stmts(later) {
                                    assert(later[j - i - 1] == stmts[j as int]);
                                    assert(plain_stmts(stmts.subrange(i + 1, j as int))) by {
                                        assert forall|q: int| 0 <= q < j - i - 1 implies plain_stmt(
                                            #[trigger] stmts.subrange(i + 1, j as int)[q],
                                        ) by {
                                            assert(later[q] == stmts.subrange(i + 1, j as int)[q]);
                                        }
                                    }
                                    assert(export_typed(
                                        stmts[i],
                                        stmts.subrange(i + 1, j as int),
                                        before.exported_symbols@,
                                    ));
                                }
                            } else {
                                assert(plain_stmts(stmts.subrange(i + 1, j + 1)));
                            }
                        }
                        let ghost ss2 = ss.push(self.scopes@);
                        assert(scopes_after(stmts[j as int], ss2[j as int], ss2[j + 1]));
                        assert forall|i: int| 0 <= i < j + 1 implies Self::stmt_outcome(
                            ss2[i],
                            old(self).current_this_type,
                            old(self).current_return_type,
                            #[trigger] stmts[i],
                            Ok::<(), CompileError>(()),
                        ) && scopes_after(stmts[i], ss2[i], ss2[i + 1]) by {
                            if i < j {
                                assert(ss2[i] == ss[i]);
                                assert(ss2[i + 1] == ss[i + 1]);
                            }
                        }
                        ss = ss2;
                    }
                },
                Err(e) => {
                    proof {
                        if infallible_stmt(program.statements@[j as int]) {
                            Self::lemma_infallible_stmt(
                                before.scopes@,
                                before.current_this_type,
                                before.current_return_type,
                                program.statements@[j as int],
                                e,
                            );
                        }
                        assert(Self::run_of(
                            old(self).current_this_type,
                            old(self).current_return_type,
                            stmts,
                            ss,
                            Err::<(), CompileError>(e),
                        ));
                    }
                    return Err(e);
                },
            }
            j = j + 1;
        }
        proof {
            assert(Self::run_of(
                old(self).current_this_type,
                old(self).current_return_type,
                stmts,
                ss,
                Ok::<(), CompileError>(()),
            ));
        }
        Ok(())
    }

    /// Registers a function's signature (and, when generic, its type parameters
    /// and signature for call sites). Returns the parameter and return types and
    /// the type parameter bindings that were active before, which stay replaced
    /// by the function's own until the caller puts them back.
    fn register_function(
        &mut self,
        name: &String,
        type_params: &Vec<crate::parser::ast::TypeParam>,
        params: &Vec<Parameter>,
        return_type: &Option<TypeAnnotation>,
        is_exported: bool,
    ) -> (r: (Vec<Type>, Type, Vec<(String, Type)>))
        ensures
            final(self).scopes@.len() == old(self).scopes@.len(),
            final(self).current_return_type == old(self).current_return_type,
            final(self).current_this_type == old(self).current_this_type,
            r.0@.len() == params@.len(),
            r.2 == old(self).type_param_types,
            keys_kept(old(self).exported_symbols@, final(self).exported_symbols@),
            is_exported ==> entry_for(final(self).exported_symbols@, name@) is Some,
            old(self).scopes@.len() > 0 ==> final(self).scopes@.drop_last() == old(
                self,
            ).scopes@.drop_last(),
            old(self).scopes@.len() > 0 ==> (lookup_in(final(self).scopes@, name@) matches Some(sym)
                && sym.is_const && function_of_arity(sym.ty, params@.len()) && signature_of(
                sym.ty,
                params@,
            )),
            forall|k: Seq<char>|
                k != name@ ==> #[trigger] lookup_in(final(self).scopes@, k) == lookup_in(
                    old(self).scopes@,
                    k,
                ),
            declared_return(*return_type, r.1),
            is_exported ==> (entry_for(final(self).exported_symbols@, name@) matches Some(t)
                && exported_signature(t, params@, *return_type)),
    {
        let is_generic = type_params.len() > 0;

        // Register type params before resolving param/return types so that
        // Named("T") resolves to the constraint type
        let mut prev = copy_fields(&self.type_param_types);
        core::mem::swap(&mut prev, &mut self.type_param_types);
        // `prev` now holds the bindings as they were; `self` holds a copy
        if is_generic {
            let mut t: usize = 0;
            while t < type_params.len()
                invariant
                    self.scopes@ == old(self).scopes@,
                    self.current_return_type == old(self).current_return_type,
                    self.current_this_type == old(self).current_this_type,
                    self.exported_symbols == old(self).exported_symbols,
                decreases type_params@.len() - t,
            {
                let tp = &type_params[t];
                let tp_type = match &tp.constraint {
                    Some(c) => self.resolve(c),
                    None => Type::Unknown,
                };
                insert_entry(&mut self.type_param_types, tp.name.clone(), tp_type);
                t = t + 1;
            }
        }
        let param_types = self.param_types(params, true);
        let ret_type = self.resolve_or(return_type, Type::Void);
        let copied = copy_types(&param_types);
        proof {
            lemma_types_eq_pointwise(copied@, param_types@);
        }
        let func_type = function_type(copied, ret_type.deep_copy());
        assert(exported_signature(func_type, params@, *return_type));
        if is_exported {
            let exported = func_type.deep_copy();
            proof {
                lemma_exported_signature_copy(exported, func_type, params@, *return_type);
            }
            insert_entry(&mut self.exported_symbols, name.clone(), exported);
        }
        self.define(name.clone(), func_type, true);

        if is_generic {
            let mut tp_names: Vec<String> = Vec::new();
            let mut t: usize = 0;
            while t < type_params.len()
                invariant
                    t <= type_params@.len(),
                decreases type_params@.len() - t,
            {
                tp_names.push(type_params[t].name.clone());
                t = t + 1;
            }
            insert_entry(
                &mut self.generic_functions,
                name.clone(),
                GenericSignature {
                    type_params: tp_names,
                    params: copy_types(&param_types),
                    return_type: ret_type.deep_copy(),
                },
            );
        }
        (param_types, ret_type, prev)
    }

    /// Declared parameter types (unknown where not annotated); with `rest`,
    /// a rest parameter is an array (of numbers unless annotated as an array).
    fn param_types(&self, params: &Vec<Parameter>, rest: bool) -> (r: Vec<Type>)
        ensures
            r@.len() == params@.len(),
            forall|j: int|
                (0 <= j < params@.len() && !(rest && params@[j].is_rest)) ==> (
                #[trigger] params@[j].type_ann matches Some(a) ==> (plain_ann_type(a.kind) matches Some(
                    p,
                ) ==> r@[j] == p)),
    {
        let mut out: Vec<Type> = Vec::new();
        let mut i: usize = 0;
        while i < params.len()
            invariant
                i <= params@.len(),
                out@.len() == i,
                forall|j: int|
                    (0 <= j < i && !(rest && params@[j].is_rest)) ==> (
                    #[trigger] params@[j].type_ann matches Some(a) ==> (plain_ann_type(a.kind) matches Some(
                        p,
                    ) ==> out@[j] == p)),
            decreases params@.len() - i,
        {
            let p = &params[i];
            let ty = self.resolve_or(&p.type_ann, Type::Unknown);
            proof {
                if p.type_ann is Some {
                    self.lemma_plain_resolves(p.type_ann->0, ty);
                }
            }
            let ty = if rest && p.is_rest {
                match ty {
                    Type::Array(e) => Type::Array(e),
                    _ => Type::Array(Box::new(Type::Number)),
                }
            } else {
                ty
            };
            out.push(ty);
            i = i + 1;
        }
        out
    }

    /// A plain annotation resolves to its own type.
    proof fn lemma_plain_resolves(&self, a: TypeAnnotation, t: Type)
        requires
            self.resolves_to(a, t),
        ensures
            plain_ann_type(a.kind) matches Some(p) ==> t == p,
    {
        match a.kind {
            TypeAnnKind::Number => {},
            TypeAnnKind::String => {},
            TypeAnnKind::Boolean => {},
            TypeAnnKind::Void => {},
            TypeAnnKind::Null => {},
            TypeAnnKind::Undefined => {},
            TypeAnnKind::BooleanLiteral(_) => {},
            _ => {},
        }
    }

    /// A structural annotation resolves to the type it denotes.
    proof fn lemma_structural_resolves(&self, a: TypeAnnotation, t: Type)
        requires
            self.resolves_to(a, t),
            structural_ann(a),
        ensures
            ann_denotes(a, t),
        decreases a,
    {
        match a.kind {
            TypeAnnKind::Object { fields } => {
                let fs = t->Object_fields@;
                assert forall|i: int| 0 <= i < fs.len() implies #[trigger] fs[i].0@ == fields@[i].0@
                    && ann_denotes(fields@[i].1, fs[i].1) by {
                    assert(decreases_to!(a => fields@[i].1));
                    assert(structural_ann(fields@[i].1));
                    assert(fs[i].0@ == fields@[i].0@);
                    assert(self.resolves_to(fields@[i].1, fs[i].1));
                    self.lemma_structural_resolves(fields@[i].1, fs[i].1);
                }
            },
            _ => {
                self.lemma_plain_resolves(a, t);
            },
        }
    }

    /// The resolved annotation, or `default` when there is none.
    fn resolve_or(&self, ann: &Option<TypeAnnotation>, default: Type) -> (r: Type)
        ensures
            ann is None ==> r == default,
            ann matches Some(a) ==> self.resolves_to(*a, r),
    {
        match ann {
            Some(a) => self.resolve(a),
            None => default,
        }
    }

    fn resolve(&self, ann: &TypeAnnotation) -> (r: Type)
        ensures
            self.resolves_to(*ann, r),
    {
        self.resolve_type_annotation(ann, ALIAS_EXPANSION_LIMIT)
    }

    // --- Scopes ---

    fn push_scope(&mut self)
        ensures
            final(self).scopes@.len() == old(self).scopes@.len() + 1,
            final(self).scopes@.drop_last() == old(self).scopes@,
            final(self).scopes@.last().symbols@.len() == 0,
            final(self).current_return_type == old(self).current_return_type,
            final(self).current_this_type == old(self).current_this_type,
            final(self).exported_symbols == old(self).exported_symbols,
            final(self).imported_symbols == old(self).imported_symbols,
    {
        self.scopes.push(Scope { symbols: Vec::new() });
        assert(self.scopes@.drop_last() =~= old(self).scopes@);
    }

    fn pop_scope(&mut self)
        ensures
            final(self).scopes@.len() == if old(self).scopes@.len() > 0 {
                old(self).scopes@.len() - 1
            } else {
                0
            },
            final(self).scopes@ == if old(self).scopes@.len() > 0 {
                old(self).scopes@.drop_last()
            } else {
                old(self).scopes@
            },
            final(self).current_return_type == old(self).current_return_type,
            final(self).current_this_type == old(self).current_this_type,
            final(self).exported_symbols == old(self).exported_symbols,
    {
        self.scopes.pop();
    }

    /// Binds `name` in the innermost scope; a later lookup of `name` finds it,
    /// and lookups of other names are as before.
    fn define(&mut self, name: String, ty: Type, is_const: bool)
        ensures
            final(self).scopes@.len() == old(self).scopes@.len(),
            old(self).scopes@.len() > 0 ==> lookup_in(final(self).scopes@, name@) == Some(
                Symbol { ty, is_const },
            ),
            forall|other: Seq<char>|
                other != name@ ==> #[trigger] lookup_in(final(self).scopes@, other) == lookup_in(
                    old(self).scopes@,
                    other,
                ),
            final(self).scopes@.len() > 0 ==> final(self).scopes@.drop_last()
                == old(self).scopes@.drop_last(),
            final(self).current_return_type == old(self).current_return_type,
            final(self).current_this_type == old(self).current_this_type,
            final(self).exported_symbols == old(self).exported_symbols,
            final(self).imported_symbols == old(self).imported_symbols,
            final(self).class_types == old(self).class_types,
            final(self).interface_types == old(self).interface_types,
            final(self).type_param_types == old(self).type_param_types,
    {
        if let Some(mut scope) = self.scopes.pop() {
            let ghost key = name@;
            let ghost before = scope;
            insert_entry(&mut scope.symbols, name, Symbol { ty, is_const });
            let ghost rest = self.scopes@;
            self.scopes.push(scope);
            assert(self.scopes@.drop_last() =~= rest);
            proof {
                assert(old(self).scopes@.drop_last() =~= rest);
                assert(old(self).scopes@.last() == before);
                assert forall|other: Seq<char>| other != key implies #[trigger] lookup_in(
                    self.scopes@,
                    other,
                ) == lookup_in(old(self).scopes@, other) by {
                    assert(entry_for(self.scopes@.last().symbols@, other) == entry_for(
                        before.symbols@,
                        other,
                    ));
                }
            }
        }
    }

    /// The type a name resolves to (a copy).
    fn lookup(&self, name: &str) -> (r: Option<Type>)
        ensures
            match lookup_in(self.scopes@, name@) {
                Some(sym) => r is Some && type_eq(r->0, sym.ty),
                None => r is None,
            },
    {
        match self.lookup_symbol(name) {
            Some((t, _)) => Some(t),
            None => None,
        }
    }

    /// The type (a copy) and constness of the symbol a name resolves to.
    fn lookup_symbol(&self, name: &str) -> (r: Option<(Type, bool)>)
        ensures
            match lookup_in(self.scopes@, name@) {
                Some(sym) => r is Some && type_eq(r.unwrap().0, sym.ty) && r.unwrap().1 == sym.is_const,
                None => r is None,
            },
    {
        let mut i: usize = self.scopes.len();
        assert(self.scopes@.take(i as int) =~= self.scopes@);
        while i > 0
            invariant
                i <= self.scopes@.len(),
                lookup_in(self.scopes@, name@) == lookup_in(self.scopes@.take(i as int), name@),
            decreases i,
        {
            let scope = &self.scopes[i - 1];
            let ghost pre = self.scopes@.take(i as int);
            assert(pre.drop_last() =~= self.scopes@.take(i - 1));
            assert(pre.last() == self.scopes@[i - 1]);
            match find_index(&scope.symbols, name) {
                Some(k) => {
                    let sym = &scope.symbols[k].1;
                    return Some((sym.ty.deep_copy(), sym.is_const));
                },
                None => {},
            }
            i = i - 1;
        }
        None
    }
}

} // verus!

verus! {

/// The fields of an object or class type.
fn fields_of(t: &Type) -> (r: Option<&Vec<(String, Type)>>)
    ensures
        match *t {
            Type::Object { fields } => r == Some(&fields),
            Type::Class { fields, .. } => r == Some(&fields),
            _ => r is None,
        },
{
    match t {
        Type::Object { fields } => Some(fields),
        Type::Class { fields, .. } => Some(fields),
        _ => None,
    }
}

/// A copy of the type of the first field named `name`.
fn field_type(fields: &Vec<(String, Type)>, name: &str) -> (r: Option<Type>)
    ensures
        match entry_for(fields@, name@) {
            Some(t) => r is Some && type_eq(r->0, t),
            None => r is None,
        },
{
    match find_index(fields, name) {
        Some(i) => Some(fields[i].1.deep_copy()),
        None => None,
    }
}

/// Appends copies of the fields of `src` whose names `dst` does not have yet.
fn merge_new_fields(dst: &mut Vec<(String, Type)>, src: &Vec<(String, Type)>)
    ensures
        final(dst)@.len() >= old(dst)@.len(),
        forall|j: int| 0 <= j < old(dst)@.len() ==> final(dst)@[j] == old(dst)@[j],
        forall|k: Seq<char>|
            (#[trigger] entry_for(final(dst)@, k)) is Some <==> (entry_for(old(dst)@, k) is Some
                || entry_for(src@, k) is Some),
        forall|k: Seq<char>|
            entry_for(old(dst)@, k) is Some ==> #[trigger] entry_for(final(dst)@, k) == entry_for(
                old(dst)@,
                k,
            ),
        forall|k: Seq<char>|
            entry_for(old(dst)@, k) is None && entry_for(src@, k) is Some ==> (#[trigger] entry_for(
                final(dst)@,
                k,
            ) is Some && type_eq(entry_for(final(dst)@, k)->0, entry_for(src@, k)->0)),
{
    let mut i: usize = 0;
    while i < src.len()
        invariant
            i <= src@.len(),
            dst@.len() >= old(dst)@.len(),
            forall|j: int| 0 <= j < old(dst)@.len() ==> dst@[j] == old(dst)@[j],
            forall|k: Seq<char>|
                (#[trigger] entry_for(dst@, k)) is Some <==> (entry_for(old(dst)@, k) is Some
                    || entry_for(src@.subrange(0, i as int), k) is Some),
            forall|k: Seq<char>|
                entry_for(old(dst)@, k) is Some ==> #[trigger] entry_for(dst@, k) == entry_for(
                    old(dst)@,
                    k,
                ),
            forall|k: Seq<char>|
                entry_for(old(dst)@, k) is None && entry_for(src@.subrange(0, i as int), k) is Some
                    ==> (#[trigger] entry_for(dst@, k) is Some && type_eq(
                    entry_for(dst@, k)->0,
                    entry_for(src@.subrange(0, i as int), k)->0,
                )),
        decreases src@.len() - i,
    {
        let ghost pre = src@.subrange(0, i as int);
        let ghost d0 = dst@;
        let ghost x = src@[i as int];
        assert(src@.subrange(0, i + 1) =~= pre.push(x));
        if find_index(dst, src[i].0.as_str()).is_none() {
            let y = (src[i].0.clone(), src[i].1.deep_copy());
            dst.push(y);
            proof {
                assert forall|k: Seq<char>| true implies entry_for(dst@, k) == (if entry_for(
                    d0,
                    k,
                ) is Some {
                    entry_for(d0, k)
                } else if y.0@ == k {
                    Some(y.1)
                } else {
                    None
                }) && entry_for(pre.push(x), k) == (if entry_for(pre, k) is Some {
                    entry_for(pre, k)
                } else if x.0@ == k {
                    Some(x.1)
                } else {
                    None
                }) by {
                    lemma_entry_for_push_any(d0, y, k);
                    lemma_entry_for_push_any(pre, x, k);
                }
            }
        } else {
            proof {
                assert forall|k: Seq<char>| true implies entry_for(pre.push(x), k) == (if entry_for(
                    pre,
                    k,
                ) is Some {
                    entry_for(pre, k)
                } else if x.0@ == k {
                    Some(x.1)
                } else {
                    None
                }) by {
                    lemma_entry_for_push_any(pre, x, k);
                }
            }
        }
        i = i + 1;
    }
    assert(src@.subrange(0, i as int) =~= src@);
}

/// Removes every field named `name`.
fn remove_field(fields: &mut Vec<(String, Type)>, name: &String)
    ensures
        entry_for(final(fields)@, name@) is None,
{
    let mut kept: Vec<(String, Type)> = Vec::new();
    let mut old_fields: Vec<(String, Type)> = Vec::new();
    core::mem::swap(&mut old_fields, fields);
    let n = old_fields.len();
    let mut i: usize = 0;
    while i < n
        invariant
            i <= n,
            forall|j: int| 0 <= j < kept@.len() ==> kept@[j].0@ != name@,
        decreases n - i,
    {
        let f = old_fields.pop();
        match f {
            Some(f) => {
                if !eq_str(&f.0, name.as_str()) {
                    kept.push(f);
                }
            },
            None => {},
        }
        i = i + 1;
    }
    // `kept` holds the survivors last-first; put them back in order.
    let m = kept.len();
    let mut k: usize = 0;
    while k < m
        invariant
            forall|j: int| 0 <= j < kept@.len() ==> kept@[j].0@ != name@,
            forall|j: int| 0 <= j < fields@.len() ==> fields@[j].0@ != name@,
        decreases m - k,
    {
        match kept.pop() {
            Some(f) => fields.push(f),
            None => {},
        }
        k = k + 1;
    }
    proof {
        lemma_entry_for_none(fields@, name@);
    }
}

impl TypeChecker {
    /// What resolving an annotation yields, as far as it is stated: the type of
    /// each primitive annotation, the shape of composite ones, and how names
    /// are looked up (type parameters, then interfaces and aliases, then classes).
    spec fn resolves_to(&self, ann: TypeAnnotation, r: Type) -> bool
        decreases ann,
    {
        match ann.kind {
            TypeAnnKind::Number => r is Number,
            TypeAnnKind::String => r is String,
            TypeAnnKind::Boolean => r is Boolean,
            TypeAnnKind::Void => r is Void,
            TypeAnnKind::Null => r is Null,
            TypeAnnKind::Undefined => r is Undefined,
            TypeAnnKind::BooleanLiteral(_) => r is Boolean,
            TypeAnnKind::TypePredicate { .. } => r is Boolean,
            TypeAnnKind::Mapped { .. } => r is Unknown,
            TypeAnnKind::Array(inner) => r matches Type::Array(el) && self.resolves_to(*inner, *el),
            TypeAnnKind::Keyof(inner) => exists|it: Type|
                self.resolves_to(*inner, it) && #[trigger] keyof_yields(it, r),
            TypeAnnKind::StringLiteral(s) => r matches Type::StringLiteral(t) && t@ == s@,
            TypeAnnKind::Union(vs) => r matches Type::Union(ts) && ts@.len() == vs@.len(),
            TypeAnnKind::Tuple(vs) => r matches Type::Tuple(ts) && ts@.len() == vs@.len(),
            TypeAnnKind::FunctionType { params, .. } => r matches Type::Function {
                params: ps,
                ..
            } && ps@.len() == params@.len(),
            TypeAnnKind::Object { fields } => r matches Type::Object { fields: fs } && fs@.len()
                == fields@.len() && forall|i: int|
                0 <= i < fs@.len() ==> #[trigger] fs@[i].0@ == fields@[i].0@ && self.resolves_to(
                    fields@[i].1,
                    fs@[i].1,
                ),
            TypeAnnKind::Named(n) => match entry_for(self.type_param_types@, n@) {
                Some(t) => type_eq(r, t),
                None => match entry_for(self.interface_types@, n@) {
                    Some(t) => type_eq(r, t),
                    None => match entry_for(self.class_types@, n@) {
                        Some(t) => type_eq(r, t),
                        None => r is Unknown,
                    },
                },
            },
            TypeAnnKind::Typeof(n) => match lookup_in(self.scopes@, n@) {
                Some(sym) => type_eq(r, sym.ty),
                None => r is Unknown,
            },
            _ => true,
        }
    }

    /// What the body `ann` of a generic alias may resolve to with its type
    /// parameters bound to `subs`: a bound parameter name gives its binding; a
    /// conditional type gives what one of its two branches gives; any other
    /// annotation resolves as usual.
    pub closed spec fn generic_body_resolves(
        &self,
        ann: TypeAnnotation,
        subs: Seq<(String, Type)>,
        r: Type,
    ) -> bool
        decreases ann,
    {
        match ann.kind {
            TypeAnnKind::Named(n) => match entry_for(subs, n@) {
                Some(t) => type_eq(r, t),
                None => self.resolves_to(ann, r),
            },
            TypeAnnKind::Conditional { true_type, false_type, .. } => self.generic_body_resolves(
                *true_type,
                subs,
                r,
            ) || self.generic_body_resolves(*false_type, subs, r),
            _ => self.resolves_to(ann, r),
        }
    }

    /// Resolves a named type: active type parameters first, then interfaces
    /// and aliases, then classes; `unknown` otherwise.
    fn resolve_named(&self, name: &String) -> (r: Type)
        ensures
            match entry_for(self.type_param_types@, name@) {
                Some(t) => type_eq(r, t),
                None => match entry_for(self.interface_types@, name@) {
                    Some(t) => type_eq(r, t),
                    None => match entry_for(self.class_types@, name@) {
                        Some(t) => type_eq(r, t),
                        None => r is Unknown,
                    },
                },
            },
    {
        if let Some(t) = field_type(&self.type_param_types, name.as_str()) {
            return t;
        }
        if let Some(t) = field_type(&self.interface_types, name.as_str()) {
            return t;
        }
        if let Some(t) = field_type(&self.class_types, name.as_str()) {
            return t;
        }
        Type::Unknown
    }

    /// Resolves a type annotation to a type. `fuel` bounds how deeply generic
    /// aliases are expanded inside one another; past it, an alias is `unknown`.
    #[verifier::loop_isolation(false)]
    fn resolve_type_annotation(&self, ann: &TypeAnnotation, fuel: usize) -> (r: Type)
        ensures
            self.resolves_to(*ann, r),
        decreases fuel, ann, 0nat,
    {
        match &ann.kind {
            TypeAnnKind::Number => Type::Number,
            TypeAnnKind::String => Type::String,
            TypeAnnKind::Boolean => Type::Boolean,
            TypeAnnKind::Void => Type::Void,
            TypeAnnKind::Null => Type::Null,
            TypeAnnKind::Undefined => Type::Undefined,
            TypeAnnKind::Array(inner) => Type::Array(
                Box::new(self.resolve_type_annotation(inner, fuel)),
            ),
            TypeAnnKind::Object { fields } => Type::Object {
                fields: self.resolve_ann_fields(fields, fuel),
            },
            TypeAnnKind::Named(name) => self.resolve_named(name),
            TypeAnnKind::Typeof(name) => {
                // Look up the variable's type in scope
                match self.lookup(name.as_str()) {
                    Some(t) => t,
                    None => Type::Unknown,
                }
            },
            TypeAnnKind::StringLiteral(s) => Type::StringLiteral(s.clone()),
            TypeAnnKind::NumberLiteral(n) => Type::NumberLiteral(canonical_number(n)),
            TypeAnnKind::BooleanLiteral(_) => Type::Boolean,
            TypeAnnKind::TypePredicate { .. } => Type::Boolean,
            TypeAnnKind::Union(variants) => Type::Union(self.resolve_list(variants, fuel)),
            TypeAnnKind::Intersection(variants) => {
                // Merge object/class fields from all variants
                let types = self.resolve_list(variants, fuel);
                let mut merged: Vec<(String, Type)> = Vec::new();
                let mut i: usize = 0;
                while i < types.len()
                    invariant
                        i <= types@.len(),
                    decreases types@.len() - i,
                {
                    if let Some(fs) = fields_of(&types[i]) {
                        merge_new_fields(&mut merged, fs);
                    }
                    i = i + 1;
                }
                if merged.len() == 0 {
                    Type::Intersection(types)
                } else {
                    Type::Object { fields: merged }
                }
            },
            TypeAnnKind::Keyof(inner) => {
                // The field names as string literal types
                let inner_type = self.resolve_type_annotation(inner, fuel);
                match fields_of(&inner_type) {
                    Some(fields) => {
                        let mut literals: Vec<Type> = Vec::new();
                        let mut i: usize = 0;
                        while i < fields.len()
                            invariant
                                i <= fields@.len(),
                                literals@.len() == i,
                                forall|k: int|
                                    0 <= k < i ==> literals@[k] == Type::StringLiteral(
                                        #[trigger] fields@[k].0,
                                    ),
                            decreases fields@.len() - i,
                        {
                            literals.push(Type::StringLiteral(fields[i].0.clone()));
                            i = i + 1;
                        }
                        let res = if literals.len() == 1 {
                            match literals.pop() {
                                Some(t) => t,
                                None => Type::Unknown,
                            }
                        } else {
                            Type::Union(literals)
                        };
                        assert(keyof_yields(inner_type, res));
                        res
                    },
                    None => {
                        assert(keyof_yields(inner_type, Type::String));
                        Type::String
                    },
                }
            },
            TypeAnnKind::FunctionType { params, return_type } => Type::Function {
                params: self.resolve_list(params, fuel),
                return_type: Box::new(self.resolve_type_annotation(return_type, fuel)),
            },
            TypeAnnKind::Tuple(elements) => Type::Tuple(self.resolve_list(elements, fuel)),
            TypeAnnKind::Generic { name, type_args } => {
                match find_index(&self.generic_type_aliases, name.as_str()) {
                    Some(a) => {
                        if fuel == 0 {
                            return Type::Unknown;
                        }
                        let alias = &self.generic_type_aliases[a].1;
                        // Resolve the type arguments, then substitute into the body
                        let mut subs: Vec<(String, Type)> = Vec::new();
                        let mut k: usize = 0;
                        while k < alias.type_params.len() && k < type_args.len()
                            invariant
                                k <= type_args@.len(),
                            decreases type_args@.len() - k,
                        {
                            assert(decreases_to!(type_args => type_args@[k as int]));
                            let t = self.resolve_type_annotation(&type_args[k], fuel);
                            insert_entry(&mut subs, alias.type_params[k].clone(), t);
                            k = k + 1;
                        }
                        self.resolve_generic_type_body(&alias.body, &subs, fuel - 1)
                    },
                    None => {
                        // Fall back to a named type
                        match field_type(&self.interface_types, name.as_str()) {
                            Some(t) => t,
                            None => Type::Unknown,
                        }
                    },
                }
            },
            TypeAnnKind::Conditional { check_type, extends_type, true_type, false_type } => {
                let check = self.resolve_type_annotation(check_type, fuel);
                let extends = self.resolve_type_annotation(extends_type, fuel);
                if is_assignable(&check, &extends) {
                    self.resolve_type_annotation(true_type, fuel)
                } else {
                    self.resolve_type_annotation(false_type, fuel)
                }
            },
            TypeAnnKind::Mapped { .. } => {
                // Mapped types produce no runtime values
                Type::Unknown
            },
            TypeAnnKind::IndexedAccess { object_type, index_type } => {
                // T[P] where T is an object type and P is a string literal: the field type
                let obj = self.resolve_type_annotation(object_type, fuel);
                let idx = self.resolve_type_annotation(index_type, fuel);
                if let Type::Object { fields } = &obj {
                    if let Type::StringLiteral(key) = &idx {
                        if let Some(t) = field_type(fields, key.as_str()) {
                            return t;
                        }
                    }
                }
                Type::Unknown
            },
        }
    }

    fn resolve_list(&self, anns: &Vec<TypeAnnotation>, fuel: usize) -> (r: Vec<Type>)
        ensures
            r@.len() == anns@.len(),
        decreases fuel, anns, 0nat,
    {
        let mut out: Vec<Type> = Vec::new();
        let mut i: usize = 0;
        while i < anns.len()
            invariant
                i <= anns@.len(),
                out@.len() == i,
            decreases anns@.len() - i,
        {
            assert(decreases_to!(anns => anns@[i as int]));
            out.push(self.resolve_type_annotation(&anns[i], fuel));
            i = i + 1;
        }
        out
    }

    fn resolve_ann_fields(&self, fields: &Vec<(String, TypeAnnotation)>, fuel: usize) -> (r: Vec<
        (String, Type),
    >)
        ensures
            r@.len() == fields@.len(),
            forall|i: int|
                0 <= i < r@.len() ==> #[trigger] r@[i].0@ == fields@[i].0@ && self.resolves_to(
                    fields@[i].1,
                    r@[i].1,
                ),
        decreases fuel, fields, 0nat,
    {
        let mut out: Vec<(String, Type)> = Vec::new();
        let mut i: usize = 0;
        while i < fields.len()
            invariant
                i <= fields@.len(),
                out@.len() == i,
                forall|j: int|
                    0 <= j < i ==> #[trigger] out@[j].0@ == fields@[j].0@ && self.resolves_to(
                        fields@[j].1,
                        out@[j].1,
                    ),
            decreases fields@.len() - i,
        {
            assert(decreases_to!(fields => fields@[i as int]));
            let t = self.resolve_type_annotation(&fields[i].1, fuel);
            out.push((fields[i].0.clone(), t));
            i = i + 1;
        }
        out
    }

    /// Resolves the body of a generic alias with its type parameters bound to
    /// `subs`; a conditional type is decided on the substituted types.
    fn resolve_generic_type_body(
        &self,
        ann: &TypeAnnotation,
        subs: &Vec<(String, Type)>,
        fuel: usize,
    ) -> (r: Type)
        ensures
            self.generic_body_resolves(*ann, subs@, r),
        decreases fuel, ann, 1nat,
    {
        match &ann.kind {
            TypeAnnKind::Named(name) => {
                match field_type(subs, name.as_str()) {
                    Some(t) => t,
                    None => self.resolve_type_annotation(ann, fuel),
                }
            },
            TypeAnnKind::Conditional { check_type, extends_type, true_type, false_type } => {
                let check = self.resolve_generic_type_body(check_type, subs, fuel);
                let extends = self.resolve_generic_type_body(extends_type, subs, fuel);
                if is_assignable(&check, &extends) {
                    self.resolve_generic_type_body(true_type, subs, fuel)
                } else {
                    self.resolve_generic_type_body(false_type, subs, fuel)
                }
            },
            // Other kinds resolve as usual (the substitutions do not apply)
            _ => self.resolve_type_annotation(ann, fuel),
        }
    }
}

} // verus!

verus! {

/// The type a binary operator yields on operand types `left` and `right`, or
/// `None` where the operands are refused. `unknown` operands are accepted by
/// every operator.
pub open spec fn binary_result(left: Type, op: BinOp, right: Type) -> Option<Type> {
    if left is Unknown || right is Unknown {
        match op {
            BinOp::NullishCoalescing => Some(Type::Unknown),
            BinOp::Add => if left is String || right is String {
                Some(Type::String)
            } else {
                Some(Type::Number)
            },
            BinOp::Subtract | BinOp::Multiply | BinOp::Divide | BinOp::Modulo | BinOp::Power => Some(
                Type::Number,
            ),
            _ => Some(Type::Boolean),
        }
    } else {
        match op {
            BinOp::Add => if left is Number && right is Number {
                Some(Type::Number)
            } else if left is String || right is String {
                Some(Type::String)
            } else {
                None
            },
            BinOp::Subtract | BinOp::Multiply | BinOp::Divide | BinOp::Modulo | BinOp::Power => {
                if left is Number && right is Number {
                    Some(Type::Number)
                } else {
                    None
                }
            },
            BinOp::NullishCoalescing => if left is Null || left is Undefined {
                Some(right)
            } else {
                Some(left)
            },
            _ => Some(Type::Boolean),
        }
    }
}

/// The kind of type a binary operator yields on any operands it accepts:
/// booleans for comparisons and logic, numbers for arithmetic other than `+`,
/// numbers or strings for `+`.
pub open spec fn binary_kind(op: BinOp, t: Type) -> bool {
    match op {
        BinOp::Add => t is Number || t is String,
        BinOp::Subtract | BinOp::Multiply | BinOp::Divide | BinOp::Modulo | BinOp::Power =>
            t is Number,
        BinOp::NullishCoalescing => true,
        _ => t is Boolean,
    }
}

/// The message of a refused binary operation.
pub open spec fn binary_message(left: Type, op: BinOp, right: Type) -> Seq<char> {
    if op is Add {
        "Operator '+' cannot be applied to types '"@ + type_text(left) + "' and '"@ + type_text(
            right,
        ) + "'"@
    } else {
        "Operator cannot be applied to types '"@ + type_text(left) + "' and '"@ + type_text(right)
            + "'"@
    }
}

/// An expression whose check cannot fail: a literal, possibly in parentheses,
/// or a conditional of such expressions.
pub open spec fn infallible_expr(e: Expr) -> bool
    decreases e,
{
    match e.kind {
        ExprKind::NumberLiteral(_) | ExprKind::StringLiteral(_) | ExprKind::BooleanLiteral(_)
        | ExprKind::NullLiteral | ExprKind::UndefinedLiteral => true,
        ExprKind::Grouping { expr } => infallible_expr(*expr),
        ExprKind::Conditional { condition, consequent, alternate } => infallible_expr(*condition)
            && infallible_expr(*consequent) && infallible_expr(*alternate),
        _ => false,
    }
}

/// A statement whose check cannot fail: an expression statement or an
/// unannotated declaration of an expression that cannot fail, `break`,
/// `continue`, an import, or an empty statement.
pub open spec fn infallible_stmt(s: Statement) -> bool {
    match s.kind {
        StmtKind::Expression { expr } => infallible_expr(expr),
        StmtKind::VariableDecl { type_ann: None, initializer: Some(init), .. } => infallible_expr(init),
        StmtKind::Break { .. } | StmtKind::Continue { .. } | StmtKind::Import { .. }
        | StmtKind::Empty => true,
        _ => false,
    }
}

/// A literal other than a template: a number, string or boolean, `null` or `undefined`.
pub open spec fn is_literal(e: Expr) -> bool {
    e.kind is NumberLiteral || e.kind is StringLiteral || e.kind is BooleanLiteral
        || e.kind is NullLiteral || e.kind is UndefinedLiteral
}

/// Every expression of `args` is one whose check cannot fail.
pub open spec fn all_infallible(args: Seq<Expr>) -> bool {
    forall|i: int| 0 <= i < args.len() ==> #[trigger] infallible_expr(args[i])
}

/// An error at `span` whose message is one that `message` allows: how an
/// operator refuses an operand.
pub open spec fn refused(r: Result<Type, CompileError>, span: Span, message: spec_fn(Seq<char>) -> bool) -> bool {
    r matches Err(e) && type_error(e) && e.span == span && message(e.message@)
}

/// The message of a refused unary minus.
pub open spec fn negate_message(t: Type) -> Seq<char> {
    "Unary '-' requires number, got '"@ + type_text(t) + "'"@
}

/// The message of a refused increment or decrement.
pub open spec fn update_message(t: Type) -> Seq<char> {
    "Operator '++/--' requires number, got '"@ + type_text(t) + "'"@
}

/// The message of a refused return of a `value` type where `expected` is due.
pub open spec fn return_message(value: Type, expected: Type) -> Seq<char> {
    "Type '"@ + type_text(value) + "' is not assignable to return type '"@ + type_text(expected)
        + "'"@
}

/// The type an annotation stands for wherever it is written: the primitive
/// types and boolean literal types.
pub open spec fn plain_ann_type(k: TypeAnnKind) -> Option<Type> {
    match k {
        TypeAnnKind::Number => Some(Type::Number),
        TypeAnnKind::String => Some(Type::String),
        TypeAnnKind::Boolean => Some(Type::Boolean),
        TypeAnnKind::Void => Some(Type::Void),
        TypeAnnKind::Null => Some(Type::Null),
        TypeAnnKind::Undefined => Some(Type::Undefined),
        TypeAnnKind::BooleanLiteral(_) => Some(Type::Boolean),
        _ => None,
    }
}

/// Whether an annotation is built of plain types and object types of them.
pub open spec fn structural_ann(a: TypeAnnotation) -> bool
    decreases a,
{
    match a.kind {
        TypeAnnKind::Object { fields } => forall|i: int|
            0 <= i < fields@.len() ==> structural_ann(#[trigger] fields@[i].1),
        _ => plain_ann_type(a.kind) is Some,
    }
}

/// Whether `t` is the type a structural annotation denotes: a plain type, or
/// an object type with the annotated field names, in order, and the types
/// the field annotations denote.
pub open spec fn ann_denotes(a: TypeAnnotation, t: Type) -> bool
    decreases a,
{
    match a.kind {
        TypeAnnKind::Object { fields } => t matches Type::Object { fields: fs } && fs@.len()
            == fields@.len() && forall|i: int|
            0 <= i < fs@.len() ==> #[trigger] fs@[i].0@ == fields@[i].0@ && ann_denotes(
                fields@[i].1,
                fs@[i].1,
            ),
        _ => plain_ann_type(a.kind) == Some(t),
    }
}

/// The type `keyof` gives for type `t`: the names of an object's or class's
/// fields as string literal types, alone when there is one and as a union
/// otherwise; `string` for any other type.
pub open spec fn keyof_yields(t: Type, r: Type) -> bool {
    match t {
        Type::Object { fields } => names_as_literals(fields@, r),
        Type::Class { fields, .. } => names_as_literals(fields@, r),
        _ => r is String,
    }
}

/// The field names of `fields` as string literal types: the one literal when
/// there is one field, else their union in order.
pub open spec fn names_as_literals(fields: Seq<(String, Type)>, r: Type) -> bool {
    if fields.len() == 1 {
        r == Type::StringLiteral(fields[0].0)
    } else {
        r matches Type::Union(ls) && ls@.len() == fields.len() && forall|i: int|
            0 <= i < fields.len() ==> ls@[i] == Type::StringLiteral(#[trigger] fields[i].0)
    }
}

/// The first of `tys` that is not `unknown`, or `unknown` when there is none.
pub open spec fn first_known(tys: Seq<Type>) -> Type
    decreases tys.len(),
{
    if tys.len() == 0 {
        Type::Unknown
    } else if first_known(tys.drop_last()) is Unknown {
        tys.last()
    } else {
        first_known(tys.drop_last())
    }
}

/// The element type of an array literal whose elements have types `tys`: the
/// first of them that is not `unknown`, or `number` when there is none.
pub open spec fn element_type_of(tys: Seq<Type>) -> Type {
    if first_known(tys) is Unknown {
        Type::Number
    } else {
        first_known(tys)
    }
}

/// The message of an expression of type `it` that does not satisfy type `tt`.
/// Whether every property of an object literal is a plain `key: value` one:
/// no spread, no computed key, no method.
pub open spec fn plain_properties(props: Seq<ObjectProperty>) -> bool {
    forall|i: int|
        0 <= i < props.len() ==> !(#[trigger] props[i]).is_spread && props[i].computed_key is None
            && !props[i].is_method
}

/// The type of a conditional expression whose branches have types `tt` and
/// `et`: their type when they agree, the known one when the other is
/// `unknown`, and `unknown` otherwise.
pub open spec fn conditional_type(tt: Type, et: Type) -> Type {
    if type_eq(tt, et) {
        tt
    } else if tt is Unknown {
        et
    } else if et is Unknown {
        tt
    } else {
        Type::Unknown
    }
}

/// The refusal of member `p` on a value of type `ot`.
pub open spec fn property_message(p: Seq<char>, ot: Type) -> Seq<char> {
    "Property '"@ + p + "' does not exist on type '"@ + type_text(ot) + "'"@
}

/// The refusal of an argument of type `at` for a parameter of type `pt`.
pub open spec fn argument_message(at: Type, pt: Type) -> Seq<char> {
    "Argument of type '"@ + type_text(at) + "' is not assignable to parameter of type '"@
        + type_text(pt) + "'"@
}

pub open spec fn satisfies_message(it: Type, tt: Type) -> Seq<char> {
    "Type '"@ + type_text(it) + "' does not satisfy '"@ + type_text(tt) + "'"@
}

/// The message of a refused assignment of a `value` type to a `declared` type.
pub open spec fn assign_message(value: Type, declared: Type) -> Seq<char> {
    "Type '"@ + type_text(value) + "' is not assignable to type '"@ + type_text(declared) + "'"@
}

/// Types a binary operation from its operand types.
pub fn check_binary_op(left: &Type, op: BinOp, right: &Type, span: Span) -> (r: Result<
    Type,
    CompileError,
>)
    ensures
        match (r, binary_result(*left, op, *right)) {
            (Ok(t), Some(u)) => type_eq(t, u),
            (Err(e), None) => type_error(e) && e.span == span && e.message@ == binary_message(
                *left,
                op,
                *right,
            ),
            _ => false,
        },
{
    proof {
        reveal_strlit("Operator '+' cannot be applied to types '");
        reveal_strlit("Operator cannot be applied to types '");
        reveal_strlit("' and '");
        reveal_strlit("'");
    }
    let l_unknown = left.is_unknown();
    let r_unknown = right.is_unknown();
    let l_number = matches!(left, Type::Number);
    let r_number = matches!(right, Type::Number);
    let l_string = matches!(left, Type::String);
    let r_string = matches!(right, Type::String);
    // Unknown (any) is permissive: allow operations with it
    if l_unknown || r_unknown {
        return match op {
            BinOp::NullishCoalescing => Ok(Type::Unknown),
            BinOp::Add => if l_string || r_string {
                Ok(Type::String)
            } else {
                Ok(Type::Number)
            },
            BinOp::Subtract | BinOp::Multiply | BinOp::Divide | BinOp::Modulo | BinOp::Power => Ok(
                Type::Number,
            ),
            _ => Ok(Type::Boolean),
        };
    }
    match op {
        BinOp::Add => {
            if l_number && r_number {
                Ok(Type::Number)
            } else if l_string || r_string {
                Ok(Type::String)
            } else {
                Err(
                    type_err(
                        msg_types(
                            "Operator '+' cannot be applied to types '",
                            left,
                            "' and '",
                            right,
                            "'",
                        ),
                        span,
                    ),
                )
            }
        },
        BinOp::Subtract | BinOp::Multiply | BinOp::Divide | BinOp::Modulo | BinOp::Power => {
            if l_number && r_number {
                Ok(Type::Number)
            } else {
                Err(
                    type_err(
                        msg_types(
                            "Operator cannot be applied to types '",
                            left,
                            "' and '",
                            right,
                            "'",
                        ),
                        span,
                    ),
                )
            }
        },
        BinOp::NullishCoalescing => {
            // The result is the non-null side
            if matches!(left, Type::Null) || matches!(left, Type::Undefined) {
                Ok(right.deep_copy())
            } else {
                Ok(left.deep_copy())
            }
        },
        _ => Ok(Type::Boolean),
    }
}

/// Whether `t` is the type a `typeof` test string names: the primitive of that
/// name, an empty object type for "object", a function type taking nothing and
/// returning void for "function", and `unknown` for any other string.
pub open spec fn typeof_target_is(t: Type, s: Seq<char>) -> bool {
    if s == "number"@ {
        t is Number
    } else if s == "string"@ {
        t is String
    } else if s == "boolean"@ {
        t is Boolean
    } else if s == "object"@ {
        t matches Type::Object { fields } && fields@.len() == 0
    } else if s == "function"@ {
        t matches Type::Function { params, return_type } && params@.len() == 0
            && *return_type is Void
    } else {
        t is Unknown
    }
}

/// Maps a `typeof` string to a type.
pub fn type_string_to_type(s: &String) -> (r: Type)
    ensures
        typeof_target_is(r, s@),
{
    proof {
        reveal_strlit("number");
        reveal_strlit("string");
        reveal_strlit("boolean");
        reveal_strlit("object");
        reveal_strlit("function");
    }
    if eq_str(s, "number") {
        Type::Number
    } else if eq_str(s, "string") {
        Type::String
    } else if eq_str(s, "boolean") {
        Type::Boolean
    } else if eq_str(s, "object") {
        Type::Object { fields: Vec::new() }
    } else if eq_str(s, "function") {
        Type::Function { params: Vec::new(), return_type: Box::new(Type::Void) }
    } else {
        Type::Unknown
    }
}

/// Whether two types fall in the same `typeof` category: numbers (with their
/// literals), strings (with their literals), or booleans.
pub open spec fn same_category(a: Type, b: Type) -> bool {
    ||| (a is Number || a is NumberLiteral) && (b is Number || b is NumberLiteral)
    ||| (a is String || a is StringLiteral) && (b is String || b is StringLiteral)
    ||| a is Boolean && b is Boolean
}

/// The variants of `vs` outside the `typeof` category of `t`, in order.
pub open spec fn remaining_variants(vs: Seq<Type>, t: Type) -> Seq<Type>
    decreases vs.len(),
{
    if vs.len() == 0 {
        Seq::empty()
    } else if same_category(vs.last(), t) {
        remaining_variants(vs.drop_last(), t)
    } else {
        remaining_variants(vs.drop_last(), t).push(vs.last())
    }
}

/// Structurally equal types are in the same `typeof` categories.
proof fn lemma_type_eq_same_category(a: Type, b: Type, t: Type)
    requires
        type_eq(a, b),
    ensures
        same_category(a, t) == same_category(b, t),
{
}

pub fn is_same_type_category(ty: &Type, target: &Type) -> (r: bool)
    ensures
        r == same_category(*ty, *target),
{
    match (ty, target) {
        (Type::Number, Type::Number)
        | (Type::Number, Type::NumberLiteral(_))
        | (Type::NumberLiteral(_), Type::Number)
        | (Type::NumberLiteral(_), Type::NumberLiteral(_)) => true,
        (Type::String, Type::String)
        | (Type::String, Type::StringLiteral(_))
        | (Type::StringLiteral(_), Type::String)
        | (Type::StringLiteral(_), Type::StringLiteral(_)) => true,
        (Type::Boolean, Type::Boolean) => true,
        _ => false,
    }
}

/// On operands of known types (neither `unknown`), `+` adds numbers and
/// concatenates when either side is a string, and refuses every other pair,
/// such as a number and a boolean.
pub proof fn law_plus_on_known_operands(left: Type, right: Type)
    requires
        !(left is Unknown),
        !(right is Unknown),
    ensures
        left is Number && right is Number ==> binary_result(left, BinOp::Add, right) == Some(Type::Number),
        left is String || right is String ==> binary_result(left, BinOp::Add, right) == Some(Type::String),
        binary_result(left, BinOp::Add, right) matches Some(t) ==> (t is Number && left is Number
            && right is Number) || (t is String && (left is String || right is String)),
        !(left is Number && right is Number) && !(left is String || right is String)
            ==> binary_result(left, BinOp::Add, right) is None,
{
}

/// On operands of known types, the other arithmetic operators take two
/// numbers and refuse anything else.
pub proof fn law_arithmetic_on_known_operands(left: Type, op: BinOp, right: Type)
    requires
        !(left is Unknown),
        !(right is Unknown),
        op is Subtract || op is Multiply || op is Divide || op is Modulo || op is Power,
    ensures
        binary_result(left, op, right) is Some <==> left is Number && right is Number,
        binary_result(left, op, right) matches Some(t) ==> t is Number,
{
}

/// Comparisons, equality tests and `&&`/`||` accept operands of any types
/// and give a boolean.
pub proof fn law_tests_give_booleans(left: Type, op: BinOp, right: Type)
    requires
        op is Equal || op is StrictEqual || op is NotEqual || op is StrictNotEqual || op is Less
            || op is Greater || op is LessEqual || op is GreaterEqual || op is And || op is Or,
    ensures
        binary_result(left, op, right) == Some(Type::Boolean),
{
}

/// `??` gives its right side when the left is `null` or `undefined`, and
/// its left side otherwise; with an `unknown` side it gives `unknown`.
pub proof fn law_nullish_result(left: Type, right: Type)
    ensures
        left is Unknown || right is Unknown ==> binary_result(left, BinOp::NullishCoalescing, right)
            == Some(Type::Unknown),
        !(left is Unknown || right is Unknown) && (left is Null || left is Undefined) ==> binary_result(
            left,
            BinOp::NullishCoalescing,
            right,
        ) == Some(right),
        !(left is Unknown || right is Unknown) && !(left is Null || left is Undefined) ==> binary_result(
            left,
            BinOp::NullishCoalescing,
            right,
        ) == Some(left),
{
}

/// An `unknown` operand makes every operator accept: `+` then gives a
/// string when the other side is a string and a number otherwise, and the
/// other arithmetic operators give a number.
pub proof fn law_unknown_operand_accepted(left: Type, op: BinOp, right: Type)
    requires
        left is Unknown || right is Unknown,
    ensures
        binary_result(left, op, right) is Some,
        op is Add ==> binary_result(left, op, right) == Some(
            if left is String || right is String {
                Type::String
            } else {
                Type::Number
            },
        ),
        op is Subtract || op is Multiply || op is Divide || op is Modulo || op is Power ==> binary_result(
            left,
            op,
            right,
        ) == Some(Type::Number),
{
}

/// Being in the same `typeof` category is symmetric.
pub proof fn law_same_category_symmetric(a: Type, b: Type)
    ensures
        same_category(a, b) == same_category(b, a),
{
}

/// The `typeof x === "t"` / `typeof x !== "t"` pattern (either side), as the
/// variable, the type string and whether the test is an equality.
pub open spec fn typeof_test(c: Expr) -> Option<(Seq<char>, Seq<char>, bool)> {
    match c.kind {
        ExprKind::Binary { left, op, right } => if op is StrictEqual || op is StrictNotEqual {
            let is_eq = op is StrictEqual;
            if left.kind is Typeof && left.kind->Typeof_operand.kind is Identifier
                && right.kind is StringLiteral {
                Some(
                    (
                        left.kind->Typeof_operand.kind->Identifier_0@,
                        right.kind->StringLiteral_0@,
                        is_eq,
                    ),
                )
            } else if right.kind is Typeof && right.kind->Typeof_operand.kind is Identifier
                && left.kind is StringLiteral {
                Some(
                    (
                        right.kind->Typeof_operand.kind->Identifier_0@,
                        left.kind->StringLiteral_0@,
                        is_eq,
                    ),
                )
            } else {
                None
            }
        } else {
            None
        },
        _ => None,
    }
}

/// Detects `typeof x === "type"` or `typeof x !== "type"` (either way round).
pub fn detect_typeof_narrowing(condition: &Expr) -> (r: Option<(String, String, bool)>)
    ensures
        match (r, typeof_test(*condition)) {
            (Some((v, t, e)), Some((v2, t2, e2))) => v@ == v2 && t@ == t2 && e == e2,
            (None, None) => true,
            _ => false,
        },
{
    if let ExprKind::Binary { left, op, right } = &condition.kind {
        if matches!(op, BinOp::StrictEqual) || matches!(op, BinOp::StrictNotEqual) {
            let is_eq = matches!(op, BinOp::StrictEqual);
            // typeof x === "type"
            if let ExprKind::Typeof { operand } = &left.kind {
                if let ExprKind::Identifier(name) = &operand.kind {
                    if let ExprKind::StringLiteral(type_str) = &right.kind {
                        return Some((name.clone(), type_str.clone(), is_eq));
                    }
                }
            }
            // "type" === typeof x
            if let ExprKind::Typeof { operand } = &right.kind {
                if let ExprKind::Identifier(name) = &operand.kind {
                    if let ExprKind::StringLiteral(type_str) = &left.kind {
                        return Some((name.clone(), type_str.clone(), is_eq));
                    }
                }
            }
        }
    }
    None
}

} // verus!

verus! {

impl TypeChecker {
    /// Checks statements in order.
    fn check_block(&mut self, stmts: &Vec<Statement>) -> (r: Result<(), CompileError>)
        ensures
            Self::checked(*old(self), *final(self), r),
            stmts@.len() == 0 ==> r is Ok && *final(self) == *old(self),
            r is Ok && plain_stmts(stmts@) ==> final(self).exported_symbols == old(
                self,
            ).exported_symbols,
            (forall|i: int| 0 <= i < stmts@.len() ==> #[trigger] infallible_stmt(stmts@[i])) ==> r is Ok,
            exists|ss: Seq<Seq<Scope>>|
                #[trigger] Self::run_of(
                    old(self).current_this_type,
                    old(self).current_return_type,
                    stmts@,
                    ss,
                    unit_result(r),
                ) && ss[0] == old(self).scopes@,
        decreases stmts, 1nat,
    {
        let ghost mut ss: Seq<Seq<Scope>> = seq![self.scopes@];
        let mut i: usize = 0;
        while i < stmts.len()
            invariant
                i <= stmts@.len(),
                Self::restored(*old(self), *self),
                i == 0 ==> *self == *old(self),
                plain_stmts(stmts@) ==> self.exported_symbols == old(self).exported_symbols,
                ss.len() == i + 1,
                ss[0] == old(self).scopes@,
                ss.last() == self.scopes@,
                forall|q: int|
                    0 <= q < i ==> Self::stmt_outcome(
                        ss[q],
                        old(self).current_this_type,
                        old(self).current_return_type,
                        #[trigger] stmts@[q],
                        Ok::<(), CompileError>(()),
                    ) && scopes_after(stmts@[q], ss[q], ss[q + 1]),
            decreases stmts@.len() - i,
        {
            assert(decreases_to!(stmts => stmts@[i as int]));
            let ghost before = *self;
            match self.check_statement(&stmts[i]) {
                Ok(_) => {
                    proof {
                        let ghost ss2 = ss.push(self.scopes@);
                        assert(scopes_after(stmts@[i as int], ss2[i as int], ss2[i + 1]));
                        assert forall|q: int| 0 <= q < i + 1 implies Self::stmt_outcome(
                            ss2[q],
                            old(self).current_this_type,
                            old(self).current_return_type,
                            #[trigger] stmts@[q],
                            Ok::<(), CompileError>(()),
                        ) && scopes_after(stmts@[q], ss2[q], ss2[q + 1]) by {
                            if q < i {
                                assert(ss2[q] == ss[q]);
                                assert(ss2[q + 1] == ss[q + 1]);
                            }
                        }
                        ss = ss2;
                    }
                },
                Err(e) => {
                    proof {
                        assert(Self::run_of(
                            old(self).current_this_type,
                            old(self).current_return_type,
                            stmts@,
                            ss,
                            unit_result(Err::<(), CompileError>(e)),
                        ));
                    }
                    proof {
                        if infallible_stmt(stmts@[i as int]) {
                            Self::lemma_infallible_stmt(
                                before.scopes@,
                                before.current_this_type,
                                before.current_return_type,
                                stmts@[i as int],
                                e,
                            );
                        }
                    }
                    return Err(e);
                },
            }
            i = i + 1;
        }
        proof {
            assert(Self::run_of(
                old(self).current_this_type,
                old(self).current_return_type,
                stmts@,
                ss,
                unit_result(Ok::<(), CompileError>(())),
            ));
        }
        Ok(())
    }

    /// Checks statements in a scope of their own.
    fn check_scoped(&mut self, stmts: &Vec<Statement>) -> (r: Result<(), CompileError>)
        ensures
            Self::checked_expr(*old(self), *final(self), r),
            r is Ok && plain_stmts(stmts@) ==> final(self).exported_symbols == old(
                self,
            ).exported_symbols,
            (forall|i: int| 0 <= i < stmts@.len() ==> #[trigger] infallible_stmt(stmts@[i])) ==> r is Ok,
            Self::body_outcome(
                old(self).scopes@,
                old(self).current_this_type,
                old(self).current_return_type,
                stmts@,
                unit_result(r),
            ),
        decreases stmts, 2nat,
    {
        self.push_scope();
        let ghost inner = *self;
        let res = self.check_block(stmts);
        proof {
            let ss = choose|ss: Seq<Seq<Scope>>|
                #[trigger] Self::run_of(
                    inner.current_this_type,
                    inner.current_return_type,
                    stmts@,
                    ss,
                    unit_result(res),
                ) && ss[0] == inner.scopes@;
            assert(new_frame(old(self).scopes@, ss[0]));
            assert(Self::run_of(
                old(self).current_this_type,
                old(self).current_return_type,
                stmts@,
                ss,
                unit_result(res),
            ));
            assert(Self::body_outcome(
                old(self).scopes@,
                old(self).current_this_type,
                old(self).current_return_type,
                stmts@,
                unit_result(res),
            ));
        }
        match res {
            Ok(_) => {},
            Err(e) => {
                return Err(e);
            },
        }
        self.pop_scope();
        Ok(())
    }

    /// Binds each parameter to its type in the innermost scope.
    fn define_params(&mut self, params: &Vec<Parameter>, types: &Vec<Type>)
        ensures
            Self::restored(*old(self), *final(self)),
            forall|k: Seq<char>|
                (forall|j: int|
                    0 <= j < params@.len() && j < types@.len() ==> #[trigger] params@[j].name@ != k)
                    ==> #[trigger] lookup_in(final(self).scopes@, k) == lookup_in(old(self).scopes@, k),
            old(self).scopes@.len() > 0 ==> forall|j: int|
                0 <= j < params@.len() && j < types@.len() && (forall|l: int|
                    j < l < params@.len() && l < types@.len() ==> params@[l].name@
                        != params@[j].name@) ==> (lookup_in(
                    final(self).scopes@,
                    #[trigger] params@[j].name@,
                ) matches Some(sym) && !sym.is_const && type_eq(sym.ty, types@[j])),
            final(self).exported_symbols == old(self).exported_symbols,
    {
        let mut i: usize = 0;
        while i < params.len() && i < types.len()
            invariant
                Self::restored(*old(self), *self),
                self.exported_symbols == old(self).exported_symbols,
                i <= params@.len(),
                i <= types@.len(),
                forall|k: Seq<char>|
                    (forall|j: int| 0 <= j < i ==> #[trigger] params@[j].name@ != k) ==> #[trigger] lookup_in(
                        self.scopes@,
                        k,
                    ) == lookup_in(old(self).scopes@, k),
                old(self).scopes@.len() > 0 ==> forall|j: int|
                    0 <= j < i && (forall|l: int| j < l < i ==> params@[l].name@ != params@[j].name@)
                        ==> (lookup_in(self.scopes@, #[trigger] params@[j].name@) matches Some(sym)
                        && !sym.is_const && type_eq(sym.ty, types@[j])),
            decreases params@.len() - i,
        {
            self.define(params[i].name.clone(), types[i].deep_copy(), false);
            i = i + 1;
        }
    }

    /// Checks a function body in a new scope that binds the parameters, with
    /// `ret` as the expected return type.
    fn check_function_body(
        &mut self,
        params: &Vec<Parameter>,
        types: &Vec<Type>,
        ret: Type,
        body: &Vec<Statement>,
    ) -> (r: Result<(), CompileError>)
        requires
            types@.len() == params@.len(),
        ensures
            Self::checked_expr(*old(self), *final(self), r),
            r is Ok && plain_stmts(body@) ==> final(self).exported_symbols == old(
                self,
            ).exported_symbols,
            (forall|i: int| 0 <= i < body@.len() ==> #[trigger] infallible_stmt(body@[i])) ==> r is Ok,
            exists|ss: Seq<Seq<Scope>>|
                Self::run_of(old(self).current_this_type, Some(ret), body@, ss, unit_result(r))
                    && #[trigger] param_frame(old(self).scopes@, params@, ss[0]),
        decreases body, 2nat,
    {
        let ghost rt = ret;
        self.push_scope();
        proof {
            lemma_new_frame_lookup(old(self).scopes@, self.scopes@);
        }
        let mut prev_ret = Some(ret);
        core::mem::swap(&mut prev_ret, &mut self.current_return_type);
        self.define_params(params, types);
        let ghost inner = *self;
        assert(param_frame(old(self).scopes@, params@, inner.scopes@));
        let res = self.check_block(body);
        proof {
            let ss = choose|ss: Seq<Seq<Scope>>|
                #[trigger] Self::run_of(
                    inner.current_this_type,
                    inner.current_return_type,
                    body@,
                    ss,
                    unit_result(res),
                ) && ss[0] == inner.scopes@;
            assert(param_frame(old(self).scopes@, params@, ss[0]));
        }
        res?;
        self.current_return_type = prev_ret;
        self.pop_scope();
        Ok(())
    }

    /// Checks an `if`: the condition, then each branch in a scope of its
    /// own where a `typeof` test on a union variable narrows it.
    fn check_if(&mut self, stmt: &Statement) -> (r: Result<(), CompileError>)
        requires
            stmt.kind is If,
        ensures
            Self::checked(*old(self), *final(self), r),
            r is Ok ==> final(self).scopes@ == old(self).scopes@,
            r is Ok && plain_stmt(*stmt) ==> final(self).exported_symbols == old(
                self,
            ).exported_symbols,
            Self::stmt_outcome(
                old(self).scopes@,
                old(self).current_this_type,
                old(self).current_return_type,
                *stmt,
                unit_result(r),
            ),
        decreases stmt, 0nat,
    {
        let (condition, then_branch, else_branch) = match &stmt.kind {
            StmtKind::If { condition, then_branch, else_branch } => (condition, then_branch, else_branch),
            _ => {
                return Ok(());
            },
        };
        self.check_expr(condition)?;
        let narrowing = self.narrowing_for(condition);
        self.push_scope();
        proof {
            lemma_new_frame_lookup(old(self).scopes@, self.scopes@);
        }
        if let Some((var_name, target, remaining, is_eq)) = &narrowing {
            // Then-branch: the tested type for `===`, the rest for `!==`
            if *is_eq {
                self.define(var_name.clone(), target.deep_copy(), false);
            } else {
                self.define_narrowed(var_name, remaining);
            }
        }
        let ghost inner = *self;
        assert(narrow_frame(old(self).scopes@, *condition, inner.scopes@));
        let res = self.check_block(then_branch);
        proof {
            let ss = choose|ss: Seq<Seq<Scope>>|
                #[trigger] Self::run_of(
                    inner.current_this_type,
                    inner.current_return_type,
                    then_branch@,
                    ss,
                    unit_result(res),
                ) && ss[0] == inner.scopes@;
            assert(narrow_frame(old(self).scopes@, *condition, ss[0]));
        }
        res?;
        self.pop_scope();
        if let Some(else_stmts) = else_branch {
            self.push_scope();
            proof {
                lemma_new_frame_lookup(old(self).scopes@, self.scopes@);
            }
            if let Some((var_name, target, remaining, is_eq)) = &narrowing {
                // Else-branch: the complement
                if *is_eq {
                    self.define_narrowed(var_name, remaining);
                } else {
                    self.define(var_name.clone(), target.deep_copy(), false);
                }
            }
            let ghost inner2 = *self;
            assert(narrow_frame(old(self).scopes@, *condition, inner2.scopes@));
            let res2 = self.check_block(else_stmts);
            proof {
                let ss = choose|ss: Seq<Seq<Scope>>|
                    #[trigger] Self::run_of(
                        inner2.current_this_type,
                        inner2.current_return_type,
                        else_stmts@,
                        ss,
                        unit_result(res2),
                    ) && ss[0] == inner2.scopes@;
                assert(narrow_frame(old(self).scopes@, *condition, ss[0]));
            }
            res2?;
            self.pop_scope();
        }
        Ok(())
    
    }

    /// Checks a `for`-`of` or `for`-`in` loop: what it iterates over, then
    /// its body in a scope of its own where the loop variable is bound (to a
    /// number for `of`, a string for `in`).
    fn check_for_each(&mut self, stmt: &Statement) -> (r: Result<(), CompileError>)
        requires
            stmt.kind is ForOf || stmt.kind is ForIn,
        ensures
            Self::checked(*old(self), *final(self), r),
            r is Ok ==> final(self).scopes@ == old(self).scopes@,
            Self::stmt_outcome(
                old(self).scopes@,
                old(self).current_this_type,
                old(self).current_return_type,
                *stmt,
                unit_result(r),
            ),
        decreases stmt, 0nat,
    {
        match &stmt.kind {
            StmtKind::ForOf { var_name, iterable, body, .. } => {
                self.check_expr(iterable)?;
                self.push_scope();
                proof {
                    lemma_new_frame_lookup(old(self).scopes@, self.scopes@);
                }
                // Elements are numbers (arrays hold numbers at run time)
                self.define(var_name.clone(), Type::Number, false);
                let ghost inner = *self;
                let res = self.check_block(body);
                proof {
                    let ss = choose|ss: Seq<Seq<Scope>>|
                        #[trigger] Self::run_of(
                            inner.current_this_type,
                            inner.current_return_type,
                            body@,
                            ss,
                            unit_result(res),
                        ) && ss[0] == inner.scopes@;
                    assert(var_frame(old(self).scopes@, var_name@, Type::Number, ss[0]));
                }
                res?;
                self.pop_scope();
                Ok(())
            
            },
            StmtKind::ForIn { var_name, object, body } => {
                self.check_expr(object)?;
                self.push_scope();
                proof {
                    lemma_new_frame_lookup(old(self).scopes@, self.scopes@);
                }
                // for-in iterates over string keys
                self.define(var_name.clone(), Type::String, false);
                let ghost inner = *self;
                let res = self.check_block(body);
                proof {
                    let ss = choose|ss: Seq<Seq<Scope>>|
                        #[trigger] Self::run_of(
                            inner.current_this_type,
                            inner.current_return_type,
                            body@,
                            ss,
                            unit_result(res),
                        ) && ss[0] == inner.scopes@;
                    assert(var_frame(old(self).scopes@, var_name@, Type::String, ss[0]));
                }
                res?;
                self.pop_scope();
                Ok(())
            
            },
            _ => Ok(()),
        }
    }

    /// Checks a `for` loop in a scope of its own: the initializer, the
    /// condition and the update, then the body.
    fn check_for(&mut self, stmt: &Statement) -> (r: Result<(), CompileError>)
        requires
            stmt.kind is For,
        ensures
            Self::checked(*old(self), *final(self), r),
            r is Ok ==> final(self).scopes@ == old(self).scopes@,
            Self::stmt_outcome(
                old(self).scopes@,
                old(self).current_this_type,
                old(self).current_return_type,
                *stmt,
                unit_result(r),
            ),
        decreases stmt, 0nat,
    {
        let (init, condition, update, body) = match &stmt.kind {
            StmtKind::For { init, condition, update, body } => (init, condition, update, body),
            _ => {
                return Ok(());
            },
        };
        self.push_scope();
        let ghost s1 = self.scopes@;
        assert(new_frame(old(self).scopes@, s1));
        if let Some(init) = init {
            let res = self.check_statement(init);
            proof {
                assert(Self::nested_outcome(
                    s1,
                    old(self).current_this_type,
                    old(self).current_return_type,
                    **init,
                    unit_result(res),
                ));
                if res is Ok {
                    assert(scopes_after(**init, s1, self.scopes@));
                }
            }
            res?;
        }
        let ghost s2 = self.scopes@;
        if let Some(cond) = condition {
            self.check_expr(cond)?;
        }
        if let Some(upd) = update {
            self.check_expr(upd)?;
        }
        let ghost before_body = *self;
        let res = self.check_block(body);
        proof {
            let ss = choose|ss: Seq<Seq<Scope>>|
                #[trigger] Self::run_of(
                    before_body.current_this_type,
                    before_body.current_return_type,
                    body@,
                    ss,
                    unit_result(res),
                ) && ss[0] == before_body.scopes@;
            assert(starts_with(ss, s2));
        }
        res?;
        self.pop_scope();
        Ok(())
    }

    /// Checks a `switch`: the discriminant, then each case's test and body,
    /// the body in a scope of its own.
    #[verifier::loop_isolation(false)]
    fn check_switch(&mut self, stmt: &Statement) -> (r: Result<(), CompileError>)
        requires
            stmt.kind is Switch,
        ensures
            Self::checked(*old(self), *final(self), r),
            r is Ok ==> final(self).scopes@ == old(self).scopes@,
            Self::stmt_outcome(
                old(self).scopes@,
                old(self).current_this_type,
                old(self).current_return_type,
                *stmt,
                unit_result(r),
            ),
        decreases stmt, 0nat,
    {
        match &stmt.kind {
            StmtKind::Switch { discriminant, cases } => {
                let dt = self.check_expr(discriminant)?;
                assert(Self::expr_outcome(
                    old(self).scopes@,
                    old(self).current_this_type,
                    *discriminant,
                    Ok::<Type, CompileError>(dt),
                ));
                let mut i: usize = 0;
                while i < cases.len()
                    invariant
                        i <= cases@.len(),
                        Self::restored(*old(self), *self),
                        self.scopes@ == old(self).scopes@,
                        Self::expr_passes(old(self).scopes@, old(self).current_this_type, *discriminant),
                        forall|j: int|
                            0 <= j < i ==> Self::case_outcome(
                                old(self).scopes@,
                                old(self).current_this_type,
                                old(self).current_return_type,
                                #[trigger] cases@[j],
                                Ok::<(), CompileError>(()),
                            ),
                    decreases cases@.len() - i,
                {
                    assert(decreases_to!(cases => cases@[i as int]));
                    if let Some(test) = &cases[i].test {
                        match self.check_expr(test) {
                            Ok(_) => {},
                            Err(e) => {
                                assert(Self::case_outcome(
                                    old(self).scopes@,
                                    old(self).current_this_type,
                                    old(self).current_return_type,
                                    cases@[i as int],
                                    Err::<(), CompileError>(e),
                                ));
                                return Err(e);
                            },
                        }
                    }
                    let res = self.check_scoped(&cases[i].body);
                    assert(Self::case_outcome(
                        old(self).scopes@,
                        old(self).current_this_type,
                        old(self).current_return_type,
                        cases@[i as int],
                        unit_result(res),
                    ));
                    res?;
                    i = i + 1;
                }
                Ok(())
            },
            _ => Ok(()),
        }
    }

    /// Checks a `try`: its body, the `catch` body with the caught value
    /// bound, and the `finally` body, each in a scope of its own.
    fn check_try(&mut self, stmt: &Statement) -> (r: Result<(), CompileError>)
        requires
            stmt.kind is TryCatch,
        ensures
            Self::checked(*old(self), *final(self), r),
            r is Ok ==> final(self).scopes@ == old(self).scopes@,
            Self::stmt_outcome(
                old(self).scopes@,
                old(self).current_this_type,
                old(self).current_return_type,
                *stmt,
                unit_result(r),
            ),
        decreases stmt, 0nat,
    {
        let (body, catch_binding, catch_body, finally_body) = match &stmt.kind {
            StmtKind::TryCatch { body, catch_binding, catch_body, finally_body } => (
                body,
                catch_binding,
                catch_body,
                finally_body,
            ),
            _ => {
                return Ok(());
            },
        };
        self.check_scoped(body)?;
        if let Some(cb) = catch_body {
            self.push_scope();
            proof {
                lemma_new_frame_lookup(old(self).scopes@, self.scopes@);
            }
            // The caught value may be anything
            if let Some(binding) = catch_binding {
                self.define(binding.clone(), Type::Unknown, false);
            }
            let ghost inner = *self;
            assert(catch_frame(old(self).scopes@, *catch_binding, inner.scopes@));
            let res = self.check_block(cb);
            proof {
                let ss = choose|ss: Seq<Seq<Scope>>|
                    #[trigger] Self::run_of(
                        inner.current_this_type,
                        inner.current_return_type,
                        cb@,
                        ss,
                        unit_result(res),
                    ) && ss[0] == inner.scopes@;
                assert(catch_frame(old(self).scopes@, *catch_binding, ss[0]));
            }
            res?;
            self.pop_scope();
        }
        if let Some(fb) = finally_body {
            self.check_scoped(fb)?;
        }
        Ok(())
    }

    #[verifier::loop_isolation(false)]
    fn check_statement(&mut self, stmt: &Statement) -> (r: Result<(), CompileError>)
        ensures
            Self::checked(*old(self), *final(self), r),
            r is Ok ==> (exported_function(*stmt) matches Some(n) ==> entry_for(
                final(self).exported_symbols@,
                n,
            ) is Some),
            r is Ok && old(self).scopes@.len() > 0 ==> binds(*stmt, final(self).scopes@),
            r is Ok && stmt.kind is Block ==> final(self).scopes@ == old(self).scopes@,
            r is Ok && plain_stmt(*stmt) ==> final(self).exported_symbols == old(
                self,
            ).exported_symbols,
            r is Ok ==> (stmt.kind matches StmtKind::FunctionDecl {
                is_exported,
                params,
                return_type,
                body,
                name,
                ..
            } ==> (is_exported && plain_stmts(body@) ==> (entry_for(
                final(self).exported_symbols@,
                name@,
            ) matches Some(t) && exported_signature(t, params@, return_type)))),
            r is Ok ==> forall|k: Seq<char>|
                !declares(*stmt, k) ==> #[trigger] lookup_in(final(self).scopes@, k) == lookup_in(
                    old(self).scopes@,
                    k,
                ),
            Self::stmt_outcome(
                old(self).scopes@,
                old(self).current_this_type,
                old(self).current_return_type,
                *stmt,
                unit_result(r),
            ),
        decreases stmt, 1nat,
    {
        match &stmt.kind {
            StmtKind::VariableDecl { name, is_const, type_ann, initializer, is_exported } => {
                let declared: Option<Type> = match type_ann {
                    Some(a) => Some(self.resolve(a)),
                    None => None,
                };
                let init_type: Option<Type> = match initializer {
                    Some(init) => {
                        // An array literal assigned to a tuple type is checked
                        // element by element against the tuple's element types
                        if let Some(Type::Tuple(tuple_types)) = &declared {
                            if let ExprKind::ArrayLiteral { elements } = &init.kind {
                                if elements.len() != tuple_types.len() {
                                    return Err(
                                        type_err(
                                            msg_counts(
                                                "Tuple of length ",
                                                elements.len(),
                                                " is not assignable to tuple of length ",
                                                tuple_types.len(),
                                                "",
                                            ),
                                            stmt.span,
                                        ),
                                    );
                                }
                                let mut k: usize = 0;
                                while k < elements.len()
                                    invariant
                                        k <= elements@.len(),
                                        elements@.len() == tuple_types@.len(),
                                        Self::restored(*old(self), *self),
                                        self.scopes@ == old(self).scopes@,
                                    decreases elements@.len() - k,
                                {
                                    assert(decreases_to!(elements => elements@[k as int]));
                                    let elem_type = self.check_expr(&elements[k])?;
                                    if !is_assignable(&elem_type, &tuple_types[k]) {
                                        return Err(
                                            type_err(
                                                msg_types(
                                                    "Type '",
                                                    &elem_type,
                                                    "' is not assignable to type '",
                                                    &tuple_types[k],
                                                    "'",
                                                ),
                                                stmt.span,
                                            ),
                                        );
                                    }
                                    k = k + 1;
                                }
                                // All checks passed: the variable has the declared tuple type
                                let t = Type::Tuple(copy_types(tuple_types));
                                self.define(name.clone(), t, *is_const);
                                return Ok(());
                            }
                        }
                        Some(self.check_expr(init)?)
                    },
                    None => None,
                };
                let final_type = match (declared, init_type) {
                    (Some(decl), Some(init)) => {
                        if !is_assignable(&init, &decl) {
                            return Err(
                                type_err(
                                    msg_types(
                                        "Type '",
                                        &init,
                                        "' is not assignable to type '",
                                        &decl,
                                        "'",
                                    ),
                                    stmt.span,
                                ),
                            );
                        }
                        decl
                    },
                    (Some(decl), None) => decl,
                    (None, Some(init)) => init,
                    (None, None) => {
                        proof {
                            reveal_strlit("Variable must have either a type annotation or initializer");
                        }
                        return Err(
                            type_err(
                                string_of(
                                    "Variable must have either a type annotation or initializer",
                                ),
                                stmt.span,
                            ),
                        );
                    },
                };
                if *is_exported {
                    insert_entry(&mut self.exported_symbols, name.clone(), final_type.deep_copy());
                }
                self.define(name.clone(), final_type, *is_const);
                Ok(())
            },
            StmtKind::FunctionDecl { name, type_params, params, return_type, body, is_exported, .. } => {
                // Type parameters stay bound while the body is checked
                let ghost s0 = self.scopes@;
                let (param_types, ret_type, prev) = self.register_function(
                    name,
                    type_params,
                    params,
                    return_type,
                    *is_exported,
                );
                let ghost s1 = self.scopes@;
                let ghost rt = ret_type;
                let res = self.check_function_body(params, &param_types, ret_type, body);
                proof {
                    let ss = choose|ss: Seq<Seq<Scope>>|
                        Self::run_of(old(self).current_this_type, Some(rt), body@, ss, unit_result(res))
                            && #[trigger] param_frame(s1, params@, ss[0]);
                    assert(fn_frame(s0, name@, params@, ss[0]));
                    assert(declared_return(*return_type, rt));
                }
                res?;
                self.type_param_types = prev;
                Ok(())
            },
            StmtKind::ClassDecl { name, parent, fields, constructor, methods, .. } => {
                // Fields inherited from the parent class come first
                let mut all_fields: Vec<(String, Type)> = Vec::new();
                if let Some(parent_name) = parent {
                    match find_index(&self.class_types, parent_name.as_str()) {
                        Some(i) => {
                            if let Type::Class { fields: pf, .. } = &self.class_types[i].1 {
                                all_fields = copy_fields(pf);
                            }
                        },
                        None => {
                            return Err(
                                type_err(
                                    msg_name("Cannot find base class '", parent_name, "'"),
                                    stmt.span,
                                ),
                            );
                        },
                    }
                }
                // Own fields override inherited ones of the same name
                let mut i: usize = 0;
                while i < fields.len()
                    invariant
                        i <= fields@.len(),
                    decreases fields@.len() - i,
                {
                    let ty = self.resolve_or(&fields[i].type_ann, Type::Unknown);
                    remove_field(&mut all_fields, &fields[i].name);
                    all_fields.push((fields[i].name.clone(), ty));
                    i = i + 1;
                }
                // Methods, as function-typed members
                let mut i: usize = 0;
                while i < methods.len()
                    invariant
                        i <= methods@.len(),
                    decreases methods@.len() - i,
                {
                    let m = &methods[i];
                    let param_types = self.param_types(&m.params, false);
                    let ret = self.resolve_or(&m.return_type, Type::Void);
                    remove_field(&mut all_fields, &m.name);
                    all_fields.push((m.name.clone(), function_type(param_types, ret)));
                    i = i + 1;
                }
                let class_type = Type::Class { name: name.clone(), fields: copy_fields(&all_fields) };
                insert_entry(&mut self.class_types, name.clone(), class_type.deep_copy());
                self.define(name.clone(), class_type, true);

                // The constructor and methods are checked with `this` bound
                let ghost declared = self.scopes@;
                let mut prev_this = Some(Type::Object { fields: all_fields });
                core::mem::swap(&mut prev_this, &mut self.current_this_type);
                if let Some(ctor) = constructor {
                    let types = self.param_types(&ctor.params, false);
                    assert(decreases_to!(stmt => ctor.body));
                    self.check_function_body(&ctor.params, &types, Type::Void, &ctor.body)?;
                }
                let mut i: usize = 0;
                while i < methods.len()
                    invariant
                        i <= methods@.len(),
                        self.scopes@ == declared,
                        self.current_return_type == old(self).current_return_type,
                        keys_kept(old(self).exported_symbols@, self.exported_symbols@),
                    decreases methods@.len() - i,
                {
                    let m = &methods[i];
                    let types = self.param_types(&m.params, false);
                    let ret = self.resolve_or(&m.return_type, Type::Void);
                    assert(decreases_to!(methods => methods@[i as int]));
                    assert(decreases_to!(methods@[i as int] => methods@[i as int].body));
                    self.check_function_body(&m.params, &types, ret, &m.body)?;
                    i = i + 1;
                }
                self.current_this_type = prev_this;
                Ok(())
            },
            StmtKind::InterfaceDecl { name, extends, fields } => {
                // Inherited fields first, then own fields not already present
                let mut field_types: Vec<(String, Type)> = Vec::new();
                let mut i: usize = 0;
                while i < extends.len()
                    invariant
                        i <= extends@.len(),
                    decreases extends@.len() - i,
                {
                    if let Some(k) = find_index(&self.interface_types, extends[i].as_str()) {
                        if let Type::Object { fields: pf } = &self.interface_types[k].1 {
                            merge_new_fields(&mut field_types, pf);
                        }
                    }
                    i = i + 1;
                }
                let mut i: usize = 0;
                while i < fields.len()
                    invariant
                        i <= fields@.len(),
                    decreases fields@.len() - i,
                {
                    let t = self.resolve(&fields[i].1);
                    if find_index(&field_types, fields[i].0.as_str()).is_none() {
                        field_types.push((fields[i].0.clone(), t));
                    }
                    i = i + 1;
                }
                let iface_type = Type::Object { fields: field_types };
                insert_entry(&mut self.interface_types, name.clone(), iface_type.deep_copy());
                // Also defined as a name in scope
                self.define(name.clone(), iface_type, true);
                Ok(())
            },
            StmtKind::EnumDecl { name, members } => {
                // An object type with a field per member
                let mut field_types: Vec<(String, Type)> = Vec::new();
                let mut i: usize = 0;
                while i < members.len()
                    invariant
                        i <= members@.len(),
                        field_types@.len() == i,
                    decreases members@.len() - i,
                {
                    let member_type = match &members[i].value {
                        Some(EnumValue::String(_)) => Type::String,
                        _ => Type::Number,
                    };
                    field_types.push((members[i].name.clone(), member_type));
                    i = i + 1;
                }
                self.define(name.clone(), Type::Object { fields: field_types }, true);
                Ok(())
            },
            StmtKind::TypeAlias { name, type_params, type_ann } => {
                insert_entry(&mut self.type_aliases, name.clone(), copy_type_ann(type_ann));
                if type_params.len() == 0 {
                    // A plain alias is resolved now
                    let resolved = self.resolve(type_ann);
                    insert_entry(&mut self.interface_types, name.clone(), resolved);
                } else {
                    // A generic alias is resolved where it is applied
                    let mut tp_names: Vec<String> = Vec::new();
                    let mut i: usize = 0;
                    while i < type_params.len()
                        invariant
                            i <= type_params@.len(),
                        decreases type_params@.len() - i,
                    {
                        tp_names.push(type_params[i].name.clone());
                        i = i + 1;
                    }
                    insert_entry(
                        &mut self.generic_type_aliases,
                        name.clone(),
                        GenericAlias { type_params: tp_names, body: copy_type_ann(type_ann) },
                    );
                }
                Ok(())
            },
            StmtKind::If { .. } => self.check_if(stmt),
            StmtKind::While { condition, body } => {
                self.check_expr(condition)?;
                self.check_scoped(body)?;
                Ok(())
            },
            StmtKind::DoWhile { body, condition } => {
                self.check_scoped(body)?;
                self.check_expr(condition)?;
                Ok(())
            },
            StmtKind::For { .. } => self.check_for(stmt),
            StmtKind::Return { value } => {
                let ret_type = match value {
                    Some(v) => self.check_expr(v)?,
                    None => Type::Void,
                };
                assert(Self::return_yields(
                    old(self).scopes@,
                    old(self).current_this_type,
                    *value,
                    ret_type,
                ));
                if let Some(expected) = &self.current_return_type {
                    if !is_assignable(&ret_type, expected) {
                        let e = type_err(
                            msg_types(
                                "Type '",
                                &ret_type,
                                "' is not assignable to return type '",
                                expected,
                                "'",
                            ),
                            stmt.span,
                        );
                        assert(e.message@ == return_message(ret_type, *expected));
                        return Err(e);
                    }
                }
                Ok(())
            },
            StmtKind::Expression { expr } => {
                self.check_expr(expr)?;
                Ok(())
            },
            StmtKind::Block { statements } => self.check_scoped(statements),
            StmtKind::Import { .. } => {
                // Imports are resolved before checking
                Ok(())
            },
            StmtKind::Switch { .. } => self.check_switch(stmt),
            StmtKind::ForOf { .. } | StmtKind::ForIn { .. } => self.check_for_each(stmt),
            StmtKind::ArrayDestructure { names, initializer, is_const } => {
                self.check_expr(initializer)?;
                // Each name is bound as a number (array elements are numbers)
                let mut i: usize = 0;
                while i < names.len()
                    invariant
                        i <= names@.len(),
                        Self::restored(*old(self), *self),
                        old(self).scopes@.len() > 0 ==> forall|j: int|
                            0 <= j < i ==> #[trigger] bound_number(self.scopes@, names@[j]@, *is_const),
                        forall|k: Seq<char>|
                            (forall|j: int| 0 <= j < i ==> #[trigger] names@[j]@ != k) ==> #[trigger] lookup_in(
                                self.scopes@,
                                k,
                            ) == lookup_in(old(self).scopes@, k),
                    decreases names@.len() - i,
                {
                    let ghost before = self.scopes@;
                    self.define(names[i].clone(), Type::Number, *is_const);
                    proof {
                        if old(self).scopes@.len() > 0 {
                            assert forall|j: int| 0 <= j < i + 1 implies #[trigger] bound_number(
                                self.scopes@,
                                names@[j]@,
                                *is_const,
                            ) by {
                                if names@[j]@ != names@[i as int]@ {
                                    assert(bound_number(before, names@[j]@, *is_const));
                                    assert(lookup_in(self.scopes@, names@[j]@) == lookup_in(
                                        before,
                                        names@[j]@,
                                    ));
                                }
                            }
                        }
                    }
                    i = i + 1;
                }
                Ok(())
            },
            StmtKind::ObjectDestructure { names, initializer, is_const } => {
                let init_type = self.check_expr(initializer)?;
                let mut i: usize = 0;
                while i < names.len()
                    invariant
                        i <= names@.len(),
                        Self::restored(*old(self), *self),
                        old(self).scopes@.len() > 0 ==> forall|j: int|
                            0 <= j < i ==> #[trigger] bound_as(self.scopes@, names@[j].0@, *is_const),
                        forall|k: Seq<char>|
                            (forall|j: int| 0 <= j < i ==> #[trigger] names@[j].0@ != k) ==> #[trigger] lookup_in(
                                self.scopes@,
                                k,
                            ) == lookup_in(old(self).scopes@, k),
                    decreases names@.len() - i,
                {
                    let ty = match fields_of(&init_type) {
                        Some(fs) => match field_type(fs, names[i].1.as_str()) {
                            Some(t) => t,
                            None => Type::Unknown,
                        },
                        None => Type::Unknown,
                    };
                    let ghost before = self.scopes@;
                    self.define(names[i].0.clone(), ty, *is_const);
                    proof {
                        if old(self).scopes@.len() > 0 {
                            assert forall|j: int| 0 <= j < i + 1 implies #[trigger] bound_as(
                                self.scopes@,
                                names@[j].0@,
                                *is_const,
                            ) by {
                                if names@[j].0@ != names@[i as int].0@ {
                                    assert(bound_as(before, names@[j].0@, *is_const));
                                    assert(lookup_in(self.scopes@, names@[j].0@) == lookup_in(
                                        before,
                                        names@[j].0@,
                                    ));
                                }
                            }
                        }
                    }
                    i = i + 1;
                }
                Ok(())
            },
            StmtKind::Break { .. } | StmtKind::Continue { .. } | StmtKind::Empty => Ok(()),
            StmtKind::Labeled { body, .. } => {
                let res = self.check_statement(body);
                assert(Self::nested_outcome(
                    old(self).scopes@,
                    old(self).current_this_type,
                    old(self).current_return_type,
                    **body,
                    unit_result(res),
                ));
                res
            },
            StmtKind::Throw { value } => {
                self.check_expr(value)?;
                Ok(())
            },
            StmtKind::TryCatch { .. } => self.check_try(stmt),
        }
    }

    /// Binds a narrowed variable to what remains of its union: the single
    /// remaining type, or a union of several; nothing when none remains.
    fn define_narrowed(&mut self, var_name: &String, remaining: &Vec<Type>)
        ensures
            Self::restored(*old(self), *final(self)),
            final(self).exported_symbols == old(self).exported_symbols,
            remaining@.len() == 0 ==> *final(self) == *old(self),
            forall|other: Seq<char>|
                other != var_name@ ==> #[trigger] lookup_in(final(self).scopes@, other) == lookup_in(
                    old(self).scopes@,
                    other,
                ),
            old(self).scopes@.len() > 0 && remaining@.len() == 1 ==> (lookup_in(
                final(self).scopes@,
                var_name@,
            ) matches Some(sym) && !sym.is_const && type_eq(sym.ty, remaining@[0])),
            old(self).scopes@.len() > 0 && remaining@.len() > 1 ==> (lookup_in(
                final(self).scopes@,
                var_name@,
            ) matches Some(sym) && !sym.is_const && (sym.ty matches Type::Union(vs) && types_eq(
                vs@,
                remaining@,
            ))),
    {
        if remaining.len() == 1 {
            self.define(var_name.clone(), remaining[0].deep_copy(), false);
        } else if remaining.len() > 0 {
            self.define(var_name.clone(), Type::Union(copy_types(remaining)), false);
        }
    }

    /// For a `typeof` test on a variable of union type: the variable, the
    /// tested type, the union's other variants, and whether the test is `===`.
    fn narrowing_for(&self, condition: &Expr) -> (r: Option<(String, Type, Vec<Type>, bool)>)
        ensures
            r matches Some((v, t, rest, e)) ==> (typeof_test(*condition) matches Some((v2, t2, e2))
                && v@ == v2 && e == e2 && typeof_target_is(t, t2)),
            r matches Some((v, t, rest, e)) ==> (lookup_in(self.scopes@, v@) matches Some(sym)
                && sym.ty is Union),
            typeof_test(*condition) is None ==> r is None,
            typeof_test(*condition) matches Some((v2, t2, e2)) && lookup_in(self.scopes@, v2) matches Some(
                sym,
            ) && sym.ty is Union ==> r is Some,
            r matches Some((v, t, rest, e)) ==> forall|i: int|
                0 <= i < rest@.len() ==> !same_category(#[trigger] rest@[i], t),
            r matches Some((v, t, rest, e)) ==> exists|vs: Seq<Type>|
                types_eq(vs, lookup_in(self.scopes@, v@)->0.ty->Union_0@) && types_eq(
                    rest@,
                    #[trigger] remaining_variants(vs, t),
                ),
    {
        match detect_typeof_narrowing(condition) {
            Some((var_name, type_str, is_eq)) => {
                match self.lookup(var_name.as_str()) {
                    Some(Type::Union(variants)) => {
                        let target = type_string_to_type(&type_str);
                        let mut remaining: Vec<Type> = Vec::new();
                        let mut i: usize = 0;
                        while i < variants.len()
                            invariant
                                i <= variants@.len(),
                                remaining@.len() == remaining_variants(
                                    variants@.subrange(0, i as int),
                                    target,
                                ).len(),
                                forall|j: int|
                                    0 <= j < remaining@.len() ==> type_eq(
                                        #[trigger] remaining@[j],
                                        remaining_variants(variants@.subrange(0, i as int), target)[j],
                                    ),
                                forall|j: int|
                                    0 <= j < remaining@.len() ==> !same_category(
                                        #[trigger] remaining@[j],
                                        target,
                                    ),
                            decreases variants@.len() - i,
                        {
                            let ghost pre = variants@.subrange(0, i as int);
                            assert(variants@.subrange(0, i + 1).drop_last() =~= pre);
                            if !is_same_type_category(&variants[i], &target) {
                                let c = variants[i].deep_copy();
                                proof {
                                    lemma_type_eq_same_category(c, variants@[i as int], target);
                                }
                                remaining.push(c);
                            }
                            i = i + 1;
                        }
                        proof {
                            assert(variants@.subrange(0, variants@.len() as int) =~= variants@);
                            lemma_types_eq_pointwise(
                                remaining@,
                                remaining_variants(variants@, target),
                            );
                        }
                        Some((var_name, target, remaining, is_eq))
                    },
                    _ => None,
                }
            },
            None => None,
        }
    }
}

} // verus!

verus! {

impl TypeChecker {
    /// What checking an expression yields, given the open scopes and the type
    /// of `this`, as far as it is stated. Literals have their primitive types,
    /// a name has the type it resolves to (and is an error when it resolves to
    /// nothing), `this` has the bound `this` type, and grouping, `await` and
    /// spread yield exactly what their operand does. The operators have their
    /// fixed result kinds, and an error they yield is either the error one of
    /// their operands yields, passed on as it is, or their own refusal of an
    /// operand type.
    pub open spec fn expr_outcome(
        scopes: Seq<Scope>,
        this_type: Option<Type>,
        expr: Expr,
        r: Result<Type, CompileError>,
    ) -> bool
        decreases expr, 0nat,
    {
        match expr.kind {
            ExprKind::Grouping { expr: inner } => Self::expr_outcome(scopes, this_type, *inner, r),
            ExprKind::Await { expr: inner } => Self::expr_outcome(scopes, this_type, *inner, r),
            ExprKind::Spread { expr: inner } => Self::expr_outcome(scopes, this_type, *inner, r),
            ExprKind::NumberLiteral(_) => r matches Ok(t) && t is Number,
            ExprKind::StringLiteral(_) => r matches Ok(t) && t is String,
            ExprKind::BooleanLiteral(_) => r matches Ok(t) && t is Boolean,
            ExprKind::NullLiteral => r matches Ok(t) && t is Null,
            ExprKind::UndefinedLiteral => r matches Ok(t) && t is Undefined,
            ExprKind::Identifier(n) => match lookup_in(scopes, n@) {
                Some(sym) => r matches Ok(t) && type_eq(t, sym.ty),
                None => r matches Err(e) && e.message@ == "Cannot find name '"@ + n@ + "'"@,
            },
            ExprKind::This => match this_type {
                Some(tt) => r matches Ok(t) && type_eq(t, tt),
                None => r is Err,
            },
            ExprKind::Typeof { operand } => {
                &&& r matches Ok(t) ==> t is String
                &&& r is Err ==> Self::expr_outcome(scopes, this_type, *operand, r)
            },
            ExprKind::Unary { op: UnaryOp::Not, operand } => {
                &&& r matches Ok(t) ==> t is Boolean
                &&& r is Err ==> Self::expr_outcome(scopes, this_type, *operand, r)
            },
            ExprKind::Unary { op: UnaryOp::Negate, operand } => {
                &&& r matches Ok(t) ==> t is Number
                &&& r is Err ==> Self::expr_outcome(scopes, this_type, *operand, r) || refused(
                    r,
                    expr.span,
                    |m: Seq<char>| exists|t: Type| !(t is Number) && m == #[trigger] negate_message(t),
                )
            },
            ExprKind::PostfixUpdate { target, .. } | ExprKind::PrefixUpdate { target, .. } => {
                &&& r matches Ok(t) ==> t is Number
                &&& r is Err ==> Self::expr_outcome(scopes, this_type, *target, r) || refused(
                    r,
                    expr.span,
                    |m: Seq<char>| exists|t: Type| !(t is Number) && m == #[trigger] update_message(t),
                )
            },
            ExprKind::Binary { left, op, right } => {
                &&& r matches Ok(t) ==> binary_kind(op, t)
                &&& r is Err ==> Self::expr_outcome(scopes, this_type, *left, r) || Self::expr_outcome(
                    scopes,
                    this_type,
                    *right,
                    r,
                ) || refused(
                    r,
                    expr.span,
                    |m: Seq<char>|
                        exists|lt: Type, rt: Type|
                            binary_result(lt, op, rt) is None && m == #[trigger] binary_message(lt, op, rt),
                )
                &&& r matches Ok(t) ==> exists|lt: Type, rt: Type|
                    #![trigger binary_result(lt, op, rt)]
                    Self::expr_outcome(scopes, this_type, *left, Ok::<Type, CompileError>(lt))
                        && Self::expr_outcome(scopes, this_type, *right, Ok::<Type, CompileError>(rt))
                        && (binary_result(lt, op, rt) matches Some(u) && type_eq(t, u))
                &&& r matches Err(e) ==> {
                    ||| Self::expr_outcome(scopes, this_type, *left, r)
                    ||| Self::expr_outcome(scopes, this_type, *right, r)
                    ||| exists|lt: Type, rt: Type|
                        #![trigger binary_result(lt, op, rt)]
                        Self::expr_outcome(scopes, this_type, *left, Ok::<Type, CompileError>(lt))
                            && Self::expr_outcome(scopes, this_type, *right, Ok::<Type, CompileError>(rt))
                            && binary_result(lt, op, rt) is None && e.span == expr.span
                            && e.message@ == binary_message(lt, op, rt)
                }
            },
            ExprKind::ArrayLiteral { .. } => r matches Ok(t) ==> t is Array,
            ExprKind::Satisfies { expr: inner, target_type } => {
                &&& r matches Ok(t) ==> Self::expr_outcome(scopes, this_type, *inner, r)
                &&& r matches Err(e) ==> {
                    ||| Self::expr_outcome(scopes, this_type, *inner, r)
                    ||| e.span == expr.span && exists|it: Type, tt: Type|
                        Self::expr_outcome(
                            scopes,
                            this_type,
                            *inner,
                            Ok::<Type, CompileError>(it),
                        ) && !assignable(it, tt) && e.message@ == #[trigger] satisfies_message(it, tt)
                            && (structural_ann(target_type) ==> ann_denotes(target_type, tt))
                }
                &&& structural_ann(target_type) ==> (r is Ok ==> exists|it: Type, dt: Type|
                    Self::expr_outcome(
                        scopes,
                        this_type,
                        *inner,
                        Ok::<Type, CompileError>(it),
                    ) && ann_denotes(target_type, dt) && #[trigger] assignable(it, dt))
            },
            ExprKind::Conditional { condition, consequent, alternate } => {
                &&& r is Err ==> (Self::expr_outcome(scopes, this_type, *condition, r) || Self::expr_outcome(
                    scopes,
                    this_type,
                    *consequent,
                    r,
                ) || Self::expr_outcome(scopes, this_type, *alternate, r))
                &&& r matches Ok(t) ==> exists|
                    tt: Type,
                    et: Type,
                |
                    #![trigger conditional_type(tt, et)]
                    Self::expr_outcome(scopes, this_type, *consequent, Ok::<Type, CompileError>(tt))
                        && Self::expr_outcome(scopes, this_type, *alternate, Ok::<Type, CompileError>(et))
                        && t == conditional_type(tt, et)
            },
            ExprKind::TypeAssertion { expr: inner, .. } => r is Err ==> Self::expr_outcome(
                scopes,
                this_type,
                *inner,
                r,
            ),
            ExprKind::ObjectLiteral { properties } => {
                &&& r matches Ok(t) ==> t is Object
                &&& plain_properties(properties@) ==> match r {
                    Ok(t) => t matches Type::Object { fields } && fields@.len() == properties@.len()
                        && forall|i: int|
                        0 <= i < fields@.len() ==> fields@[i].0@ == (#[trigger] properties@[i]).key@
                            && exists|ft: Type|
                            Self::expr_outcome(
                                scopes,
                                this_type,
                                properties@[i].value,
                                Ok::<Type, CompileError>(ft),
                            ) && #[trigger] type_eq(fields@[i].1, ft),
                    Err(e) => exists|i: int|
                        0 <= i < properties@.len() && Self::expr_outcome(
                            scopes,
                            this_type,
                            (#[trigger] properties@[i]).value,
                            Err::<Type, CompileError>(e),
                        ),
                }
            },
            ExprKind::Member { object, property } => Self::member_outcome(
                scopes,
                this_type,
                *object,
                property@,
                expr.span,
                r,
            ),
            ExprKind::Call { callee, args } => match callee.kind {
                ExprKind::Member { object, property } => if is_name(*object, "console"@)
                    && is_console_method(property@) {
                    &&& r matches Ok(t) ==> t is Void
                    &&& r matches Err(e) ==> exists|i: int|
                        0 <= i < args@.len() && Self::expr_outcome(
                            scopes,
                            this_type,
                            #[trigger] args@[i],
                            Err::<Type, CompileError>(e),
                        )
                    &&& all_infallible(args@) ==> r == Ok::<Type, CompileError>(Type::Void)
                } else if is_name(*object, "Math"@) {
                    Self::math_outcome(scopes, this_type, property@, args@, expr.span, r)
                } else if is_name(*object, "Number"@) {
                    r matches Ok(t) ==> t is Boolean
                } else {
                    true
                },
                ExprKind::Identifier(n) => match lookup_in(scopes, n@) {
                    None => r is Err,
                    Some(sym) => sym.ty is Function ==> exists|ct: Type|
                        #[trigger] type_eq(ct, sym.ty) && Self::call_outcome(
                            scopes,
                            this_type,
                            expr.span,
                            args@,
                            ct,
                            r,
                        ),
                },
                _ => true,
            },
            ExprKind::ArrowFunction { params, .. } => r matches Ok(t) ==> t matches Type::Function {
                params: ps,
                ..
            } && ps@.len() == params@.len(),
            ExprKind::Assignment { name, value } => match lookup_in(scopes, name@) {
                Some(sym) => if sym.is_const {
                    r matches Err(e) && e.message@ == "Cannot assign to '"@ + name@
                        + "' because it is a constant"@
                } else {
                    &&& r matches Ok(t) ==> type_eq(t, sym.ty)
                    &&& r is Err ==> Self::expr_outcome(scopes, this_type, *value, r) || refused(
                        r,
                        expr.span,
                        |m: Seq<char>|
                            exists|vt: Type, dt: Type|
                                !assignable(vt, dt) && m == #[trigger] assign_message(vt, dt),
                    )
                },
                None => r matches Err(e) && e.message@ == "Cannot find name '"@ + name@ + "'"@,
            },
            _ => true,
        }
    }

    /// Whether `e` is an error that checking one of `args` yields.
    pub open spec fn arg_error(
        scopes: Seq<Scope>,
        this_type: Option<Type>,
        args: Seq<Expr>,
        e: CompileError,
    ) -> bool {
        exists|i: int|
            0 <= i < args.len() && Self::expr_outcome(
                scopes,
                this_type,
                #[trigger] args[i],
                Err::<Type, CompileError>(e),
            )
    }

    /// What a call yields, by its callee: `console.log`, `.error` and `.warn`
    /// check their arguments and give `void`; a `Math` method is described by
    /// `math_outcome`; `Number.isInteger` and its kin give a boolean; a call
    /// of a name that is not a generic function fails when the name is
    /// unbound or not a function, fails on too many arguments (unless the last
    /// parameter is an array), and on success gives the return type with
    /// every argument assignable to its parameter (`args_fit`).
    pub open spec fn call_rules(
        generic_functions: Seq<(String, GenericSignature)>,
        scopes: Seq<Scope>,
        this_type: Option<Type>,
        expr: Expr,
        r: Result<Type, CompileError>,
    ) -> bool {
            let callee = *expr.kind->Call_callee;
            let args = expr.kind->Call_args@;
            if callee.kind is Member && is_name(*callee.kind->Member_object, "console"@)
                && is_console_method(callee.kind->Member_property@) {
                &&& r matches Ok(t) ==> t is Void
                &&& r matches Err(e) ==> exists|i: int|
                    0 <= i < args.len() && Self::expr_outcome(
                        scopes,
                        this_type,
                        #[trigger] args[i],
                        Err::<Type, CompileError>(e),
                    )
                &&& all_infallible(args) ==> r == Ok::<Type, CompileError>(Type::Void)
            } else if callee.kind is Member && is_name(*callee.kind->Member_object, "Math"@) {
                Self::math_outcome(scopes, this_type, callee.kind->Member_property@, args, expr.span, r)
            } else if callee.kind is Member && is_name(*callee.kind->Member_object, "Number"@) {
                r matches Ok(t) ==> t is Boolean
            } else if callee.kind is Identifier && entry_for(
                generic_functions,
                callee.kind->Identifier_0@,
            ) is None {
                match lookup_in(scopes, callee.kind->Identifier_0@) {
                    None => r matches Err(e) && e.message@ == "Cannot find name '"@
                        + callee.kind->Identifier_0@ + "'"@,
                    Some(sym) => match sym.ty {
                        Type::Function { params, .. } => {
                            &&& !(params@.len() > 0 && params@.last() is Array) && args.len()
                                > params@.len() ==> (r matches Err(e) && e.span == expr.span
                                && e.message@ == "Expected "@ + decimal(params@.len())
                                + " arguments, got "@ + decimal(args.len()) + ""@)
                            &&& r matches Ok(t) ==> exists|ct: Type|
                                #[trigger] type_eq(ct, sym.ty) && (ct matches Type::Function {
                                    return_type,
                                    params: cps,
                                } && type_eq(t, *return_type) && Self::args_fit(
                                    scopes,
                                    this_type,
                                    args,
                                    cps@,
                                ))
                        },
                        _ => r matches Err(e) && e.span == callee.span && exists|ct: Type|
                            #[trigger] type_eq(ct, sym.ty) && e.message@ == "Type '"@ + type_text(
                                ct,
                            ) + "' is not callable"@,
                    },
                }
            } else {
                true
            }
    }

    /// Whether each argument of `args` matched against a parameter of `ps`
    /// (all of them up to a final array parameter, which takes the rest)
    /// checks to a type assignable to that parameter.
    pub open spec fn args_fit(scopes: Seq<Scope>, this_type: Option<Type>, args: Seq<Expr>, ps: Seq<Type>) -> bool {
        forall|i: int|
            0 <= i < args.len() && i < ps.len() && !(ps.last() is Array && i == ps.len() - 1)
                ==> #[trigger] Self::arg_fits(scopes, this_type, args[i], ps[i])
    }

    /// Whether `arg` checks to a type assignable to `p`.
    pub open spec fn arg_fits(scopes: Seq<Scope>, this_type: Option<Type>, arg: Expr, p: Type) -> bool {
        exists|at: Type|
            #[trigger] Self::expr_outcome(scopes, this_type, arg, Ok::<Type, CompileError>(at))
                && assignable(at, p)
    }

    /// What calling a function of type `ct` with `args` yields: on success
    /// its return type; an error is one an argument yields, the refusal of
    /// too many arguments, or the refusal of an argument whose type is not
    /// assignable to its parameter; arguments that cannot fail, no more of
    /// them than parameters and each assignable to its parameter make the
    /// call pass.
    pub open spec fn call_outcome(
        scopes: Seq<Scope>,
        this_type: Option<Type>,
        span: Span,
        args: Seq<Expr>,
        ct: Type,
        r: Result<Type, CompileError>,
    ) -> bool
        decreases args, 1nat,
    {
        ct matches Type::Function { params, return_type } && {
            &&& r matches Ok(t) ==> type_eq(t, *return_type)
            &&& r matches Err(e) ==> {
                ||| exists|i: int|
                    0 <= i < args.len() && Self::expr_outcome(
                        scopes,
                        this_type,
                        #[trigger] args[i],
                        Err::<Type, CompileError>(e),
                    )
                ||| e.span == span && e.message@ == "Expected "@ + decimal(params@.len()) + " arguments, got "@
                    + decimal(args.len()) + ""@
                ||| exists|i: int, at: Type|
                    #![trigger argument_message(at, params@[i])]
                    0 <= i < args.len() && i < params@.len() && Self::expr_outcome(
                        scopes,
                        this_type,
                        args[i],
                        Ok::<Type, CompileError>(at),
                    ) && !assignable(at, params@[i]) && e.span == args[i].span && e.message@
                        == argument_message(at, params@[i])
            }
            &&& (all_infallible(args) && args.len() <= params@.len() && forall|i: int, at: Type|
                #![trigger assignable(at, params@[i])]
                0 <= i < args.len() && Self::expr_outcome(
                    scopes,
                    this_type,
                    args[i],
                    Ok::<Type, CompileError>(at),
                ) ==> assignable(at, params@[i])) ==> r is Ok
        }
    }

    /// What reading member `p` of `obj` yields: the built-in members of
    /// `console` and `Math` have their fixed types; any other member is the
    /// one `member_yields` gives for the object's type, and an error is the
    /// object's or the refusal of a member the type does not have.
    pub open spec fn member_outcome(
        scopes: Seq<Scope>,
        this_type: Option<Type>,
        obj: Expr,
        p: Seq<char>,
        span: Span,
        r: Result<Type, CompileError>,
    ) -> bool
        decreases obj, 1nat,
    {
        if is_name(obj, "console"@) && is_console_method(p) {
            r matches Ok(t) && is_fn_type(t, seq![], Type::Void)
        } else if is_name(obj, "Math"@) && is_math_constant(p) {
            r == Ok::<Type, CompileError>(Type::Number)
        } else if is_name(obj, "Math"@) && is_math_unary(p) {
            r matches Ok(t) && is_fn_type(t, seq![Type::Number], Type::Number)
        } else if is_name(obj, "Math"@) && is_math_binary(p) {
            r matches Ok(t) && is_fn_type(t, seq![Type::Number, Type::Number], Type::Number)
        } else {
            &&& r matches Ok(t) ==> exists|ot: Type|
                Self::expr_outcome(scopes, this_type, obj, Ok::<Type, CompileError>(ot))
                    && #[trigger] member_yields(ot, p, t)
            &&& r matches Err(e) ==> (Self::expr_outcome(
                scopes,
                this_type,
                obj,
                Err::<Type, CompileError>(e),
            ) || (e.span == span && exists|ot: Type|
                Self::expr_outcome(scopes, this_type, obj, Ok::<Type, CompileError>(ot))
                    && e.message@ == #[trigger] property_message(p, ot)))
        }
    }

    /// What calling `Math.m` with `args` yields: a number; an unknown method
    /// and a wrong argument count are refused, an error otherwise is an
    /// argument's or the refusal of an argument that is not a number;
    /// number literals of the right count pass, and literals of the right
    /// count of which one is no number are refused.
    pub open spec fn math_outcome(
        scopes: Seq<Scope>,
        this_type: Option<Type>,
        m: Seq<char>,
        args: Seq<Expr>,
        span: Span,
        r: Result<Type, CompileError>,
    ) -> bool
        decreases args, 1nat,
    {
        &&& r matches Ok(t) ==> t is Number
        &&& match math_arity(m) {
            None => r matches Err(e) && e.span == span && e.message@ == "'Math."@ + m
                + "' is not a known Math method"@,
            Some(k) => {
                &&& args.len() != k ==> (r matches Err(e) && e.span == span && e.message@
                    == math_arity_message(m, k, args.len()))
                &&& args.len() == k ==> (r matches Err(e) ==> ((exists|i: int|
                    0 <= i < args.len() && Self::expr_outcome(
                        scopes,
                        this_type,
                        #[trigger] args[i],
                        Err::<Type, CompileError>(e),
                    )) || exists|i: int, t: Type|
                    #![trigger args[i], math_argument_message(m, t)]
                    0 <= i < args.len() && e.span == args[i].span && !(t is Number) && !(t is Unknown)
                        && Self::expr_outcome(scopes, this_type, args[i], Ok::<Type, CompileError>(t))
                        && e.message@ == math_argument_message(m, t)))
                &&& args.len() == k && (forall|i: int|
                    0 <= i < args.len() ==> (#[trigger] args[i]).kind is NumberLiteral) ==> r
                    == Ok::<Type, CompileError>(Type::Number)
                &&& args.len() == k && (forall|i: int| 0 <= i < args.len() ==> is_literal(#[trigger] args[i]))
                    && (exists|i: int| 0 <= i < args.len() && !((#[trigger] args[i]).kind is NumberLiteral))
                    ==> r is Err
            },
        }
    }

    /// Whether the elements of an array literal can check with the types `tys`.
    pub open spec fn elements_check(
        scopes: Seq<Scope>,
        this_type: Option<Type>,
        elements: Seq<Expr>,
        tys: Seq<Type>,
    ) -> bool {
        &&& tys.len() == elements.len()
        &&& forall|k: int|
            0 <= k < elements.len() ==> Self::expr_outcome(
                scopes,
                this_type,
                #[trigger] elements[k],
                Ok::<Type, CompileError>(tys[k]),
            )
    }

    /// Whether a `return` of `value` can yield type `vt`: what checking the
    /// value can give, or `void` without a value.
    pub open spec fn return_yields(
        scopes: Seq<Scope>,
        this_type: Option<Type>,
        value: Option<Expr>,
        vt: Type,
    ) -> bool {
        match value {
            Some(v) => Self::expr_outcome(scopes, this_type, v, Ok::<Type, CompileError>(vt)),
            None => vt is Void,
        }
    }

    /// Whether `ss` records checking `stmts` in order, each statement in the
    /// scopes the ones before it left: `ss[i]` are the scopes statement `i`
    /// is checked in, each statement but the last one reached passes there
    /// and leaves `ss[i + 1]`; on success every statement was reached, on
    /// failure the last one reached fails with the error.
    pub open spec fn run_of(
        this_type: Option<Type>,
        return_type: Option<Type>,
        stmts: Seq<Statement>,
        ss: Seq<Seq<Scope>>,
        r: Result<(), CompileError>,
    ) -> bool
        decreases stmts, 0nat,
    {
        &&& 0 < ss.len() <= stmts.len() + 1
        &&& forall|i: int|
            0 <= i < ss.len() - 1 ==> Self::stmt_outcome(
                ss[i],
                this_type,
                return_type,
                #[trigger] stmts[i],
                Ok::<(), CompileError>(()),
            ) && scopes_after(stmts[i], ss[i], ss[i + 1])
        &&& match r {
            Ok(_) => ss.len() == stmts.len() + 1,
            Err(e) => ss.len() <= stmts.len() && Self::stmt_outcome(
                ss.last(),
                this_type,
                return_type,
                stmts[ss.len() - 1],
                Err::<(), CompileError>(e),
            ),
        }
    }

    /// Whether checking `expr` can succeed, with some type, in the given
    /// scopes and `this` type.
    pub open spec fn expr_passes(scopes: Seq<Scope>, this_type: Option<Type>, expr: Expr) -> bool {
        exists|t: Type| #[trigger] Self::expr_outcome(scopes, this_type, expr, Ok::<Type, CompileError>(t))
    }

    /// Checking an expression that cannot fail yields no error.
    proof fn lemma_infallible_expr(scopes: Seq<Scope>, this_type: Option<Type>, e: Expr, x: CompileError)
        requires
            infallible_expr(e),
        ensures
            !Self::expr_outcome(scopes, this_type, e, Err::<Type, CompileError>(x)),
        decreases e,
    {
        match e.kind {
            ExprKind::Grouping { expr } => {
                Self::lemma_infallible_expr(scopes, this_type, *expr, x);
            },
            ExprKind::Conditional { condition, consequent, alternate } => {
                Self::lemma_infallible_expr(scopes, this_type, *condition, x);
                Self::lemma_infallible_expr(scopes, this_type, *consequent, x);
                Self::lemma_infallible_expr(scopes, this_type, *alternate, x);
            },
            _ => {},
        }
    }

    /// Checking a statement that cannot fail yields no error.
    proof fn lemma_infallible_stmt(
        scopes: Seq<Scope>,
        this_type: Option<Type>,
        return_type: Option<Type>,
        s: Statement,
        x: CompileError,
    )
        requires
            infallible_stmt(s),
        ensures
            !Self::stmt_outcome(scopes, this_type, return_type, s, Err::<(), CompileError>(x)),
    {
        match s.kind {
            StmtKind::Expression { expr } => Self::lemma_infallible_expr(scopes, this_type, expr, x),
            StmtKind::VariableDecl { initializer: Some(init), .. } => Self::lemma_infallible_expr(
                scopes,
                this_type,
                init,
                x,
            ),
            _ => {},
        }
    }

    /// What checking a statement yields, as far as it is stated, given the
    /// open scopes, the type of `this` and the expected return type. An
    /// expression statement fails with its expression's error and succeeds
    /// only when its expression checks; a declaration with an initializer and
    /// no annotation fails only with its initializer's error, and one with
    /// neither is refused; `return` fails with its value's error or when the
    /// value's type is not assignable to the expected one; `break`,
    /// `continue`, imports and empty statements always pass.
    pub open spec fn stmt_outcome(
        scopes: Seq<Scope>,
        this_type: Option<Type>,
        return_type: Option<Type>,
        stmt: Statement,
        r: Result<(), CompileError>,
    ) -> bool
        decreases stmt, 2nat,
    {
        match stmt.kind {
            StmtKind::Expression { expr } => match r {
                Err(e) => Self::expr_outcome(scopes, this_type, expr, Err::<Type, CompileError>(e)),
                Ok(_) => exists|t: Type|
                    #[trigger] Self::expr_outcome(scopes, this_type, expr, Ok::<Type, CompileError>(t)),
            },
            StmtKind::VariableDecl { type_ann: None, initializer: None, .. } => r matches Err(e)
                && type_error(e) && e.span == stmt.span && e.message@
                == "Variable must have either a type annotation or initializer"@,
            StmtKind::VariableDecl { type_ann: None, initializer: Some(init), .. } => r matches Err(e)
                ==> Self::expr_outcome(scopes, this_type, init, Err::<Type, CompileError>(e)),
            StmtKind::VariableDecl { type_ann: Some(a), initializer: Some(init), .. } => match plain_ann_type(
                a.kind,
            ) {
                Some(dt) => {
                    &&& r matches Err(e) ==> {
                        ||| Self::expr_outcome(scopes, this_type, init, Err::<Type, CompileError>(e))
                        ||| type_error(e) && e.span == stmt.span && exists|vt: Type|
                            #[trigger] Self::expr_outcome(
                                scopes,
                                this_type,
                                init,
                                Ok::<Type, CompileError>(vt),
                            ) && !assignable(vt, dt) && e.message@ == assign_message(vt, dt)
                    }
                    &&& r is Ok ==> exists|vt: Type|
                        #[trigger] Self::expr_outcome(
                            scopes,
                            this_type,
                            init,
                            Ok::<Type, CompileError>(vt),
                        ) && assignable(vt, dt)
                },
                None => true,
            },
            StmtKind::Return { value } => {
                &&& r matches Err(e) ==> {
                    ||| value matches Some(v) && Self::expr_outcome(
                        scopes,
                        this_type,
                        v,
                        Err::<Type, CompileError>(e),
                    )
                    ||| return_type matches Some(expected) && type_error(e) && e.span == stmt.span
                        && exists|vt: Type|
                        #[trigger] Self::return_yields(scopes, this_type, value, vt) && !assignable(
                            vt,
                            expected,
                        ) && e.message@ == return_message(vt, expected)
                }
                &&& r is Ok ==> exists|vt: Type|
                    #[trigger] Self::return_yields(scopes, this_type, value, vt) && (return_type matches Some(
                        expected,
                    ) ==> assignable(vt, expected))
            },
            StmtKind::Break { .. } | StmtKind::Continue { .. } | StmtKind::Import { .. }
            | StmtKind::Empty => r is Ok,
            StmtKind::Block { statements } => Self::body_outcome(
                scopes,
                this_type,
                return_type,
                statements@,
                unit_result(r),
            ),
            StmtKind::While { condition, body } => match r {
                Err(e) => Self::expr_outcome(scopes, this_type, condition, Err::<Type, CompileError>(e))
                    || (Self::expr_passes(scopes, this_type, condition) && Self::body_outcome(
                    scopes,
                    this_type,
                    return_type,
                    body@,
                    unit_result(r),
                )),
                Ok(_) => Self::expr_passes(scopes, this_type, condition) && Self::body_outcome(
                    scopes,
                    this_type,
                    return_type,
                    body@,
                    unit_result(r),
                ),
            },
            StmtKind::DoWhile { body, condition } => match r {
                Err(e) => Self::body_outcome(scopes, this_type, return_type, body@, unit_result(r)) || (
                Self::body_outcome(scopes, this_type, return_type, body@, Ok::<(), CompileError>(()))
                    && Self::expr_outcome(scopes, this_type, condition, Err::<Type, CompileError>(e))),
                Ok(_) => Self::body_outcome(scopes, this_type, return_type, body@, unit_result(r))
                    && Self::expr_passes(scopes, this_type, condition),
            },
            StmtKind::If { condition, then_branch, else_branch } => match r {
                Err(e) => {
                    ||| Self::expr_outcome(scopes, this_type, condition, Err::<Type, CompileError>(e))
                    ||| Self::expr_passes(scopes, this_type, condition) && Self::branch_outcome(
                        scopes,
                        this_type,
                        return_type,
                        condition,
                        then_branch@,
                        unit_result(r),
                    )
                    ||| Self::expr_passes(scopes, this_type, condition) && (else_branch matches Some(
                        eb,
                    ) && Self::branch_outcome(scopes, this_type, return_type, condition, eb@, unit_result(r)))
                },
                Ok(_) => {
                    &&& Self::expr_passes(scopes, this_type, condition)
                    &&& Self::branch_outcome(scopes, this_type, return_type, condition, then_branch@, unit_result(r))
                    &&& else_branch matches Some(eb) ==> Self::branch_outcome(
                        scopes,
                        this_type,
                        return_type,
                        condition,
                        eb@,
                        unit_result(r),
                    )
                },
            },
            StmtKind::InterfaceDecl { .. } | StmtKind::TypeAlias { .. } | StmtKind::EnumDecl { .. } => r is Ok,
            StmtKind::Labeled { body, .. } => Self::nested_outcome(
                scopes,
                this_type,
                return_type,
                *body,
                unit_result(r),
            ),
            StmtKind::For { init, condition, update, body } => exists|s1: Seq<Scope>|
                #[trigger] new_frame(scopes, s1) && match init {
                    Some(st) => match r {
                        Err(e) => Self::nested_outcome(s1, this_type, return_type, *st, Err(e)) || exists|
                            s2: Seq<Scope>,
                        |
                            #[trigger] scopes_after(*st, s1, s2) && Self::nested_outcome(
                                s1,
                                this_type,
                                return_type,
                                *st,
                                Ok::<(), CompileError>(()),
                            ) && Self::for_rest(s2, this_type, return_type, condition, update, body@, Err(e)),
                        Ok(_) => exists|s2: Seq<Scope>|
                            #[trigger] scopes_after(*st, s1, s2) && Self::nested_outcome(
                                s1,
                                this_type,
                                return_type,
                                *st,
                                Ok::<(), CompileError>(()),
                            ) && Self::for_rest(
                                s2,
                                this_type,
                                return_type,
                                condition,
                                update,
                                body@,
                                Ok::<(), CompileError>(()),
                            ),
                    },
                    None => Self::for_rest(s1, this_type, return_type, condition, update, body@, unit_result(r)),
                },
            StmtKind::Switch { discriminant, cases } => match r {
                Err(e) => Self::expr_outcome(scopes, this_type, discriminant, Err::<Type, CompileError>(e))
                    || (Self::expr_passes(scopes, this_type, discriminant) && exists|i: int|
                    0 <= i < cases@.len() && Self::case_outcome(
                        scopes,
                        this_type,
                        return_type,
                        #[trigger] cases@[i],
                        Err::<(), CompileError>(e),
                    )),
                Ok(_) => Self::expr_passes(scopes, this_type, discriminant) && forall|i: int|
                    0 <= i < cases@.len() ==> Self::case_outcome(
                        scopes,
                        this_type,
                        return_type,
                        #[trigger] cases@[i],
                        Ok::<(), CompileError>(()),
                    ),
            },
            StmtKind::TryCatch { body, catch_binding, catch_body, finally_body } => match r {
                Err(e) => {
                    ||| Self::body_outcome(scopes, this_type, return_type, body@, Err::<(), CompileError>(e))
                    ||| (catch_body matches Some(cb) && Self::catch_outcome(
                        scopes,
                        this_type,
                        return_type,
                        catch_binding,
                        cb@,
                        Err::<(), CompileError>(e),
                    ))
                    ||| (finally_body matches Some(fb) && Self::body_outcome(
                        scopes,
                        this_type,
                        return_type,
                        fb@,
                        Err::<(), CompileError>(e),
                    ))
                },
                Ok(_) => {
                    &&& Self::body_outcome(scopes, this_type, return_type, body@, Ok::<(), CompileError>(()))
                    &&& (catch_body matches Some(cb) ==> Self::catch_outcome(
                        scopes,
                        this_type,
                        return_type,
                        catch_binding,
                        cb@,
                        Ok::<(), CompileError>(()),
                    ))
                    &&& (finally_body matches Some(fb) ==> Self::body_outcome(
                        scopes,
                        this_type,
                        return_type,
                        fb@,
                        Ok::<(), CompileError>(()),
                    ))
                },
            },
            StmtKind::Throw { value } => match r {
                Err(e) => Self::expr_outcome(scopes, this_type, value, Err::<Type, CompileError>(e)),
                Ok(_) => Self::expr_passes(scopes, this_type, value),
            },
            StmtKind::ForOf { var_name, iterable, body, .. } => match r {
                Err(e) => Self::expr_outcome(scopes, this_type, iterable, Err::<Type, CompileError>(e))
                    || (Self::expr_passes(scopes, this_type, iterable) && Self::var_body_outcome(
                    scopes,
                    this_type,
                    return_type,
                    var_name@,
                    Type::Number,
                    body@,
                    Err::<(), CompileError>(e),
                )),
                Ok(_) => Self::expr_passes(scopes, this_type, iterable) && Self::var_body_outcome(
                    scopes,
                    this_type,
                    return_type,
                    var_name@,
                    Type::Number,
                    body@,
                    Ok::<(), CompileError>(()),
                ),
            },
            StmtKind::ForIn { var_name, object, body } => match r {
                Err(e) => Self::expr_outcome(scopes, this_type, object, Err::<Type, CompileError>(e))
                    || (Self::expr_passes(scopes, this_type, object) && Self::var_body_outcome(
                    scopes,
                    this_type,
                    return_type,
                    var_name@,
                    Type::String,
                    body@,
                    Err::<(), CompileError>(e),
                )),
                Ok(_) => Self::expr_passes(scopes, this_type, object) && Self::var_body_outcome(
                    scopes,
                    this_type,
                    return_type,
                    var_name@,
                    Type::String,
                    body@,
                    Ok::<(), CompileError>(()),
                ),
            },
            StmtKind::FunctionDecl { name, params, return_type: ann, body, .. } => exists|
                ss: Seq<Seq<Scope>>,
                rt: Type,
            |
                #![trigger fn_frame(scopes, name@, params@, ss[0]), declared_return(ann, rt)]
                Self::run_of(this_type, Some(rt), body@, ss, unit_result(r)) && declared_return(ann, rt)
                    && fn_frame(scopes, name@, params@, ss[0]),
            _ => true,
        }
    }

    /// What checking a statement nested in another (the statement of a
    /// labeled statement, the initializer of a `for`) yields: what checking
    /// that statement yields.
    pub open spec fn nested_outcome(
        scopes: Seq<Scope>,
        this_type: Option<Type>,
        return_type: Option<Type>,
        body: Statement,
        r: Result<(), CompileError>,
    ) -> bool
        decreases body, 3nat,
    {
        Self::stmt_outcome(scopes, this_type, return_type, body, r)
    }

    /// What checking the rest of a `for` yields once its initializer has
    /// left the scopes `sc`: the condition and the update are checked there,
    /// then the body from there.
    pub open spec fn for_rest(
        sc: Seq<Scope>,
        this_type: Option<Type>,
        return_type: Option<Type>,
        condition: Option<Expr>,
        update: Option<Expr>,
        body: Seq<Statement>,
        r: Result<(), CompileError>,
    ) -> bool
        decreases body, 1nat,
    {
        match r {
            Err(e) => {
                ||| opt_fails(sc, this_type, condition, e)
                ||| opt_passes(sc, this_type, condition) && opt_fails(sc, this_type, update, e)
                ||| opt_passes(sc, this_type, condition) && opt_passes(sc, this_type, update) && exists|
                    ss: Seq<Seq<Scope>>,
                |
                    Self::run_of(this_type, return_type, body, ss, r) && #[trigger] starts_with(ss, sc)
            },
            Ok(_) => opt_passes(sc, this_type, condition) && opt_passes(sc, this_type, update) && exists|
                ss: Seq<Seq<Scope>>,
            |
                Self::run_of(this_type, return_type, body, ss, Ok::<(), CompileError>(()))
                    && #[trigger] starts_with(ss, sc),
        }
    }

    /// What checking a case of a `switch` yields: its test, then its body in
    /// a scope of its own.
    pub open spec fn case_outcome(
        scopes: Seq<Scope>,
        this_type: Option<Type>,
        return_type: Option<Type>,
        c: SwitchCase,
        r: Result<(), CompileError>,
    ) -> bool
        decreases c, 0nat,
    {
        match r {
            Err(e) => opt_fails(scopes, this_type, c.test, e) || (opt_passes(scopes, this_type, c.test)
                && Self::body_outcome(scopes, this_type, return_type, c.body@, r)),
            Ok(_) => opt_passes(scopes, this_type, c.test) && Self::body_outcome(
                scopes,
                this_type,
                return_type,
                c.body@,
                Ok::<(), CompileError>(()),
            ),
        }
    }

    /// Whether checking the body of a `catch`, in a scope of its own where the
    /// caught value, if named, is bound as a variable of type `unknown`, can
    /// end as `r`.
    pub open spec fn catch_outcome(
        scopes: Seq<Scope>,
        this_type: Option<Type>,
        return_type: Option<Type>,
        binding: Option<String>,
        body: Seq<Statement>,
        r: Result<(), CompileError>,
    ) -> bool
        decreases body, 1nat,
    {
        exists|ss: Seq<Seq<Scope>>|
            Self::run_of(this_type, return_type, body, ss, r) && #[trigger] catch_frame(
                scopes,
                binding,
                ss[0],
            )
    }

    /// Whether checking `body` in a scope of its own opened over `scopes` can
    /// end as `r`.
    pub open spec fn body_outcome(
        scopes: Seq<Scope>,
        this_type: Option<Type>,
        return_type: Option<Type>,
        body: Seq<Statement>,
        r: Result<(), CompileError>,
    ) -> bool
        decreases body, 1nat,
    {
        exists|ss: Seq<Seq<Scope>>|
            Self::run_of(this_type, return_type, body, ss, r) && #[trigger] new_frame(scopes, ss[0])
    }

    /// Whether checking the body of a `for`-`of` or `for`-`in` loop, in a
    /// scope of its own where the loop variable `name` is bound as a variable
    /// of type `t`, can end as `r`.
    pub open spec fn var_body_outcome(
        scopes: Seq<Scope>,
        this_type: Option<Type>,
        return_type: Option<Type>,
        name: Seq<char>,
        t: Type,
        body: Seq<Statement>,
        r: Result<(), CompileError>,
    ) -> bool
        decreases body, 1nat,
    {
        exists|ss: Seq<Seq<Scope>>|
            Self::run_of(this_type, return_type, body, ss, r) && #[trigger] var_frame(
                scopes,
                name,
                t,
                ss[0],
            )
    }

    /// Whether checking a branch of an `if` on `condition` can end as `r`.
    pub open spec fn branch_outcome(
        scopes: Seq<Scope>,
        this_type: Option<Type>,
        return_type: Option<Type>,
        condition: Expr,
        body: Seq<Statement>,
        r: Result<(), CompileError>,
    ) -> bool
        decreases body, 1nat,
    {
        exists|ss: Seq<Seq<Scope>>|
            Self::run_of(this_type, return_type, body, ss, r) && #[trigger] narrow_frame(
                scopes,
                condition,
                ss[0],
            )
    }

    #[verifier::loop_isolation(false)]
    fn check_expr(&mut self, expr: &Expr) -> (r: Result<Type, CompileError>)
        ensures
            Self::checked_expr(*old(self), *final(self), r),
            Self::expr_outcome(old(self).scopes@, old(self).current_this_type, *expr, r),
            expr.kind is Call ==> Self::call_rules(
                old(self).generic_functions@,
                old(self).scopes@,
                old(self).current_this_type,
                *expr,
                r,
            ),
            r is Ok && chain_expr(*expr) ==> final(self).exported_symbols == old(
                self,
            ).exported_symbols,
            expr.kind matches ExprKind::ArrayLiteral { elements } ==> {
                &&& r matches Ok(t) ==> exists|tys: Seq<Type>|
                    #[trigger] Self::elements_check(
                        old(self).scopes@,
                        old(self).current_this_type,
                        elements@,
                        tys,
                    ) && t == Type::Array(Box::new(element_type_of(tys)))
                &&& r matches Err(e) ==> exists|k: int|
                    0 <= k < elements@.len() && #[trigger] Self::expr_outcome(
                        old(self).scopes@,
                        old(self).current_this_type,
                        elements@[k],
                        Err::<Type, CompileError>(e),
                    )
            },
        decreases expr, 1nat,
    {
        proof {
            reveal_strlit("Cannot find name '");
            reveal_strlit("Cannot assign to '");
            reveal_strlit("' because it is a constant");
            reveal_strlit("'");
        }
        match &expr.kind {
            ExprKind::NumberLiteral(_) => Ok(Type::Number),
            ExprKind::StringLiteral(_) => Ok(Type::String),
            ExprKind::BooleanLiteral(_) => Ok(Type::Boolean),
            ExprKind::NullLiteral => Ok(Type::Null),
            ExprKind::UndefinedLiteral => Ok(Type::Undefined),
            ExprKind::Identifier(name) => match self.lookup(name.as_str()) {
                Some(t) => Ok(t),
                None => Err(type_err(msg_name("Cannot find name '", name, "'"), expr.span)),
            },
            ExprKind::This => match &self.current_this_type {
                Some(t) => Ok(t.deep_copy()),
                None => Err(
                    type_err(
                        string_of("'this' is only valid inside a class method or object method"),
                        expr.span,
                    ),
                ),
            },
            ExprKind::ArrayLiteral { elements } => {
                // The element type is that of the first element (number when empty)
                let mut elem_type = Type::Unknown;
                let ghost mut tys: Seq<Type> = Seq::empty();
                let mut i: usize = 0;
                while i < elements.len()
                    invariant
                        i <= elements@.len(),
                        Self::kept(*old(self), *self),
                        tys.len() == i,
                        forall|k: int|
                            0 <= k < i ==> Self::expr_outcome(
                                old(self).scopes@,
                                old(self).current_this_type,
                                #[trigger] elements@[k],
                                Ok::<Type, CompileError>(tys[k]),
                            ),
                        elem_type == first_known(tys),
                    decreases elements@.len() - i,
                {
                    assert(decreases_to!(elements => elements@[i as int]));
                    let t = match self.check_expr(&elements[i]) {
                        Ok(t) => t,
                        Err(e) => {
                            assert(Self::expr_outcome(
                                old(self).scopes@,
                                old(self).current_this_type,
                                elements@[i as int],
                                Err::<Type, CompileError>(e),
                            ));
                            return Err(e);
                        },
                    };
                    proof {
                        let old_tys = tys;
                        tys = tys.push(t);
                        assert(tys.drop_last() =~= old_tys);
                    }
                    if elem_type.is_unknown() {
                        elem_type = t;
                    }
                    i = i + 1;
                }
                if elem_type.is_unknown() {
                    elem_type = Type::Number;
                }
                assert(Self::elements_check(
                    old(self).scopes@,
                    old(self).current_this_type,
                    elements@,
                    tys,
                ));
                Ok(Type::Array(Box::new(elem_type)))
            },
            ExprKind::ObjectLiteral { .. } => self.check_object_literal(expr),
            ExprKind::IndexAccess { object, index } => {
                let obj_type = self.check_expr(object)?;
                self.check_expr(index)?;
                match &obj_type {
                    Type::Array(elem) => Ok(elem.deep_copy()),
                    Type::Object { fields } => {
                        // Bracket access with a string literal: obj["key"]
                        if let ExprKind::StringLiteral(key) = &index.kind {
                            return match field_type(fields, key.as_str()) {
                                Some(t) => Ok(t),
                                None => Err(
                                    type_err(
                                        msg_name("Property '", key, "' does not exist on object"),
                                        expr.span,
                                    ),
                                ),
                            };
                        }
                        Ok(Type::Unknown)
                    },
                    Type::Class { fields, .. } => {
                        if let ExprKind::StringLiteral(key) = &index.kind {
                            if let Some(t) = field_type(fields, key.as_str()) {
                                return Ok(t);
                            }
                        }
                        Ok(Type::Unknown)
                    },
                    Type::Tuple(elements) => {
                        // Indexing with a numeric literal: pair[0], pair[1]
                        if let ExprKind::NumberLiteral(n) = &index.kind {
                            let idx = literal_to_index(n);
                            if idx < elements.len() {
                                return Ok(elements[idx].deep_copy());
                            }
                            return Err(
                                type_err(
                                    msg_counts(
                                        "Tuple index ",
                                        idx,
                                        " out of bounds for tuple of length ",
                                        elements.len(),
                                        "",
                                    ),
                                    expr.span,
                                ),
                            );
                        }
                        // A computed index on a tuple
                        Ok(Type::Unknown)
                    },
                    _ => Ok(Type::Unknown),
                }
            },
            ExprKind::Binary { left, op, right } => {
                let left_type = self.check_expr(left)?;
                let right_type = self.check_expr(right)?;
                check_binary_op(&left_type, *op, &right_type, expr.span)
            },
            ExprKind::Unary { op, operand } => {
                let operand_type = self.check_expr(operand)?;
                match op {
                    UnaryOp::Negate => {
                        if !matches!(operand_type, Type::Number) {
                            let e = type_err(
                                msg_type("Unary '-' requires number, got '", &operand_type, "'"),
                                expr.span,
                            );
                            assert(e.message@ == negate_message(operand_type));
                            return Err(e);
                        }
                        Ok(Type::Number)
                    },
                    UnaryOp::Not => Ok(Type::Boolean),
                }
            },
            ExprKind::Typeof { operand } => {
                self.check_expr(operand)?;
                Ok(Type::String)
            },
            ExprKind::Await { expr: inner } => self.check_expr(inner),
            ExprKind::Call { .. } => self.check_call(expr),
            ExprKind::Member { .. } => self.check_member(expr),
            ExprKind::OptionalMember { object, property } => {
                // obj?.prop: a field's type, or unknown
                let obj_type = self.check_expr(object)?;
                if let Some(fields) = fields_of(&obj_type) {
                    if let Some(t) = field_type(fields, property.as_str()) {
                        return Ok(t);
                    }
                }
                Ok(Type::Unknown)
            },
            ExprKind::Spread { expr: inner } => self.check_expr(inner),
            ExprKind::Assignment { name, value } => {
                let (var_type, is_const) = match self.lookup_symbol(name.as_str()) {
                    Some(s) => s,
                    None => {
                        return Err(
                            type_err(msg_name("Cannot find name '", name, "'"), expr.span),
                        );
                    },
                };
                if is_const {
                    return Err(
                        type_err(
                            msg_name("Cannot assign to '", name, "' because it is a constant"),
                            expr.span,
                        ),
                    );
                }
                let val_type = self.check_expr(value)?;
                if !is_assignable(&val_type, &var_type) {
                    let e = type_err(
                        msg_types(
                            "Type '",
                            &val_type,
                            "' is not assignable to type '",
                            &var_type,
                            "'",
                        ),
                        expr.span,
                    );
                    assert(e.message@ == assign_message(val_type, var_type));
                    return Err(e);
                }
                Ok(var_type)
            },
            ExprKind::MemberAssignment { object, property, value } => {
                let obj_type = self.check_expr(object)?;
                let val_type = self.check_expr(value)?;
                if let Some(fields) = fields_of(&obj_type) {
                    if let Some(k) = find_index(fields, property.as_str()) {
                        if !is_assignable(&val_type, &fields[k].1) {
                            return Err(
                                type_err(
                                    msg_types(
                                        "Type '",
                                        &val_type,
                                        "' is not assignable to type '",
                                        &fields[k].1,
                                        "'",
                                    ),
                                    expr.span,
                                ),
                            );
                        }
                        return Ok(val_type);
                    }
                }
                // `this.x = ...` may set a field the class does not declare
                if matches!(object.kind, ExprKind::This) {
                    return Ok(val_type);
                }
                Err(type_err(no_property(property, &obj_type), expr.span))
            },
            ExprKind::NewExpr { class_name, args } => {
                let class_type = match field_type(&self.class_types, class_name.as_str()) {
                    Some(t) => t,
                    None => {
                        return Err(
                            type_err(
                                msg_name("Cannot find class '", class_name, "'"),
                                expr.span,
                            ),
                        );
                    },
                };
                self.check_all(args)?;
                Ok(class_type)
            },
            ExprKind::ArrowFunction { params, return_type, body, .. } => {
                let param_types = self.param_types(params, false);
                let ret_type = self.resolve_or(return_type, Type::Unknown);
                let actual = self.check_arrow_body(params, &param_types, ret_type.deep_copy(), body)?;
                // A declared return type wins over the body's
                let final_ret = if ret_type.is_unknown() {
                    actual
                } else {
                    ret_type
                };
                Ok(function_type(param_types, final_ret))
            },
            ExprKind::Conditional { condition, consequent, alternate } => {
                self.check_expr(condition)?;
                let then_type = self.check_expr(consequent)?;
                let else_type = self.check_expr(alternate)?;
                let ghost ct = conditional_type(then_type, else_type);
                assert(Self::expr_outcome(
                    old(self).scopes@,
                    old(self).current_this_type,
                    **consequent,
                    Ok::<Type, CompileError>(then_type),
                ));
                assert(Self::expr_outcome(
                    old(self).scopes@,
                    old(self).current_this_type,
                    **alternate,
                    Ok::<Type, CompileError>(else_type),
                ));
                let t = if then_type.equals(&else_type) {
                    then_type
                } else if then_type.is_unknown() {
                    else_type
                } else if else_type.is_unknown() {
                    then_type
                } else {
                    // Different types
                    Type::Unknown
                };
                assert(t == ct);
                Ok(t)
            },
            ExprKind::Grouping { expr: inner } => self.check_expr(inner),
            ExprKind::PostfixUpdate { target, .. } | ExprKind::PrefixUpdate { target, .. } => {
                let ty = self.check_expr(target)?;
                if !matches!(ty, Type::Number) {
                    let e = type_err(
                        msg_type("Operator '++/--' requires number, got '", &ty, "'"),
                        expr.span,
                    );
                    assert(e.message@ == update_message(ty));
                    return Err(e);
                }
                Ok(Type::Number)
            },
            ExprKind::TypeAssertion { expr: inner, target_type } => {
                // The asserted type is trusted
                self.check_expr(inner)?;
                Ok(self.resolve(target_type))
            },
            ExprKind::Satisfies { expr: inner, target_type } => {
                // The expression must be assignable to the target, and keeps its own type
                let inner_type = self.check_expr(inner)?;
                let target = self.resolve(target_type);
                proof {
                    if structural_ann(*target_type) {
                        self.lemma_structural_resolves(*target_type, target);
                    }
                }
                if !is_assignable(&inner_type, &target) {
                    let e = type_err(
                        msg_types("Type '", &inner_type, "' does not satisfy '", &target, "'"),
                        expr.span,
                    );
                    assert(e.message@ == satisfies_message(inner_type, target));
                    return Err(e);
                }
                Ok(inner_type)
            },
        }
    }

    /// Checks each expression in order.
    fn check_all(&mut self, exprs: &Vec<Expr>) -> (r: Result<(), CompileError>)
        ensures
            Self::checked_expr(*old(self), *final(self), r),
            r matches Err(e) ==> Self::arg_error(
                old(self).scopes@,
                old(self).current_this_type,
                exprs@,
                e,
            ),
            r is Ok ==> forall|i: int|
                0 <= i < exprs@.len() ==> #[trigger] Self::expr_passes(
                    old(self).scopes@,
                    old(self).current_this_type,
                    exprs@[i],
                ),
            all_infallible(exprs@) ==> r is Ok,
        decreases exprs, 1nat,
    {
        let mut i: usize = 0;
        while i < exprs.len()
            invariant
                i <= exprs@.len(),
                Self::kept(*old(self), *self),
                forall|j: int|
                    0 <= j < i ==> #[trigger] Self::expr_passes(
                        old(self).scopes@,
                        old(self).current_this_type,
                        exprs@[j],
                    ),
            decreases exprs@.len() - i,
        {
            assert(decreases_to!(exprs => exprs@[i as int]));
            match self.check_expr(&exprs[i]) {
                Ok(t) => {
                    assert(Self::expr_outcome(
                        old(self).scopes@,
                        old(self).current_this_type,
                        exprs@[i as int],
                        Ok::<Type, CompileError>(t),
                    ));
                    assert(Self::expr_passes(
                        old(self).scopes@,
                        old(self).current_this_type,
                        exprs@[i as int],
                    ));
                },
                Err(e) => {
                    proof {
                        if infallible_expr(exprs@[i as int]) {
                            Self::lemma_infallible_expr(
                                old(self).scopes@,
                                old(self).current_this_type,
                                exprs@[i as int],
                                e,
                            );
                        }
                        assert(Self::expr_outcome(
                            old(self).scopes@,
                            old(self).current_this_type,
                            exprs@[i as int],
                            Err::<Type, CompileError>(e),
                        ));
                    }
                    return Err(e);
                },
            }
            i = i + 1;
        }
        Ok(())
    }
}

/// Whether `e` is the plain name `n`.
pub open spec fn is_name(e: Expr, n: Seq<char>) -> bool {
    e.kind is Identifier && e.kind->Identifier_0@ == n
}

/// The `console` methods.
pub open spec fn is_console_method(p: Seq<char>) -> bool {
    p == "log"@ || p == "error"@ || p == "warn"@
}

/// The `Math` constants.
pub open spec fn is_math_constant(p: Seq<char>) -> bool {
    p == "PI"@ || p == "E"@ || p == "LN2"@ || p == "LN10"@ || p == "SQRT2"@
}

/// The `Math` members typed as functions of one number.
pub open spec fn is_math_unary(p: Seq<char>) -> bool {
    p == "floor"@ || p == "ceil"@ || p == "round"@ || p == "abs"@ || p == "sqrt"@ || p == "sin"@
        || p == "cos"@ || p == "tan"@ || p == "log"@ || p == "exp"@ || p == "random"@
}

/// The `Math` members typed as functions of two numbers.
pub open spec fn is_math_binary(p: Seq<char>) -> bool {
    p == "pow"@ || p == "min"@ || p == "max"@
}

/// Whether `t` is the function type from `params` to `ret`.
pub open spec fn is_fn_type(t: Type, params: Seq<Type>, ret: Type) -> bool {
    t matches Type::Function { params: ps, return_type } && ps@ == params && *return_type == ret
}

/// The type of a member of a string: `length` and the string methods.
pub open spec fn string_member_yields(p: Seq<char>, t: Type) -> bool {
    if p == "length"@ {
        t is Number
    } else if p == "toUpperCase"@ || p == "toLowerCase"@ || p == "trim"@ {
        is_fn_type(t, seq![], Type::String)
    } else if p == "charAt"@ || p == "substring"@ || p == "slice"@ || p == "repeat"@ {
        is_fn_type(t, seq![Type::Number], Type::String)
    } else if p == "indexOf"@ {
        is_fn_type(t, seq![Type::String], Type::Number)
    } else if p == "includes"@ || p == "startsWith"@ || p == "endsWith"@ {
        is_fn_type(t, seq![Type::String], Type::Boolean)
    } else if p == "replace"@ {
        is_fn_type(t, seq![Type::String, Type::String], Type::String)
    } else if p == "padStart"@ {
        is_fn_type(t, seq![Type::Number, Type::String], Type::String)
    } else if p == "split"@ {
        is_fn_type(t, seq![Type::String], Type::Array(Box::new(Type::String)))
    } else {
        false
    }
}

/// What the member `p` of a value of type `ot` has as its type: a field's
/// type, or that of a built-in member of arrays, strings and numbers.
pub open spec fn member_yields(ot: Type, p: Seq<char>, t: Type) -> bool {
    match ot {
        Type::Object { fields } => entry_for(fields@, p) matches Some(ft) && type_eq(t, ft),
        Type::Class { fields, .. } => entry_for(fields@, p) matches Some(ft) && type_eq(t, ft),
        Type::Array(el) => if p == "length"@ {
            t is Number
        } else if p == "push"@ {
            t matches Type::Function { params, return_type } && params@.len() == 1 && type_eq(
                params@[0],
                *el,
            ) && *return_type is Number
        } else if p == "pop"@ {
            t matches Type::Function { params, return_type } && params@.len() == 0 && type_eq(
                *return_type,
                *el,
            )
        } else {
            false
        },
        Type::String => string_member_yields(p, t),
        Type::Number => p == "toFixed"@ && is_fn_type(t, seq![Type::Number], Type::String),
        _ => false,
    }
}

/// How many arguments each `Math` function takes.
pub open spec fn math_arity(m: Seq<char>) -> Option<nat> {
    if m == "floor"@ || m == "ceil"@ || m == "round"@ || m == "abs"@ || m == "sqrt"@ || m == "sin"@
        || m == "cos"@ || m == "tan"@ || m == "log"@ || m == "exp"@ {
        Some(1)
    } else if m == "pow"@ || m == "min"@ || m == "max"@ {
        Some(2)
    } else if m == "random"@ {
        Some(0)
    } else {
        None
    }
}

/// The message of a `Math` function called with `n` arguments where it takes `k`.
pub open spec fn math_arity_message(m: Seq<char>, k: nat, n: nat) -> Seq<char> {
    "Math."@ + m + " expects "@ + decimal(k) + " argument"@ + (if k != 1 {
        "s"@
    } else {
        Seq::empty()
    }) + ", got "@ + decimal(n)
}

/// The message of a `Math` function given an argument of type `t`.
pub open spec fn math_argument_message(m: Seq<char>, t: Type) -> Seq<char> {
    "Math."@ + m + " expects number arguments, got '"@ + type_text(t) + "'"@
}

/// The string methods: for each, the least and most arguments it takes and
/// the type it returns.
pub open spec fn string_method_sig(m: Seq<char>) -> Option<(nat, nat, Type)> {
    if m == "toUpperCase"@ || m == "toLowerCase"@ || m == "trim"@ {
        Some((0, 0, Type::String))
    } else if m == "charAt"@ {
        Some((1, 1, Type::String))
    } else if m == "indexOf"@ {
        Some((1, 1, Type::Number))
    } else if m == "includes"@ || m == "startsWith"@ || m == "endsWith"@ {
        Some((1, 1, Type::Boolean))
    } else if m == "repeat"@ {
        Some((1, 1, Type::String))
    } else if m == "split"@ {
        Some((1, 1, Type::Array(Box::new(Type::String))))
    } else if m == "replace"@ {
        Some((2, 2, Type::String))
    } else if m == "padStart"@ {
        Some((2, 2, Type::String))
    } else if m == "substring"@ || m == "slice"@ {
        Some((1, 2, Type::String))
    } else {
        None
    }
}

/// The message of a string method called with a wrong number of arguments.
pub open spec fn string_arity_message(m: Seq<char>) -> Seq<char> {
    if m == "toUpperCase"@ || m == "toLowerCase"@ || m == "trim"@ {
        "'"@ + m + "' takes no arguments"@
    } else if m == "charAt"@ {
        "charAt expects 1 argument"@
    } else if m == "indexOf"@ {
        "indexOf expects 1 argument"@
    } else if m == "includes"@ || m == "startsWith"@ || m == "endsWith"@ {
        ""@ + m + " expects 1 argument"@
    } else if m == "repeat"@ {
        "repeat expects 1 argument"@
    } else if m == "split"@ {
        "split expects 1 argument"@
    } else if m == "replace"@ {
        "replace expects 2 arguments"@
    } else if m == "padStart"@ {
        "padStart expects 2 arguments"@
    } else {
        ""@ + m + " expects 1 or 2 arguments"@
    }
}

/// "Property 'p' does not exist on type 't'".
fn no_property(property: &String, t: &Type) -> (r: String)
    ensures
        r@ == "Property '"@ + property@ + "' does not exist on type '"@ + type_text(*t) + "'"@,
{
    let mut m = string_of("Property '");
    m.append(property.as_str());
    m.append("' does not exist on type '");
    m.append(t.to_display_string().as_str());
    m.append("'");
    m
}

} // verus!

verus! {

fn fn_type0(ret: Type) -> (r: Type)
    ensures
        r matches Type::Function { params, return_type } && params@ == Seq::<Type>::empty()
            && *return_type == ret,
{
    function_type(Vec::new(), ret)
}

fn fn_type1(p: Type, ret: Type) -> (r: Type)
    ensures
        r matches Type::Function { params, return_type } && params@ == seq![p] && *return_type == ret,
{
    let mut v: Vec<Type> = Vec::new();
    v.push(p);
    function_type(v, ret)
}

fn fn_type2(p1: Type, p2: Type, ret: Type) -> (r: Type)
    ensures
        r matches Type::Function { params, return_type } && params@ == seq![p1, p2] && *return_type
            == ret,
{
    let mut v: Vec<Type> = Vec::new();
    v.push(p1);
    v.push(p2);
    function_type(v, ret)
}

/// `a` + `name` + `b` + a number + `c`.
fn msg_name_count(a: &str, name: &String, b: &str, n: usize, c: &str) -> (r: String)
    ensures
        r@ == a@ + name@ + b@ + decimal(n as nat) + c@,
{
    let mut m = string_of(a);
    m.append(name.as_str());
    m.append(b);
    append_decimal(&mut m, n);
    m.append(c);
    m
}

impl TypeChecker {
    /// Checks an arrow function's body in a new scope binding its parameters,
    /// with `ret` as the expected return type. An expression body yields its
    /// own type; a block body yields `ret`.
    fn check_arrow_body(
        &mut self,
        params: &Vec<Parameter>,
        types: &Vec<Type>,
        ret: Type,
        body: &ArrowBody,
    ) -> (r: Result<Type, CompileError>)
        requires
            types@.len() == params@.len(),
        ensures
            Self::checked_expr(*old(self), *final(self), r),
            body matches ArrowBody::Expr(e) ==> exists|sc: Seq<Scope>|
                sc.len() == old(self).scopes@.len() + 1 && sc.drop_last() == old(self).scopes@
                    && #[trigger] Self::expr_outcome(sc, old(self).current_this_type, **e, r),
            body matches ArrowBody::Block(stmts) ==> (r matches Ok(t) ==> type_eq(t, ret)),
            body matches ArrowBody::Block(stmts) ==> ((forall|i: int|
                0 <= i < stmts@.len() ==> #[trigger] infallible_stmt(stmts@[i])) ==> r is Ok),
        decreases body, 2nat,
    {
        match body {
            ArrowBody::Expr(e) => {
                self.push_scope();
                let mut prev_ret = Some(ret);
                core::mem::swap(&mut prev_ret, &mut self.current_return_type);
                self.define_params(params, types);
                let ghost sc = self.scopes@;
                let checked = self.check_expr(e);
                assert(Self::expr_outcome(sc, old(self).current_this_type, **e, checked));
                let t = match checked {
                    Ok(t) => t,
                    Err(x) => {
                        return Err(x);
                    },
                };
                self.current_return_type = prev_ret;
                self.pop_scope();
                Ok(t)
            },
            ArrowBody::Block(stmts) => {
                let copy = ret.deep_copy();
                self.check_function_body(params, types, ret, stmts)?;
                Ok(copy)
            },
        }
    }

    #[verifier::loop_isolation(false)]
    fn check_object_literal(&mut self, expr: &Expr) -> (r: Result<Type, CompileError>)
        requires
            expr.kind is ObjectLiteral,
        ensures
            Self::checked_expr(*old(self), *final(self), r),
            Self::expr_outcome(old(self).scopes@, old(self).current_this_type, *expr, r),
        decreases expr, 0nat,
    {
        let properties = match &expr.kind {
            ExprKind::ObjectLiteral { properties } => properties,
            _ => {
                return Ok(Type::Object { fields: Vec::new() });
            },
        };
        let mut fields: Vec<(String, Type)> = Vec::new();
        let mut i: usize = 0;
        while i < properties.len()
            invariant
                i <= properties@.len(),
                Self::kept(*old(self), *self),
                plain_properties(properties@) ==> fields@.len() == i,
                plain_properties(properties@) ==> forall|j: int|
                    0 <= j < i ==> fields@[j].0@ == (#[trigger] properties@[j]).key@ && exists|ft: Type|
                        Self::expr_outcome(
                            old(self).scopes@,
                            old(self).current_this_type,
                            properties@[j].value,
                            Ok::<Type, CompileError>(ft),
                        ) && #[trigger] type_eq(fields@[j].1, ft),
            decreases properties@.len() - i,
        {
            let prop = &properties[i];
            assert(decreases_to!(properties => properties@[i as int]));
            assert(plain_properties(properties@) ==> !properties@[i as int].is_spread
                && properties@[i as int].computed_key is None && !properties@[i as int].is_method);
            if prop.is_spread {
                // { ...expr }: the source's fields join this object's type
                let spread_ty = self.check_expr(&prop.value)?;
                if let Type::Object { fields: spread_fields } = spread_ty {
                    let mut src = spread_fields;
                    let mut rev: Vec<(String, Type)> = Vec::new();
                    let n = src.len();
                    let mut k: usize = 0;
                    while k < n
                        decreases n - k,
                    {
                        if let Some(f) = src.pop() {
                            rev.push(f);
                        }
                        k = k + 1;
                    }
                    let mut k: usize = 0;
                    while k < n
                        decreases n - k,
                    {
                        if let Some(f) = rev.pop() {
                            fields.push(f);
                        }
                        k = k + 1;
                    }
                }
            } else if let Some(key_expr) = &prop.computed_key {
                // { [expr]: value }: both sides are checked, no field is recorded
                self.check_expr(key_expr)?;
                self.check_expr(&prop.value)?;
            } else if prop.is_method {
                let param_types = self.param_types(&prop.params, false);
                let ret = self.resolve_or(&prop.return_type, Type::Void);
                fields.push((prop.key.clone(), function_type(param_types, ret)));
            } else {
                let ty = match self.check_expr(&prop.value) {
                    Ok(t) => t,
                    Err(e) => {
                        assert(Self::expr_outcome(
                            old(self).scopes@,
                            old(self).current_this_type,
                            (properties@[i as int]).value,
                            Err::<Type, CompileError>(e),
                        ));
                        return Err(e);
                    },
                };
                proof {
                    lemma_type_eq_refl(ty);
                }
                let ghost before = fields@;
                fields.push((prop.key.clone(), ty));
                proof {
                    if plain_properties(properties@) {
                        assert forall|j: int| 0 <= j < i implies fields@[j] == before[j] by {}
                        assert(fields@[i as int].0@ == properties@[i as int].key@);
                        assert(type_eq(fields@[i as int].1, ty));
                    }
                }
            }
            i = i + 1;
        }

        // Method bodies are checked with the object as `this`
        let this_fields = copy_fields(&fields);
        let obj_type = Type::Object { fields };
        let mut prev_this = Some(Type::Object { fields: this_fields });
        core::mem::swap(&mut prev_this, &mut self.current_this_type);
        let mut i: usize = 0;
        while i < properties.len()
            invariant
                i <= properties@.len(),
                self.scopes@ == old(self).scopes@,
                self.current_return_type == old(self).current_return_type,
                keys_kept(old(self).exported_symbols@, self.exported_symbols@),
            decreases properties@.len() - i,
        {
            let prop = &properties[i];
            assert(decreases_to!(properties => properties@[i as int]));
            if prop.is_method {
                if let ExprKind::ArrowFunction { params, body, .. } = &prop.value.kind {
                    let types = self.param_types(params, false);
                    let ret = self.resolve_or(&prop.return_type, Type::Void);
                    self.check_arrow_body(params, &types, ret, body)?;
                }
            }
            i = i + 1;
        }
        self.current_this_type = prev_this;
        Ok(obj_type)
    }

    #[verifier::loop_isolation(false)]
    #[verifier::loop_isolation(false)]
    fn check_call(&mut self, expr: &Expr) -> (r: Result<Type, CompileError>)
        requires
            expr.kind is Call,
        ensures
            Self::checked_expr(*old(self), *final(self), r),
            Self::call_rules(
                old(self).generic_functions@,
                old(self).scopes@,
                old(self).current_this_type,
                *expr,
                r,
            ),
            expr.kind->Call_callee.kind matches ExprKind::Identifier(n) ==> match lookup_in(
                old(self).scopes@,
                n@,
            ) {
                None => r is Err,
                Some(sym) => sym.ty is Function ==> exists|ct: Type|
                    #[trigger] type_eq(ct, sym.ty) && Self::call_outcome(
                        old(self).scopes@,
                        old(self).current_this_type,
                        expr.span,
                        expr.kind->Call_args@,
                        ct,
                        r,
                    ),
            },
        decreases expr, 0nat,
    {
        let (callee, args) = match &expr.kind {
            ExprKind::Call { callee, args } => (callee, args),
            _ => {
                return Ok(Type::Unknown);
            },
        };
        if let ExprKind::Member { object, property } = &callee.kind {
            if let ExprKind::Identifier(name) = &object.kind {
                // console.log / console.error / console.warn
                if eq_str(name, "console") && (eq_str(property, "log") || eq_str(property, "error")
                    || eq_str(property, "warn")) {
                    match self.check_all(args) {
                        Ok(_) => {},
                        Err(e) => {
                            return Err(e);
                        },
                    }
                    return Ok(Type::Void);
                }
                if eq_str(name, "Math") {
                    return self.check_math_call(property, args, expr.span);
                }
                if eq_str(name, "Number") {
                    return self.check_number_static_call(property, args, expr.span);
                }
            }
            // Methods of strings, numbers and arrays
            let obj_type = self.check_expr(object)?;
            if matches!(obj_type, Type::String) {
                return self.check_string_method_call(property, args, expr.span);
            }
            if matches!(obj_type, Type::Number) {
                return self.check_number_method_call(property, args, expr.span);
            }
            if let Type::Array(elem_type) = &obj_type {
                return self.check_array_method_call(property, args, elem_type, expr.span);
            }
            // Methods of objects and class instances
            if let Some(fields) = fields_of(&obj_type) {
                let mut i: usize = 0;
                while i < fields.len()
                    invariant
                        i <= fields@.len(),
                        Self::kept(*old(self), *self),
                    decreases fields@.len() - i,
                {
                    if eq_str(&fields[i].0, property.as_str()) {
                        if let Type::Function { params, return_type } = &fields[i].1 {
                            if args.len() != params.len() {
                                return Err(
                                    type_err(
                                        msg_counts(
                                            "Expected ",
                                            params.len(),
                                            " arguments, got ",
                                            args.len(),
                                            "",
                                        ),
                                        expr.span,
                                    ),
                                );
                            }
                            self.check_all(args)?;
                            return Ok(return_type.deep_copy());
                        }
                    }
                    i = i + 1;
                }
            }
        }
        // Calls of generic functions: the arguments are checked, not matched
        // against the parameters (constraints are settled where code is generated)
        if let ExprKind::Identifier(fn_name) = &callee.kind {
            if find_index(&self.generic_functions, fn_name.as_str()).is_some() {
                match self.check_all(args) {
                    Ok(_) => {},
                    Err(e) => {
                        proof {
                            if let Some(sym) = lookup_in(old(self).scopes@, fn_name@) {
                                if sym.ty is Function {
                                    lemma_type_eq_refl(sym.ty);
                                    let i = choose|i: int|
                                        0 <= i < args@.len() && #[trigger] Self::expr_outcome(
                                            old(self).scopes@,
                                            old(self).current_this_type,
                                            args@[i],
                                            Err::<Type, CompileError>(e),
                                        );
                                    assert(Self::call_outcome(
                                        old(self).scopes@,
                                        old(self).current_this_type,
                                        expr.span,
                                        args@,
                                        sym.ty,
                                        Err::<Type, CompileError>(e),
                                    ));
                                }
                            }
                        }
                        return Err(e);
                    },
                }
                let callee_type = self.check_expr(callee)?;
                return match &callee_type {
                    Type::Function { return_type, .. } => {
                        let t = return_type.deep_copy();
                        assert(Self::call_outcome(
                            old(self).scopes@,
                            old(self).current_this_type,
                            expr.span,
                            args@,
                            callee_type,
                            Ok::<Type, CompileError>(t),
                        ));
                        Ok(t)
                    },
                    _ => Ok(Type::Unknown),
                };
            }
        }
        let callee_type = self.check_expr(callee)?;
        assert(Self::expr_outcome(
            old(self).scopes@,
            old(self).current_this_type,
            **callee,
            Ok::<Type, CompileError>(callee_type),
        ));
        match &callee_type {
            Type::Function { params, return_type } => {
                proof {
                    if callee.kind is Identifier {
                        if let Some(sym) = lookup_in(old(self).scopes@, callee.kind->Identifier_0@) {
                            if let Type::Function { params: sp, .. } = sym.ty {
                                lemma_types_eq_pointwise(params@, sp@);
                                if params@.len() > 0 {
                                    let k = params@.len() - 1;
                                    assert(type_eq(params@[k], sp@[k]));
                                }
                            }
                        }
                    }
                }
                // A final array parameter is a rest parameter
                let n = params.len();
                let is_variadic = n > 0 && matches!(params[n - 1], Type::Array(_));
                if !is_variadic && args.len() > n {
                    let e = type_err(
                        msg_counts("Expected ", n, " arguments, got ", args.len(), ""),
                        expr.span,
                    );
                    assert(Self::call_outcome(
                        old(self).scopes@,
                        old(self).current_this_type,
                        expr.span,
                        args@,
                        callee_type,
                        Err::<Type, CompileError>(e),
                    ));
                    return Err(e);
                }
                // Arguments up to the rest parameter are matched against the parameters
                let check_count = if is_variadic {
                    if n - 1 < args.len() {
                        n - 1
                    } else {
                        args.len()
                    }
                } else {
                    args.len()
                };
                let mut i: usize = 0;
                while i < check_count
                    invariant
                        check_count <= args@.len(),
                        check_count <= n,
                        n == params@.len(),
                        i <= check_count,
                        Self::kept(*old(self), *self),
                        forall|q: int|
                            0 <= q < i ==> #[trigger] Self::arg_fits(
                                old(self).scopes@,
                                old(self).current_this_type,
                                args@[q],
                                params@[q],
                            ),
                    decreases check_count - i,
                {
                    assert(decreases_to!(args => args@[i as int]));
                    let arg_type = match self.check_expr(&args[i]) {
                        Ok(t) => t,
                        Err(e) => {
                            proof {
                                if all_infallible(args@) {
                                    Self::lemma_infallible_expr(
                                        old(self).scopes@,
                                        old(self).current_this_type,
                                        args@[i as int],
                                        e,
                                    );
                                }
                                assert(Self::call_outcome(
                                    old(self).scopes@,
                                    old(self).current_this_type,
                                    expr.span,
                                    args@,
                                    callee_type,
                                    Err::<Type, CompileError>(e),
                                ));
                            }
                            return Err(e);
                        },
                    };
                    if !is_assignable(&arg_type, &params[i]) {
                        let e = type_err(
                            msg_types(
                                "Argument of type '",
                                &arg_type,
                                "' is not assignable to parameter of type '",
                                &params[i],
                                "'",
                            ),
                            args[i].span,
                        );
                        proof {
                            assert(e.message@ == argument_message(arg_type, params@[i as int]));
                            assert(Self::call_outcome(
                                old(self).scopes@,
                                old(self).current_this_type,
                                expr.span,
                                args@,
                                callee_type,
                                Err::<Type, CompileError>(e),
                            ));
                        }
                        return Err(e);
                    }
                    proof {
                        assert(Self::expr_outcome(
                            old(self).scopes@,
                            old(self).current_this_type,
                            args@[i as int],
                            Ok::<Type, CompileError>(arg_type),
                        ));
                        assert(Self::arg_fits(
                            old(self).scopes@,
                            old(self).current_this_type,
                            args@[i as int],
                            params@[i as int],
                        ));
                        assert forall|q: int| 0 <= q < i + 1 implies #[trigger] Self::arg_fits(
                            old(self).scopes@,
                            old(self).current_this_type,
                            args@[q],
                            params@[q],
                        ) by {
                            if q == i {
                                assert(Self::expr_outcome(
                                    old(self).scopes@,
                                    old(self).current_this_type,
                                    args@[q],
                                    Ok::<Type, CompileError>(arg_type),
                                ) && assignable(arg_type, params@[q]));
                            }
                        }
                    }
                    i = i + 1;
                }
                assert(Self::args_fit(old(self).scopes@, old(self).current_this_type, args@, params@));
                // The rest arguments are checked on their own
                let mut i: usize = check_count;
                while i < args.len()
                    invariant
                        check_count <= i <= args@.len(),
                        Self::kept(*old(self), *self),
                    decreases args@.len() - i,
                {
                    assert(decreases_to!(args => args@[i as int]));
                    match self.check_expr(&args[i]) {
                        Ok(_) => {},
                        Err(e) => {
                            proof {
                                if all_infallible(args@) {
                                    Self::lemma_infallible_expr(
                                        old(self).scopes@,
                                        old(self).current_this_type,
                                        args@[i as int],
                                        e,
                                    );
                                }
                                assert(Self::call_outcome(
                                    old(self).scopes@,
                                    old(self).current_this_type,
                                    expr.span,
                                    args@,
                                    callee_type,
                                    Err::<Type, CompileError>(e),
                                ));
                            }
                            return Err(e);
                        },
                    }
                    i = i + 1;
                }
                let t = return_type.deep_copy();
                assert(Self::call_outcome(
                    old(self).scopes@,
                    old(self).current_this_type,
                    expr.span,
                    args@,
                    callee_type,
                    Ok::<Type, CompileError>(t),
                ));
                Ok(t)
            },
            _ => Err(type_err(msg_type("Type '", &callee_type, "' is not callable"), callee.span)),
        }
    }

    fn check_member(&mut self, expr: &Expr) -> (r: Result<Type, CompileError>)
        requires
            expr.kind is Member,
        ensures
            Self::checked_expr(*old(self), *final(self), r),
            Self::member_outcome(
                old(self).scopes@,
                old(self).current_this_type,
                *expr.kind->Member_object,
                expr.kind->Member_property@,
                expr.span,
                r,
            ),
        decreases expr, 0nat,
    {
        let (object, property) = match &expr.kind {
            ExprKind::Member { object, property } => (object, property),
            _ => {
                return Ok(Type::Unknown);
            },
        };
        if let ExprKind::Identifier(name) = &object.kind {
            if eq_str(name, "console") && (eq_str(property, "log") || eq_str(property, "error")
                || eq_str(property, "warn")) {
                return Ok(fn_type0(Type::Void));
            }
            if eq_str(name, "Math") {
                if eq_str(property, "PI") || eq_str(property, "E") || eq_str(property, "LN2")
                    || eq_str(property, "LN10") || eq_str(property, "SQRT2") {
                    return Ok(Type::Number);
                }
                if eq_str(property, "floor") || eq_str(property, "ceil") || eq_str(property, "round")
                    || eq_str(property, "abs") || eq_str(property, "sqrt") || eq_str(property, "sin")
                    || eq_str(property, "cos") || eq_str(property, "tan") || eq_str(property, "log")
                    || eq_str(property, "exp") || eq_str(property, "random") {
                    return Ok(fn_type1(Type::Number, Type::Number));
                }
                if eq_str(property, "pow") || eq_str(property, "min") || eq_str(property, "max") {
                    return Ok(fn_type2(Type::Number, Type::Number, Type::Number));
                }
            }
        }
        let obj_type = self.check_expr(object)?;
        // Fields of objects and class instances
        if let Some(fields) = fields_of(&obj_type) {
            if let Some(t) = field_type(fields, property.as_str()) {
                assert(member_yields(obj_type, property@, t));
                return Ok(t);
            }
        }
        // Array properties and methods
        if let Type::Array(elem_type) = &obj_type {
            if eq_str(property, "length") {
                let t = Type::Number;
                assert(member_yields(obj_type, property@, t));
                return Ok(t);
            }
            if eq_str(property, "push") {
                let t = fn_type1(elem_type.deep_copy(), Type::Number);
                assert(member_yields(obj_type, property@, t));
                return Ok(t);
            }
            if eq_str(property, "pop") {
                let t = fn_type0(elem_type.deep_copy());
                assert(member_yields(obj_type, property@, t));
                return Ok(t);
            }
        }
        // String properties and methods
        if matches!(obj_type, Type::String) {
            if eq_str(property, "length") {
                let t = Type::Number;
                assert(member_yields(obj_type, property@, t));
                return Ok(t);
            }
            if eq_str(property, "toUpperCase") || eq_str(property, "toLowerCase") || eq_str(
                property,
                "trim",
            ) {
                let t = fn_type0(Type::String);
                assert(member_yields(obj_type, property@, t));
                return Ok(t);
            }
            if eq_str(property, "charAt") || eq_str(property, "substring") || eq_str(
                property,
                "slice",
            ) || eq_str(property, "repeat") {
                let t = fn_type1(Type::Number, Type::String);
                assert(member_yields(obj_type, property@, t));
                return Ok(t);
            }
            if eq_str(property, "indexOf") {
                let t = fn_type1(Type::String, Type::Number);
                assert(member_yields(obj_type, property@, t));
                return Ok(t);
            }
            if eq_str(property, "includes") || eq_str(property, "startsWith") || eq_str(
                property,
                "endsWith",
            ) {
                let t = fn_type1(Type::String, Type::Boolean);
                assert(member_yields(obj_type, property@, t));
                return Ok(t);
            }
            if eq_str(property, "replace") {
                let t = fn_type2(Type::String, Type::String, Type::String);
                assert(member_yields(obj_type, property@, t));
                return Ok(t);
            }
            if eq_str(property, "padStart") {
                let t = fn_type2(Type::Number, Type::String, Type::String);
                assert(member_yields(obj_type, property@, t));
                return Ok(t);
            }
            if eq_str(property, "split") {
                let t = fn_type1(Type::String, Type::Array(Box::new(Type::String)));
                assert(member_yields(obj_type, property@, t));
                return Ok(t);
            }
        }
        // Number methods
        if matches!(obj_type, Type::Number) {
            if eq_str(property, "toFixed") {
                let t = fn_type1(Type::Number, Type::String);
                assert(member_yields(obj_type, property@, t));
                return Ok(t);
            }
        }
        let e = type_err(no_property(property, &obj_type), expr.span);
        assert(e.message@ == property_message(property@, obj_type));
        Err(e)
    }

    #[verifier::loop_isolation(false)]
    fn check_math_call(&mut self, method: &String, args: &Vec<Expr>, span: Span) -> (r: Result<
        Type,
        CompileError,
    >)
        ensures
            Self::checked_expr(*old(self), *final(self), r),
            Self::math_outcome(
                old(self).scopes@,
                old(self).current_this_type,
                method@,
                args@,
                span,
                r,
            ),
        decreases args, 1nat,
    {
        let expected: usize = if eq_str(method, "floor") || eq_str(method, "ceil") || eq_str(
            method,
            "round",
        ) || eq_str(method, "abs") || eq_str(method, "sqrt") || eq_str(method, "sin") || eq_str(
            method,
            "cos",
        ) || eq_str(method, "tan") || eq_str(method, "log") || eq_str(method, "exp") {
            1
        } else if eq_str(method, "pow") || eq_str(method, "min") || eq_str(method, "max") {
            2
        } else if eq_str(method, "random") {
            0
        } else {
            return Err(
                type_err(msg_name("'Math.", method, "' is not a known Math method"), span),
            );
        };
        assert(math_arity(method@) == Some(expected as nat));
        if args.len() != expected {
            let mut m = msg_name_count("Math.", method, " expects ", expected, " argument");
            if expected != 1 {
                m.append("s");
            }
            m.append(", got ");
            append_decimal(&mut m, args.len());
            assert(m@ =~= math_arity_message(method@, expected as nat, args@.len()));
            return Err(type_err(m, span));
        }
        let mut i: usize = 0;
        while i < args.len()
            invariant
                i <= args@.len(),
                Self::kept(*old(self), *self),
                (forall|j: int| 0 <= j < args@.len() ==> is_literal(#[trigger] args@[j])) ==> forall|j: int|
                    0 <= j < i ==> (#[trigger] args@[j]).kind is NumberLiteral,
            decreases args@.len() - i,
        {
            assert(decreases_to!(args => args@[i as int]));
            let ty = match self.check_expr(&args[i]) {
                Ok(t) => t,
                Err(e) => {
                    assert(Self::expr_outcome(
                        old(self).scopes@,
                        old(self).current_this_type,
                        args@[i as int],
                        Err::<Type, CompileError>(e),
                    ));
                    return Err(e);
                },
            };
            if !matches!(ty, Type::Number) && !ty.is_unknown() {
                let mut m = msg_name("Math.", method, " expects number arguments, got '");
                m.append(ty.to_display_string().as_str());
                m.append("'");
                assert(m@ =~= math_argument_message(method@, ty));
                assert(Self::expr_outcome(
                    old(self).scopes@,
                    old(self).current_this_type,
                    args@[i as int],
                    Ok::<Type, CompileError>(ty),
                ));
                return Err(type_err(m, args[i].span));
            }
            i = i + 1;
        }
        Ok(Type::Number)
    }

    /// Checks exactly `n` arguments, or fails with `message`.
    fn check_n_args(&mut self, args: &Vec<Expr>, n: usize, message: String, span: Span) -> (r:
        Result<(), CompileError>)
        ensures
            Self::checked_expr(*old(self), *final(self), r),
            args@.len() != n ==> (r matches Err(e) && e.message == message && e.span == span),
            args@.len() == n ==> (r matches Err(e) ==> Self::arg_error(
                old(self).scopes@,
                old(self).current_this_type,
                args@,
                e,
            )),
            args@.len() == n && all_infallible(args@) ==> r is Ok,
        decreases args, 2nat,
    {
        if args.len() != n {
            return Err(type_err(message, span));
        }
        self.check_all(args)
    }

    fn check_string_method_call(&mut self, method: &String, args: &Vec<Expr>, span: Span) -> (r:
        Result<Type, CompileError>)
        ensures
            Self::checked_expr(*old(self), *final(self), r),
            match string_method_sig(method@) {
                None => r matches Err(e) && e.span == span && e.message@ == "Property '"@ + method@
                    + "' does not exist on type 'string'"@,
                Some((lo, hi, t)) => {
                    &&& (args@.len() < lo || args@.len() > hi) ==> (r matches Err(e) && e.span
                        == span && e.message@ == string_arity_message(method@))
                    &&& lo <= args@.len() <= hi ==> (r matches Ok(rt) ==> rt == t)
                    &&& lo <= args@.len() <= hi ==> (r matches Err(e) ==> Self::arg_error(
                        old(self).scopes@,
                        old(self).current_this_type,
                        args@,
                        e,
                    ))
                    &&& lo <= args@.len() <= hi && all_infallible(args@) ==> r == Ok::<
                        Type,
                        CompileError,
                    >(t)
                },
            },
        decreases args, 3nat,
    {
        if eq_str(method, "toUpperCase") || eq_str(method, "toLowerCase") || eq_str(method, "trim") {
            if args.len() != 0 {
                return Err(type_err(msg_name("'", method, "' takes no arguments"), span));
            }
            return Ok(Type::String);
        }
        if eq_str(method, "charAt") {
            self.check_n_args(args, 1, string_of("charAt expects 1 argument"), span)?;
            return Ok(Type::String);
        }
        if eq_str(method, "indexOf") {
            self.check_n_args(args, 1, string_of("indexOf expects 1 argument"), span)?;
            return Ok(Type::Number);
        }
        if eq_str(method, "includes") || eq_str(method, "startsWith") || eq_str(method, "endsWith") {
            self.check_n_args(args, 1, msg_name("", method, " expects 1 argument"), span)?;
            return Ok(Type::Boolean);
        }
        if eq_str(method, "repeat") {
            self.check_n_args(args, 1, string_of("repeat expects 1 argument"), span)?;
            return Ok(Type::String);
        }
        if eq_str(method, "split") {
            self.check_n_args(args, 1, string_of("split expects 1 argument"), span)?;
            return Ok(Type::Array(Box::new(Type::String)));
        }
        if eq_str(method, "replace") {
            self.check_n_args(args, 2, string_of("replace expects 2 arguments"), span)?;
            return Ok(Type::String);
        }
        if eq_str(method, "padStart") {
            self.check_n_args(args, 2, string_of("padStart expects 2 arguments"), span)?;
            return Ok(Type::String);
        }
        if eq_str(method, "substring") || eq_str(method, "slice") {
            if args.len() == 0 || args.len() > 2 {
                return Err(type_err(msg_name("", method, " expects 1 or 2 arguments"), span));
            }
            self.check_all(args)?;
            return Ok(Type::String);
        }
        Err(type_err(msg_name("Property '", method, "' does not exist on type 'string'"), span))
    }

    fn check_number_static_call(&mut self, method: &String, args: &Vec<Expr>, span: Span) -> (r:
        Result<Type, CompileError>)
        ensures
            Self::checked_expr(*old(self), *final(self), r),
            r matches Ok(t) ==> t is Boolean,
            ({
                let m = method@;
                if m == "isFinite"@ || m == "isInteger"@ || m == "isNaN"@ {
                    &&& args@.len() != 1 ==> (r matches Err(e) && e.span == span && e.message@
                        == "Number."@ + m + " expects 1 argument"@)
                    &&& args@.len() == 1 ==> (r matches Err(e) ==> Self::arg_error(
                        old(self).scopes@,
                        old(self).current_this_type,
                        args@,
                        e,
                    ))
                    &&& args@.len() == 1 && all_infallible(args@) ==> r == Ok::<Type, CompileError>(
                        Type::Boolean,
                    )
                } else {
                    r matches Err(e) && e.span == span && e.message@ == "'Number."@ + m
                        + "' is not a known Number method"@
                }
            }),
        decreases args, 3nat,
    {
        if eq_str(method, "isFinite") || eq_str(method, "isInteger") || eq_str(method, "isNaN") {
            self.check_n_args(args, 1, msg_name("Number.", method, " expects 1 argument"), span)?;
            return Ok(Type::Boolean);
        }
        Err(type_err(msg_name("'Number.", method, "' is not a known Number method"), span))
    }

    fn check_number_method_call(&mut self, method: &String, args: &Vec<Expr>, span: Span) -> (r:
        Result<Type, CompileError>)
        ensures
            Self::checked_expr(*old(self), *final(self), r),
            r matches Ok(t) ==> t is String,
            method@ == "toFixed"@ && args@.len() != 1 ==> (r matches Err(e) && e.span == span
                && e.message@ == "toFixed expects 1 argument"@),
            method@ == "toFixed"@ && args@.len() == 1 ==> (r matches Err(e) ==> Self::arg_error(
                old(self).scopes@,
                old(self).current_this_type,
                args@,
                e,
            )),
            method@ == "toFixed"@ && args@.len() == 1 && all_infallible(args@) ==> r == Ok::<
                Type,
                CompileError,
            >(Type::String),
            method@ != "toFixed"@ ==> (r matches Err(e) && e.span == span && e.message@ == "Property '"@
                + method@ + "' does not exist on type 'number'"@),
        decreases args, 3nat,
    {
        if eq_str(method, "toFixed") {
            self.check_n_args(args, 1, string_of("toFixed expects 1 argument"), span)?;
            return Ok(Type::String);
        }
        Err(type_err(msg_name("Property '", method, "' does not exist on type 'number'"), span))
    }

    #[verifier::loop_isolation(false)]
    fn check_array_method_call(
        &mut self,
        method: &String,
        args: &Vec<Expr>,
        elem_type: &Type,
        span: Span,
    ) -> (r: Result<Type, CompileError>)
        ensures
            Self::checked_expr(*old(self), *final(self), r),
            ({
                let m = method@;
                let n = args@.len();
                let scopes = old(self).scopes@;
                let this_type = old(self).current_this_type;
                if m == "push"@ {
                    &&& n != 1 ==> (r matches Err(e) && e.span == span && e.message@
                        == "push expects 1 argument, got "@ + decimal(n))
                    &&& n == 1 ==> (r matches Ok(t) ==> t is Number)
                    &&& n == 1 ==> (r matches Err(e) ==> Self::arg_error(scopes, this_type, args@, e))
                    &&& n == 1 && all_infallible(args@) ==> r == Ok::<Type, CompileError>(Type::Number)
                } else if m == "pop"@ {
                    &&& n != 0 ==> (r matches Err(e) && e.span == span && e.message@
                        == "pop takes no arguments"@)
                    &&& n == 0 ==> (r matches Ok(t) && type_eq(t, *elem_type))
                } else if m == "map"@ {
                    &&& n != 1 ==> (r matches Err(e) && e.span == span && e.message@
                        == "map expects 1 argument, got "@ + decimal(n))
                    &&& n == 1 ==> (r matches Ok(t) ==> t is Array)
                    &&& n == 1 ==> (r matches Err(e) ==> Self::arg_error(scopes, this_type, args@, e))
                    &&& n == 1 && all_infallible(args@) ==> r is Ok
                } else if m == "filter"@ {
                    &&& n != 1 ==> (r matches Err(e) && e.span == span && e.message@
                        == "filter expects 1 argument, got "@ + decimal(n))
                    &&& n == 1 ==> (r matches Ok(t) ==> (t matches Type::Array(el) && type_eq(
                        *el,
                        *elem_type,
                    )))
                    &&& n == 1 ==> (r matches Err(e) ==> Self::arg_error(scopes, this_type, args@, e))
                    &&& n == 1 && all_infallible(args@) ==> r is Ok
                } else if m == "reduce"@ {
                    &&& n != 2 ==> (r matches Err(e) && e.span == span && e.message@
                        == "reduce expects 2 arguments, got "@ + decimal(n))
                    &&& n == 2 ==> (r matches Ok(t) ==> Self::expr_outcome(
                        scopes,
                        this_type,
                        args@[1],
                        Ok::<Type, CompileError>(t),
                    ))
                    &&& n == 2 ==> (r matches Err(e) ==> Self::arg_error(scopes, this_type, args@, e))
                    &&& n == 2 && all_infallible(args@) ==> r is Ok
                } else if m == "forEach"@ {
                    &&& n != 1 ==> (r matches Err(e) && e.span == span && e.message@
                        == "forEach expects 1 argument, got "@ + decimal(n))
                    &&& n == 1 ==> (r matches Ok(t) ==> t is Void)
                    &&& n == 1 ==> (r matches Err(e) ==> Self::arg_error(scopes, this_type, args@, e))
                    &&& n == 1 && all_infallible(args@) ==> r == Ok::<Type, CompileError>(Type::Void)
                } else {
                    r matches Err(e) && e.span == span && e.message@ == "Property '"@ + m
                        + "' does not exist on type 'array'"@
                }
            }),
        decreases args, 3nat,
    {
        if eq_str(method, "push") {
            self.check_n_args(
                args,
                1,
                msg_count("push expects 1 argument, got ", args.len()),
                span,
            )?;
            // push returns the new length
            return Ok(Type::Number);
        }
        if eq_str(method, "pop") {
            if args.len() != 0 {
                return Err(type_err(string_of("pop takes no arguments"), span));
            }
            return Ok(elem_type.deep_copy());
        }
        if eq_str(method, "map") {
            if args.len() != 1 {
                return Err(type_err(msg_count("map expects 1 argument, got ", args.len()), span));
            }
            assert(decreases_to!(args => args@[0]));
            let cb_type = match self.check_expr(&args[0]) {
                Ok(t) => t,
                Err(e) => {
                    proof {
                        assert(Self::expr_outcome(
                            old(self).scopes@,
                            old(self).current_this_type,
                            args@[0],
                            Err::<Type, CompileError>(e),
                        ));
                        if infallible_expr(args@[0]) {
                            Self::lemma_infallible_expr(
                                old(self).scopes@,
                                old(self).current_this_type,
                                args@[0],
                                e,
                            );
                        }
                    }
                    return Err(e);
                },
            };
            return match &cb_type {
                Type::Function { return_type, .. } => Ok(Type::Array(Box::new(return_type.deep_copy()))),
                _ => Ok(Type::Array(Box::new(elem_type.deep_copy()))),
            };
        }
        if eq_str(method, "filter") {
            self.check_n_args(
                args,
                1,
                msg_count("filter expects 1 argument, got ", args.len()),
                span,
            )?;
            return Ok(Type::Array(Box::new(elem_type.deep_copy())));
        }
        if eq_str(method, "reduce") {
            if args.len() != 2 {
                return Err(type_err(msg_count("reduce expects 2 arguments, got ", args.len()), span));
            }
            assert(decreases_to!(args => args@[0]));
            assert(decreases_to!(args => args@[1]));
            match self.check_expr(&args[0]) {
                Ok(_) => {},
                Err(e) => {
                    proof {
                        assert(Self::expr_outcome(
                            old(self).scopes@,
                            old(self).current_this_type,
                            args@[0],
                            Err::<Type, CompileError>(e),
                        ));
                        if infallible_expr(args@[0]) {
                            Self::lemma_infallible_expr(
                                old(self).scopes@,
                                old(self).current_this_type,
                                args@[0],
                                e,
                            );
                        }
                    }
                    return Err(e);
                },
            }
            let init_type = match self.check_expr(&args[1]) {
                Ok(t) => t,
                Err(e) => {
                    proof {
                        assert(Self::expr_outcome(
                            old(self).scopes@,
                            old(self).current_this_type,
                            args@[1],
                            Err::<Type, CompileError>(e),
                        ));
                        if infallible_expr(args@[1]) {
                            Self::lemma_infallible_expr(
                                old(self).scopes@,
                                old(self).current_this_type,
                                args@[1],
                                e,
                            );
                        }
                    }
                    return Err(e);
                },
            };
            return Ok(init_type);
        }
        if eq_str(method, "forEach") {
            self.check_n_args(
                args,
                1,
                msg_count("forEach expects 1 argument, got ", args.len()),
                span,
            )?;
            return Ok(Type::Void);
        }
        Err(type_err(msg_name("Property '", method, "' does not exist on type 'array'"), span))
    }
}

} // verus!

verus! {

/// A variable is visible, with its constness, to the statement after its
/// declaration.
pub proof fn law_declaration_visible_after(
    this_type: Option<Type>,
    return_type: Option<Type>,
    stmts: Seq<Statement>,
    ss: Seq<Seq<Scope>>,
    r: Result<(), CompileError>,
    i: int,
)
    requires
        TypeChecker::run_of(this_type, return_type, stmts, ss, r),
        0 <= i < ss.len() - 1,
        ss[i].len() > 0,
        stmts[i].kind is VariableDecl,
    ensures
        bound_as(ss[i + 1], stmts[i].kind->VariableDecl_name@, stmts[i].kind->VariableDecl_is_const),
{
    assert(scopes_after(stmts[i], ss[i], ss[i + 1]));
}

/// A name keeps resolving as it did while the statements checked meanwhile
/// declare nothing of that name: from statement `i` to statement `j`.
pub proof fn law_binding_persists(
    this_type: Option<Type>,
    return_type: Option<Type>,
    stmts: Seq<Statement>,
    ss: Seq<Seq<Scope>>,
    r: Result<(), CompileError>,
    i: int,
    j: int,
    k: Seq<char>,
)
    requires
        TypeChecker::run_of(this_type, return_type, stmts, ss, r),
        0 <= i <= j < ss.len(),
        forall|m: int| i <= m < j ==> !declares(#[trigger] stmts[m], k),
    ensures
        lookup_in(ss[j], k) == lookup_in(ss[i], k),
    decreases j - i,
{
    if i < j {
        law_binding_persists(this_type, return_type, stmts, ss, r, i, j - 1, k);
        assert(scopes_after(stmts[j - 1], ss[j - 1], ss[j]));
    }
}

/// A block declares nothing where it stands: after a block that passes,
/// every name resolves as before it, so what the block bound is gone.
pub proof fn law_block_scoped(
    this_type: Option<Type>,
    return_type: Option<Type>,
    stmts: Seq<Statement>,
    ss: Seq<Seq<Scope>>,
    r: Result<(), CompileError>,
    i: int,
    k: Seq<char>,
)
    requires
        TypeChecker::run_of(this_type, return_type, stmts, ss, r),
        0 <= i < ss.len() - 1,
        stmts[i].kind is Block,
    ensures
        lookup_in(ss[i + 1], k) == lookup_in(ss[i], k),
{
    assert(scopes_after(stmts[i], ss[i], ss[i + 1]));
}

/// The statements of a block are checked from scopes where every name
/// outside it resolves as it does where the block stands.
pub proof fn law_block_sees_outer(
    scopes: Seq<Scope>,
    this_type: Option<Type>,
    return_type: Option<Type>,
    stmt: Statement,
    r: Result<(), CompileError>,
)
    requires
        stmt.kind is Block,
        TypeChecker::stmt_outcome(scopes, this_type, return_type, stmt, r),
    ensures
        exists|ss: Seq<Seq<Scope>>|
            #[trigger] TypeChecker::run_of(
                this_type,
                return_type,
                stmt.kind->Block_statements@,
                ss,
                unit_result(r),
            ) && forall|k: Seq<char>| #[trigger] lookup_in(ss[0], k) == lookup_in(scopes, k),
{
    let body = stmt.kind->Block_statements@;
    assert(TypeChecker::body_outcome(scopes, this_type, return_type, body, unit_result(r)));
    let ss = choose|ss: Seq<Seq<Scope>>|
        TypeChecker::run_of(this_type, return_type, body, ss, unit_result(r)) && #[trigger] new_frame(
            scopes,
            ss[0],
        );
    lemma_new_frame_lookup(scopes, ss[0]);
}

} // verus!
