//! Analyses of the syntax tree that code generation relies on: which
//! functions can run on machine integers, which names a closure refers to,
//! and the value kinds that variables are stored as.
use vstd::prelude::*;

use crate::parser::ast::{
    ArrowBody, BinOp, Expr, ExprKind, Parameter, Program, Statement, StmtKind, SwitchCase,
    TypeAnnKind, TypeAnnotation, UnaryOp,
};
use crate::parser::copy::copy_type_ann;
use crate::text::{decimal, eq_str, string_of, usize_to_string};

verus! {

broadcast use vstd::std_specs::vec::group_vec_axioms;

/// How a value is represented in generated code.
#[derive(Debug)]
pub enum VarType {
    Number,
    Integer,
    String,
    Boolean,
    Array,
    FunctionPtr { fn_name: String },
    /// A function value with the environment it captured
    Closure { fn_name: String, param_types: Vec<VarType>, return_type: Box<VarType> },
    /// Object or class instance with ordered fields
    Object { struct_type_name: String, fields: Vec<(String, VarType)> },
    /// Tagged union of the listed kinds
    Union(Vec<VarType>),
    /// Heterogeneous fixed-length tuple
    Tuple(Vec<VarType>),
    /// Array of strings
    StringArray,
}

// --- Integer narrowing analysis ---

/// The text of a numeric literal denotes a whole number: every digit after
/// the point, if any, is zero.
pub open spec fn whole_number_text(t: Seq<char>) -> bool {
    forall|i: int, j: int| #![trigger t[i], t[j]] 0 <= i < j < t.len() && t[i] == '.' ==> t[j] == '0'
}

/// `name` is one of `known`.
pub open spec fn has_name(known: Seq<String>, name: Seq<char>) -> bool {
    exists|i: int| 0 <= i < known.len() && #[trigger] known[i]@ == name
}

/// An expression can be evaluated on integers inside function `f`, given the
/// functions `known` to be integer-safe: whole literals, names, arithmetic
/// other than division and powers, and calls of `f` itself or of known
/// functions with integer-safe arguments.
pub open spec fn expr_int_safe(e: Expr, f: Seq<char>, known: Seq<String>) -> bool
    decreases e,
{
    match e.kind {
        ExprKind::NumberLiteral(n) => whole_number_text(n@),
        ExprKind::BooleanLiteral(_) => true,
        ExprKind::NullLiteral => true,
        ExprKind::UndefinedLiteral => true,
        ExprKind::Identifier(_) => true,
        ExprKind::Binary { left, op, right } => !(op is Divide || op is Power) && expr_int_safe(
            *left,
            f,
            known,
        ) && expr_int_safe(*right, f, known),
        ExprKind::Conditional { condition, consequent, alternate } => expr_int_safe(
            *condition,
            f,
            known,
        ) && expr_int_safe(*consequent, f, known) && expr_int_safe(*alternate, f, known),
        ExprKind::Unary { operand, .. } => expr_int_safe(*operand, f, known),
        ExprKind::Call { callee, args } => match callee.kind {
            ExprKind::Identifier(name) => (name@ == f || has_name(known, name@)) && exprs_int_safe(
                args@,
                f,
                known,
            ),
            _ => false,
        },
        ExprKind::Assignment { value, .. } => expr_int_safe(*value, f, known),
        ExprKind::Grouping { expr } => expr_int_safe(*expr, f, known),
        ExprKind::PostfixUpdate { .. } => true,
        ExprKind::PrefixUpdate { .. } => true,
        _ => false,
    }
}

/// The expressions `e` is directly built from: the operands of operators,
/// a callee and its arguments, the elements of an array literal and the
/// values of an object literal, an indexed value and its index, an assigned
/// value, a member's object, an expression-bodied closure's result, and the
/// inner expression of parentheses, spreads, updates, `await`, `as` and
/// `satisfies`.
pub open spec fn operands(e: Expr) -> Seq<Expr> {
    match e.kind {
        ExprKind::ArrayLiteral { elements } => elements@,
        ExprKind::ObjectLiteral { properties } => properties@.map_values(
            |p: crate::parser::ast::ObjectProperty| p.value,
        ),
        ExprKind::IndexAccess { object, index } => seq![*object, *index],
        ExprKind::Binary { left, right, .. } => seq![*left, *right],
        ExprKind::Unary { operand, .. } => seq![*operand],
        ExprKind::Typeof { operand } => seq![*operand],
        ExprKind::Await { expr } => seq![*expr],
        ExprKind::Call { callee, args } => seq![*callee] + args@,
        ExprKind::Member { object, .. } => seq![*object],
        ExprKind::OptionalMember { object, .. } => seq![*object],
        ExprKind::Spread { expr } => seq![*expr],
        ExprKind::Assignment { value, .. } => seq![*value],
        ExprKind::MemberAssignment { object, value, .. } => seq![*object, *value],
        ExprKind::ArrowFunction { body, .. } => match body {
            ArrowBody::Expr(b) => seq![*b],
            ArrowBody::Block(_) => Seq::empty(),
        },
        ExprKind::NewExpr { args, .. } => args@,
        ExprKind::Conditional { condition, consequent, alternate } => seq![
            *condition,
            *consequent,
            *alternate,
        ],
        ExprKind::Grouping { expr } => seq![*expr],
        ExprKind::PostfixUpdate { target, .. } => seq![*target],
        ExprKind::PrefixUpdate { target, .. } => seq![*target],
        ExprKind::TypeAssertion { expr, .. } => seq![*expr],
        ExprKind::Satisfies { expr, .. } => seq![*expr],
        _ => Seq::empty(),
    }
}

/// An expression is integer-safe only if every expression it is built from
/// is: one fractional literal, division or other non-integer value anywhere
/// among its operands (a conditional's alternate as much as its consequent)
/// makes the whole unsafe. Increments and decrements are the exception: they
/// step by whole numbers whatever they update.
pub proof fn law_int_safe_needs_safe_operands(e: Expr, f: Seq<char>, known: Seq<String>, i: int)
    requires
        !(e.kind is PostfixUpdate || e.kind is PrefixUpdate),
        0 <= i < operands(e).len(),
        !expr_int_safe(operands(e)[i], f, known),
    ensures
        !expr_int_safe(e, f, known),
{
    if let ExprKind::Call { callee, args } = e.kind {
        lemma_exprs_all(args@, f, known);
        if i > 0 {
            assert(operands(e)[i] == args@[i - 1]);
        }
    }
}

/// Division and powers are never integer-safe, whatever their operands.
pub proof fn law_division_and_powers_unsafe(e: Expr, f: Seq<char>, known: Seq<String>)
    requires
        e.kind matches ExprKind::Binary { op, .. } && (op is Divide || op is Power),
    ensures
        !expr_int_safe(e, f, known),
{
}

/// Names, booleans, `null`, `undefined`, whole numeric literals and
/// increments or decrements are integer-safe; arithmetic other than
/// division and powers, negation and `!`, conditionals, assignments and
/// parentheses are integer-safe when everything they are built from is.
pub proof fn law_int_safe_builds(e: Expr, f: Seq<char>, known: Seq<String>)
    ensures
        e.kind is Identifier || e.kind is BooleanLiteral || e.kind is NullLiteral
            || e.kind is UndefinedLiteral || e.kind is PostfixUpdate || e.kind is PrefixUpdate
            ==> expr_int_safe(e, f, known),
        e.kind matches ExprKind::NumberLiteral(n) && whole_number_text(n@) ==> expr_int_safe(
            e,
            f,
            known,
        ),
        (e.kind is Binary && !(e.kind->Binary_op is Divide || e.kind->Binary_op is Power))
            || e.kind is Unary || e.kind is Conditional || e.kind is Assignment || e.kind is Grouping
            ==> ((forall|i: int| 0 <= i < operands(e).len() ==> #[trigger] expr_int_safe(
            operands(e)[i],
            f,
            known,
        )) ==> expr_int_safe(e, f, known)),
{
    if (e.kind is Binary && !(e.kind->Binary_op is Divide || e.kind->Binary_op is Power))
        || e.kind is Unary || e.kind is Conditional || e.kind is Assignment || e.kind is Grouping {
        if forall|i: int| 0 <= i < operands(e).len() ==> #[trigger] expr_int_safe(operands(e)[i], f, known) {
            match e.kind {
                ExprKind::Binary { left, right, .. } => {
                    assert(expr_int_safe(operands(e)[0], f, known));
                    assert(expr_int_safe(operands(e)[1], f, known));
                },
                ExprKind::Conditional { .. } => {
                    assert(expr_int_safe(operands(e)[0], f, known));
                    assert(expr_int_safe(operands(e)[1], f, known));
                    assert(expr_int_safe(operands(e)[2], f, known));
                },
                _ => {
                    assert(expr_int_safe(operands(e)[0], f, known));
                },
            }
        }
    }
}

/// A numeric literal whose text has a non-zero digit after the point is not
/// integer-safe.
pub proof fn law_fractional_literal_unsafe(e: Expr, f: Seq<char>, known: Seq<String>, i: int, j: int)
    requires
        e.kind matches ExprKind::NumberLiteral(n) && 0 <= i < j < n@.len() && n@[i] == '.' && n@[j]
            != '0',
    ensures
        !expr_int_safe(e, f, known),
{
    let n = e.kind->NumberLiteral_0@;
    assert(n[i] == '.' && n[j] != '0');
}

/// Every expression of a list is integer-safe.
pub open spec fn exprs_int_safe(es: Seq<Expr>, f: Seq<char>, known: Seq<String>) -> bool
    decreases es,
{
    if es.len() == 0 {
        true
    } else {
        expr_int_safe(es[0], f, known) && exprs_int_safe(es.subrange(1, es.len() as int), f, known)
    }
}

/// A statement keeps a function integer-safe: every expression it evaluates
/// is integer-safe, and it does not iterate with for-of or for-in (which
/// produce non-integers), throw, or catch. Declarations of other things and
/// jumps are harmless.
pub open spec fn stmt_int_safe(s: Statement, f: Seq<char>, known: Seq<String>) -> bool
    decreases s,
{
    match s.kind {
        StmtKind::VariableDecl { initializer, .. } => match initializer {
            Some(e) => expr_int_safe(e, f, known),
            None => true,
        },
        StmtKind::If { condition, then_branch, else_branch } => expr_int_safe(condition, f, known)
            && stmts_int_safe(then_branch@, f, known) && (match else_branch {
            Some(b) => stmts_int_safe(b@, f, known),
            None => true,
        }),
        StmtKind::While { condition, body } => expr_int_safe(condition, f, known) && stmts_int_safe(
            body@,
            f,
            known,
        ),
        StmtKind::DoWhile { body, condition } => expr_int_safe(condition, f, known)
            && stmts_int_safe(body@, f, known),
        StmtKind::For { init, condition, update, body } => (match init {
            Some(s0) => stmt_int_safe(*s0, f, known),
            None => true,
        }) && (match condition {
            Some(c) => expr_int_safe(c, f, known),
            None => true,
        }) && (match update {
            Some(u) => expr_int_safe(u, f, known),
            None => true,
        }) && stmts_int_safe(body@, f, known),
        StmtKind::Return { value } => match value {
            Some(e) => expr_int_safe(e, f, known),
            None => true,
        },
        StmtKind::Expression { expr } => expr_int_safe(expr, f, known),
        StmtKind::Block { statements } => stmts_int_safe(statements@, f, known),
        StmtKind::Switch { discriminant, cases } => expr_int_safe(discriminant, f, known)
            && cases_int_safe(cases@, f, known),
        StmtKind::ForOf { .. } => false,
        StmtKind::ForIn { .. } => false,
        StmtKind::Throw { .. } => false,
        StmtKind::TryCatch { .. } => false,
        StmtKind::ArrayDestructure { initializer, .. } => expr_int_safe(initializer, f, known),
        StmtKind::ObjectDestructure { initializer, .. } => expr_int_safe(initializer, f, known),
        _ => true,
    }
}

/// The expression an optional one holds, as a sequence of none or one.
pub open spec fn opt_seq(e: Option<Expr>) -> Seq<Expr> {
    match e {
        Some(x) => seq![x],
        None => Seq::empty(),
    }
}

/// The expressions a statement evaluates itself, outside the statements
/// nested in it: an initializer, an expression statement's expression, a
/// returned value, a condition, a `switch`'s discriminant, a `for` loop's
/// condition and update, and what a `for`-`of` loop iterates over.
pub open spec fn stmt_exprs(s: Statement) -> Seq<Expr> {
    match s.kind {
        StmtKind::VariableDecl { initializer, .. } => opt_seq(initializer),
        StmtKind::Expression { expr } => seq![expr],
        StmtKind::Return { value } => opt_seq(value),
        StmtKind::If { condition, .. } => seq![condition],
        StmtKind::While { condition, .. } => seq![condition],
        StmtKind::DoWhile { condition, .. } => seq![condition],
        StmtKind::Switch { discriminant, .. } => seq![discriminant],
        StmtKind::For { condition, update, .. } => opt_seq(condition) + opt_seq(update),
        StmtKind::ForOf { iterable, .. } => seq![iterable],
        StmtKind::ArrayDestructure { initializer, .. } => seq![initializer],
        StmtKind::ObjectDestructure { initializer, .. } => seq![initializer],
        _ => Seq::empty(),
    }
}

/// The statement an optional one holds, as a sequence of none or one.
pub open spec fn opt_stmt_seq(s: Option<Box<Statement>>) -> Seq<Statement> {
    match s {
        Some(x) => seq![*x],
        None => Seq::empty(),
    }
}

/// The statements nested directly in a statement: both branches of an
/// `if`, a loop's body (after a `for` loop's initial statement), and a
/// block's statements.
pub open spec fn stmt_parts(s: Statement) -> Seq<Statement> {
    match s.kind {
        StmtKind::If { then_branch, else_branch, .. } => then_branch@ + (match else_branch {
            Some(b) => b@,
            None => Seq::empty(),
        }),
        StmtKind::While { body, .. } => body@,
        StmtKind::DoWhile { body, .. } => body@,
        StmtKind::For { init, body, .. } => opt_stmt_seq(init) + body@,
        StmtKind::ForOf { body, .. } => body@,
        StmtKind::Block { statements } => statements@,
        _ => Seq::empty(),
    }
}

/// A statement keeps a function integer-safe only if every expression it
/// evaluates itself, and every statement nested in it, does.
pub proof fn law_stmt_int_safe_needs_safe_parts(s: Statement, f: Seq<char>, known: Seq<String>)
    requires
        stmt_int_safe(s, f, known),
    ensures
        forall|i: int| 0 <= i < stmt_exprs(s).len() ==> #[trigger] expr_int_safe(stmt_exprs(s)[i], f, known),
        forall|i: int| 0 <= i < stmt_parts(s).len() ==> #[trigger] stmt_int_safe(stmt_parts(s)[i], f, known),
{
    match s.kind {
        StmtKind::If { then_branch, else_branch, .. } => {
            lemma_stmts_all(then_branch@, f, known);
            if let Some(b) = else_branch {
                lemma_stmts_all(b@, f, known);
            }
            let ps = stmt_parts(s);
            assert forall|i: int| 0 <= i < ps.len() implies #[trigger] stmt_int_safe(ps[i], f, known) by {
                if i >= then_branch@.len() {
                    let b = else_branch->0;
                    assert(ps[i] == b@[i - then_branch@.len()]);
                } else {
                    assert(ps[i] == then_branch@[i]);
                }
            }
        },
        StmtKind::While { body, .. } => {
            lemma_stmts_all(body@, f, known);
        },
        StmtKind::DoWhile { body, .. } => {
            lemma_stmts_all(body@, f, known);
        },
        StmtKind::For { init, condition, update, body } => {
            lemma_stmts_all(body@, f, known);
            let ps = stmt_parts(s);
            let k: int = if init is Some { 1 } else { 0 };
            assert forall|i: int| 0 <= i < ps.len() implies #[trigger] stmt_int_safe(ps[i], f, known) by {
                if i >= k {
                    assert(ps[i] == body@[i - k]);
                }
            }
            let es = stmt_exprs(s);
            let c: int = if condition is Some { 1 } else { 0 };
            assert forall|i: int| 0 <= i < es.len() implies #[trigger] expr_int_safe(es[i], f, known) by {
                if i >= c {
                    assert(es[i] == update->0);
                } else {
                    assert(es[i] == condition->0);
                }
            }
        },
        StmtKind::Block { statements } => {
            lemma_stmts_all(statements@, f, known);
        },
        _ => {},
    }
}

/// Every statement of a list keeps the function integer-safe.
pub open spec fn stmts_int_safe(ss: Seq<Statement>, f: Seq<char>, known: Seq<String>) -> bool
    decreases ss,
{
    if ss.len() == 0 {
        true
    } else {
        stmt_int_safe(ss[0], f, known) && stmts_int_safe(ss.subrange(1, ss.len() as int), f, known)
    }
}

/// A switch case's test and body are integer-safe.
pub open spec fn case_int_safe(c: SwitchCase, f: Seq<char>, known: Seq<String>) -> bool
    decreases c,
{
    (match c.test {
        Some(t) => expr_int_safe(t, f, known),
        None => true,
    }) && stmts_int_safe(c.body@, f, known)
}

pub open spec fn cases_int_safe(cs: Seq<SwitchCase>, f: Seq<char>, known: Seq<String>) -> bool
    decreases cs,
{
    if cs.len() == 0 {
        true
    } else {
        case_int_safe(cs[0], f, known) && cases_int_safe(cs.subrange(1, cs.len() as int), f, known)
    }
}

/// A list is integer-safe exactly when each of its elements is.
proof fn lemma_exprs_all(es: Seq<Expr>, f: Seq<char>, known: Seq<String>)
    ensures
        exprs_int_safe(es, f, known) <==> forall|i: int|
            0 <= i < es.len() ==> #[trigger] expr_int_safe(es[i], f, known),
    decreases es.len(),
{
    if es.len() > 0 {
        let t = es.subrange(1, es.len() as int);
        assert(exprs_int_safe(es, f, known) == (expr_int_safe(es[0], f, known) && exprs_int_safe(t, f, known)));
        lemma_exprs_all(t, f, known);
        assert forall|i: int| 1 <= i < es.len() implies es[i] == t[i - 1] by {}
        if forall|i: int| 0 <= i < es.len() ==> #[trigger] expr_int_safe(es[i], f, known) {
            assert forall|i: int| 0 <= i < t.len() implies #[trigger] expr_int_safe(t[i], f, known) by {
                assert(t[i] == es[i + 1]);
            }
        }
    }
}

proof fn lemma_stmts_all(ss: Seq<Statement>, f: Seq<char>, known: Seq<String>)
    ensures
        stmts_int_safe(ss, f, known) <==> forall|i: int|
            0 <= i < ss.len() ==> #[trigger] stmt_int_safe(ss[i], f, known),
    decreases ss.len(),
{
    if ss.len() > 0 {
        let t = ss.subrange(1, ss.len() as int);
        assert(stmts_int_safe(ss, f, known) == (stmt_int_safe(ss[0], f, known) && stmts_int_safe(t, f, known)));
        lemma_stmts_all(t, f, known);
        assert forall|i: int| 1 <= i < ss.len() implies ss[i] == t[i - 1] by {}
        if forall|i: int| 0 <= i < ss.len() ==> #[trigger] stmt_int_safe(ss[i], f, known) {
            assert forall|i: int| 0 <= i < t.len() implies #[trigger] stmt_int_safe(t[i], f, known) by {
                assert(t[i] == ss[i + 1]);
            }
        }
    }
}

proof fn lemma_cases_all(cs: Seq<SwitchCase>, f: Seq<char>, known: Seq<String>)
    ensures
        cases_int_safe(cs, f, known) <==> forall|i: int|
            0 <= i < cs.len() ==> #[trigger] case_int_safe(cs[i], f, known),
    decreases cs.len(),
{
    if cs.len() > 0 {
        let t = cs.subrange(1, cs.len() as int);
        assert(cases_int_safe(cs, f, known) == (case_int_safe(cs[0], f, known) && cases_int_safe(t, f, known)));
        lemma_cases_all(t, f, known);
        assert forall|i: int| 1 <= i < cs.len() implies cs[i] == t[i - 1] by {}
        if forall|i: int| 0 <= i < cs.len() ==> #[trigger] case_int_safe(cs[i], f, known) {
            assert forall|i: int| 0 <= i < t.len() implies #[trigger] case_int_safe(t[i], f, known) by {
                assert(t[i] == cs[i + 1]);
            }
        }
    }
}

/// Every statement of a body keeps the function integer-safe.
pub open spec fn body_int_safe(body: Seq<Statement>, f: Seq<char>, known: Seq<String>) -> bool {
    stmts_int_safe(body, f, known)
}

/// The functions found integer-safe among the first statements of a program,
/// in order: a non-generic function whose body is integer-safe given the
/// functions found before it.
pub open spec fn int_functions(stmts: Seq<Statement>) -> Seq<String>
    decreases stmts.len(),
{
    if stmts.len() == 0 {
        Seq::empty()
    } else {
        let prev = int_functions(stmts.drop_last());
        match stmts.last().kind {
            StmtKind::FunctionDecl { name, type_params, body, .. } => if type_params@.len() == 0
                && body_int_safe(body@, name@, prev) {
                prev.push(name)
            } else {
                prev
            },
            _ => prev,
        }
    }
}

/// Whether a literal's text denotes a whole number.
fn is_whole_number(text: &String) -> (r: bool)
    ensures
        r == whole_number_text(text@),
{
    let s = text.as_str();
    let n = s.unicode_len();
    let mut seen_dot = false;
    let mut dot: usize = 0;
    let mut i: usize = 0;
    while i < n
        invariant
            n == s@.len(),
            s@ == text@,
            i <= n,
            seen_dot ==> dot < i && s@[dot as int] == '.',
            !seen_dot ==> forall|k: int| 0 <= k < i ==> s@[k] != '.',
            forall|a: int, b: int| #![trigger s@[a], s@[b]] 0 <= a < b < i && s@[a] == '.' ==> s@[b] == '0',
        decreases n - i,
    {
        let c = s.get_char(i);
        if seen_dot && c != '0' {
            assert(!whole_number_text(text@)) by {
                assert(text@[dot as int] == '.');
                assert(text@[i as int] != '0');
            }
            return false;
        }
        if c == '.' {
            if !seen_dot {
                dot = i;
            }
            seen_dot = true;
        }
        i = i + 1;
    }
    true
}

/// Whether `name` is one of `known`.
fn contains_name(known: &Vec<String>, name: &String) -> (r: bool)
    ensures
        r == has_name(known@, name@),
{
    let mut i: usize = 0;
    while i < known.len()
        invariant
            i <= known@.len(),
            forall|j: int| 0 <= j < i ==> known@[j]@ != name@,
        decreases known@.len() - i,
    {
        if eq_str(name, known[i].as_str()) {
            return true;
        }
        i = i + 1;
    }
    false
}

/// Whether an expression is integer-safe inside function `fn_name`.
#[verifier::loop_isolation(false)]
pub fn is_expr_integer_safe(expr: &Expr, fn_name: &String, known: &Vec<String>) -> (r: bool)
    ensures
        r == expr_int_safe(*expr, fn_name@, known@),
    decreases expr,
{
    match &expr.kind {
        ExprKind::NumberLiteral(n) => is_whole_number(n),
        ExprKind::BooleanLiteral(_)
        | ExprKind::NullLiteral
        | ExprKind::UndefinedLiteral
        | ExprKind::Identifier(_) => true,
        ExprKind::Binary { left, op, right } => {
            // Division and exponentiation can produce fractions
            if matches!(op, BinOp::Divide) || matches!(op, BinOp::Power) {
                return false;
            }
            is_expr_integer_safe(left, fn_name, known) && is_expr_integer_safe(
                right,
                fn_name,
                known,
            )
        },
        ExprKind::Conditional { condition, consequent, alternate } => {
            is_expr_integer_safe(condition, fn_name, known) && is_expr_integer_safe(
                consequent,
                fn_name,
                known,
            ) && is_expr_integer_safe(alternate, fn_name, known)
        },
        ExprKind::Unary { operand, .. } => is_expr_integer_safe(operand, fn_name, known),
        ExprKind::Call { callee, args } => match &callee.kind {
            // Calls of the function itself or of a known integer function
            ExprKind::Identifier(name) => {
                if !(eq_str(name, fn_name.as_str()) || contains_name(known, name)) {
                    return false;
                }
                let mut i: usize = 0;
                while i < args.len()
                    invariant
                        i <= args@.len(),
                        forall|j: int| 0 <= j < i ==> #[trigger] expr_int_safe(
                            args@[j],
                            fn_name@,
                            known@,
                        ),
                    decreases args@.len() - i,
                {
                    assert(decreases_to!(args => args@[i as int]));
                    if !is_expr_integer_safe(&args[i], fn_name, known) {
                        proof {
                            lemma_exprs_all(args@, fn_name@, known@);
                        }
                        return false;
                    }
                    i = i + 1;
                }
                proof {
                    lemma_exprs_all(args@, fn_name@, known@);
                }
                true
            },
            _ => false,
        },
        ExprKind::Assignment { value, .. } => is_expr_integer_safe(value, fn_name, known),
        ExprKind::Grouping { expr: inner } => is_expr_integer_safe(inner, fn_name, known),
        ExprKind::PostfixUpdate { .. } | ExprKind::PrefixUpdate { .. } => true,
        // String operations, member access, typeof, closures and the like
        _ => false,
    }
}

/// Whether every statement of a list is integer-safe inside `fn_name`.
pub fn is_function_integer_safe(fn_name: &String, body: &Vec<Statement>, known: &Vec<String>) -> (r:
    bool)
    ensures
        r == body_int_safe(body@, fn_name@, known@),
    decreases body,
{
    let mut i: usize = 0;
    while i < body.len()
        invariant
            i <= body@.len(),
            forall|j: int| 0 <= j < i ==> #[trigger] stmt_int_safe(body@[j], fn_name@, known@),
        decreases body@.len() - i,
    {
        assert(decreases_to!(body => body@[i as int]));
        if !is_stmt_integer_safe(&body[i], fn_name, known) {
            proof {
                lemma_stmts_all(body@, fn_name@, known@);
            }
            return false;
        }
        i = i + 1;
    }
    proof {
        lemma_stmts_all(body@, fn_name@, known@);
    }
    true
}

fn is_opt_expr_integer_safe(e: &Option<Expr>, fn_name: &String, known: &Vec<String>) -> (r: bool)
    ensures
        r == match *e {
            Some(x) => expr_int_safe(x, fn_name@, known@),
            None => true,
        },
    decreases e,
{
    match e {
        Some(x) => is_expr_integer_safe(x, fn_name, known),
        None => true,
    }
}

/// Whether a statement is integer-safe inside `fn_name`.
#[verifier::loop_isolation(false)]
pub fn is_stmt_integer_safe(stmt: &Statement, fn_name: &String, known: &Vec<String>) -> (r: bool)
    ensures
        r == stmt_int_safe(*stmt, fn_name@, known@),
    decreases stmt,
{
    match &stmt.kind {
        StmtKind::VariableDecl { initializer, .. } => is_opt_expr_integer_safe(
            initializer,
            fn_name,
            known,
        ),
        StmtKind::If { condition, then_branch, else_branch } => {
            is_expr_integer_safe(condition, fn_name, known) && is_function_integer_safe(
                fn_name,
                then_branch,
                known,
            ) && match else_branch {
                Some(b) => is_function_integer_safe(fn_name, b, known),
                None => true,
            }
        },
        StmtKind::While { condition, body } => {
            is_expr_integer_safe(condition, fn_name, known) && is_function_integer_safe(
                fn_name,
                body,
                known,
            )
        },
        StmtKind::DoWhile { body, condition } => {
            is_function_integer_safe(fn_name, body, known) && is_expr_integer_safe(
                condition,
                fn_name,
                known,
            )
        },
        StmtKind::For { init, condition, update, body } => {
            (match init {
                Some(s) => is_stmt_integer_safe(s, fn_name, known),
                None => true,
            }) && is_opt_expr_integer_safe(condition, fn_name, known) && is_opt_expr_integer_safe(
                update,
                fn_name,
                known,
            ) && is_function_integer_safe(fn_name, body, known)
        },
        StmtKind::Return { value } => is_opt_expr_integer_safe(value, fn_name, known),
        StmtKind::Expression { expr } => is_expr_integer_safe(expr, fn_name, known),
        StmtKind::Block { statements } => is_function_integer_safe(fn_name, statements, known),
        StmtKind::Switch { discriminant, cases } => {
            if !is_expr_integer_safe(discriminant, fn_name, known) {
                return false;
            }
            let mut c: usize = 0;
            while c < cases.len()
                invariant
                    c <= cases@.len(),
                    forall|j: int| 0 <= j < c ==> #[trigger] case_int_safe(
                        cases@[j],
                        fn_name@,
                        known@,
                    ),
                decreases cases@.len() - c,
            {
                assert(decreases_to!(cases => cases@[c as int]));
                let case = &cases[c];
                if !is_opt_expr_integer_safe(&case.test, fn_name, known)
                    || !is_function_integer_safe(fn_name, &case.body, known) {
                    assert(!case_int_safe(cases@[c as int], fn_name@, known@));
                    proof {
                        lemma_cases_all(cases@, fn_name@, known@);
                    }
                    return false;
                }
                assert(case_int_safe(cases@[c as int], fn_name@, known@));
                c = c + 1;
            }
            proof {
                lemma_cases_all(cases@, fn_name@, known@);
            }
            true
        },
        // for-of yields array elements and for-in string keys: not integers
        StmtKind::ForOf { .. } | StmtKind::ForIn { .. } => false,
        StmtKind::Throw { .. } | StmtKind::TryCatch { .. } => false,
        StmtKind::ArrayDestructure { initializer, .. } => is_expr_integer_safe(
            initializer,
            fn_name,
            known,
        ),
        StmtKind::ObjectDestructure { initializer, .. } => is_expr_integer_safe(
            initializer,
            fn_name,
            known,
        ),
        _ => true,
    }
}

/// The non-generic functions of a program, in order, whose bodies are
/// integer-safe given the ones found before them.
pub fn analyze_integer_functions(program: &Program) -> (r: Vec<String>)
    ensures
        r@ == int_functions(program.statements@),
{
    let stmts = &program.statements;
    let mut result: Vec<String> = Vec::new();
    let mut i: usize = 0;
    while i < stmts.len()
        invariant
            i <= stmts@.len(),
            result@ == int_functions(stmts@.take(i as int)),
        decreases stmts@.len() - i,
    {
        let ghost prev = int_functions(stmts@.take(i as int));
        assert(stmts@.take(i + 1).drop_last() =~= stmts@.take(i as int));
        assert(stmts@.take(i + 1).last() == stmts@[i as int]);
        if let StmtKind::FunctionDecl { name, type_params, body, .. } = &stmts[i].kind {
            // Generic functions are specialized per use: not analyzed
            if type_params.len() == 0 {
                if is_function_integer_safe(name, body, &result) {
                    result.push(name.clone());
                }
            }
        }
        i = i + 1;
    }
    assert(stmts@.take(stmts@.len() as int) =~= stmts@);
    result
}

// --- Names a closure refers to ---

/// An expression refers to the name `n`: as a variable read, assigned or
/// updated, anywhere inside it (closure bodies included).
pub open spec fn expr_mentions(e: Expr, n: Seq<char>) -> bool
    decreases e,
{
    match e.kind {
        ExprKind::Identifier(name) => name@ == n,
        ExprKind::Binary { left, right, .. } => expr_mentions(*left, n) || expr_mentions(*right, n),
        ExprKind::Unary { operand, .. } => expr_mentions(*operand, n),
        ExprKind::Typeof { operand } => expr_mentions(*operand, n),
        ExprKind::Call { callee, args } => expr_mentions(*callee, n) || exprs_mention(args@, n),
        ExprKind::Member { object, .. } => expr_mentions(*object, n),
        ExprKind::OptionalMember { object, .. } => expr_mentions(*object, n),
        ExprKind::Spread { expr } => expr_mentions(*expr, n),
        ExprKind::Assignment { name, value } => name@ == n || expr_mentions(*value, n),
        ExprKind::MemberAssignment { object, value, .. } => expr_mentions(*object, n)
            || expr_mentions(*value, n),
        ExprKind::PostfixUpdate { target, .. } => expr_mentions(*target, n),
        ExprKind::PrefixUpdate { target, .. } => expr_mentions(*target, n),
        ExprKind::Conditional { condition, consequent, alternate } => expr_mentions(*condition, n)
            || expr_mentions(*consequent, n) || expr_mentions(*alternate, n),
        ExprKind::ArrowFunction { body, .. } => match body {
            ArrowBody::Expr(b) => expr_mentions(*b, n),
            ArrowBody::Block(stmts) => stmts_mention(stmts@, n),
        },
        ExprKind::ObjectLiteral { properties } => props_mention(properties@, n),
        ExprKind::ArrayLiteral { elements } => exprs_mention(elements@, n),
        ExprKind::IndexAccess { object, index } => expr_mentions(*object, n) || expr_mentions(
            *index,
            n,
        ),
        ExprKind::NewExpr { args, .. } => exprs_mention(args@, n),
        ExprKind::Grouping { expr } => expr_mentions(*expr, n),
        _ => false,
    }
}

/// Every name a closure body's expression is built from is one it refers
/// to: a name read is referred to, and a name that any operand refers to
/// (an index as much as the indexed value) is referred to by the whole,
/// except under `await`, `as` and `satisfies`, which are not looked into.
pub proof fn law_mentions_reach_operands(e: Expr, n: Seq<char>, i: int)
    requires
        !(e.kind is Await || e.kind is TypeAssertion || e.kind is Satisfies),
        0 <= i < operands(e).len(),
        expr_mentions(operands(e)[i], n),
    ensures
        expr_mentions(e, n),
{
    match e.kind {
        ExprKind::Call { callee, args } => {
            lemma_exprs_mention(args@, n);
            if i > 0 {
                assert(operands(e)[i] == args@[i - 1]);
            }
        },
        ExprKind::ArrayLiteral { elements } => {
            lemma_exprs_mention(elements@, n);
        },
        ExprKind::NewExpr { args, .. } => {
            lemma_exprs_mention(args@, n);
        },
        ExprKind::ObjectLiteral { properties } => {
            lemma_props_mention(properties@, n);
            assert(expr_mentions(properties@[i].value, n));
        },
        _ => {},
    }
}

/// An expression refers to a name only where it occurs: as the name it
/// reads or assigns, or inside an expression it is built from, or inside the
/// body of a closure.
pub proof fn law_mentions_only_occurrences(e: Expr, n: Seq<char>)
    requires
        expr_mentions(e, n),
    ensures
        (e.kind matches ExprKind::Identifier(x) && x@ == n) || (e.kind matches ExprKind::Assignment {
            name,
            ..
        } && name@ == n) || (exists|i: int| 0 <= i < operands(e).len() && #[trigger] expr_mentions(operands(e)[i], n))
            || (e.kind matches ExprKind::ArrowFunction { body: ArrowBody::Block(b), .. } && stmts_mention(
            b@,
            n,
        )),
{
    match e.kind {
        ExprKind::Call { callee, args } => {
            lemma_exprs_mention(args@, n);
            if !expr_mentions(*callee, n) {
                let i = choose|i: int| 0 <= i < args@.len() && #[trigger] expr_mentions(args@[i], n);
                assert(operands(e)[i + 1] == args@[i]);
                assert(expr_mentions(operands(e)[i + 1], n));
            } else {
                assert(operands(e)[0] == *callee);
                assert(expr_mentions(operands(e)[0], n));
            }
        },
        ExprKind::ArrayLiteral { elements } => {
            lemma_exprs_mention(elements@, n);
            let i = choose|i: int| 0 <= i < elements@.len() && #[trigger] expr_mentions(elements@[i], n);
            assert(expr_mentions(operands(e)[i], n));
        },
        ExprKind::NewExpr { args, .. } => {
            lemma_exprs_mention(args@, n);
            let i = choose|i: int| 0 <= i < args@.len() && #[trigger] expr_mentions(args@[i], n);
            assert(expr_mentions(operands(e)[i], n));
        },
        ExprKind::ObjectLiteral { properties } => {
            lemma_props_mention(properties@, n);
            let i = choose|i: int| 0 <= i < properties@.len() && #[trigger] expr_mentions(properties@[i].value, n);
            assert(operands(e)[i] == properties@[i].value);
            assert(expr_mentions(operands(e)[i], n));
        },
        ExprKind::Binary { left, right, .. } => {
            if expr_mentions(*left, n) {
                assert(operands(e)[0] == *left);
                assert(expr_mentions(operands(e)[0], n));
            } else {
                assert(operands(e)[1] == *right);
                assert(expr_mentions(operands(e)[1], n));
            }
        },
        ExprKind::MemberAssignment { object, value, .. } => {
            if expr_mentions(*object, n) {
                assert(operands(e)[0] == *object);
                assert(expr_mentions(operands(e)[0], n));
            } else {
                assert(operands(e)[1] == *value);
                assert(expr_mentions(operands(e)[1], n));
            }
        },
        ExprKind::IndexAccess { object, index } => {
            if expr_mentions(*object, n) {
                assert(operands(e)[0] == *object);
                assert(expr_mentions(operands(e)[0], n));
            } else {
                assert(operands(e)[1] == *index);
                assert(expr_mentions(operands(e)[1], n));
            }
        },
        ExprKind::Conditional { condition, consequent, alternate } => {
            if expr_mentions(*condition, n) {
                assert(operands(e)[0] == *condition);
                assert(expr_mentions(operands(e)[0], n));
            } else if expr_mentions(*consequent, n) {
                assert(operands(e)[1] == *consequent);
                assert(expr_mentions(operands(e)[1], n));
            } else {
                assert(operands(e)[2] == *alternate);
                assert(expr_mentions(operands(e)[2], n));
            }
        },
        ExprKind::Assignment { name, value } => {
            assert(operands(e).len() == 1 && operands(e)[0] == *value);
            if name@ != n {
                assert(expr_mentions(operands(e)[0], n));
            }
        },
        ExprKind::ArrowFunction { body, .. } => {
            if let ArrowBody::Expr(b) = body {
                assert(operands(e)[0] == *b);
                assert(expr_mentions(operands(e)[0], n));
                assert(expr_mentions(operands(e)[0], n));
            }
        },
        _ => {
            if operands(e).len() == 1 {
                assert(expr_mentions(operands(e)[0], n));
            }
        },
    }
}

/// A name read refers to itself.
pub proof fn law_name_mentions_itself(e: Expr)
    requires
        e.kind is Identifier,
    ensures
        expr_mentions(e, e.kind->Identifier_0@),
{
}

pub open spec fn exprs_mention(es: Seq<Expr>, n: Seq<char>) -> bool
    decreases es,
{
    if es.len() == 0 {
        false
    } else {
        expr_mentions(es[0], n) || exprs_mention(es.subrange(1, es.len() as int), n)
    }
}

/// The property values of an object literal refer to `n`.
pub open spec fn props_mention(ps: Seq<crate::parser::ast::ObjectProperty>, n: Seq<char>) -> bool
    decreases ps,
{
    if ps.len() == 0 {
        false
    } else {
        expr_mentions(ps[0].value, n) || props_mention(ps.subrange(1, ps.len() as int), n)
    }
}

pub open spec fn opt_expr_mentions(e: Option<Expr>, n: Seq<char>) -> bool
    decreases e,
{
    match e {
        Some(x) => expr_mentions(x, n),
        None => false,
    }
}

/// A statement refers to `n` in the expressions and bodies it holds
/// (declarations of functions, classes and types are not looked into).
pub open spec fn stmt_mentions(s: Statement, n: Seq<char>) -> bool
    decreases s,
{
    match s.kind {
        StmtKind::VariableDecl { initializer, .. } => opt_expr_mentions(initializer, n),
        StmtKind::Expression { expr } => expr_mentions(expr, n),
        StmtKind::Return { value } => opt_expr_mentions(value, n),
        StmtKind::If { condition, then_branch, else_branch } => expr_mentions(condition, n)
            || stmts_mention(then_branch@, n) || (match else_branch {
            Some(b) => stmts_mention(b@, n),
            None => false,
        }),
        StmtKind::While { condition, body } => expr_mentions(condition, n) || stmts_mention(
            body@,
            n,
        ),
        StmtKind::DoWhile { body, condition } => stmts_mention(body@, n) || expr_mentions(
            condition,
            n,
        ),
        StmtKind::Switch { discriminant, cases } => expr_mentions(discriminant, n)
            || cases_mention(cases@, n),
        StmtKind::For { init, condition, update, body } => (match init {
            Some(s0) => stmt_mentions(*s0, n),
            None => false,
        }) || opt_expr_mentions(condition, n) || opt_expr_mentions(update, n) || stmts_mention(
            body@,
            n,
        ),
        StmtKind::ForOf { iterable, body, .. } => expr_mentions(iterable, n) || stmts_mention(
            body@,
            n,
        ),
        StmtKind::ArrayDestructure { initializer, .. } => expr_mentions(initializer, n),
        StmtKind::ObjectDestructure { initializer, .. } => expr_mentions(initializer, n),
        StmtKind::Block { statements } => stmts_mention(statements@, n),
        _ => false,
    }
}

/// A statement refers to every name that an expression it evaluates
/// itself, or a statement nested in it, refers to.
pub proof fn law_stmt_mentions_reach_parts(s: Statement, n: Seq<char>)
    ensures
        (exists|i: int| 0 <= i < stmt_exprs(s).len() && #[trigger] expr_mentions(stmt_exprs(s)[i], n))
            ==> stmt_mentions(s, n),
        (exists|i: int| 0 <= i < stmt_parts(s).len() && #[trigger] stmt_mentions(stmt_parts(s)[i], n))
            ==> stmt_mentions(s, n),
{
    if exists|i: int| 0 <= i < stmt_exprs(s).len() && #[trigger] expr_mentions(stmt_exprs(s)[i], n) {
        let i = choose|i: int| 0 <= i < stmt_exprs(s).len() && #[trigger] expr_mentions(
            stmt_exprs(s)[i],
            n,
        );
        match s.kind {
            StmtKind::VariableDecl { initializer, .. } => {
                assert(initializer == Some(stmt_exprs(s)[i]));
                assert(opt_expr_mentions(initializer, n));
            },
            StmtKind::Return { value } => {
                assert(value == Some(stmt_exprs(s)[i]));
                assert(opt_expr_mentions(value, n));
            },
            StmtKind::Expression { expr } => {
                assert(stmt_exprs(s)[i] == expr);
                assert(stmt_mentions(s, n));
            },
            StmtKind::While { condition, .. } => {
                assert(stmt_exprs(s)[i] == condition);
                assert(stmt_mentions(s, n));
            },
            StmtKind::DoWhile { condition, .. } => {
                assert(stmt_exprs(s)[i] == condition);
                assert(stmt_mentions(s, n));
            },
            StmtKind::Switch { discriminant, .. } => {
                assert(stmt_exprs(s)[i] == discriminant);
                assert(stmt_mentions(s, n));
            },
            StmtKind::ForOf { iterable, .. } => {
                assert(stmt_exprs(s)[i] == iterable);
                assert(stmt_mentions(s, n));
            },
            StmtKind::ArrayDestructure { initializer, .. } => {
                assert(stmt_exprs(s)[i] == initializer);
                assert(stmt_mentions(s, n));
            },
            StmtKind::ObjectDestructure { initializer, .. } => {
                assert(stmt_exprs(s)[i] == initializer);
                assert(stmt_mentions(s, n));
            },
            StmtKind::If { condition, .. } => {
                assert(stmt_exprs(s)[i] == condition);
                assert(stmt_mentions(s, n));
            },
            StmtKind::For { condition, update, .. } => {
                if condition is Some && i == 0 {
                    assert(stmt_exprs(s)[i] == condition->0);
                    assert(opt_expr_mentions(condition, n));
                } else {
                    assert(stmt_exprs(s)[i] == update->0);
                    assert(opt_expr_mentions(update, n));
                }
            },
            _ => {},
        }
        assert(stmt_mentions(s, n));
    }
    match s.kind {
        StmtKind::If { then_branch, else_branch, .. } => {
            lemma_stmts_mention(then_branch@, n);
            if let Some(b) = else_branch {
                lemma_stmts_mention(b@, n);
            }
            let ps = stmt_parts(s);
            if exists|i: int| 0 <= i < ps.len() && #[trigger] stmt_mentions(ps[i], n) {
                let i = choose|i: int| 0 <= i < ps.len() && #[trigger] stmt_mentions(ps[i], n);
                if i >= then_branch@.len() {
                    let b = else_branch->0;
                    assert(ps[i] == b@[i - then_branch@.len()]);
                } else {
                    assert(ps[i] == then_branch@[i]);
                }
            }
        },
        StmtKind::While { body, .. } => {
            lemma_stmts_mention(body@, n);
        },
        StmtKind::DoWhile { body, .. } => {
            lemma_stmts_mention(body@, n);
        },
        StmtKind::ForOf { body, .. } => {
            lemma_stmts_mention(body@, n);
        },
        StmtKind::For { init, condition, update, body } => {
            lemma_stmts_mention(body@, n);
            let ps = stmt_parts(s);
            let k: int = if init is Some { 1 } else { 0 };
            if exists|i: int| 0 <= i < ps.len() && #[trigger] stmt_mentions(ps[i], n) {
                let i = choose|i: int| 0 <= i < ps.len() && #[trigger] stmt_mentions(ps[i], n);
                if i >= k {
                    assert(ps[i] == body@[i - k]);
                }
            }
            let es = stmt_exprs(s);
            let c: int = if condition is Some { 1 } else { 0 };
            if exists|i: int| 0 <= i < es.len() && #[trigger] expr_mentions(es[i], n) {
                let i = choose|i: int| 0 <= i < es.len() && #[trigger] expr_mentions(es[i], n);
                if i >= c {
                    assert(es[i] == update->0);
                } else {
                    assert(es[i] == condition->0);
                }
            }
        },
        StmtKind::Block { statements } => {
            lemma_stmts_mention(statements@, n);
        },
        _ => {},
    }
}

pub open spec fn stmts_mention(ss: Seq<Statement>, n: Seq<char>) -> bool
    decreases ss,
{
    if ss.len() == 0 {
        false
    } else {
        stmt_mentions(ss[0], n) || stmts_mention(ss.subrange(1, ss.len() as int), n)
    }
}

pub open spec fn case_mentions(c: SwitchCase, n: Seq<char>) -> bool
    decreases c,
{
    opt_expr_mentions(c.test, n) || stmts_mention(c.body@, n)
}

pub open spec fn cases_mention(cs: Seq<SwitchCase>, n: Seq<char>) -> bool
    decreases cs,
{
    if cs.len() == 0 {
        false
    } else {
        case_mentions(cs[0], n) || cases_mention(cs.subrange(1, cs.len() as int), n)
    }
}

proof fn lemma_exprs_mention(es: Seq<Expr>, n: Seq<char>)
    ensures
        exprs_mention(es, n) <==> exists|i: int| 0 <= i < es.len() && #[trigger] expr_mentions(es[i], n),
    decreases es.len(),
{
    if es.len() > 0 {
        let t = es.subrange(1, es.len() as int);
        assert(exprs_mention(es, n) == (expr_mentions(es[0], n) || exprs_mention(t, n)));
        lemma_exprs_mention(t, n);
        if exists|i: int| 0 <= i < t.len() && #[trigger] expr_mentions(t[i], n) {
            let i = choose|i: int| 0 <= i < t.len() && #[trigger] expr_mentions(t[i], n);
            assert(es[i + 1] == t[i]);
        }
        if exists|i: int| 0 <= i < es.len() && #[trigger] expr_mentions(es[i], n) {
            let i = choose|i: int| 0 <= i < es.len() && #[trigger] expr_mentions(es[i], n);
            if i > 0 {
                assert(t[i - 1] == es[i]);
            }
        }
    }
}

proof fn lemma_props_mention(ps: Seq<crate::parser::ast::ObjectProperty>, n: Seq<char>)
    ensures
        props_mention(ps, n) <==> exists|i: int| 0 <= i < ps.len() && #[trigger] expr_mentions(ps[i].value, n),
    decreases ps.len(),
{
    if ps.len() > 0 {
        let t = ps.subrange(1, ps.len() as int);
        assert(props_mention(ps, n) == (expr_mentions(ps[0].value, n) || props_mention(t, n)));
        lemma_props_mention(t, n);
        if exists|i: int| 0 <= i < t.len() && #[trigger] expr_mentions(t[i].value, n) {
            let i = choose|i: int| 0 <= i < t.len() && #[trigger] expr_mentions(t[i].value, n);
            assert(ps[i + 1] == t[i]);
        }
        if exists|i: int| 0 <= i < ps.len() && #[trigger] expr_mentions(ps[i].value, n) {
            let i = choose|i: int| 0 <= i < ps.len() && #[trigger] expr_mentions(ps[i].value, n);
            if i > 0 {
                assert(t[i - 1] == ps[i]);
            }
        }
    }
}

proof fn lemma_stmts_mention(ss: Seq<Statement>, n: Seq<char>)
    ensures
        stmts_mention(ss, n) <==> exists|i: int| 0 <= i < ss.len() && #[trigger] stmt_mentions(ss[i], n),
    decreases ss.len(),
{
    if ss.len() > 0 {
        let t = ss.subrange(1, ss.len() as int);
        assert(stmts_mention(ss, n) == (stmt_mentions(ss[0], n) || stmts_mention(t, n)));
        lemma_stmts_mention(t, n);
        if exists|i: int| 0 <= i < t.len() && #[trigger] stmt_mentions(t[i], n) {
            let i = choose|i: int| 0 <= i < t.len() && #[trigger] stmt_mentions(t[i], n);
            assert(ss[i + 1] == t[i]);
        }
        if exists|i: int| 0 <= i < ss.len() && #[trigger] stmt_mentions(ss[i], n) {
            let i = choose|i: int| 0 <= i < ss.len() && #[trigger] stmt_mentions(ss[i], n);
            if i > 0 {
                assert(t[i - 1] == ss[i]);
            }
        }
    }
}

proof fn lemma_cases_mention(cs: Seq<SwitchCase>, n: Seq<char>)
    ensures
        cases_mention(cs, n) <==> exists|i: int| 0 <= i < cs.len() && #[trigger] case_mentions(cs[i], n),
    decreases cs.len(),
{
    if cs.len() > 0 {
        let t = cs.subrange(1, cs.len() as int);
        assert(cases_mention(cs, n) == (case_mentions(cs[0], n) || cases_mention(t, n)));
        lemma_cases_mention(t, n);
        if exists|i: int| 0 <= i < t.len() && #[trigger] case_mentions(t[i], n) {
            let i = choose|i: int| 0 <= i < t.len() && #[trigger] case_mentions(t[i], n);
            assert(cs[i + 1] == t[i]);
        }
        if exists|i: int| 0 <= i < cs.len() && #[trigger] case_mentions(cs[i], n) {
            let i = choose|i: int| 0 <= i < cs.len() && #[trigger] case_mentions(cs[i], n);
            if i > 0 {
                assert(t[i - 1] == cs[i]);
            }
        }
    }
}

/// No name occurs twice.
pub open spec fn distinct_names(s: Seq<String>) -> bool {
    forall|i: int, j: int| 0 <= i < j < s.len() ==> #[trigger] s[i]@ != #[trigger] s[j]@
}

/// `new` holds the names of `old` and those `p` picks out, each once when `old` had no repeats.
pub open spec fn grows_by(old: Seq<String>, new: Seq<String>, p: spec_fn(Seq<char>) -> bool) -> bool {
    &&& forall|n: Seq<char>| #[trigger] has_name(new, n) <==> has_name(old, n) || p(n)
    &&& distinct_names(old) ==> distinct_names(new)
}

/// Adds a name unless it is already there.
fn add_name(out: &mut Vec<String>, name: &String)
    ensures
        grows_by(old(out)@, final(out)@, |n: Seq<char>| n == name@),
{
    if !contains_name(out, name) {
        out.push(name.clone());
        proof {
            assert forall|n: Seq<char>| #[trigger] has_name(out@, n) <==> has_name(old(out)@, n)
                || n == name@ by {
                if has_name(out@, n) {
                    let i = choose|i: int| 0 <= i < out@.len() && #[trigger] out@[i]@ == n;
                    if i < old(out)@.len() {
                        assert(old(out)@[i] == out@[i]);
                    }
                }
                if has_name(old(out)@, n) {
                    let i = choose|i: int| 0 <= i < old(out)@.len() && #[trigger] old(out)@[i]@ == n;
                    assert(old(out)@[i] == out@[i]);
                }
                if n == name@ {
                    assert(out@[old(out)@.len() as int]@ == n);
                }
            }
        }
    }
}

/// Adds the names the property values of an object literal refer to.
fn collect_idents_in_props(properties: &Vec<crate::parser::ast::ObjectProperty>, out: &mut Vec<String>)
    ensures
        forall|n: Seq<char>| #[trigger] has_name(final(out)@, n) <==> has_name(old(out)@, n)
            || props_mention(properties@, n),
        distinct_names(old(out)@) ==> distinct_names(final(out)@),
    decreases properties,
{
    let mut i: usize = 0;
    while i < properties.len()
        invariant
            i <= properties@.len(),
            forall|n: Seq<char>| #[trigger] has_name(out@, n) <==> has_name(old(out)@, n)
                || exists|j: int| 0 <= j < i && #[trigger] expr_mentions(properties@[j].value, n),
            distinct_names(old(out)@) ==> distinct_names(out@),
        decreases properties@.len() - i,
    {
        assert(decreases_to!(properties => properties@[i as int]));
        collect_idents_in_expr(&properties[i].value, out);
        proof {
            assert forall|n: Seq<char>| #[trigger] has_name(out@, n) <==> has_name(old(out)@, n)
                || exists|j: int| 0 <= j < i + 1 && #[trigger] expr_mentions(properties@[j].value, n) by {
                if expr_mentions(properties@[i as int].value, n) {
                    assert(exists|j: int| 0 <= j < i + 1 && #[trigger] expr_mentions(properties@[j].value, n));
                }
                if exists|j: int| 0 <= j < i + 1 && #[trigger] expr_mentions(properties@[j].value, n) {
                    let j = choose|j: int| 0 <= j < i + 1 && #[trigger] expr_mentions(properties@[j].value, n);
                    if j < i {
                        assert(exists|j2: int| 0 <= j2 < i && #[trigger] expr_mentions(properties@[j2].value, n));
                    }
                }
            }
        }
        i = i + 1;
    }
    proof {
        assert forall|n: Seq<char>| props_mention(properties@, n) <==> exists|j: int|
            0 <= j < properties@.len() && #[trigger] expr_mentions(properties@[j].value, n) by {
            lemma_props_mention(properties@, n);
        }
    }
}

/// Adds the names an expression refers to.
pub fn collect_idents_in_expr(expr: &Expr, out: &mut Vec<String>)
    ensures
        forall|n: Seq<char>| #[trigger] has_name(final(out)@, n) <==> has_name(old(out)@, n)
            || expr_mentions(*expr, n),
        distinct_names(old(out)@) ==> distinct_names(final(out)@),
    decreases expr,
{
    match &expr.kind {
        ExprKind::Identifier(name) => add_name(out, name),
        ExprKind::Binary { left, right, .. } => {
            collect_idents_in_expr(left, out);
            collect_idents_in_expr(right, out);
        },
        ExprKind::Unary { operand, .. } | ExprKind::Typeof { operand } => {
            collect_idents_in_expr(operand, out);
        },
        ExprKind::Call { callee, args } => {
            collect_idents_in_expr(callee, out);
            collect_idents_in_exprs(args, out);
        },
        ExprKind::Member { object, .. } | ExprKind::OptionalMember { object, .. } => {
            collect_idents_in_expr(object, out);
        },
        ExprKind::Spread { expr: inner } => collect_idents_in_expr(inner, out),
        ExprKind::Assignment { name, value } => {
            add_name(out, name);
            collect_idents_in_expr(value, out);
        },
        ExprKind::MemberAssignment { object, value, .. } => {
            collect_idents_in_expr(object, out);
            collect_idents_in_expr(value, out);
        },
        ExprKind::PostfixUpdate { target, .. } | ExprKind::PrefixUpdate { target, .. } => {
            collect_idents_in_expr(target, out);
        },
        ExprKind::Conditional { condition, consequent, alternate } => {
            collect_idents_in_expr(condition, out);
            collect_idents_in_expr(consequent, out);
            collect_idents_in_expr(alternate, out);
        },
        ExprKind::ArrowFunction { body, .. } => match body {
            ArrowBody::Expr(b) => collect_idents_in_expr(b, out),
            ArrowBody::Block(stmts) => collect_idents_in_stmts(stmts, out),
        },
        ExprKind::ObjectLiteral { properties } => collect_idents_in_props(properties, out),
        ExprKind::ArrayLiteral { elements } => collect_idents_in_exprs(elements, out),
        ExprKind::IndexAccess { object, index } => {
            collect_idents_in_expr(object, out);
            collect_idents_in_expr(index, out);
        },
        ExprKind::NewExpr { args, .. } => collect_idents_in_exprs(args, out),
        ExprKind::Grouping { expr: inner } => collect_idents_in_expr(inner, out),
        // Literals and `this` refer to no variable
        _ => {},
    }
}

/// Adds the names a list of expressions refers to.
pub fn collect_idents_in_exprs(es: &Vec<Expr>, out: &mut Vec<String>)
    ensures
        forall|n: Seq<char>| #[trigger] has_name(final(out)@, n) <==> has_name(old(out)@, n)
            || exprs_mention(es@, n),
        distinct_names(old(out)@) ==> distinct_names(final(out)@),
    decreases es,
{
    let mut i: usize = 0;
    while i < es.len()
        invariant
            i <= es@.len(),
            forall|n: Seq<char>| #[trigger] has_name(out@, n) <==> has_name(old(out)@, n)
                || exists|j: int| 0 <= j < i && #[trigger] expr_mentions(es@[j], n),
            distinct_names(old(out)@) ==> distinct_names(out@),
        decreases es@.len() - i,
    {
        assert(decreases_to!(es => es@[i as int]));
        collect_idents_in_expr(&es[i], out);
        proof {
            assert forall|n: Seq<char>| #[trigger] has_name(out@, n) <==> has_name(old(out)@, n)
                || exists|j: int| 0 <= j < i + 1 && #[trigger] expr_mentions(es@[j], n) by {
                if expr_mentions(es@[i as int], n) {
                    assert(exists|j: int| 0 <= j < i + 1 && #[trigger] expr_mentions(es@[j], n));
                }
                if exists|j: int| 0 <= j < i + 1 && #[trigger] expr_mentions(es@[j], n) {
                    let j = choose|j: int| 0 <= j < i + 1 && #[trigger] expr_mentions(es@[j], n);
                    if j < i {
                        assert(exists|j2: int| 0 <= j2 < i && #[trigger] expr_mentions(es@[j2], n));
                    }
                }
            }
        }
        i = i + 1;
    }
    proof {
        assert forall|n: Seq<char>| exprs_mention(es@, n) <==> exists|j: int|
            0 <= j < es@.len() && #[trigger] expr_mentions(es@[j], n) by {
            lemma_exprs_mention(es@, n);
        }
    }
}

fn collect_idents_in_opt(e: &Option<Expr>, out: &mut Vec<String>)
    ensures
        forall|n: Seq<char>| #[trigger] has_name(final(out)@, n) <==> has_name(old(out)@, n)
            || opt_expr_mentions(*e, n),
        distinct_names(old(out)@) ==> distinct_names(final(out)@),
    decreases e,
{
    if let Some(x) = e {
        collect_idents_in_expr(x, out);
    }
}

/// Adds the names a list of statements refers to.
pub fn collect_idents_in_stmts(stmts: &Vec<Statement>, out: &mut Vec<String>)
    ensures
        forall|n: Seq<char>| #[trigger] has_name(final(out)@, n) <==> has_name(old(out)@, n)
            || stmts_mention(stmts@, n),
        distinct_names(old(out)@) ==> distinct_names(final(out)@),
    decreases stmts,
{
    let mut i: usize = 0;
    while i < stmts.len()
        invariant
            i <= stmts@.len(),
            forall|n: Seq<char>| #[trigger] has_name(out@, n) <==> has_name(old(out)@, n)
                || exists|j: int| 0 <= j < i && #[trigger] stmt_mentions(stmts@[j], n),
            distinct_names(old(out)@) ==> distinct_names(out@),
        decreases stmts@.len() - i,
    {
        assert(decreases_to!(stmts => stmts@[i as int]));
        collect_idents_in_stmt(&stmts[i], out);
        proof {
            assert forall|n: Seq<char>| #[trigger] has_name(out@, n) <==> has_name(old(out)@, n)
                || exists|j: int| 0 <= j < i + 1 && #[trigger] stmt_mentions(stmts@[j], n) by {
                if stmt_mentions(stmts@[i as int], n) {
                    assert(exists|j: int| 0 <= j < i + 1 && #[trigger] stmt_mentions(stmts@[j], n));
                }
                if exists|j: int| 0 <= j < i + 1 && #[trigger] stmt_mentions(stmts@[j], n) {
                    let j = choose|j: int| 0 <= j < i + 1 && #[trigger] stmt_mentions(stmts@[j], n);
                    if j < i {
                        assert(exists|j2: int| 0 <= j2 < i && #[trigger] stmt_mentions(stmts@[j2], n));
                    }
                }
            }
        }
        i = i + 1;
    }
    proof {
        assert forall|n: Seq<char>| stmts_mention(stmts@, n) <==> exists|j: int|
            0 <= j < stmts@.len() && #[trigger] stmt_mentions(stmts@[j], n) by {
            lemma_stmts_mention(stmts@, n);
        }
    }
}

/// Adds the names the cases of a switch refer to.
fn collect_idents_in_cases(cases: &Vec<SwitchCase>, out: &mut Vec<String>)
    ensures
        forall|n: Seq<char>| #[trigger] has_name(final(out)@, n) <==> has_name(old(out)@, n)
            || cases_mention(cases@, n),
        distinct_names(old(out)@) ==> distinct_names(final(out)@),
    decreases cases,
{
    let mut i: usize = 0;
    while i < cases.len()
        invariant
            i <= cases@.len(),
            forall|n: Seq<char>| #[trigger] has_name(out@, n) <==> has_name(old(out)@, n)
                || exists|j: int| 0 <= j < i && #[trigger] case_mentions(cases@[j], n),
            distinct_names(old(out)@) ==> distinct_names(out@),
        decreases cases@.len() - i,
    {
        assert(decreases_to!(cases => cases@[i as int]));
        let case = &cases[i];
        collect_idents_in_opt(&case.test, out);
        collect_idents_in_stmts(&case.body, out);
        proof {
            assert forall|n: Seq<char>| #[trigger] has_name(out@, n) <==> has_name(old(out)@, n)
                || exists|j: int| 0 <= j < i + 1 && #[trigger] case_mentions(cases@[j], n) by {
                if case_mentions(cases@[i as int], n) {
                    assert(exists|j: int| 0 <= j < i + 1 && #[trigger] case_mentions(cases@[j], n));
                }
                if exists|j: int| 0 <= j < i + 1 && #[trigger] case_mentions(cases@[j], n) {
                    let j = choose|j: int| 0 <= j < i + 1 && #[trigger] case_mentions(cases@[j], n);
                    if j < i {
                        assert(exists|j2: int| 0 <= j2 < i && #[trigger] case_mentions(cases@[j2], n));
                    }
                }
            }
        }
        i = i + 1;
    }
    proof {
        assert forall|n: Seq<char>| cases_mention(cases@, n) <==> exists|j: int|
            0 <= j < cases@.len() && #[trigger] case_mentions(cases@[j], n) by {
            lemma_cases_mention(cases@, n);
        }
    }
}

/// Adds the names a statement refers to.
pub fn collect_idents_in_stmt(stmt: &Statement, out: &mut Vec<String>)
    ensures
        forall|n: Seq<char>| #[trigger] has_name(final(out)@, n) <==> has_name(old(out)@, n)
            || stmt_mentions(*stmt, n),
        distinct_names(old(out)@) ==> distinct_names(final(out)@),
    decreases stmt,
{
    match &stmt.kind {
        StmtKind::VariableDecl { initializer, .. } => collect_idents_in_opt(initializer, out),
        StmtKind::Expression { expr } => collect_idents_in_expr(expr, out),
        StmtKind::Return { value } => collect_idents_in_opt(value, out),
        StmtKind::If { condition, then_branch, else_branch } => {
            collect_idents_in_expr(condition, out);
            collect_idents_in_stmts(then_branch, out);
            if let Some(eb) = else_branch {
                collect_idents_in_stmts(eb, out);
            }
        },
        StmtKind::While { condition, body } => {
            collect_idents_in_expr(condition, out);
            collect_idents_in_stmts(body, out);
        },
        StmtKind::DoWhile { body, condition } => {
            collect_idents_in_stmts(body, out);
            collect_idents_in_expr(condition, out);
        },
        StmtKind::Switch { discriminant, cases } => {
            collect_idents_in_expr(discriminant, out);
            collect_idents_in_cases(cases, out);
        },
        StmtKind::For { init, condition, update, body } => {
            if let Some(s0) = init {
                collect_idents_in_stmt(s0, out);
            }
            collect_idents_in_opt(condition, out);
            collect_idents_in_opt(update, out);
            collect_idents_in_stmts(body, out);
        },
        StmtKind::ForOf { iterable, body, .. } => {
            collect_idents_in_expr(iterable, out);
            collect_idents_in_stmts(body, out);
        },
        StmtKind::ArrayDestructure { initializer, .. } => collect_idents_in_expr(initializer, out),
        StmtKind::ObjectDestructure { initializer, .. } => collect_idents_in_expr(initializer, out),
        StmtKind::Block { statements } => collect_idents_in_stmts(statements, out),
        _ => {},
    }
}

/// Some parameter has the name `n`.
pub open spec fn param_named(ps: Seq<Parameter>, n: Seq<char>) -> bool {
    exists|i: int| 0 <= i < ps.len() && #[trigger] ps[i].name@ == n
}

fn is_param(params: &Vec<Parameter>, name: &String) -> (r: bool)
    ensures
        r == param_named(params@, name@),
{
    let mut i: usize = 0;
    while i < params.len()
        invariant
            i <= params@.len(),
            forall|j: int| 0 <= j < i ==> params@[j].name@ != name@,
        decreases params@.len() - i,
    {
        if eq_str(name, params[i].name.as_str()) {
            return true;
        }
        i = i + 1;
    }
    false
}

/// The names a closure body refers to that are not its own parameters: the
/// variables it may capture from the scopes around it. Each name once.
#[verifier::loop_isolation(false)]
pub fn capture_candidates(body: &Vec<Statement>, params: &Vec<Parameter>) -> (r: Vec<String>)
    ensures
        forall|n: Seq<char>| #[trigger] has_name(r@, n) <==> stmts_mention(body@, n) && !param_named(
            params@,
            n,
        ),
        distinct_names(r@),
{
    let mut referenced: Vec<String> = Vec::new();
    collect_idents_in_stmts(body, &mut referenced);
    let mut out: Vec<String> = Vec::new();
    let mut i: usize = 0;
    while i < referenced.len()
        invariant
            i <= referenced@.len(),
            distinct_names(referenced@),
            distinct_names(out@),
            forall|n: Seq<char>| #[trigger] has_name(out@, n) <==> (exists|j: int|
                0 <= j < i && #[trigger] referenced@[j]@ == n) && !param_named(params@, n),
        decreases referenced@.len() - i,
    {
        let ghost before = out@;
        if !is_param(params, &referenced[i]) {
            proof {
                assert(!has_name(out@, referenced@[i as int]@));
            }
            out.push(referenced[i].clone());
        }
        proof {
            let cur = referenced@[i as int]@;
            assert forall|n: Seq<char>| #[trigger] has_name(out@, n) <==> (exists|j: int|
                0 <= j < i + 1 && #[trigger] referenced@[j]@ == n) && !param_named(params@, n) by {
                if has_name(out@, n) {
                    let k = choose|k: int| 0 <= k < out@.len() && #[trigger] out@[k]@ == n;
                    if k < before.len() {
                        assert(before[k] == out@[k]);
                        assert(has_name(before, n));
                    } else {
                        assert(n == cur);
                    }
                }
                if (exists|j: int| 0 <= j < i + 1 && #[trigger] referenced@[j]@ == n) && !param_named(params@, n) {
                    let j = choose|j: int| 0 <= j < i + 1 && #[trigger] referenced@[j]@ == n;
                    if j < i {
                        assert(has_name(before, n));
                        let k = choose|k: int| 0 <= k < before.len() && #[trigger] before[k]@ == n;
                        assert(out@[k] == before[k]);
                    } else {
                        assert(out@[out@.len() - 1]@ == n);
                    }
                }
            }
            assert forall|a: int, b: int| 0 <= a < b < out@.len() implies #[trigger] out@[a]@ != #[trigger] out@[b]@ by {
                if b == out@.len() - 1 && out@.len() > before.len() {
                    assert(out@[a] == before[a]);
                    assert(has_name(before, out@[a]@));
                } else {
                    assert(out@[a] == before[a]);
                    assert(out@[b] == before[b]);
                }
            }
        }
        i = i + 1;
    }
    proof {
        assert forall|n: Seq<char>| #[trigger] has_name(out@, n) <==> stmts_mention(body@, n)
            && !param_named(params@, n) by {
            assert(has_name(referenced@, n) == (exists|j: int|
                0 <= j < referenced@.len() && #[trigger] referenced@[j]@ == n));
            assert(!has_name(Seq::<String>::empty(), n));
        }
    }
    out
}

// --- Value kinds ---

/// The kind of value an expression yields, judged from its form alone:
/// comparisons and logic give booleans, `+` gives a string when either side
/// does, `??` gives its right side's kind, and everything else defaults to a number.
pub open spec fn inferred_kind(e: Expr) -> VarType
    decreases e,
{
    match e.kind {
        ExprKind::NumberLiteral(_) => VarType::Number,
        ExprKind::StringLiteral(_) => VarType::String,
        ExprKind::BooleanLiteral(_) => VarType::Boolean,
        ExprKind::Binary { op, left, right } => match op {
            BinOp::Less | BinOp::Greater | BinOp::LessEqual | BinOp::GreaterEqual | BinOp::Equal
            | BinOp::StrictEqual | BinOp::NotEqual | BinOp::StrictNotEqual | BinOp::And
            | BinOp::Or => VarType::Boolean,
            BinOp::Add => if inferred_kind(*left) is String || inferred_kind(*right) is String {
                VarType::String
            } else {
                VarType::Number
            },
            BinOp::NullishCoalescing => inferred_kind(*right),
            _ => VarType::Number,
        },
        ExprKind::Unary { op, .. } => match op {
            UnaryOp::Not => VarType::Boolean,
            UnaryOp::Negate => VarType::Number,
        },
        ExprKind::Conditional { consequent, .. } => inferred_kind(*consequent),
        ExprKind::Grouping { expr } => inferred_kind(*expr),
        _ => VarType::Number,
    }
}

/// The kind of value an expression yields, from its form alone (used for the
/// results of closures without a declared return type).
pub fn infer_expr_var_type(expr: &Expr) -> (r: VarType)
    ensures
        r == inferred_kind(*expr),
    decreases expr,
{
    match &expr.kind {
        ExprKind::NumberLiteral(_) => VarType::Number,
        ExprKind::StringLiteral(_) => VarType::String,
        ExprKind::BooleanLiteral(_) => VarType::Boolean,
        ExprKind::Binary { op, left, right } => match op {
            BinOp::Less
            | BinOp::Greater
            | BinOp::LessEqual
            | BinOp::GreaterEqual
            | BinOp::Equal
            | BinOp::StrictEqual
            | BinOp::NotEqual
            | BinOp::StrictNotEqual
            | BinOp::And
            | BinOp::Or => VarType::Boolean,
            BinOp::Add => {
                // A string on either side makes a string
                let l = infer_expr_var_type(left);
                let r = infer_expr_var_type(right);
                if matches!(l, VarType::String) || matches!(r, VarType::String) {
                    VarType::String
                } else {
                    VarType::Number
                }
            },
            BinOp::NullishCoalescing => infer_expr_var_type(right),
            _ => VarType::Number,
        },
        ExprKind::Unary { op, .. } => match op {
            UnaryOp::Not => VarType::Boolean,
            UnaryOp::Negate => VarType::Number,
        },
        ExprKind::Conditional { consequent, .. } => infer_expr_var_type(consequent),
        ExprKind::Grouping { expr: inner } => infer_expr_var_type(inner),
        // Names, calls and the rest default to numbers
        _ => VarType::Number,
    }
}

/// Two kinds are interchangeable: both numeric (float or integer), both
/// strings, both booleans, or both arrays.
pub open spec fn compatible(a: VarType, b: VarType) -> bool {
    ||| (a is Number || a is Integer) && (b is Number || b is Integer)
    ||| a is String && b is String
    ||| a is Boolean && b is Boolean
    ||| a is Array && b is Array
}

pub fn var_types_compatible(a: &VarType, b: &VarType) -> (r: bool)
    ensures
        r == compatible(*a, *b),
{
    match (a, b) {
        (VarType::Number, VarType::Number)
        | (VarType::Number, VarType::Integer)
        | (VarType::Integer, VarType::Number)
        | (VarType::Integer, VarType::Integer) => true,
        (VarType::String, VarType::String) => true,
        (VarType::Boolean, VarType::Boolean) => true,
        (VarType::Array, VarType::Array) => true,
        _ => false,
    }
}

/// Compatibility of kinds is symmetric.
pub proof fn law_compatible_symmetric(a: VarType, b: VarType)
    ensures
        compatible(a, b) == compatible(b, a),
{
}

/// The one-letter suffix of a kind in the names of specialized functions.
pub open spec fn suffix_of(vt: VarType) -> Seq<char> {
    match vt {
        VarType::Number => "n"@,
        VarType::Integer => "i"@,
        VarType::String => "s"@,
        VarType::Boolean => "b"@,
        VarType::Array | VarType::StringArray => "a"@,
        VarType::FunctionPtr { .. } | VarType::Closure { .. } => "f"@,
        VarType::Object { .. } => "o"@,
        VarType::Union(_) => "u"@,
        VarType::Tuple(_) => "t"@,
    }
}

pub fn var_type_suffix(vt: &VarType) -> (r: &'static str)
    ensures
        r@ == suffix_of(*vt),
{
    proof {
        reveal_strlit("n");
        reveal_strlit("i");
        reveal_strlit("s");
        reveal_strlit("b");
        reveal_strlit("a");
        reveal_strlit("f");
        reveal_strlit("o");
        reveal_strlit("u");
        reveal_strlit("t");
    }
    match vt {
        VarType::Number => "n",
        VarType::Integer => "i",
        VarType::String => "s",
        VarType::Boolean => "b",
        VarType::Array | VarType::StringArray => "a",
        VarType::FunctionPtr { .. } | VarType::Closure { .. } => "f",
        VarType::Object { .. } => "o",
        VarType::Union(_) => "u",
        VarType::Tuple(_) => "t",
    }
}

/// The run-time tag of a kind inside a union: 0 numbers, 1 strings, 2
/// booleans, 3 anything else.
pub open spec fn union_tag(vt: VarType) -> u8 {
    match vt {
        VarType::Number | VarType::Integer => 0,
        VarType::String => 1,
        VarType::Boolean => 2,
        _ => 3,
    }
}

pub fn union_tag_for_var_type(vt: &VarType) -> (r: u8)
    ensures
        r == union_tag(*vt),
{
    match vt {
        VarType::Number | VarType::Integer => 0,
        VarType::String => 1,
        VarType::Boolean => 2,
        _ => 3,
    }
}

/// The kind a `typeof` test string names; numbers for anything unknown.
pub open spec fn typeof_kind(s: Seq<char>) -> VarType {
    if s == "string"@ {
        VarType::String
    } else if s == "boolean"@ {
        VarType::Boolean
    } else {
        VarType::Number
    }
}

pub fn type_string_to_var_type(s: &String) -> (r: VarType)
    ensures
        r == typeof_kind(s@),
{
    proof {
        reveal_strlit("string");
        reveal_strlit("boolean");
    }
    if eq_str(s, "string") {
        VarType::String
    } else if eq_str(s, "boolean") {
        VarType::Boolean
    } else {
        VarType::Number
    }
}

// --- Kinds of annotated variables ---

/// `a` and `b` are the same kind: the same variant, names and element kinds.
pub open spec fn same_var_type(a: VarType, b: VarType) -> bool
    decreases a,
{
    match a {
        VarType::Closure { fn_name, param_types, return_type } => b matches VarType::Closure {
            fn_name: f2,
            param_types: p2,
            return_type: r2,
        } && fn_name == f2 && same_var_types(param_types@, p2@) && same_var_type(*return_type, *r2),
        VarType::Object { struct_type_name, fields } => b matches VarType::Object {
            struct_type_name: s2,
            fields: f2,
        } && struct_type_name == s2 && same_var_fields(fields@, f2@),
        VarType::Union(v) => b matches VarType::Union(w) && same_var_types(v@, w@),
        VarType::Tuple(v) => b matches VarType::Tuple(w) && same_var_types(v@, w@),
        _ => b == a,
    }
}

pub open spec fn same_var_types(a: Seq<VarType>, b: Seq<VarType>) -> bool
    decreases a,
{
    &&& a.len() == b.len()
    &&& forall|i: int| 0 <= i < a.len() ==> same_var_type(#[trigger] a[i], b[i])
}

pub open spec fn same_var_fields(a: Seq<(String, VarType)>, b: Seq<(String, VarType)>) -> bool
    decreases a,
{
    &&& a.len() == b.len()
    &&& forall|i: int| 0 <= i < a.len() ==> (#[trigger] a[i]).0 == b[i].0 && same_var_type(a[i].1, b[i].1)
}

/// A copy of a kind: the same kind.
pub fn copy_var_type(vt: &VarType) -> (r: VarType)
    ensures
        same_var_type(*vt, r),
        vt is Number ==> r == *vt,
        vt is Integer ==> r == *vt,
        vt is String ==> r == *vt,
        vt is Boolean ==> r == *vt,
        vt is Array ==> r == *vt,
        vt is StringArray ==> r == *vt,
        r is Object <==> vt is Object,
        r is Union <==> vt is Union,
        r is Tuple <==> vt is Tuple,
        r is Closure <==> vt is Closure,
        r is FunctionPtr <==> vt is FunctionPtr,
    decreases vt,
{
    match vt {
        VarType::Number => VarType::Number,
        VarType::Integer => VarType::Integer,
        VarType::String => VarType::String,
        VarType::Boolean => VarType::Boolean,
        VarType::Array => VarType::Array,
        VarType::StringArray => VarType::StringArray,
        VarType::FunctionPtr { fn_name } => VarType::FunctionPtr { fn_name: fn_name.clone() },
        VarType::Closure { fn_name, param_types, return_type } => VarType::Closure {
            fn_name: fn_name.clone(),
            param_types: copy_var_types(param_types),
            return_type: Box::new(copy_var_type(return_type)),
        },
        VarType::Object { struct_type_name, fields } => VarType::Object {
            struct_type_name: struct_type_name.clone(),
            fields: copy_var_fields(fields),
        },
        VarType::Union(vs) => VarType::Union(copy_var_types(vs)),
        VarType::Tuple(vs) => VarType::Tuple(copy_var_types(vs)),
    }
}

/// Copies of kinds, in order.
pub fn copy_var_types(v: &Vec<VarType>) -> (r: Vec<VarType>)
    ensures
        same_var_types(v@, r@),
    decreases v,
{
    let mut out: Vec<VarType> = Vec::new();
    let mut i: usize = 0;
    while i < v.len()
        invariant
            i <= v@.len(),
            out@.len() == i,
            forall|j: int| 0 <= j < i ==> same_var_type(#[trigger] v@[j], out@[j]),
        decreases v@.len() - i,
    {
        assert(decreases_to!(v => v@[i as int]));
        out.push(copy_var_type(&v[i]));
        i = i + 1;
    }
    out
}

/// Copies of named kinds, in order.
pub fn copy_var_fields(v: &Vec<(String, VarType)>) -> (r: Vec<(String, VarType)>)
    ensures
        same_var_fields(v@, r@),
    decreases v,
{
    let mut out: Vec<(String, VarType)> = Vec::new();
    let mut i: usize = 0;
    while i < v.len()
        invariant
            i <= v@.len(),
            out@.len() == i,
            forall|j: int| 0 <= j < i ==> (#[trigger] v@[j]).0 == out@[j].0 && same_var_type(v@[j].1, out@[j].1),
        decreases v@.len() - i,
    {
        assert(decreases_to!(v => v@[i as int]));
        out.push((v[i].0.clone(), copy_var_type(&v[i].1)));
        i = i + 1;
    }
    out
}

/// What code generation knows when it decides how an annotated variable is
/// stored: the kind numbers take (floats, or integers inside integer-safe
/// functions), the active type parameter substitutions, the fields of the
/// classes declared so far, and the type aliases with their parameters.
pub struct VarTypeEnv {
    pub number_mode: VarType,
    pub type_substitutions: Vec<(String, VarType)>,
    pub class_fields: Vec<(String, Vec<(String, VarType)>)>,
    pub aliases: Vec<(String, TypeAnnotation)>,
    pub generic_alias_params: Vec<(String, Vec<String>)>,
}

/// The index of the first entry from `j` on whose key is `k`, if any.
pub open spec fn first_key<V>(m: Seq<(String, V)>, k: Seq<char>, j: int) -> Option<int>
    decreases m.len() - j,
{
    if !(0 <= j < m.len()) {
        None
    } else if m[j].0@ == k {
        Some(j)
    } else {
        first_key(m, k, j + 1)
    }
}

/// Index of the first entry whose key is `k`.
fn key_index<V>(m: &Vec<(String, V)>, k: &String) -> (r: Option<usize>)
    ensures
        match r {
            Some(i) => i < m@.len() && m@[i as int].0@ == k@,
            None => forall|j: int| 0 <= j < m@.len() ==> m@[j].0@ != k@,
        },
        match r {
            Some(i) => first_key(m@, k@, 0) == Some(i as int),
            None => first_key(m@, k@, 0) is None,
        },
{
    let mut i: usize = 0;
    while i < m.len()
        invariant
            i <= m@.len(),
            forall|j: int| 0 <= j < i ==> m@[j].0@ != k@,
            first_key(m@, k@, 0) == first_key(m@, k@, i as int),
        decreases m@.len() - i,
    {
        if eq_str(k, m[i].0.as_str()) {
            return Some(i);
        }
        i = i + 1;
    }
    None
}

impl VarTypeEnv {
    /// Numbers are floats or integers.
    pub open spec fn wf(&self) -> bool {
        self.number_mode is Number || self.number_mode is Integer
    }

    /// What an annotation is stored as, as far as it is stated: the number
    /// kind for numeric, empty and type-level annotations, strings, booleans and
    /// arrays for theirs; tuples, unions and function types as the kinds of
    /// their parts; an object type as its fields' kinds under a name made from
    /// its field count; a named type as its active substitution, else as the
    /// class of that name with its fields, else as a number. Generic, conditional
    /// and intersection types are not stated.
    pub open spec fn kind_of(&self, ann: TypeAnnotation, r: VarType) -> bool
        decreases ann,
    {
        match ann.kind {
            TypeAnnKind::Number | TypeAnnKind::Void | TypeAnnKind::Null | TypeAnnKind::Undefined
            | TypeAnnKind::NumberLiteral(_) | TypeAnnKind::Typeof(_) | TypeAnnKind::Mapped { .. }
            | TypeAnnKind::IndexedAccess { .. } => r == self.number_mode,
            TypeAnnKind::String | TypeAnnKind::StringLiteral(_) | TypeAnnKind::Keyof(_) => r is String,
            TypeAnnKind::Boolean | TypeAnnKind::BooleanLiteral(_) | TypeAnnKind::TypePredicate { .. } =>
                r is Boolean,
            TypeAnnKind::Array(_) => r is Array,
            TypeAnnKind::Tuple(es) => r matches VarType::Tuple(ts) && self.kinds_of(es@, ts@),
            TypeAnnKind::FunctionType { params, return_type } => r matches VarType::Closure {
                fn_name,
                param_types,
                return_type: rt,
            } && fn_name@ == Seq::<char>::empty() && self.kinds_of(params@, param_types@)
                && self.kind_of(*return_type, *rt),
            TypeAnnKind::Union(vs) => if vs@.len() == 0 {
                r == self.number_mode
            } else {
                r matches VarType::Union(ts) && self.kinds_of(vs@, ts@)
            },
            TypeAnnKind::Object { fields } => r matches VarType::Object { struct_type_name, fields: fs }
                && struct_type_name@ == "__anon_obj_"@ + decimal(fields@.len()) && fs@.len()
                == fields@.len() && forall|i: int|
                0 <= i < fs@.len() ==> (#[trigger] fs@[i]).0 == fields@[i].0 && self.kind_of(
                    fields@[i].1,
                    fs@[i].1,
                ),
            TypeAnnKind::Named(name) => match first_key(self.type_substitutions@, name@, 0) {
                Some(i) => same_var_type(self.type_substitutions@[i].1, r),
                None => match first_key(self.class_fields@, name@, 0) {
                    Some(i) => r matches VarType::Object { struct_type_name, fields } && struct_type_name
                        == name && same_var_fields(self.class_fields@[i].1@, fields@),
                    None => r == self.number_mode,
                },
            },
            _ => true,
        }
    }

    /// Each annotation is stored as the kind at the same place.
    pub open spec fn kinds_of(&self, anns: Seq<TypeAnnotation>, rs: Seq<VarType>) -> bool
        decreases anns,
    {
        &&& anns.len() == rs.len()
        &&& forall|i: int| 0 <= i < anns.len() ==> self.kind_of(#[trigger] anns[i], rs[i])
    }

    /// How a variable with this annotation is stored. `fuel` bounds how deeply
    /// generic aliases are expanded inside one another; past it, the number kind.
    #[verifier::loop_isolation(false)]
    pub fn type_ann_to_var_type(&mut self, ann: &TypeAnnotation, fuel: usize) -> (r: VarType)
        requires
            old(self).wf(),
        ensures
            *final(self) == *old(self),
            old(self).kind_of(*ann, r),
        decreases fuel, ann, 0nat,
    {
        match &ann.kind {
            TypeAnnKind::Number
            | TypeAnnKind::Void
            | TypeAnnKind::Null
            | TypeAnnKind::Undefined
            | TypeAnnKind::NumberLiteral(_)
            | TypeAnnKind::Mapped { .. }
            | TypeAnnKind::IndexedAccess { .. } => copy_var_type(&self.number_mode),
            // typeof is settled by the checker; an uninitialized variable is a number
            TypeAnnKind::Typeof(_) => copy_var_type(&self.number_mode),
            TypeAnnKind::String | TypeAnnKind::StringLiteral(_) => VarType::String,
            // keyof is a union of string literals: a string at run time
            TypeAnnKind::Keyof(_) => VarType::String,
            TypeAnnKind::Boolean | TypeAnnKind::BooleanLiteral(_) | TypeAnnKind::TypePredicate { .. } =>
                VarType::Boolean,
            TypeAnnKind::Array(_) => VarType::Array,
            TypeAnnKind::Object { fields } => {
                let mut field_vts: Vec<(String, VarType)> = Vec::new();
                let mut i: usize = 0;
                while i < fields.len()
                    invariant
                        i <= fields@.len(),
                        field_vts@.len() == i,
                        forall|j: int| 0 <= j < i ==> #[trigger] field_vts@[j].0@ == fields@[j].0@,
                        forall|j: int|
                            0 <= j < i ==> (#[trigger] field_vts@[j]).0 == fields@[j].0 && self.kind_of(
                                fields@[j].1,
                                field_vts@[j].1,
                            ),
                        *self == *old(self),
                        self.wf(),
                    decreases fields@.len() - i,
                {
                    assert(decreases_to!(fields => fields@[i as int]));
                    let vt = self.type_ann_to_var_type(&fields[i].1, fuel);
                    let ghost before = field_vts@;
                    field_vts.push((fields[i].0.clone(), vt));
                    assert forall|j: int| 0 <= j < i + 1 implies #[trigger] field_vts@[j].0@
                        == fields@[j].0@ by {
                        if j < i {
                            assert(field_vts@[j] == before[j]);
                            assert(before[j].0@ == fields@[j].0@);
                        }
                    }
                    assert forall|j: int| 0 <= j < i + 1 implies (#[trigger] field_vts@[j]).0 == fields@[j].0
                        && self.kind_of(fields@[j].1, field_vts@[j].1) by {
                        if j < i {
                            assert(field_vts@[j] == before[j]);
                        }
                    }
                    i = i + 1;
                }
                let mut name = string_of("__anon_obj_");
                name.append(usize_to_string(field_vts.len()).as_str());
                proof {
                    reveal_strlit("__anon_obj_");
                }
                VarType::Object { struct_type_name: name, fields: field_vts }
            },
            TypeAnnKind::Named(name) => {
                // Type parameter substitutions first, then classes
                if let Some(i) = key_index(&self.type_substitutions, name) {
                    return copy_var_type(&self.type_substitutions[i].1);
                }
                match key_index(&self.class_fields, name) {
                    Some(i) => VarType::Object {
                        struct_type_name: name.clone(),
                        fields: copy_var_fields(&self.class_fields[i].1),
                    },
                    // An unknown named type is a number
                    None => copy_var_type(&self.number_mode),
                }
            },
            TypeAnnKind::Union(variants) => {
                let vts = self.var_types_of(variants, fuel);
                if vts.len() == 0 {
                    copy_var_type(&self.number_mode)
                } else {
                    VarType::Union(vts)
                }
            },
            TypeAnnKind::Intersection(variants) => {
                // The fields of the object variants, first occurrence of each name
                let mut all_fields: Vec<(String, VarType)> = Vec::new();
                let mut i: usize = 0;
                while i < variants.len()
                    invariant
                        i <= variants@.len(),
                        *self == *old(self),
                        self.wf(),
                    decreases variants@.len() - i,
                {
                    assert(decreases_to!(variants => variants@[i as int]));
                    if let VarType::Object { fields, .. } = self.type_ann_to_var_type(&variants[i], fuel) {
                        let mut k: usize = 0;
                        while k < fields.len()
                            invariant
                                k <= fields@.len(),
                            decreases fields@.len() - k,
                        {
                            if key_index(&all_fields, &fields[k].0).is_none() {
                                all_fields.push((fields[k].0.clone(), copy_var_type(&fields[k].1)));
                            }
                            k = k + 1;
                        }
                    }
                    i = i + 1;
                }
                if all_fields.len() == 0 {
                    copy_var_type(&self.number_mode)
                } else {
                    let mut name = string_of("__intersection_");
                    name.append(usize_to_string(all_fields.len()).as_str());
                    VarType::Object { struct_type_name: name, fields: all_fields }
                }
            },
            TypeAnnKind::FunctionType { params, return_type } => {
                let param_types = self.var_types_of(params, fuel);
                let ret = self.type_ann_to_var_type(return_type, fuel);
                VarType::Closure {
                    fn_name: String::new(),
                    param_types,
                    return_type: Box::new(ret),
                }
            },
            TypeAnnKind::Tuple(elements) => VarType::Tuple(self.var_types_of(elements, fuel)),
            TypeAnnKind::Generic { name, type_args } => {
                // An alias is resolved with its parameters bound to the arguments
                if let Some(a) = key_index(&self.aliases, name) {
                    if let Some(p) = key_index(&self.generic_alias_params, name) {
                        if fuel == 0 {
                            return copy_var_type(&self.number_mode);
                        }
                        let resolved_args = self.var_types_of(type_args, fuel);
                        let mut subs: Vec<(String, VarType)> = copy_var_fields(&self.type_substitutions);
                        let tp_names = &self.generic_alias_params[p].1;
                        let mut k: usize = 0;
                        while k < tp_names.len() && k < resolved_args.len()
                            decreases tp_names@.len() - k,
                        {
                            let vt = copy_var_type(&resolved_args[k]);
                            match key_index(&subs, &tp_names[k]) {
                                Some(j) => subs.set(j, (tp_names[k].clone(), vt)),
                                None => subs.push((tp_names[k].clone(), vt)),
                            }
                            k = k + 1;
                        }
                        let alias = copy_type_ann(&self.aliases[a].1);
                        core::mem::swap(&mut subs, &mut self.type_substitutions);
                        let result = self.type_ann_to_var_type(&alias, fuel - 1);
                        core::mem::swap(&mut subs, &mut self.type_substitutions);
                        return result;
                    }
                }
                copy_var_type(&self.number_mode)
            },
            TypeAnnKind::Conditional { check_type, extends_type, true_type, false_type } => {
                // Decided on kinds at code generation time
                let check = self.type_ann_to_var_type(check_type, fuel);
                let extends = self.type_ann_to_var_type(extends_type, fuel);
                if var_types_compatible(&check, &extends) {
                    self.type_ann_to_var_type(true_type, fuel)
                } else {
                    self.type_ann_to_var_type(false_type, fuel)
                }
            },
        }
    }

    fn var_types_of(&mut self, anns: &Vec<TypeAnnotation>, fuel: usize) -> (r: Vec<VarType>)
        requires
            old(self).wf(),
        ensures
            *final(self) == *old(self),
            r@.len() == anns@.len(),
            old(self).kinds_of(anns@, r@),
        decreases fuel, anns, 0nat,
    {
        let mut out: Vec<VarType> = Vec::new();
        let mut i: usize = 0;
        while i < anns.len()
            invariant
                i <= anns@.len(),
                out@.len() == i,
                *self == *old(self),
                self.wf(),
                forall|j: int| 0 <= j < i ==> self.kind_of(#[trigger] anns@[j], out@[j]),
            decreases anns@.len() - i,
        {
            assert(decreases_to!(anns => anns@[i as int]));
            out.push(self.type_ann_to_var_type(&anns[i], fuel));
            i = i + 1;
        }
        out
    }
}

/// Whether a loop's label is `l`.
pub open spec fn labelled(label: Option<String>, l: Seq<char>) -> bool {
    label matches Some(x) && x@ == l
}

/// The loop that a `break` or `continue` with `label` leaves or repeats,
/// given the labels of the enclosing loops from the outermost in: the
/// innermost loop without a label, or the innermost loop with that label;
/// `None` where there is no such loop, and the jump is refused.
pub fn jump_target(labels: &Vec<Option<String>>, label: &Option<String>) -> (r: Option<usize>)
    ensures
        label is None ==> r == (if labels@.len() > 0 {
            Some((labels@.len() - 1) as usize)
        } else {
            None::<usize>
        }),
        label matches Some(l) ==> match r {
            Some(i) => i < labels@.len() && labelled(labels@[i as int], l@) && forall|j: int|
                i < j < labels@.len() ==> !labelled(#[trigger] labels@[j], l@),
            None => forall|j: int| 0 <= j < labels@.len() ==> !labelled(#[trigger] labels@[j], l@),
        },
{
    match label {
        None => {
            if labels.len() > 0 {
                Some(labels.len() - 1)
            } else {
                None
            }
        },
        Some(l) => {
            let mut i = labels.len();
            while i > 0
                invariant
                    i <= labels@.len(),
                    *label == Some(*l),
                    forall|j: int| i <= j < labels@.len() ==> !labelled(#[trigger] labels@[j], l@),
                decreases i,
            {
                let found = match &labels[i - 1] {
                    Some(x) => eq_str(x, l.as_str()),
                    None => false,
                };
                if found {
                    return Some(i - 1);
                }
                i = i - 1;
            }
            None
        },
    }
}

} // verus!
