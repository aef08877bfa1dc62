//! The trees that chains of operands and arithmetic operators parse to, and
//! the programs made of empty statements, expression statements of chains,
//! assignments of chains to names, and declarations of one name initialized
//! by a chain.
//!
//! An operand is a literal, `this` or a name; the operators are `+`, `-`,
//! `*`, `/`, `%` and `**`. A chain ends at `;`, at the end of the tokens, at
//! a `,`, `]` or `)` that closes a list, or before an assignment operator.
//! `**` binds tightest and groups to the right; `*`, `/` and `%` come next
//! and group to the left; `+` and `-` bind loosest and group to the left.
//! An array literal whose elements are chains holds their trees in order.
use vstd::prelude::*;

use crate::lexer::token::{Span, SpannedToken, Token};
use crate::parser::ast::{BinOp, Expr, ExprKind, ObjectProperty, Statement, StmtKind, TypeAnnotation};
use crate::parser::parser::{literal_kind, simple_type_kind};

verus! {

/// The token at index `i`, or `Eof` past the end of the tokens.
pub open spec fn tok(t: Seq<SpannedToken>, i: int) -> Token {
    if 0 <= i < t.len() {
        t[i].token
    } else {
        Token::Eof
    }
}

/// The span of the token at index `i`, or the empty span past the end.
pub open spec fn span_at(t: Seq<SpannedToken>, i: int) -> Span {
    if 0 <= i < t.len() {
        t[i].span
    } else {
        Span { start: 0, end: 0, line: 0, column: 0 }
    }
}

/// A token that is a whole operand: a literal, `this` or a name.
pub open spec fn is_operand(k: Token) -> bool {
    k is Identifier || literal_kind(k) is Some
}

/// The expression that the operand token at index `i` stands for.
pub open spec fn operand_expr(t: Seq<SpannedToken>, i: int) -> Expr {
    Expr {
        kind: match tok(t, i) {
            Token::Identifier(n) => ExprKind::Identifier(n),
            k => literal_kind(k)->0,
        },
        span: span_at(t, i),
    }
}

/// The additive operators.
pub open spec fn add_op(k: Token) -> Option<BinOp> {
    match k {
        Token::Plus => Some(BinOp::Add),
        Token::Minus => Some(BinOp::Subtract),
        _ => None,
    }
}

/// The multiplicative operators.
pub open spec fn mul_op(k: Token) -> Option<BinOp> {
    match k {
        Token::Star => Some(BinOp::Multiply),
        Token::Slash => Some(BinOp::Divide),
        Token::Percent => Some(BinOp::Modulo),
        _ => None,
    }
}

/// The operators a chain may hold.
pub open spec fn is_chain_op(k: Token) -> bool {
    add_op(k) is Some || mul_op(k) is Some || k is StarStar
}

/// The assignment operators: `=` and the compound ones.
pub open spec fn is_assign_op(k: Token) -> bool {
    k is Assign || compound_op(k) is Some
}

/// The operation a compound assignment operator applies.
pub open spec fn compound_op(k: Token) -> Option<BinOp> {
    match k {
        Token::PlusEqual => Some(BinOp::Add),
        Token::MinusEqual => Some(BinOp::Subtract),
        Token::StarEqual => Some(BinOp::Multiply),
        Token::SlashEqual => Some(BinOp::Divide),
        Token::PercentEqual => Some(BinOp::Modulo),
        _ => None,
    }
}

/// The comparison operators.
pub open spec fn comparison_op(k: Token) -> Option<BinOp> {
    match k {
        Token::Less => Some(BinOp::Less),
        Token::Greater => Some(BinOp::Greater),
        Token::LessEqual => Some(BinOp::LessEqual),
        Token::GreaterEqual => Some(BinOp::GreaterEqual),
        _ => None,
    }
}

/// The equality operators.
pub open spec fn equality_op(k: Token) -> Option<BinOp> {
    match k {
        Token::EqualEqual => Some(BinOp::Equal),
        Token::EqualEqualEqual => Some(BinOp::StrictEqual),
        Token::BangEqual => Some(BinOp::NotEqual),
        Token::BangEqualEqual => Some(BinOp::StrictNotEqual),
        _ => None,
    }
}

/// The logical operators `&&`, `??` and `||`.
pub open spec fn logic_op(k: Token) -> Option<BinOp> {
    match k {
        Token::AmpersandAmpersand => Some(BinOp::And),
        Token::QuestionQuestion => Some(BinOp::NullishCoalescing),
        Token::PipePipe => Some(BinOp::Or),
        _ => None,
    }
}

/// How loosely a logical operator binds: `&&` tightest, then `??`, then `||`.
pub open spec fn logic_rank(k: Token) -> int {
    match k {
        Token::AmpersandAmpersand => 0,
        Token::QuestionQuestion => 1,
        _ => 2,
    }
}

/// Whether equality operator `op` tests for a difference.
pub open spec fn negated(op: BinOp) -> bool {
    op is NotEqual || op is StrictNotEqual
}

/// Whether equality operator `op` compares without converting its operands.
pub open spec fn strict(op: BinOp) -> bool {
    op is StrictEqual || op is StrictNotEqual
}

/// Whether comparison operator `op` holds between the numbers `a` and `b`.
pub open spec fn compares(op: BinOp, a: int, b: int) -> bool {
    match op {
        BinOp::Less => a < b,
        BinOp::Greater => a > b,
        BinOp::LessEqual => a <= b,
        BinOp::GreaterEqual => a >= b,
        _ => false,
    }
}

/// The tokens an operand of a comparison may end at: those a chain ends at,
/// and the comparison operators.
pub open spec fn is_term_end(k: Token) -> bool {
    is_chain_end(k) || comparison_op(k) is Some || equality_op(k) is Some || logic_op(k) is Some
}

/// Whether operands and operators of a chain alternate from index `i` on,
/// up to a token a chain or a comparison operand ends at.
pub open spec fn term_from(t: Seq<SpannedToken>, i: int) -> bool
    decreases t.len() - i,
{
    if 0 <= i < t.len() && is_operand(t[i].token) {
        if i + 1 < t.len() && is_chain_op(t[i + 1].token) {
            term_from(t, i + 2)
        } else {
            is_term_end(tok(t, i + 1))
        }
    } else {
        false
    }
}

/// What may follow an operand of such a term at index `k`.
pub open spec fn term_after(t: Seq<SpannedToken>, k: int) -> bool {
    &&& 0 <= k <= t.len()
    &&& is_term_end(tok(t, k)) || is_chain_op(tok(t, k)) && term_from(t, k + 1)
}

/// Two chains compared: a chain, a comparison operator, and a chain that
/// ends the expression.
pub open spec fn comparison_form(t: Seq<SpannedToken>, i: int) -> bool {
    &&& term_from(t, i)
    &&& comparison_op(tok(t, chain_tree(t, i).1)) is Some
    &&& chain_from(t, chain_tree(t, i).1 + 1)
}

/// The tree of a comparison of two chains (`comparison_form`), and where it ends.
pub open spec fn comparison_tree(t: Seq<SpannedToken>, i: int) -> (Expr, int) {
    let k = chain_tree(t, i).1;
    (bin(chain_tree(t, i).0, comparison_op(tok(t, k))->0, chain_tree(t, k + 1).0), chain_tree(t, k + 1).1)
}

/// Two chains tested for equality: a chain, an equality operator, and a
/// chain that ends the expression.
pub open spec fn equality_form(t: Seq<SpannedToken>, i: int) -> bool {
    &&& term_from(t, i)
    &&& equality_op(tok(t, chain_tree(t, i).1)) is Some
    &&& chain_from(t, chain_tree(t, i).1 + 1)
}

/// The tree of an equality test of two chains (`equality_form`), and where
/// it ends.
pub open spec fn equality_tree(t: Seq<SpannedToken>, i: int) -> (Expr, int) {
    let k = chain_tree(t, i).1;
    (bin(chain_tree(t, i).0, equality_op(tok(t, k))->0, chain_tree(t, k + 1).0), chain_tree(t, k + 1).1)
}

/// Two chains joined by a logical operator: a chain, `&&`, `??` or `||`,
/// and a chain that ends the expression.
pub open spec fn logic_form(t: Seq<SpannedToken>, i: int) -> bool {
    &&& term_from(t, i)
    &&& logic_op(tok(t, chain_tree(t, i).1)) is Some
    &&& chain_from(t, chain_tree(t, i).1 + 1)
}

/// The tree of two chains joined by a logical operator (`logic_form`), and
/// where it ends.
pub open spec fn logic_tree(t: Seq<SpannedToken>, i: int) -> (Expr, int) {
    let k = chain_tree(t, i).1;
    (bin(chain_tree(t, i).0, logic_op(tok(t, k))->0, chain_tree(t, k + 1).0), chain_tree(t, k + 1).1)
}

/// A logical tree is its two chains joined by its operator.
pub proof fn lemma_logic_tree_parts(t: Seq<SpannedToken>, i: int)
    ensures
        logic_tree(t, i).0 == bin(
            chain_tree(t, i).0,
            logic_op(tok(t, chain_tree(t, i).1))->0,
            chain_tree(t, chain_tree(t, i).1 + 1).0,
        ),
        logic_tree(t, i).1 == chain_tree(t, chain_tree(t, i).1 + 1).1,
{
}

/// Two chains joined by a logical operator end after their start and
/// within the tokens, at a token a chain ends at.
pub proof fn lemma_logic_bounds(t: Seq<SpannedToken>, i: int)
    requires
        logic_form(t, i),
    ensures
        i < logic_tree(t, i).1 <= t.len(),
        is_chain_end(tok(t, logic_tree(t, i).1)),
{
    lemma_term_tree_end(t, i);
    lemma_chain_tree_end(t, chain_tree(t, i).1 + 1);
    lemma_logic_tree_parts(t, i);
}

/// Two chains joined by `&&`, `||` or `??` carry the operator that token
/// names: a conjunction exactly for `&&`, a disjunction exactly for `||`,
/// and the fallback to the right side exactly for `??`.
pub proof fn law_logic_operator(t: Seq<SpannedToken>, i: int)
    requires
        logic_form(t, i),
    ensures
        logic_tree(t, i).0.kind matches ExprKind::Binary { op, .. } && (op is And) == (tok(
            t,
            chain_tree(t, i).1,
        ) is AmpersandAmpersand) && (op is Or) == (tok(t, chain_tree(t, i).1) is PipePipe) && (op
            is NullishCoalescing) == (tok(t, chain_tree(t, i).1) is QuestionQuestion),
{
}

/// An equality test's tree is its two chains joined by its operator.
pub proof fn lemma_equality_tree_parts(t: Seq<SpannedToken>, i: int)
    ensures
        equality_tree(t, i).0 == bin(
            chain_tree(t, i).0,
            equality_op(tok(t, chain_tree(t, i).1))->0,
            chain_tree(t, chain_tree(t, i).1 + 1).0,
        ),
        equality_tree(t, i).1 == chain_tree(t, chain_tree(t, i).1 + 1).1,
{
}

/// A comparison's tree is its two chains joined by its operator.
pub proof fn lemma_comparison_tree_parts(t: Seq<SpannedToken>, i: int)
    ensures
        comparison_tree(t, i).0 == bin(
            chain_tree(t, i).0,
            comparison_op(tok(t, chain_tree(t, i).1))->0,
            chain_tree(t, chain_tree(t, i).1 + 1).0,
        ),
        comparison_tree(t, i).1 == chain_tree(t, chain_tree(t, i).1 + 1).1,
{
}

/// The tokens a chain may end at: `;`, the end of the tokens, a `,`, `]` or
/// `)` that closes it within a list, or an assignment operator after it.
pub open spec fn is_chain_end(k: Token) -> bool {
    k is Semicolon || k is Eof || k is Comma || k is RightBracket || k is RightParen
        || is_assign_op(k)
}

/// Whether a whole expression starts at index `i` that is a chain, not
/// followed by an assignment operator.
pub open spec fn plain_chain(t: Seq<SpannedToken>, i: int) -> bool {
    chain_from(t, i) && !is_assign_op(tok(t, chain_tree(t, i).1))
}

/// Whether an assignment to the name at index `i` starts there: the name, an
/// assignment operator, and a plain chain.
pub open spec fn assign_form(t: Seq<SpannedToken>, i: int) -> bool {
    &&& tok(t, i) is Identifier
    &&& is_assign_op(tok(t, i + 1))
    &&& plain_chain(t, i + 2)
}

/// The tree of the assignment at index `i`: `x = e`, or `x op= e` read as
/// `x = x op e`, spanning from the name to the end of `e`.
pub open spec fn assign_tree(t: Seq<SpannedToken>, i: int) -> Expr {
    let rhs = chain_tree(t, i + 2).0;
    let target = operand_expr(t, i);
    let span = Span {
        start: target.span.start,
        end: rhs.span.end,
        line: target.span.line,
        column: target.span.column,
    };
    let value = if tok(t, i + 1) is Assign {
        rhs
    } else {
        Expr {
            span,
            kind: ExprKind::Binary {
                left: Box::new(target),
                op: compound_op(tok(t, i + 1))->0,
                right: Box::new(rhs),
            },
        }
    };
    Expr {
        span,
        kind: ExprKind::Assignment { name: tok(t, i)->Identifier_0, value: Box::new(value) },
    }
}

/// Whether operands and operators alternate from index `i` on, starting and
/// ending with an operand, up to `;` or the end of the tokens.
pub open spec fn chain_from(t: Seq<SpannedToken>, i: int) -> bool
    decreases t.len() - i,
{
    if 0 <= i < t.len() && is_operand(t[i].token) {
        if i + 1 < t.len() && is_chain_op(t[i + 1].token) {
            chain_from(t, i + 2)
        } else {
            is_chain_end(tok(t, i + 1))
        }
    } else {
        false
    }
}

/// What may follow an operand of a chain at index `k`: its end, or an
/// operator and the rest of the chain.
pub open spec fn chain_after(t: Seq<SpannedToken>, k: int) -> bool {
    &&& 0 <= k <= t.len()
    &&& is_chain_end(tok(t, k)) || is_chain_op(tok(t, k)) && chain_from(t, k + 1)
}

/// `left op right`, spanning both operands.
pub open spec fn bin(l: Expr, op: BinOp, r: Expr) -> Expr {
    Expr {
        span: Span { start: l.span.start, end: r.span.end, line: l.span.line, column: l.span.column },
        kind: ExprKind::Binary { left: Box::new(l), op, right: Box::new(r) },
    }
}

/// The tree of the `**` chain that starts at operand `i`, grouped to the right.
pub open spec fn pow_tree(t: Seq<SpannedToken>, i: int) -> Expr
    decreases t.len() - i,
{
    if 0 <= i && i + 1 < t.len() && t[i + 1].token is StarStar {
        bin(operand_expr(t, i), BinOp::Power, pow_tree(t, i + 2))
    } else {
        operand_expr(t, i)
    }
}

/// Where the `**` chain that starts at operand `i` ends.
pub open spec fn pow_end(t: Seq<SpannedToken>, i: int) -> int
    decreases t.len() - i,
{
    if 0 <= i && i + 1 < t.len() && t[i + 1].token is StarStar {
        pow_end(t, i + 2)
    } else {
        i + 1
    }
}

/// The `**` chain ends after its start and at most one past the tokens.
pub proof fn lemma_pow_end_bounds(t: Seq<SpannedToken>, i: int)
    requires
        0 <= i <= t.len(),
    ensures
        i < pow_end(t, i) <= t.len() + 1,
    decreases t.len() - i,
{
    if 0 <= i && i + 1 < t.len() && t[i + 1].token is StarStar {
        lemma_pow_end_bounds(t, i + 2);
    }
}

/// Folds the `*`, `/` and `%` operands from index `j` onto `acc`, to the left;
/// the tree and where it ends.
pub open spec fn mul_fold(t: Seq<SpannedToken>, acc: Expr, j: int) -> (Expr, int)
    decreases t.len() + 2 - j,
{
    if 0 <= j < t.len() && mul_op(t[j].token) is Some {
        proof {
            lemma_pow_end_bounds(t, j + 1);
        }
        mul_fold(t, bin(acc, mul_op(t[j].token)->0, pow_tree(t, j + 1)), pow_end(t, j + 1))
    } else {
        (acc, j)
    }
}

/// The multiplicative term that starts at operand `i`, and where it ends.
pub open spec fn mul_level(t: Seq<SpannedToken>, i: int) -> (Expr, int) {
    mul_fold(t, pow_tree(t, i), pow_end(t, i))
}

/// A fold of multiplicative operands ends where it starts or later, and at
/// most one past the tokens.
pub proof fn lemma_mul_fold_bounds(t: Seq<SpannedToken>, acc: Expr, j: int)
    requires
        0 <= j <= t.len() + 1,
    ensures
        j <= mul_fold(t, acc, j).1 <= t.len() + 1,
    decreases t.len() + 2 - j,
{
    if 0 <= j < t.len() && mul_op(t[j].token) is Some {
        lemma_pow_end_bounds(t, j + 1);
        lemma_mul_fold_bounds(
            t,
            bin(acc, mul_op(t[j].token)->0, pow_tree(t, j + 1)),
            pow_end(t, j + 1),
        );
    }
}

/// A multiplicative term ends after its start and at most one past the tokens.
pub proof fn lemma_mul_level_bounds(t: Seq<SpannedToken>, i: int)
    requires
        0 <= i <= t.len(),
    ensures
        i < mul_level(t, i).1 <= t.len() + 1,
{
    lemma_pow_end_bounds(t, i);
    lemma_mul_fold_bounds(t, pow_tree(t, i), pow_end(t, i));
}

/// Folds the `+` and `-` terms from index `j` onto `acc`, to the left; the
/// tree and where it ends.
pub open spec fn add_fold(t: Seq<SpannedToken>, acc: Expr, j: int) -> (Expr, int)
    decreases t.len() + 2 - j,
{
    if 0 <= j < t.len() && add_op(t[j].token) is Some {
        proof {
            lemma_mul_level_bounds(t, j + 1);
        }
        add_fold(t, bin(acc, add_op(t[j].token)->0, mul_level(t, j + 1).0), mul_level(t, j + 1).1)
    } else {
        (acc, j)
    }
}

/// The tree of the chain that starts at operand `i`, and where it ends.
pub open spec fn chain_tree(t: Seq<SpannedToken>, i: int) -> (Expr, int) {
    add_fold(t, mul_level(t, i).0, mul_level(t, i).1)
}

/// After the `**` chain of a chain's operand, the chain goes on with another
/// operator than `**`, or ends.
pub proof fn lemma_pow_chain(t: Seq<SpannedToken>, i: int)
    requires
        chain_from(t, i),
    ensures
        chain_after(t, pow_end(t, i)),
        !(tok(t, pow_end(t, i)) is StarStar),
    decreases t.len() - i,
{
    if i + 1 < t.len() && t[i + 1].token is StarStar {
        lemma_pow_chain(t, i + 2);
    }
}

/// A fold of multiplicative operands inside a chain stops at an additive
/// operator that the chain goes on after, or at the chain's end.
pub proof fn lemma_mul_fold_chain(t: Seq<SpannedToken>, acc: Expr, j: int)
    requires
        chain_after(t, j),
        !(tok(t, j) is StarStar),
    ensures
        chain_after(t, mul_fold(t, acc, j).1),
        !(tok(t, mul_fold(t, acc, j).1) is StarStar),
        mul_op(tok(t, mul_fold(t, acc, j).1)) is None,
    decreases t.len() + 2 - j,
{
    if 0 <= j < t.len() && mul_op(t[j].token) is Some {
        lemma_pow_end_bounds(t, j + 1);
        lemma_pow_chain(t, j + 1);
        lemma_mul_fold_chain(
            t,
            bin(acc, mul_op(t[j].token)->0, pow_tree(t, j + 1)),
            pow_end(t, j + 1),
        );
    }
}

/// A multiplicative term of a chain stops at an additive operator that the
/// chain goes on after, or at the chain's end.
pub proof fn lemma_mul_level_chain(t: Seq<SpannedToken>, i: int)
    requires
        chain_from(t, i),
    ensures
        chain_after(t, mul_level(t, i).1),
        add_op(tok(t, mul_level(t, i).1)) is Some || is_chain_end(tok(t, mul_level(t, i).1)),
{
    lemma_pow_chain(t, i);
    lemma_mul_fold_chain(t, pow_tree(t, i), pow_end(t, i));
}

/// A fold of additive terms inside a chain stops at the chain's end.
pub proof fn lemma_add_fold_chain(t: Seq<SpannedToken>, acc: Expr, j: int)
    requires
        chain_after(t, j),
        add_op(tok(t, j)) is Some || is_chain_end(tok(t, j)),
    ensures
        is_chain_end(tok(t, add_fold(t, acc, j).1)),
        j <= add_fold(t, acc, j).1 <= t.len(),
    decreases t.len() + 2 - j,
{
    if 0 <= j < t.len() && add_op(t[j].token) is Some {
        lemma_mul_level_bounds(t, j + 1);
        lemma_mul_level_chain(t, j + 1);
        lemma_add_fold_chain(
            t,
            bin(acc, add_op(t[j].token)->0, mul_level(t, j + 1).0),
            mul_level(t, j + 1).1,
        );
    }
}

/// A chain ends, after its first operand, at `;` or the end of the tokens.
pub proof fn lemma_chain_tree_end(t: Seq<SpannedToken>, i: int)
    requires
        chain_from(t, i),
    ensures
        is_chain_end(tok(t, chain_tree(t, i).1)),
        i < chain_tree(t, i).1 <= t.len(),
{
    lemma_mul_level_bounds(t, i);
    lemma_mul_level_chain(t, i);
    lemma_add_fold_chain(t, mul_level(t, i).0, mul_level(t, i).1);
}

/// Where the initializer of a declaration that starts at index `i` begins,
/// and its annotation: `let name = ...`, or `let name: T = ...` with a type
/// A chain is also a term.
pub proof fn lemma_chain_is_term(t: Seq<SpannedToken>, i: int)
    requires
        chain_from(t, i),
    ensures
        term_from(t, i),
    decreases t.len() - i,
{
    if i + 1 < t.len() && is_chain_op(t[i + 1].token) {
        lemma_chain_is_term(t, i + 2);
    }
}

/// After the `**` chain of a term's operand, the term goes on with another
/// operator than `**`, or ends.
pub proof fn lemma_pow_term(t: Seq<SpannedToken>, i: int)
    requires
        term_from(t, i),
    ensures
        term_after(t, pow_end(t, i)),
        !(tok(t, pow_end(t, i)) is StarStar),
    decreases t.len() - i,
{
    if i + 1 < t.len() && t[i + 1].token is StarStar {
        lemma_pow_term(t, i + 2);
    }
}

/// A fold of multiplicative operands inside a term stops at an additive
/// operator that the term goes on after, or at the term's end.
pub proof fn lemma_mul_fold_term(t: Seq<SpannedToken>, acc: Expr, j: int)
    requires
        term_after(t, j),
        !(tok(t, j) is StarStar),
    ensures
        term_after(t, mul_fold(t, acc, j).1),
        !(tok(t, mul_fold(t, acc, j).1) is StarStar),
        mul_op(tok(t, mul_fold(t, acc, j).1)) is None,
    decreases t.len() + 2 - j,
{
    if 0 <= j < t.len() && mul_op(t[j].token) is Some {
        lemma_pow_end_bounds(t, j + 1);
        lemma_pow_term(t, j + 1);
        lemma_mul_fold_term(
            t,
            bin(acc, mul_op(t[j].token)->0, pow_tree(t, j + 1)),
            pow_end(t, j + 1),
        );
    }
}

/// A multiplicative term of a term stops at an additive operator or at the
/// term's end.
pub proof fn lemma_mul_level_term(t: Seq<SpannedToken>, i: int)
    requires
        term_from(t, i),
    ensures
        term_after(t, mul_level(t, i).1),
        add_op(tok(t, mul_level(t, i).1)) is Some || is_term_end(tok(t, mul_level(t, i).1)),
{
    lemma_pow_term(t, i);
    lemma_mul_fold_term(t, pow_tree(t, i), pow_end(t, i));
}

/// A fold of additive terms inside a term stops at the term's end.
pub proof fn lemma_add_fold_term(t: Seq<SpannedToken>, acc: Expr, j: int)
    requires
        term_after(t, j),
        add_op(tok(t, j)) is Some || is_term_end(tok(t, j)),
    ensures
        is_term_end(tok(t, add_fold(t, acc, j).1)),
        j <= add_fold(t, acc, j).1 <= t.len(),
    decreases t.len() + 2 - j,
{
    if 0 <= j < t.len() && add_op(t[j].token) is Some {
        lemma_mul_level_bounds(t, j + 1);
        lemma_mul_level_term(t, j + 1);
        lemma_add_fold_term(
            t,
            bin(acc, add_op(t[j].token)->0, mul_level(t, j + 1).0),
            mul_level(t, j + 1).1,
        );
    }
}

/// A term ends, after its first operand, where a chain or a comparison
/// operand may end.
pub proof fn lemma_term_tree_end(t: Seq<SpannedToken>, i: int)
    requires
        term_from(t, i),
    ensures
        is_term_end(tok(t, chain_tree(t, i).1)),
        i < chain_tree(t, i).1 <= t.len(),
{
    lemma_mul_level_bounds(t, i);
    lemma_mul_level_term(t, i);
    lemma_add_fold_term(t, mul_level(t, i).0, mul_level(t, i).1);
}

/// A comparison parsed from a chain, one of the tokens `<`, `>`, `<=` or
/// `>=`, and a chain carries the operator that token names: on any two
/// numbers it holds exactly when the token's relation does.
pub proof fn law_comparison_operator(t: Seq<SpannedToken>, i: int, a: int, b: int)
    requires
        comparison_form(t, i),
    ensures
        comparison_tree(t, i).0.kind matches ExprKind::Binary { op, .. } && compares(op, a, b) == match tok(
            t,
            chain_tree(t, i).1,
        ) {
            Token::Less => a < b,
            Token::Greater => a > b,
            Token::LessEqual => a <= b,
            Token::GreaterEqual => a >= b,
            _ => false,
        },
{
}

/// `T` of a single token. `let` may also be `const` or `var`.
pub open spec fn decl_head(t: Seq<SpannedToken>, i: int) -> Option<(int, Option<TypeAnnotation>)> {
    if (tok(t, i) is Let || tok(t, i) is Const || tok(t, i) is Var) && tok(t, i + 1) is Identifier {
        if tok(t, i + 2) is Assign {
            Some((i + 3, None))
        } else if tok(t, i + 2) is Colon && simple_type_kind(tok(t, i + 3)) is Some && tok(
            t,
            i + 4,
        ) is Assign {
            Some(
                (
                    i + 5,
                    Some(
                        TypeAnnotation {
                            kind: simple_type_kind(tok(t, i + 3))->0,
                            span: span_at(t, i + 3),
                        },
                    ),
                ),
            )
        } else {
            None
        }
    } else {
        None
    }
}

/// The span from the token at `i` to the one before `n`.
pub open spec fn span_between(t: Seq<SpannedToken>, i: int, n: int) -> Span {
    Span {
        start: t[i].span.start,
        end: t[n - 1].span.end,
        line: t[i].span.line,
        column: t[i].span.column,
    }
}

/// The index after the end `k` of a chain and its `;`, where it has one.
pub open spec fn after_semicolon(t: Seq<SpannedToken>, k: int) -> int {
    if tok(t, k) is Semicolon {
        k + 1
    } else {
        k
    }
}

/// The statement that starts at index `i` when it is an empty statement, an
/// expression statement of a chain, or a declaration of one name initialized
/// by a chain, and the index after it. An empty
/// statement carries the span of the token after its `;`; an expression
/// statement spans its chain and its `;`, where it has one.
pub open spec fn simple_stmt(t: Seq<SpannedToken>, i: int) -> Option<(Statement, int)> {
    if tok(t, i) is Semicolon {
        Some((Statement { kind: StmtKind::Empty, span: span_at(t, i + 1) }, i + 1))
    } else if plain_chain(t, i) {
        let (e, k) = chain_tree(t, i);
        let n = after_semicolon(t, k);
        Some((Statement { kind: StmtKind::Expression { expr: e }, span: span_between(t, i, n) }, n))
    } else if assign_form(t, i) {
        let k = chain_tree(t, i + 2).1;
        let n = after_semicolon(t, k);
        Some(
            (
                Statement {
                    kind: StmtKind::Expression { expr: assign_tree(t, i) },
                    span: span_between(t, i, n),
                },
                n,
            ),
        )
    } else if decl_head(t, i) is Some && plain_chain(t, (decl_head(t, i)->0).0) {
        let (j, type_ann) = decl_head(t, i)->0;
        let (e, k) = chain_tree(t, j);
        let n = after_semicolon(t, k);
        Some(
            (
                Statement {
                    kind: StmtKind::VariableDecl {
                        name: tok(t, i + 1)->Identifier_0,
                        is_const: tok(t, i) is Const,
                        type_ann,
                        initializer: Some(e),
                        is_exported: false,
                    },
                    span: span_between(t, i, n),
                },
                n,
            ),
        )
    } else if comparison_form(t, i) && !is_assign_op(tok(t, comparison_tree(t, i).1)) {
        let (e, k) = comparison_tree(t, i);
        let n = after_semicolon(t, k);
        Some((Statement { kind: StmtKind::Expression { expr: e }, span: span_between(t, i, n) }, n))
    } else if logic_form(t, i) && !is_assign_op(tok(t, logic_tree(t, i).1)) {
        let (e, k) = logic_tree(t, i);
        let n = after_semicolon(t, k);
        Some((Statement { kind: StmtKind::Expression { expr: e }, span: span_between(t, i, n) }, n))
    } else if decl_head(t, i) is Some && logic_form(t, (decl_head(t, i)->0).0) && !is_assign_op(
        tok(t, logic_tree(t, (decl_head(t, i)->0).0).1),
    ) {
        let (j, type_ann) = decl_head(t, i)->0;
        let (e, k) = logic_tree(t, j);
        let n = after_semicolon(t, k);
        Some(
            (
                Statement {
                    kind: StmtKind::VariableDecl {
                        name: tok(t, i + 1)->Identifier_0,
                        is_const: tok(t, i) is Const,
                        type_ann,
                        initializer: Some(e),
                        is_exported: false,
                    },
                    span: span_between(t, i, n),
                },
                n,
            ),
        )
    } else if equality_form(t, i) && !is_assign_op(tok(t, equality_tree(t, i).1)) {
        let (e, k) = equality_tree(t, i);
        let n = after_semicolon(t, k);
        Some((Statement { kind: StmtKind::Expression { expr: e }, span: span_between(t, i, n) }, n))
    } else if decl_head(t, i) is Some && equality_form(t, (decl_head(t, i)->0).0) && !is_assign_op(
        tok(t, equality_tree(t, (decl_head(t, i)->0).0).1),
    ) {
        let (j, type_ann) = decl_head(t, i)->0;
        let (e, k) = equality_tree(t, j);
        let n = after_semicolon(t, k);
        Some(
            (
                Statement {
                    kind: StmtKind::VariableDecl {
                        name: tok(t, i + 1)->Identifier_0,
                        is_const: tok(t, i) is Const,
                        type_ann,
                        initializer: Some(e),
                        is_exported: false,
                    },
                    span: span_between(t, i, n),
                },
                n,
            ),
        )
    } else if decl_head(t, i) is Some && comparison_form(t, (decl_head(t, i)->0).0) && !is_assign_op(
        tok(t, comparison_tree(t, (decl_head(t, i)->0).0).1),
    ) {
        let (j, type_ann) = decl_head(t, i)->0;
        let (e, k) = comparison_tree(t, j);
        let n = after_semicolon(t, k);
        Some(
            (
                Statement {
                    kind: StmtKind::VariableDecl {
                        name: tok(t, i + 1)->Identifier_0,
                        is_const: tok(t, i) is Const,
                        type_ann,
                        initializer: Some(e),
                        is_exported: false,
                    },
                    span: span_between(t, i, n),
                },
                n,
            ),
        )
    } else {
        None
    }
}

/// A comparison of two chains ends after its start and within the tokens,
/// at a token a chain ends at.
pub proof fn lemma_comparison_bounds(t: Seq<SpannedToken>, i: int)
    requires
        comparison_form(t, i),
    ensures
        i < comparison_tree(t, i).1 <= t.len(),
        is_chain_end(tok(t, comparison_tree(t, i).1)),
{
    lemma_term_tree_end(t, i);
    lemma_chain_tree_end(t, chain_tree(t, i).1 + 1);
    lemma_comparison_tree_parts(t, i);
}

/// An equality test of two chains ends after its start and within the
/// tokens, at a token a chain ends at.
pub proof fn lemma_equality_bounds(t: Seq<SpannedToken>, i: int)
    requires
        equality_form(t, i),
    ensures
        i < equality_tree(t, i).1 <= t.len(),
        is_chain_end(tok(t, equality_tree(t, i).1)),
{
    lemma_term_tree_end(t, i);
    lemma_chain_tree_end(t, chain_tree(t, i).1 + 1);
    lemma_equality_tree_parts(t, i);
}

/// An equality test parsed from a chain, one of the tokens `==`, `===`,
/// `!=` or `!==`, and a chain carries the operator that token names: it tests
/// for a difference exactly when the token starts with `!`, and compares
/// strictly exactly when the token has three characters.
pub proof fn law_equality_operator(t: Seq<SpannedToken>, i: int)
    requires
        equality_form(t, i),
    ensures
        equality_tree(t, i).0.kind matches ExprKind::Binary { op, .. } && negated(op) == (tok(
            t,
            chain_tree(t, i).1,
        ) is BangEqual || tok(t, chain_tree(t, i).1) is BangEqualEqual) && strict(op) == (tok(
            t,
            chain_tree(t, i).1,
        ) is EqualEqualEqual || tok(t, chain_tree(t, i).1) is BangEqualEqual),
{
}

/// A simple statement ends after its start and within the tokens.
pub proof fn lemma_simple_stmt_bounds(t: Seq<SpannedToken>, i: int)
    requires
        0 <= i,
        simple_stmt(t, i) is Some,
    ensures
        i < (simple_stmt(t, i)->0).1 <= t.len(),
{
    if !(tok(t, i) is Semicolon) {
        if plain_chain(t, i) {
            lemma_chain_tree_end(t, i);
        } else if assign_form(t, i) {
            lemma_chain_tree_end(t, i + 2);
        } else if decl_head(t, i) is Some && plain_chain(t, (decl_head(t, i)->0).0) {
            lemma_chain_tree_end(t, (decl_head(t, i)->0).0);
        } else if comparison_form(t, i) && !is_assign_op(tok(t, comparison_tree(t, i).1)) {
            lemma_comparison_bounds(t, i);
        } else if logic_form(t, i) && !is_assign_op(tok(t, logic_tree(t, i).1)) {
            lemma_logic_bounds(t, i);
        } else if decl_head(t, i) is Some && logic_form(t, (decl_head(t, i)->0).0) && !is_assign_op(
            tok(t, logic_tree(t, (decl_head(t, i)->0).0).1),
        ) {
            lemma_logic_bounds(t, (decl_head(t, i)->0).0);
        } else if equality_form(t, i) && !is_assign_op(tok(t, equality_tree(t, i).1)) {
            lemma_equality_bounds(t, i);
        } else if decl_head(t, i) is Some && equality_form(t, (decl_head(t, i)->0).0) && !is_assign_op(
            tok(t, equality_tree(t, (decl_head(t, i)->0).0).1),
        ) {
            lemma_equality_bounds(t, (decl_head(t, i)->0).0);
        } else {
            lemma_comparison_bounds(t, (decl_head(t, i)->0).0);
        }
    }
}

/// The statements from index `i` to the first `Eof` when each of them is an
/// empty statement or an expression statement of a chain.
pub open spec fn simple_program(t: Seq<SpannedToken>, i: int) -> Option<Seq<Statement>>
    decreases t.len() + 1 - i,
{
    if tok(t, i) is Eof {
        Some(Seq::empty())
    } else if 0 <= i && simple_stmt(t, i) is Some {
        proof {
            lemma_simple_stmt_bounds(t, i);
        }
        let (s, n) = simple_stmt(t, i)->0;
        match simple_program(t, n) {
            Some(rest) => Some(seq![s] + rest),
            None => None,
        }
    } else {
        None
    }
}

/// The elements of an array literal from index `j` on when each is a chain,
/// with `,` between them and `]` after the last, and the index after the `]`.
pub open spec fn array_items(t: Seq<SpannedToken>, j: int) -> Option<(Seq<Expr>, int)>
    decreases t.len() + 1 - j,
{
    if plain_chain(t, j) {
        proof {
            lemma_chain_tree_end(t, j);
        }
        let (e, k) = chain_tree(t, j);
        if tok(t, k) is Comma {
            match array_items(t, k + 1) {
                Some((rest, m)) => Some((seq![e] + rest, m)),
                None => None,
            }
        } else if tok(t, k) is RightBracket {
            Some((seq![e], k + 1))
        } else {
            None
        }
    } else {
        None
    }
}

/// The elements of the array literal that starts with the `[` at index `i`,
/// when it is empty or each element is a chain, and the index after its `]`.
pub open spec fn array_literal(t: Seq<SpannedToken>, i: int) -> Option<(Seq<Expr>, int)> {
    if tok(t, i) is LeftBracket {
        if tok(t, i + 1) is RightBracket {
            Some((Seq::empty(), i + 2))
        } else {
            array_items(t, i + 1)
        }
    } else {
        None
    }
}


/// The arguments of a call from index `j` on when each is a chain, with `,`
/// between them and `)` after the last, and the index after the `)`.
pub open spec fn call_items(t: Seq<SpannedToken>, j: int) -> Option<(Seq<Expr>, int)>
    decreases t.len() + 1 - j,
{
    if plain_chain(t, j) {
        proof {
            lemma_chain_tree_end(t, j);
        }
        let (e, k) = chain_tree(t, j);
        if tok(t, k) is Comma {
            match call_items(t, k + 1) {
                Some((rest, m)) => Some((seq![e] + rest, m)),
                None => None,
            }
        } else if tok(t, k) is RightParen {
            Some((seq![e], k + 1))
        } else {
            None
        }
    } else {
        None
    }
}

/// The arguments of a call that start at index `i`, just after its `(`,
/// when there are none or each is a chain, and the index after its `)`.
pub open spec fn call_args(t: Seq<SpannedToken>, i: int) -> Option<(Seq<Expr>, int)> {
    if tok(t, i) is RightParen {
        Some((Seq::empty(), i + 1))
    } else {
        call_items(t, i)
    }
}


/// The properties of an object literal from index `j` on when each is
/// `name: value` with a chain for its value, with `,` between them (and
/// after the last, if so written) and `}` at the end, and the index after
/// the `}`.
pub open spec fn obj_items(t: Seq<SpannedToken>, j: int) -> Option<(Seq<(Seq<char>, Expr)>, int)>
    decreases t.len() + 1 - j,
{
    if tok(t, j) is RightBrace {
        Some((Seq::empty(), j + 1))
    } else if tok(t, j) is Identifier && tok(t, j + 1) is Colon && plain_chain(t, j + 2) {
        proof {
            lemma_chain_tree_end(t, j + 2);
        }
        let (e, k) = chain_tree(t, j + 2);
        let item = (tok(t, j)->Identifier_0@, e);
        if tok(t, k) is Comma {
            match obj_items(t, k + 1) {
                Some((rest, m)) => Some((seq![item] + rest, m)),
                None => None,
            }
        } else if tok(t, k) is RightBrace {
            Some((seq![item], k + 1))
        } else {
            None
        }
    } else {
        None
    }
}

/// Whether the properties `ps` are the plain `name: value` ones `items`.
pub open spec fn props_match(ps: Seq<ObjectProperty>, items: Seq<(Seq<char>, Expr)>) -> bool {
    &&& ps.len() == items.len()
    &&& forall|i: int|
        0 <= i < ps.len() ==> (#[trigger] ps[i]).key@ == items[i].0 && ps[i].value == items[i].1
            && !ps[i].is_spread && ps[i].computed_key is None && !ps[i].is_method
}


/// The parameter names of an arrow function from index `j` on when each is a
/// bare name, with `,` between them, up to the `)` after the last, and the
/// index of that `)`.
pub open spec fn arrow_names(t: Seq<SpannedToken>, j: int) -> Option<(Seq<Seq<char>>, int)>
    decreases t.len() + 1 - j,
{
    if 0 <= j && tok(t, j) is Identifier {
        let n = tok(t, j)->Identifier_0@;
        if tok(t, j + 1) is Comma {
            match arrow_names(t, j + 2) {
                Some((rest, m)) => Some((seq![n] + rest, m)),
                None => None,
            }
        } else if tok(t, j + 1) is RightParen {
            Some((seq![n], j + 1))
        } else {
            None
        }
    } else {
        None
    }
}

/// The parameter names end at a `)`, after where they start.
pub proof fn lemma_arrow_names_end(t: Seq<SpannedToken>, j: int)
    requires
        arrow_names(t, j) is Some,
    ensures
        tok(t, (arrow_names(t, j)->0).1) is RightParen,
        j < (arrow_names(t, j)->0).1,
    decreases t.len() + 1 - j,
{
    if tok(t, j + 1) is Comma {
        lemma_arrow_names_end(t, j + 2);
    }
}

/// The names of an array destructuring pattern from index `j` on, separated
/// by `,`, and the index of the `]` that closes it.
pub open spec fn arr_names(t: Seq<SpannedToken>, j: int) -> Option<(Seq<Seq<char>>, int)>
    decreases t.len() + 1 - j,
{
    if tok(t, j) is RightBracket {
        Some((Seq::empty(), j))
    } else if 0 <= j && tok(t, j) is Identifier {
        let n = tok(t, j)->Identifier_0@;
        if tok(t, j + 1) is Comma {
            match arr_names(t, j + 2) {
                Some((rest, c)) => Some((seq![n] + rest, c)),
                None => None,
            }
        } else if tok(t, j + 1) is RightBracket {
            Some((seq![n], j + 1))
        } else {
            None
        }
    } else {
        None
    }
}

/// The (binding name, key) pairs of an object destructuring pattern from
/// index `j` on: `key` binds `key`, `key: name` binds `name`; separated by
/// `,`, and the index of the `}` that closes it.
pub open spec fn obj_names(t: Seq<SpannedToken>, j: int) -> Option<(Seq<(Seq<char>, Seq<char>)>, int)>
    decreases t.len() + 1 - j,
{
    if tok(t, j) is RightBrace {
        Some((Seq::empty(), j))
    } else if 0 <= j && tok(t, j) is Identifier {
        let k = tok(t, j)->Identifier_0@;
        let renamed = tok(t, j + 1) is Colon && tok(t, j + 2) is Identifier;
        let pair = if renamed {
            (tok(t, j + 2)->Identifier_0@, k)
        } else {
            (k, k)
        };
        let next = if renamed {
            j + 3
        } else {
            j + 1
        };
        if tok(t, next) is Comma {
            match obj_names(t, next + 1) {
                Some((rest, c)) => Some((seq![pair] + rest, c)),
                None => None,
            }
        } else if tok(t, next) is RightBrace {
            Some((seq![pair], next))
        } else {
            None
        }
    } else {
        None
    }
}

/// Where the initializer of a destructuring declaration at index `i`
/// begins: `let [..] = ` or `let {..} = ` (or `const`, `var`), the pattern
/// as `arr_names` or `obj_names` reads it.
pub open spec fn destr_init(t: Seq<SpannedToken>, i: int) -> Option<int> {
    if (tok(t, i) is Let || tok(t, i) is Const || tok(t, i) is Var) {
        if tok(t, i + 1) is LeftBracket && arr_names(t, i + 2) is Some && tok(t, (arr_names(t, i + 2)->0).1 + 1) is Assign {
            Some((arr_names(t, i + 2)->0).1 + 2)
        } else if tok(t, i + 1) is LeftBrace && obj_names(t, i + 2) is Some && tok(t, (obj_names(t, i + 2)->0).1 + 1) is Assign {
            Some((obj_names(t, i + 2)->0).1 + 2)
        } else {
            None
        }
    } else {
        None
    }
}

/// Whether `st` is the destructuring declaration the tokens at `i` make,
/// with a chain for its initializer, ending at index `n`.
pub open spec fn destr_stmt(t: Seq<SpannedToken>, i: int, st: Statement, n: int) -> bool {
    &&& destr_init(t, i) matches Some(j)
    &&& plain_chain(t, j)
    &&& n == after_semicolon(t, chain_tree(t, j).1)
    &&& st.span == span_between(t, i, n)
    &&& if tok(t, i + 1) is LeftBracket {
        st.kind matches StmtKind::ArrayDestructure { names, initializer, is_const }
            && initializer == chain_tree(t, j).0 && is_const == (tok(t, i) is Const)
            && names@.len() == (arr_names(t, i + 2)->0).0.len() && forall|q: int|
            0 <= q < names@.len() ==> (#[trigger] names@[q])@ == (arr_names(t, i + 2)->0).0[q]
    } else {
        st.kind matches StmtKind::ObjectDestructure { names, initializer, is_const }
            && initializer == chain_tree(t, j).0 && is_const == (tok(t, i) is Const)
            && names@.len() == (obj_names(t, i + 2)->0).0.len() && forall|q: int|
            0 <= q < names@.len() ==> (#[trigger] names@[q]).0@ == (obj_names(t, i + 2)->0).0[q].0
                && names@[q].1@ == (obj_names(t, i + 2)->0).0[q].1
    }
}

/// Whether the tokens at `i` open an `if` or `while` whose condition is a
/// chain in parentheses followed by a `{`; the index of that `{`.
pub open spec fn cond_head(t: Seq<SpannedToken>, i: int) -> Option<int> {
    if (tok(t, i) is If || tok(t, i) is While) && tok(t, i + 1) is LeftParen && plain_chain(t, i + 2)
        && tok(t, chain_tree(t, i + 2).1) is RightParen && tok(t, chain_tree(t, i + 2).1 + 1) is LeftBrace {
        Some(chain_tree(t, i + 2).1 + 1)
    } else {
        None
    }
}

/// The index after the statement that starts at index `i`, when it is a
/// simple statement (`simple_stmt`), a braced block, or an `if` (with an
/// optional braced `else`) or `while` whose condition is a chain and whose
/// bodies are braced; the statements in blocks and bodies are again of these
/// forms.
pub open spec fn stmt_shape(t: Seq<SpannedToken>, i: int) -> Option<int>
    decreases t.len() + 1 - i, 0nat,
{
    if i < 0 || i >= t.len() {
        None
    } else if simple_stmt(t, i) is Some {
        Some((simple_stmt(t, i)->0).1)
    } else if tok(t, i) is LeftBrace {
        block_shape(t, i + 1)
    } else if destr_init(t, i) is Some && plain_chain(t, destr_init(t, i)->0) {
        Some(after_semicolon(t, chain_tree(t, destr_init(t, i)->0).1))
    } else if cond_head(t, i) is Some {
        proof {
            lemma_chain_tree_end(t, i + 2);
        }
        let b = cond_head(t, i)->0;
        match block_shape(t, b + 1) {
            Some(m) => if tok(t, i) is If && tok(t, m) is Else {
                if tok(t, m + 1) is LeftBrace && i < m && m + 2 <= t.len() {
                    block_shape(t, m + 2)
                } else {
                    None
                }
            } else {
                Some(m)
            },
            None => None,
        }
    } else {
        None
    }
}

/// The index after the `}` that closes a block whose statements start at
/// index `j`, each of the forms `stmt_shape` describes.
pub open spec fn block_shape(t: Seq<SpannedToken>, j: int) -> Option<int>
    decreases t.len() + 1 - j, 1nat,
{
    if j < 0 || j >= t.len() {
        None
    } else if tok(t, j) is RightBrace {
        Some(j + 1)
    } else {
        match stmt_shape(t, j) {
            Some(k) => if j < k <= t.len() {
                block_shape(t, k)
            } else {
                None
            },
            None => None,
        }
    }
}

/// The index after the statements from index `i` to the first `Eof`, each
/// of the forms `stmt_shape` describes.
pub open spec fn prog_shape(t: Seq<SpannedToken>, i: int) -> Option<int>
    decreases t.len() + 1 - i,
{
    if tok(t, i) is Eof {
        Some(i)
    } else if 0 <= i < t.len() {
        match stmt_shape(t, i) {
            Some(k) => if i < k <= t.len() {
                prog_shape(t, k)
            } else {
                None
            },
            None => None,
        }
    } else {
        None
    }
}

/// The index after statement `st` when it is the statement of a form
/// `stmt_shape` describes that the tokens at index `i` make: the simple
/// statement there; a block of the statements there; an `if` or `while`
/// whose condition is the chain there and whose bodies are the statements
/// there; each spanning its tokens.
pub open spec fn stmt_end(t: Seq<SpannedToken>, i: int, st: Statement) -> Option<int>
    decreases st, 0nat,
{
    if simple_stmt(t, i) is Some {
        if st == (simple_stmt(t, i)->0).0 {
            Some((simple_stmt(t, i)->0).1)
        } else {
            None
        }
    } else if tok(t, i) is LeftBrace {
        match st.kind {
            StmtKind::Block { statements } => match block_end(t, i + 1, statements@) {
                Some(m) => if st.span == span_between(t, i, m) {
                    Some(m)
                } else {
                    None
                },
                None => None,
            },
            _ => None,
        }
    } else if destr_init(t, i) is Some && plain_chain(t, destr_init(t, i)->0) {
        let n = after_semicolon(t, chain_tree(t, destr_init(t, i)->0).1);
        if destr_stmt(t, i, st, n) {
            Some(n)
        } else {
            None
        }
    } else if cond_head(t, i) is Some {
        let b = cond_head(t, i)->0;
        let c = chain_tree(t, i + 2).0;
        match st.kind {
            StmtKind::If { condition, then_branch, else_branch } => if tok(t, i) is If && condition == c {
                match block_end(t, b + 1, then_branch@) {
                    Some(m) => if tok(t, m) is Else {
                        match else_branch {
                            Some(eb) => if tok(t, m + 1) is LeftBrace {
                                match block_end(t, m + 2, eb@) {
                                    Some(m2) => if st.span == span_between(t, i, m2) {
                                        Some(m2)
                                    } else {
                                        None
                                    },
                                    None => None,
                                }
                            } else {
                                None
                            },
                            None => None,
                        }
                    } else if else_branch is None && st.span == span_between(t, i, m) {
                        Some(m)
                    } else {
                        None
                    },
                    None => None,
                }
            } else {
                None
            },
            StmtKind::While { condition, body } => if tok(t, i) is While && condition == c {
                match block_end(t, b + 1, body@) {
                    Some(m) => if st.span == span_between(t, i, m) {
                        Some(m)
                    } else {
                        None
                    },
                    None => None,
                }
            } else {
                None
            },
            _ => None,
        }
    } else {
        None
    }
}

/// The index after statements `ss` read one after another from index `j`,
/// each by `stmt_end`.
pub open spec fn items_end(t: Seq<SpannedToken>, j: int, ss: Seq<Statement>) -> Option<int>
    decreases ss, 0nat,
{
    if ss.len() == 0 {
        Some(j)
    } else {
        match stmt_end(t, j, ss[0]) {
            Some(k) => items_end(t, k, ss.drop_first()),
            None => None,
        }
    }
}

/// The index after the `}` that closes a block whose statements, read from
/// index `j`, are `ss`.
pub open spec fn block_end(t: Seq<SpannedToken>, j: int, ss: Seq<Statement>) -> Option<int>
    decreases ss, 1nat,
{
    match items_end(t, j, ss) {
        Some(c) => if tok(t, c) is RightBrace {
            Some(c + 1)
        } else {
            None
        },
        None => None,
    }
}

/// Reading one more statement extends what was read.
pub proof fn lemma_items_end_push(t: Seq<SpannedToken>, j: int, pre: Seq<Statement>, s: Statement)
    ensures
        items_end(t, j, pre.push(s)) == match items_end(t, j, pre) {
            Some(c) => stmt_end(t, c, s),
            None => None,
        },
    decreases pre.len(),
{
    reveal_with_fuel(items_end, 2);
    if pre.len() == 0 {
        assert(pre.push(s).drop_first() =~= Seq::<Statement>::empty());
    } else {
        assert(pre.push(s)[0] == pre[0]);
        assert(pre.push(s).drop_first() =~= pre.drop_first().push(s));
        match stmt_end(t, j, pre[0]) {
            Some(k) => {
                lemma_items_end_push(t, k, pre.drop_first(), s);
            },
            None => {},
        }
    }
}

} // verus!
