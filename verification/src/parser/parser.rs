//! Recursive-descent parser with precedence climbing for expressions.
use vstd::prelude::*;

use crate::diagnostics::{CompileError, Severity};
use crate::lexer::token::{Span, SpannedToken, Token};
use crate::parser::ast::{
    ArrowBody, BinOp, ClassConstructor, ClassField, ClassMethod, EnumMember, EnumValue, Expr,
    ExprKind, ImportSpecifier, ObjectProperty, Parameter, Program, Statement, StmtKind,
    SwitchCase, TypeAnnKind, TypeAnnotation, TypeParam, UnaryOp, UpdateOp,
};
use crate::parser::copy::{copy_opt_type_ann, copy_params};
use crate::parser::grammar::{
    add_fold, add_op, array_items, array_literal, assign_form, assign_tree, chain_after, compound_op,
    is_assign_op, plain_chain, chain_from, decl_head, chain_tree, is_chain_end, lemma_chain_tree_end,
    lemma_mul_level_chain, lemma_pow_chain, mul_fold, mul_level, mul_op, operand_expr, pow_end,
    pow_tree, simple_program, simple_stmt, span_at, span_between, tok, call_args, call_items,
    obj_items, props_match, arrow_names, lemma_arrow_names_end, block_shape, stmt_shape,
    stmt_end, block_end, items_end, lemma_items_end_push, cond_head, prog_shape, destr_init,
    destr_stmt, arr_names, obj_names, comparison_form, comparison_tree, comparison_op, term_from, term_after,
    is_term_end, lemma_chain_is_term, lemma_pow_term, lemma_mul_level_term, lemma_term_tree_end, bin,
    lemma_comparison_tree_parts, equality_form, equality_tree, equality_op,
    lemma_equality_tree_parts, lemma_equality_bounds, logic_op, logic_rank, logic_form, logic_tree,
    lemma_logic_tree_parts, lemma_logic_bounds,
};
use crate::text::{eq_str, string_of};

verus! {

/// The message refusing `await` outside an async function.
pub open spec fn await_message() -> Seq<char> {
    "'await' can only be used inside an async function"@
}

/// What every parse error is: an error-severity diagnostic without a hint.
pub open spec fn parse_error(e: CompileError) -> bool {
    e.severity == Severity::Error && e.hint is None
}

/// The expression a literal token (or `this`) stands for.
pub open spec fn literal_kind(t: Token) -> Option<ExprKind> {
    match t {
        Token::Number(n) => Some(ExprKind::NumberLiteral(n)),
        Token::String(s) => Some(ExprKind::StringLiteral(s)),
        Token::True => Some(ExprKind::BooleanLiteral(true)),
        Token::False => Some(ExprKind::BooleanLiteral(false)),
        Token::Null => Some(ExprKind::NullLiteral),
        Token::Undefined => Some(ExprKind::UndefinedLiteral),
        Token::This => Some(ExprKind::This),
        _ => None,
    }
}

/// The statement forms that can start with token `t`.
pub open spec fn statement_form(t: Token, k: StmtKind) -> bool {
    match t {
        Token::Semicolon => k is Empty,
        Token::Let | Token::Const | Token::Var => (k matches StmtKind::VariableDecl {
            is_exported: false,
            ..
        }) || k is ArrayDestructure || k is ObjectDestructure,
        Token::Function => k matches StmtKind::FunctionDecl { is_exported: false, is_async: false, .. },
        Token::Async => (k matches StmtKind::FunctionDecl { is_exported: false, is_async: true, .. })
            || k is Expression,
        Token::Class => k is ClassDecl,
        Token::Interface => k is InterfaceDecl,
        Token::Enum => k is EnumDecl,
        Token::If => k is If,
        Token::While => k is While,
        Token::Do => k is DoWhile,
        Token::For => k is For || k is ForOf || k is ForIn,
        Token::Switch => k is Switch,
        Token::Return => k is Return,
        Token::Break => k is Break,
        Token::Continue => k is Continue,
        Token::LeftBrace => k is Block,
        Token::Import => k is Import,
        Token::Export => (k matches StmtKind::FunctionDecl { is_exported: true, .. }) || (k matches StmtKind::VariableDecl {
            is_exported: true,
            ..
        }) || k is ArrayDestructure || k is ObjectDestructure || k is Expression,
        Token::Throw => k is Throw,
        Token::Try => k is TryCatch,
        Token::Identifier(_) => k is TypeAlias || k is Labeled || k is Expression,
        _ => k is Expression,
    }
}

/// `stmts` were parsed from the tokens between `from` and `to`, the `i`th
/// starting at `starts[i]`: the starts increase from `from`, and each
/// statement has a form its first token can start.
pub open spec fn statements_start(
    toks: Seq<SpannedToken>,
    stmts: Seq<Statement>,
    starts: Seq<int>,
    from: int,
    to: int,
) -> bool {
    &&& starts.len() == stmts.len()
    &&& starts.len() > 0 ==> starts[0] == from
    &&& forall|i: int|
        0 <= i < starts.len() ==> from <= #[trigger] starts[i] < to && starts[i] < toks.len()
            && statement_form(toks[starts[i]].token, stmts[i].kind)
    &&& forall|i: int, j: int| 0 <= i < j < starts.len() ==> starts[i] < starts[j]
}

/// Kind code of `Token::Identifier`.
const IDENT_KIND: u8 = 6;

pub struct Parser {
    tokens: Vec<SpannedToken>,
    current: usize,
    /// Depth of async function nesting — await is only valid when > 0
    async_depth: usize,
}

impl Parser {
    pub closed spec fn wf(&self) -> bool {
        &&& self.current <= self.tokens@.len()
        &&& self.async_depth <= self.current
    }

    /// The tokens being parsed.
    pub closed spec fn token_seq(&self) -> Seq<SpannedToken> {
        self.tokens@
    }

    /// Index of the next token to read.
    pub closed spec fn position(&self) -> nat {
        self.current as nat
    }

    /// The next token, or `Eof` past the end of the tokens.
    pub closed spec fn peek_spec(&self) -> Token {
        if self.current < self.tokens@.len() {
            self.tokens@[self.current as int].token
        } else {
            Token::Eof
        }
    }

    /// The token `k` places after the next one, or `Eof` past the end of the tokens.
    pub closed spec fn peek_at(&self, k: int) -> Token {
        if 0 <= self.current + k < self.tokens@.len() {
            self.tokens@[self.current + k].token
        } else {
            Token::Eof
        }
    }

    /// Whether parsing has reached an `Eof` token or the end of the tokens.
    pub closed spec fn at_end(&self) -> bool {
        self.peek_spec() is Eof
    }

    spec fn outcome<T>(o: Parser, n: Parser, r: Result<T, CompileError>) -> bool {
        &&& n.wf()
        &&& n.tokens == o.tokens
        &&& o.current <= n.current
        &&& match r {
            Ok(_) => n.async_depth == o.async_depth,
            Err(e) => parse_error(e),
        }
    }

    /// Whether the tokens from the next one on start with a chain.
    pub closed spec fn on_chain(&self) -> bool {
        chain_from(self.tokens@, self.current as int)
    }

    /// Whether the tokens from the next one on make a chain that ends where
    /// an operand of a comparison may end (`term_from`).
    pub closed spec fn on_term(&self) -> bool {
        term_from(self.tokens@, self.current as int)
    }

    /// Whether the parser stands inside an async function, where `await` is allowed.
    pub closed spec fn in_async(&self) -> bool {
        self.async_depth > 0
    }

    /// An `await` where it is not allowed is refused at its token.
    pub open spec fn await_refused<T>(o: Parser, r: Result<T, CompileError>) -> bool {
        tok(o.token_seq(), o.position() as int) is Await && !o.in_async() ==> (r matches Err(e) && e.message@
            == await_message() && e.span == span_at(o.token_seq(), o.position() as int))
    }

    /// A chain at the start gives its tree, read up to its end.
    spec fn compared_parsed(o: Parser, n: Parser, r: Result<Expr, CompileError>) -> bool {
        comparison_form(o.tokens@, o.current as int) ==> {
            &&& r == Ok::<Expr, CompileError>(comparison_tree(o.tokens@, o.current as int).0)
            &&& n.current == comparison_tree(o.tokens@, o.current as int).1
            &&& is_chain_end(tok(o.tokens@, n.current as int))
        }
    }

    /// Two chains joined by a logical operator that binds at most as
    /// loosely as rank `lo` give their tree, read up to its end.
    spec fn logic_parsed(o: Parser, n: Parser, r: Result<Expr, CompileError>, lo: int) -> bool {
        logic_form(o.tokens@, o.current as int) && logic_rank(
            tok(o.tokens@, chain_tree(o.tokens@, o.current as int).1),
        ) <= lo ==> {
            &&& r == Ok::<Expr, CompileError>(logic_tree(o.tokens@, o.current as int).0)
            &&& n.current == logic_tree(o.tokens@, o.current as int).1
            &&& is_chain_end(tok(o.tokens@, n.current as int))
        }
    }

    /// A chain that a logical operator binding more loosely than rank `lo`
    /// follows is read alone, up to that operator.
    spec fn logic_passed(o: Parser, n: Parser, r: Result<Expr, CompileError>, lo: int) -> bool {
        term_from(o.tokens@, o.current as int) && logic_op(
            tok(o.tokens@, chain_tree(o.tokens@, o.current as int).1),
        ) is Some && logic_rank(tok(o.tokens@, chain_tree(o.tokens@, o.current as int).1)) > lo ==> {
            &&& r == Ok::<Expr, CompileError>(chain_tree(o.tokens@, o.current as int).0)
            &&& n.current == chain_tree(o.tokens@, o.current as int).1
        }
    }

    /// Two chains joined by a logical operator, with no assignment operator
    /// after them, give their tree, read up to its end.
    spec fn logic_plain(o: Parser, n: Parser, r: Result<Expr, CompileError>) -> bool {
        logic_form(o.tokens@, o.current as int) && !is_assign_op(
            tok(o.tokens@, logic_tree(o.tokens@, o.current as int).1),
        ) ==> {
            &&& r == Ok::<Expr, CompileError>(logic_tree(o.tokens@, o.current as int).0)
            &&& n.current == logic_tree(o.tokens@, o.current as int).1
        }
    }

    spec fn equality_parsed(o: Parser, n: Parser, r: Result<Expr, CompileError>) -> bool {
        equality_form(o.tokens@, o.current as int) ==> {
            &&& r == Ok::<Expr, CompileError>(equality_tree(o.tokens@, o.current as int).0)
            &&& n.current == equality_tree(o.tokens@, o.current as int).1
            &&& is_chain_end(tok(o.tokens@, n.current as int))
        }
    }

    /// Two chains tested for equality, with no assignment operator after
    /// them, give their test's tree, read up to its end.
    spec fn equality_plain(o: Parser, n: Parser, r: Result<Expr, CompileError>) -> bool {
        equality_form(o.tokens@, o.current as int) && !is_assign_op(
            tok(o.tokens@, equality_tree(o.tokens@, o.current as int).1),
        ) ==> {
            &&& r == Ok::<Expr, CompileError>(equality_tree(o.tokens@, o.current as int).0)
            &&& n.current == equality_tree(o.tokens@, o.current as int).1
        }
    }

    /// Two chains compared, with no assignment operator after them, give
    /// their comparison's tree, read up to its end.
    spec fn compared_plain(o: Parser, n: Parser, r: Result<Expr, CompileError>) -> bool {
        comparison_form(o.tokens@, o.current as int) && !is_assign_op(
            tok(o.tokens@, comparison_tree(o.tokens@, o.current as int).1),
        ) ==> {
            &&& r == Ok::<Expr, CompileError>(comparison_tree(o.tokens@, o.current as int).0)
            &&& n.current == comparison_tree(o.tokens@, o.current as int).1
        }
    }

    spec fn chain_parsed(o: Parser, n: Parser, r: Result<Expr, CompileError>) -> bool {
        o.on_chain() ==> {
            &&& r == Ok::<Expr, CompileError>(chain_tree(o.tokens@, o.current as int).0)
            &&& n.current == chain_tree(o.tokens@, o.current as int).1
            &&& is_chain_end(tok(o.tokens@, n.current as int))
        }
    }

    /// A chain at the start that no assignment operator follows gives its
    /// tree, read up to its end.
    spec fn plain_parsed(o: Parser, n: Parser, r: Result<Expr, CompileError>) -> bool {
        plain_chain(o.tokens@, o.current as int) ==> {
            &&& r == Ok::<Expr, CompileError>(chain_tree(o.tokens@, o.current as int).0)
            &&& n.current == chain_tree(o.tokens@, o.current as int).1
            &&& is_chain_end(tok(o.tokens@, n.current as int))
        }
    }

    /// An assignment to a name at the start gives its tree, read up to the
    /// end of its value; an assignment to a literal is refused at the literal.
    pub open spec fn assign_parsed<T>(o: Parser, r: Result<T, CompileError>) -> bool {
        let t = o.token_seq();
        let i = o.position() as int;
        &&& literal_kind(tok(t, i)) is Some && tok(t, i + 1) is Assign && plain_chain(t, i + 2)
            ==> (r matches Err(e) && e.message@ == "Invalid assignment target"@ && e.span
            == span_at(t, i))
        &&& literal_kind(tok(t, i)) is Some && compound_op(tok(t, i + 1)) is Some && plain_chain(
            t,
            i + 2,
        ) ==> (r matches Err(e) && e.message@ == "Invalid compound assignment target"@ && e.span
            == span_at(t, i))
    }

    /// An operand of a chain at the start gives its expression alone.
    spec fn operand_parsed(o: Parser, n: Parser, r: Result<Expr, CompileError>) -> bool {
        &&& o.on_chain() ==> {
            &&& r == Ok::<Expr, CompileError>(operand_expr(o.tokens@, o.current as int))
            &&& n.current == o.current + 1
        }
        &&& o.on_term() ==> {
            &&& r == Ok::<Expr, CompileError>(operand_expr(o.tokens@, o.current as int))
            &&& n.current == o.current + 1
        }
    }

    spec fn progress<T>(o: Parser, n: Parser, r: Result<T, CompileError>) -> bool {
        r is Ok ==> n.current > o.current
    }

    spec fn type_outcome<T>(o: Parser, n: Parser, r: Result<T, CompileError>) -> bool {
        &&& Self::outcome(o, n, r)
        &&& Self::progress(o, n, r)
        &&& n.async_depth == o.async_depth
    }

    pub fn new(tokens: Vec<SpannedToken>) -> (r: Self)
        ensures
            r.wf(),
            r.token_seq() == tokens@,
            r.position() == 0,
            !r.in_async(),
            tokens@.len() > 0 && tokens@[0].token is Eof ==> r.at_end(),
    {
        Self { tokens, current: 0, async_depth: 0 }
    }

    /// Parses statements until the end of the tokens. On success every token
    /// before the first `Eof` has been consumed, and the statements were read
    /// one after another from there, each starting with a token that can start
    /// its form (`statement_form`); at the end already, the program is empty.
    /// Where the tokens make a program that `simple_program` describes, the
    /// parse succeeds with exactly its statements; an `await` outside an async
    /// function, and an assignment to a literal, are refused with their messages.
    pub fn parse(&mut self) -> (r: Result<Program, CompileError>)
        requires
            old(self).wf(),
        ensures
            final(self).wf(),
            final(self).token_seq() == old(self).token_seq(),
            final(self).position() >= old(self).position(),
            match r {
                Ok(_) => final(self).at_end(),
                Err(e) => parse_error(e),
            },
            old(self).at_end() ==> (r matches Ok(p) && p.statements@.len() == 0),
            r is Ok ==> exists|starts: Seq<int>|
                #[trigger] statements_start(
                    old(self).token_seq(),
                    r->Ok_0.statements@,
                    starts,
                    old(self).position() as int,
                    final(self).position() as int,
                ),
            simple_program(old(self).token_seq(), old(self).position() as int) matches Some(ss) ==> (
            r matches Ok(p) && p.statements@ == ss),
            prog_shape(old(self).token_seq(), old(self).position() as int) matches Some(n) ==> (
            r matches Ok(p) && items_end(old(self).token_seq(), old(self).position() as int, p.statements@)
                == Some(n)),
            Self::await_refused(*old(self), r),
            Self::assign_parsed(*old(self), r),
    {
        let mut statements: Vec<Statement> = Vec::new();
        let ghost mut starts: Seq<int> = Seq::empty();
        let ghost t = self.tokens@;
        let ghost p0 = self.current as int;
        let ghost ps = prog_shape(t, p0);
        while !self.is_at_end()
            invariant
                self.wf(),
                self.tokens == old(self).tokens,
                self.current >= old(self).current,
                old(self).at_end() ==> self.current == old(self).current && statements@.len() == 0,
                self.async_depth == old(self).async_depth,
                old(self).peek_spec() is Await && !old(self).in_async() ==> statements@.len() == 0,
                literal_kind(old(self).peek_spec()) is Some && is_assign_op(
                    tok(old(self).tokens@, old(self).current + 1),
                ) && plain_chain(old(self).tokens@, old(self).current + 2) ==> statements@.len() == 0,
                statements@.len() == 0 ==> self.current == old(self).current,
                statements_start(
                    self.tokens@,
                    statements@,
                    starts,
                    old(self).current as int,
                    self.current as int,
                ),
                simple_program(self.tokens@, old(self).current as int) is Some ==> (simple_program(
                    self.tokens@,
                    self.current as int,
                ) is Some && statements@ + simple_program(self.tokens@, self.current as int)->0
                    == simple_program(self.tokens@, old(self).current as int)->0),
                t == self.tokens@,
                p0 == old(self).current,
                ps == prog_shape(t, p0),
                ps is Some ==> (items_end(t, p0, statements@) == Some(self.current as int) && prog_shape(
                    t,
                    self.current as int,
                ) == ps),
            decreases self.tokens@.len() - self.current,
        {
            let ghost pos = self.current as int;
            proof {
                if ps is Some {
                    assert(self.peek_spec() == tok(t, pos));
                }
            }
            let ghost before = *self;
            let ghost old_starts = starts;
            let ghost old_stmts = statements@;
            let s = match self.statement() {
                Ok(s) => s,
                Err(e) => {
                    return Err(e);
                },
            };
            statements.push(s);
            proof {
                if ps is Some {
                    lemma_items_end_push(t, p0, old_stmts, s);
                }
                if simple_program(self.tokens@, old(self).current as int) is Some {
                    let rest = simple_program(self.tokens@, self.current as int)->0;
                    assert(statements@ + rest =~= old_stmts + simple_program(self.tokens@, pos)->0);
                }
                assert(pos < self.tokens@.len());
                assert(before.peek_spec() == self.tokens@[pos].token);
                starts = starts.push(pos);
                assert forall|i: int| 0 <= i < starts.len() implies old(self).current <= #[trigger] starts[i]
                    < self.current && starts[i] < self.tokens@.len() && statement_form(
                    self.tokens@[starts[i]].token,
                    statements@[i].kind,
                ) by {
                    if i < old_starts.len() {
                        assert(starts[i] == old_starts[i]);
                        assert(statements@[i] == old_stmts[i]);
                    }
                }
            }
        }
        proof {
            if ps is Some {
                assert(self.peek_spec() == tok(t, self.current as int));
            }
        }
        let program = Program { statements };
        let r: Result<Program, CompileError> = Ok(program);
        assert(statements_start(
            old(self).token_seq(),
            r->Ok_0.statements@,
            starts,
            old(self).position() as int,
            self.position() as int,
        ));
        assert(exists|st: Seq<int>|
            #[trigger] statements_start(
                old(self).token_seq(),
                r->Ok_0.statements@,
                st,
                old(self).position() as int,
                self.position() as int,
            ));
        r
    }

    // --- Statements ---

    #[verifier::rlimit(100)]
    fn statement(&mut self) -> (r: Result<Statement, CompileError>)
        requires
            old(self).wf(),
        ensures
            Self::assign_parsed(*old(self), r),
            Self::await_refused(*old(self), r),
            Self::outcome(*old(self), *final(self), r),
            Self::progress(*old(self), *final(self), r),
            old(self).peek_spec() is Semicolon ==> (r matches Ok(st) && st.kind is Empty),
            r matches Ok(st) ==> statement_form(old(self).peek_spec(), st.kind),
            simple_stmt(old(self).tokens@, old(self).current as int) matches Some((st, n)) ==> (r
                == Ok::<Statement, CompileError>(st) && final(self).current == n),
            stmt_shape(old(self).tokens@, old(self).current as int) matches Some(n) ==> (r matches Ok(
                st,
            ) && stmt_end(old(self).tokens@, old(self).current as int, st) == Some(n) && final(self).current
                == n),
        decreases old(self).tokens@.len() - old(self).current, 39nat,
    {
        // Empty statement — bare semicolons are valid TypeScript
        if self.match_token(&Token::Semicolon) {
            return Ok(Statement { kind: StmtKind::Empty, span: self.current_span() });
        }

        match self.peek_token() {
            Token::Let | Token::Const | Token::Var => self.variable_declaration(false),
            Token::Function => self.function_declaration(false, false),
            Token::Async => self.async_declaration(false),
            Token::Class => self.class_declaration(),
            Token::Interface => self.interface_declaration(),
            Token::Enum => self.enum_declaration(),
            Token::If => self.if_statement(),
            Token::While => self.while_statement(),
            Token::Do => self.do_while_statement(),
            Token::For => self.for_statement(),
            Token::Switch => self.switch_statement(),
            Token::Return => self.return_statement(),
            Token::Break => self.break_statement(),
            Token::Continue => self.continue_statement(),
            Token::LeftBrace => self.block_statement(),
            Token::Import => self.import_declaration(),
            Token::Export => self.export_declaration(),
            Token::Throw => self.throw_statement(),
            Token::Try => self.try_statement(),
            Token::Identifier(name) => {
                if eq_str(&name, "type") {
                    // type alias: type X = Y (contextual keyword)
                    if self.kind_at(1) == IDENT_KIND {
                        self.type_alias_declaration()
                    } else {
                        self.expression_statement()
                    }
                } else {
                    let k2 = self.kind_at(2);
                    if self.kind_at(1) == 83 && (k2 == 15 || k2 == 14 || k2 == 20) {
                        // Labeled loop: identifier ':' for/while/do
                        let label = self.expect_identifier("Expected label")?;
                        self.advance();  // consume ':'
                        let inner = self.statement()?;
                        let span = inner.span;
                        Ok(Statement {
                            span,
                            kind: StmtKind::Labeled { label, body: Box::new(inner) },
                        })
                    } else {
                        self.expression_statement()
                    }
                }
            },
            _ => self.expression_statement(),
        }
    }

    /// Reads the names of an array destructuring pattern, its `[` read, up
    /// to and including its `]`.
    fn array_pattern(&mut self) -> (r: Result<Vec<String>, CompileError>)
        requires
            old(self).wf(),
        ensures
            Self::outcome(*old(self), *final(self), r),
            final(self).async_depth == old(self).async_depth,
            arr_names(old(self).tokens@, old(self).current as int) matches Some((ns, c)) ==> (r matches Ok(
                names,
            ) && names@.len() == ns.len() && (forall|q: int|
                0 <= q < names@.len() ==> (#[trigger] names@[q])@ == ns[q]) && final(self).current == c
                + 1),
    {
        let mut names: Vec<String> = Vec::new();
        let ghost t = self.tokens@;
        let ghost i0 = self.current as int;
        let ghost da = arr_names(t, i0) is Some;
        let ghost ns = (arr_names(t, i0)->0).0;
        let ghost c0 = (arr_names(t, i0)->0).1;
        proof {
            lemma_kind_right_bracket_all();
        }
        while !self.check(&Token::RightBracket) && !self.is_at_end()
            invariant_except_break
                da ==> (arr_names(t, self.current as int) matches Some((rest, c)) && c == c0
                    && names@.len() + rest.len() == ns.len() && rest == ns.skip(names@.len() as int)),
            invariant
                self.wf(),
                self.tokens == old(self).tokens,
                self.current >= old(self).current,
                self.async_depth == old(self).async_depth,
                t == self.tokens@,
                i0 == old(self).current,
                da == arr_names(t, i0) is Some,
                ns == (arr_names(t, i0)->0).0,
                c0 == (arr_names(t, i0)->0).1,
                forall|k: Token| #[trigger] k.kind() == Token::RightBracket.kind() ==> k is RightBracket,
                da ==> (names@.len() <= ns.len() && forall|q: int|
                    0 <= q < names@.len() ==> (#[trigger] names@[q])@ == ns[q]),
            ensures
                da ==> (names@.len() == ns.len() && self.current == c0 && tok(t, self.current as int) is RightBracket),
            decreases self.tokens@.len() - self.current,
        {
            let ghost j = self.current as int;
            let ghost before = names@;
            proof {
                if da {
                    assert(self.peek_spec() == tok(t, j));
                    assert(tok(t, j).kind() != Token::RightBracket.kind());
                }
            }
            let n = self.expect_identifier("Expected identifier in array destructuring")?;
            names.push(n);
            proof {
                if da {
                    let rest = (arr_names(t, j)->0).0;
                    assert(rest[0] == ns[before.len() as int]);
                    assert forall|q: int| 0 <= q < names@.len() implies (#[trigger] names@[q])@ == ns[q] by {
                        if q < before.len() {
                            assert(names@[q] == before[q]);
                        }
                    }
                }
            }
            if !self.match_token(&Token::Comma) {
                proof {
                    if da {
                        assert(self.peek_spec() == tok(t, j + 1));
                        assert(tok(t, j + 1) is RightBracket);
                    }
                }
                break;
            }
            proof {
                if da {
                    let rest = (arr_names(t, j)->0).0;
                    let rest2 = (arr_names(t, j + 2)->0).0;
                    assert(rest =~= seq![tok(t, j)->Identifier_0@] + rest2);
                    assert forall|x: int| 0 <= x < rest2.len() implies rest2[x] == ns.skip(
                        names@.len() as int,
                    )[x] by {
                        assert(rest2[x] == rest[x + 1]);
                    }
                    assert(rest2 =~= ns.skip(names@.len() as int));
                }
            }
        }
        proof {
            if da {
                assert(self.peek_spec() == tok(t, self.current as int));
                lemma_kind_right_bracket(tok(t, self.current as int));
            }
        }
        self.expect(&Token::RightBracket, "Expected ']' after destructuring pattern")?;
        Ok(names)
    }

    /// Reads the (binding name, key) pairs of an object destructuring
    /// pattern, its `{` read, up to and including its `}`.
    fn object_pattern(&mut self) -> (r: Result<Vec<(String, String)>, CompileError>)
        requires
            old(self).wf(),
        ensures
            Self::outcome(*old(self), *final(self), r),
            final(self).async_depth == old(self).async_depth,
            obj_names(old(self).tokens@, old(self).current as int) matches Some((ns, c)) ==> (r matches Ok(
                names,
            ) && names@.len() == ns.len() && (forall|q: int|
                0 <= q < names@.len() ==> (#[trigger] names@[q]).0@ == ns[q].0 && names@[q].1@ == ns[q].1)
                && final(self).current == c + 1),
    {
        let mut names: Vec<(String, String)> = Vec::new();
        let ghost t = self.tokens@;
        let ghost i0 = self.current as int;
        let ghost da = obj_names(t, i0) is Some;
        let ghost ns = (obj_names(t, i0)->0).0;
        let ghost c0 = (obj_names(t, i0)->0).1;
        proof {
            lemma_kind_right_brace_all();
        }
        while !self.check(&Token::RightBrace) && !self.is_at_end()
            invariant_except_break
                da ==> (obj_names(t, self.current as int) matches Some((rest, c)) && c == c0
                    && names@.len() + rest.len() == ns.len() && rest == ns.skip(names@.len() as int)),
            invariant
                self.wf(),
                self.tokens == old(self).tokens,
                self.current >= old(self).current,
                self.async_depth == old(self).async_depth,
                t == self.tokens@,
                i0 == old(self).current,
                da == obj_names(t, i0) is Some,
                ns == (obj_names(t, i0)->0).0,
                c0 == (obj_names(t, i0)->0).1,
                forall|k: Token| #[trigger] k.kind() == Token::RightBrace.kind() ==> k is RightBrace,
                da ==> (names@.len() <= ns.len() && forall|q: int|
                    0 <= q < names@.len() ==> (#[trigger] names@[q]).0@ == ns[q].0 && names@[q].1@
                        == ns[q].1),
            ensures
                da ==> (names@.len() == ns.len() && self.current == c0 && tok(t, self.current as int) is RightBrace),
            decreases self.tokens@.len() - self.current,
        {
            let ghost j = self.current as int;
            let ghost before = names@;
            proof {
                if da {
                    assert(self.peek_spec() == tok(t, j));
                    assert(tok(t, j).kind() != Token::RightBrace.kind());
                }
            }
            let key = self.expect_identifier("Expected property name in object destructuring")?;
            // Optional renaming: { key: localName }
            let local = if self.match_token(&Token::Colon) {
                self.expect_identifier("Expected local name after ':' in destructuring")?
            } else {
                key.clone()
            };
            let ghost next = self.current as int;
            names.push((local, key));
            proof {
                if da {
                    let rest = (obj_names(t, j)->0).0;
                    assert(rest[0] == ns[before.len() as int]);
                    assert(next == if tok(t, j + 1) is Colon && tok(t, j + 2) is Identifier { j + 3 } else { j + 1 });
                    assert forall|q: int| 0 <= q < names@.len() implies (#[trigger] names@[q]).0@ == ns[q].0
                        && names@[q].1@ == ns[q].1 by {
                        if q < before.len() {
                            assert(names@[q] == before[q]);
                        }
                    }
                }
            }
            if !self.match_token(&Token::Comma) {
                proof {
                    if da {
                        assert(self.peek_spec() == tok(t, next));
                        assert(tok(t, next) is RightBrace);
                    }
                }
                break;
            }
            proof {
                if da {
                    let rest = (obj_names(t, j)->0).0;
                    let rest2 = (obj_names(t, next + 1)->0).0;
                    assert(rest =~= seq![rest[0]] + rest2);
                    assert forall|x: int| 0 <= x < rest2.len() implies rest2[x] == ns.skip(
                        names@.len() as int,
                    )[x] by {
                        assert(rest2[x] == rest[x + 1]);
                    }
                    assert(rest2 =~= ns.skip(names@.len() as int));
                }
            }
        }
        proof {
            if da {
                assert(self.peek_spec() == tok(t, self.current as int));
            }
        }
        self.expect(&Token::RightBrace, "Expected '}' after destructuring pattern")?;
        Ok(names)
    }

    #[verifier::rlimit(80)]
    fn variable_declaration(&mut self, is_exported: bool) -> (r: Result<Statement, CompileError>)
        requires
            old(self).wf(),
            !old(self).at_end(),
        ensures
            Self::outcome(*old(self), *final(self), r),
            Self::progress(*old(self), *final(self), r),
            r matches Ok(st) ==> (st.kind matches StmtKind::VariableDecl { is_exported: e, .. } && e == is_exported) || st.kind is ArrayDestructure || st.kind is ObjectDestructure,
            !is_exported && decl_head(old(self).tokens@, old(self).current as int) is Some
                && (plain_chain(old(self).tokens@, (decl_head(old(self).tokens@, old(self).current as int)->0).0)
                || (comparison_form(old(self).tokens@, (decl_head(old(self).tokens@, old(self).current as int)->0).0)
                && !is_assign_op(tok(old(self).tokens@, comparison_tree(old(self).tokens@, (decl_head(old(self).tokens@, old(self).current as int)->0).0).1)))
                || (equality_form(old(self).tokens@, (decl_head(old(self).tokens@, old(self).current as int)->0).0)
                && !is_assign_op(tok(old(self).tokens@, equality_tree(old(self).tokens@, (decl_head(old(self).tokens@, old(self).current as int)->0).0).1)))
                || (logic_form(old(self).tokens@, (decl_head(old(self).tokens@, old(self).current as int)->0).0)
                && !is_assign_op(tok(old(self).tokens@, logic_tree(old(self).tokens@, (decl_head(old(self).tokens@, old(self).current as int)->0).0).1)))) ==> (simple_stmt(
                old(self).tokens@,
                old(self).current as int,
            ) matches Some((st, n)) && r == Ok::<Statement, CompileError>(st) && final(self).current
                == n),
            destr_init(old(self).tokens@, old(self).current as int) matches Some(j) ==> (plain_chain(
                old(self).tokens@,
                j,
            ) ==> (r matches Ok(st) && destr_stmt(
                old(self).tokens@,
                old(self).current as int,
                st,
                final(self).current as int,
            ))),
        decreases old(self).tokens@.len() - old(self).current, 30nat,
    {
        let ghost t = self.tokens@;
        let ghost i0 = self.current as int;
        let ghost dd = destr_init(t, i0) is Some && plain_chain(t, destr_init(t, i0)->0);
        let start_span = self.current_span();
        let is_const = self.check(&Token::Const);
        proof {
            lemma_kind_const(tok(t, i0));
        }
        self.advance();  // consume let/const/var

        // Array destructuring: let [a, b, ...] = expr
        if self.match_token(&Token::LeftBracket) {
            let names = self.array_pattern()?;
            self.expect(&Token::Assign, "Expected '=' in destructuring declaration")?;
            let initializer = self.expression()?;
            self.consume_semicolon()?;
            return Ok(
                Statement {
                    kind: StmtKind::ArrayDestructure { names, initializer, is_const },
                    span: self.span_from(&start_span),
                },
            );
        }
        // Object destructuring: let { x, y } = expr  or  let { x: localX } = expr

        if self.match_token(&Token::LeftBrace) {
            let names = self.object_pattern()?;
            self.expect(&Token::Assign, "Expected '=' in destructuring declaration")?;
            let initializer = self.expression()?;
            self.consume_semicolon()?;
            return Ok(
                Statement {
                    kind: StmtKind::ObjectDestructure { names, initializer, is_const },
                    span: self.span_from(&start_span),
                },
            );
        }
        let name = self.expect_identifier("Expected variable name")?;

        let type_ann = if self.match_token(&Token::Colon) {
            Some(self.type_annotation()?)
        } else {
            None
        };

        let initializer = if self.match_token(&Token::Assign) {
            Some(self.expression()?)
        } else {
            None
        };

        self.consume_semicolon()?;

        Ok(
            Statement {
                kind: StmtKind::VariableDecl { name, is_const, type_ann, initializer, is_exported },
                span: self.span_from(&start_span),
            },
        )
    }

    fn function_declaration(&mut self, is_exported: bool, is_async: bool) -> (r: Result<
        Statement,
        CompileError,
    >)
        requires
            old(self).wf(),
            !old(self).at_end(),
        ensures
            Self::outcome(*old(self), *final(self), r),
            Self::progress(*old(self), *final(self), r),
            r matches Ok(st) ==> st.kind matches StmtKind::FunctionDecl { is_exported: e, is_async: a, .. } && e == is_exported && a == is_async,
        decreases old(self).tokens@.len() - old(self).current, 30nat,
    {
        let start_span = self.current_span();
        self.advance();

        let name = self.expect_identifier("Expected function name")?;

        // Parse optional type parameters: <T>, <T, U>, <T extends Type>
        let type_params = if self.check(&Token::Less) {
            self.parse_type_params()?
        } else {
            Vec::new()
        };

        self.expect(&Token::LeftParen, "Expected '(' after function name")?;
        let params = self.parameter_list()?;
        self.expect(&Token::RightParen, "Expected ')' after parameters")?;

        let return_type = if self.match_token(&Token::Colon) {
            Some(self.type_annotation()?)
        } else {
            None
        };

        self.expect(&Token::LeftBrace, "Expected '{' before function body")?;
        if is_async {
            self.async_depth = self.async_depth + 1;
        }
        let body = self.block_body()?;
        if is_async {
            self.async_depth = self.async_depth - 1;
        }
        self.consume_semicolon()?;

        Ok(
            Statement {
                kind: StmtKind::FunctionDecl {
                    name,
                    type_params,
                    params,
                    return_type,
                    body,
                    is_exported,
                    is_async,
                },
                span: self.span_from(&start_span),
            },
        )
    }

    /// Parse `async function f()` or `async () =>` as a statement.
    fn async_declaration(&mut self, is_exported: bool) -> (r: Result<Statement, CompileError>)
        requires
            old(self).wf(),
            !old(self).at_end(),
        ensures
            Self::outcome(*old(self), *final(self), r),
            Self::progress(*old(self), *final(self), r),
            r matches Ok(st) ==> (st.kind matches StmtKind::FunctionDecl { is_exported: e, is_async: true, .. } && e == is_exported) || st.kind is Expression,
        decreases old(self).tokens@.len() - old(self).current, 30nat,
    {
        let start_span = self.current_span();
        self.advance();  // consume 'async'
        if self.check(&Token::Function) {
            self.function_declaration(is_exported, true)
        } else {
            // async arrow function used as a statement
            let expr = self.finish_async_arrow(start_span)?;
            self.consume_semicolon()?;
            Ok(
                Statement {
                    kind: StmtKind::Expression { expr },
                    span: self.span_from(&start_span),
                },
            )
        }
    }

    /// Finish parsing `async (params) => body` after 'async' has been consumed.
    fn finish_async_arrow(&mut self, start_span: Span) -> (r: Result<Expr, CompileError>)
        requires
            old(self).wf(),
        ensures
            Self::outcome(*old(self), *final(self), r),
            Self::progress(*old(self), *final(self), r),
            r matches Ok(e) ==> e.kind matches ExprKind::ArrowFunction { is_async: true, .. },
        decreases old(self).tokens@.len() - old(self).current, 5nat,
    {
        self.expect(&Token::LeftParen, "Expected '(' after 'async'")?;
        let params = self.parameter_list()?;
        self.expect(&Token::RightParen, "Expected ')' after async arrow parameters")?;
        let return_type = if self.match_token(&Token::Colon) {
            Some(self.type_annotation()?)
        } else {
            None
        };
        self.expect(&Token::Arrow, "Expected '=>' in async arrow function")?;
        self.async_depth = self.async_depth + 1;
        let body = if self.check(&Token::LeftBrace) {
            self.advance();
            ArrowBody::Block(self.block_body()?)
        } else {
            ArrowBody::Expr(Box::new(self.assignment()?))
        };
        self.async_depth = self.async_depth - 1;
        Ok(
            Expr {
                kind: ExprKind::ArrowFunction { params, return_type, body, is_async: true },
                span: self.span_from(&start_span),
            },
        )
    }

    fn throw_statement(&mut self) -> (r: Result<Statement, CompileError>)
        requires
            old(self).wf(),
            !old(self).at_end(),
        ensures
            Self::outcome(*old(self), *final(self), r),
            Self::progress(*old(self), *final(self), r),
            r matches Ok(st) ==> st.kind is Throw,
        decreases old(self).tokens@.len() - old(self).current, 30nat,
    {
        let start_span = self.current_span();
        self.advance();  // consume 'throw'
        let value = self.expression()?;
        self.consume_semicolon()?;
        Ok(Statement { kind: StmtKind::Throw { value }, span: self.span_from(&start_span) })
    }

    fn try_statement(&mut self) -> (r: Result<Statement, CompileError>)
        requires
            old(self).wf(),
            !old(self).at_end(),
        ensures
            Self::outcome(*old(self), *final(self), r),
            Self::progress(*old(self), *final(self), r),
            r matches Ok(st) ==> st.kind is TryCatch,
        decreases old(self).tokens@.len() - old(self).current, 30nat,
    {
        let start_span = self.current_span();
        self.advance();  // consume 'try'
        self.expect(&Token::LeftBrace, "Expected '{' after 'try'")?;
        let body = self.block_body()?;

        let mut catch_binding: Option<String> = None;
        let mut catch_body: Option<Vec<Statement>> = None;
        if self.check(&Token::Catch) {
            self.advance();  // consume 'catch'
            if self.match_token(&Token::LeftParen) {
                let name = self.expect_identifier("Expected catch binding name")?;
                // optional type annotation on catch binding (e.g. catch (e: unknown))
                if self.match_token(&Token::Colon) {
                    let _discarded = self.type_annotation()?;
                }
                self.expect(&Token::RightParen, "Expected ')' after catch binding")?;
                catch_binding = Some(name);
            }
            self.expect(&Token::LeftBrace, "Expected '{' after 'catch'")?;
            let cb = self.block_body()?;
            catch_body = Some(cb);
        }
        let finally_body = if self.check(&Token::Finally) {
            self.advance();  // consume 'finally'
            self.expect(&Token::LeftBrace, "Expected '{' after 'finally'")?;
            Some(self.block_body()?)
        } else {
            None
        };

        if catch_body.is_none() && finally_body.is_none() {
            return Err(self.error("try statement must have a catch or finally clause"));
        }
        Ok(
            Statement {
                kind: StmtKind::TryCatch { body, catch_binding, catch_body, finally_body },
                span: self.span_from(&start_span),
            },
        )
    }

    /// Parse type parameters: `<T>`, `<T, U>`, `<T extends Type>`
    fn parse_type_params(&mut self) -> (r: Result<Vec<TypeParam>, CompileError>)
        requires
            old(self).wf(),
        ensures
            Self::type_outcome(*old(self), *final(self), r),
        decreases old(self).tokens@.len() - old(self).current, 1nat,
    {
        self.expect(&Token::Less, "Expected '<'")?;
        let mut type_params: Vec<TypeParam> = Vec::new();
        loop
            invariant
                self.wf(),
                self.tokens == old(self).tokens,
                self.current > old(self).current,
                self.async_depth == old(self).async_depth,
            decreases self.tokens@.len() - self.current,
        {
            let span = self.current_span();
            let name = self.expect_identifier("Expected type parameter name")?;

            // Check for constraint: T extends Type
            let constraint = if self.check(&Token::Extends) {
                self.advance();  // consume "extends"
                Some(self.type_annotation()?)
            } else {
                None
            };
            type_params.push(TypeParam { name, constraint, span: self.span_from(&span) });
            if !self.match_token(&Token::Comma) {
                break;
            }
        }
        self.expect(&Token::Greater, "Expected '>' after type parameters")?;
        Ok(type_params)
    }

    /// Parse type arguments: `<number>`, `<string, number>`
    fn parse_type_args(&mut self) -> (r: Result<Vec<TypeAnnotation>, CompileError>)
        requires
            old(self).wf(),
        ensures
            Self::type_outcome(*old(self), *final(self), r),
        decreases old(self).tokens@.len() - old(self).current, 1nat,
    {
        self.expect(&Token::Less, "Expected '<'")?;
        let mut type_args: Vec<TypeAnnotation> = Vec::new();
        loop
            invariant
                self.wf(),
                self.tokens == old(self).tokens,
                self.current > old(self).current,
                self.async_depth == old(self).async_depth,
            decreases self.tokens@.len() - self.current,
        {
            let t = self.type_annotation()?;
            type_args.push(t);
            if !self.match_token(&Token::Comma) {
                break;
            }
        }
        self.expect(&Token::Greater, "Expected '>' after type arguments")?;
        Ok(type_args)
    }

    fn class_declaration(&mut self) -> (r: Result<Statement, CompileError>)
        requires
            old(self).wf(),
            !old(self).at_end(),
        ensures
            Self::outcome(*old(self), *final(self), r),
            Self::progress(*old(self), *final(self), r),
            r matches Ok(st) ==> st.kind is ClassDecl,
        decreases old(self).tokens@.len() - old(self).current, 30nat,
    {
        let start_span = self.current_span();
        self.advance();  // consume 'class'

        let name = self.expect_identifier("Expected class name")?;

        // Optional generic type parameters: class Foo<T, U extends Bar>
        let type_params = if self.check(&Token::Less) {
            self.parse_type_params()?
        } else {
            Vec::new()
        };

        let mut parent: Option<String> = None;
        let mut parent_type_args: Vec<TypeAnnotation> = Vec::new();
        if self.match_token(&Token::Extends) {
            let parent_name = self.expect_identifier("Expected parent class name")?;
            if self.check(&Token::Less) {
                parent_type_args = self.parse_type_args()?;
            }
            parent = Some(parent_name);
        }
        self.expect(&Token::LeftBrace, "Expected '{' before class body")?;

        let mut fields: Vec<ClassField> = Vec::new();
        let mut constructor: Option<ClassConstructor> = None;
        let mut methods: Vec<ClassMethod> = Vec::new();

        while !self.check(&Token::RightBrace) && !self.is_at_end()
            invariant
                self.wf(),
                self.tokens == old(self).tokens,
                self.current > old(self).current,
                self.async_depth == old(self).async_depth,
            decreases self.tokens@.len() - self.current,
        {
            let ghost iter_start = self.current;
            let member_span = self.current_span();

            // Constructor
            if self.check(&Token::Constructor) {
                self.advance();  // consume 'constructor'
                self.expect(&Token::LeftParen, "Expected '(' after 'constructor'")?;
                let params = self.parameter_list()?;
                self.expect(&Token::RightParen, "Expected ')' after constructor parameters")?;
                self.expect(&Token::LeftBrace, "Expected '{' before constructor body")?;
                let body = self.block_body()?;
                self.consume_semicolon()?;
                constructor = Some(
                    ClassConstructor { params, body, span: self.span_from(&member_span) },
                );
                continue;
            }
            // Skip access modifiers: public, private, protected, static, readonly, abstract, override

            while self.at_modifier()
                invariant
                    self.wf(),
                    self.tokens == old(self).tokens,
                    self.current > old(self).current,
                    self.current >= iter_start,
                    self.async_depth == old(self).async_depth,
                decreases self.tokens@.len() - self.current,
            {
                self.advance();
            }

            // Method or field: starts with an identifier
            let member_name = self.expect_identifier("Expected class member name")?;

            if self.check(&Token::LeftParen) {
                // Method: name(params): ReturnType { body }
                self.advance();  // consume '('
                let params = self.parameter_list()?;
                self.expect(&Token::RightParen, "Expected ')' after method parameters")?;
                let return_type = if self.match_token(&Token::Colon) {
                    Some(self.type_annotation()?)
                } else {
                    None
                };
                self.expect(&Token::LeftBrace, "Expected '{' before method body")?;
                let body = self.block_body()?;
                self.consume_semicolon()?;
                methods.push(
                    ClassMethod {
                        name: member_name,
                        params,
                        return_type,
                        body,
                        span: self.span_from(&member_span),
                    },
                );
            } else {
                // Field: name: Type = initializer
                let type_ann = if self.match_token(&Token::Colon) {
                    Some(self.type_annotation()?)
                } else {
                    None
                };
                let initializer = if self.match_token(&Token::Assign) {
                    Some(self.expression()?)
                } else {
                    None
                };
                self.consume_semicolon()?;
                fields.push(
                    ClassField {
                        name: member_name,
                        type_ann,
                        initializer,
                        span: self.span_from(&member_span),
                    },
                );
            }
        }

        self.expect(&Token::RightBrace, "Expected '}' after class body")?;
        self.consume_semicolon()?;

        Ok(
            Statement {
                kind: StmtKind::ClassDecl {
                    name,
                    type_params,
                    parent,
                    parent_type_args,
                    fields,
                    constructor,
                    methods,
                },
                span: self.span_from(&start_span),
            },
        )
    }

    /// Whether the next token is an access modifier word that class members may carry.
    fn at_modifier(&self) -> (r: bool)
        ensures
            r ==> !self.at_end(),
            r == (self.peek_spec() matches Token::Identifier(kw) && is_modifier_word(kw@)),
    {
        match self.peek_token() {
            Token::Identifier(kw) => {
                eq_str(&kw, "public") || eq_str(&kw, "private") || eq_str(&kw, "protected")
                    || eq_str(&kw, "static") || eq_str(&kw, "readonly") || eq_str(&kw, "abstract")
                    || eq_str(&kw, "override")
            },
            _ => false,
        }
    }

    /// Whether the next token is the identifier spelled `word`.
    fn at_word(&self, word: &str) -> (r: bool)
        ensures
            r ==> !self.at_end(),
            r ==> self.peek_spec() is Identifier,
            r == (self.peek_spec() matches Token::Identifier(kw) && kw@ == word@),
    {
        match self.peek_token() {
            Token::Identifier(kw) => eq_str(&kw, word),
            _ => false,
        }
    }

    fn interface_declaration(&mut self) -> (r: Result<Statement, CompileError>)
        requires
            old(self).wf(),
            !old(self).at_end(),
        ensures
            Self::outcome(*old(self), *final(self), r),
            Self::progress(*old(self), *final(self), r),
            r matches Ok(st) ==> st.kind is InterfaceDecl,
        decreases old(self).tokens@.len() - old(self).current, 30nat,
    {
        let start_span = self.current_span();
        self.advance();  // consume 'interface'

        let name = self.expect_identifier("Expected interface name")?;

        // Optional: extends A, B, C
        let mut extends: Vec<String> = Vec::new();
        if self.match_token(&Token::Extends) {
            let first = self.expect_identifier("Expected parent interface name")?;
            extends.push(first);
            while self.match_token(&Token::Comma)
                invariant
                    self.wf(),
                    self.tokens == old(self).tokens,
                    self.current > old(self).current,
                    self.async_depth == old(self).async_depth,
                decreases self.tokens@.len() - self.current,
            {
                let p = self.expect_identifier("Expected parent interface name")?;
                extends.push(p);
            }
        }
        self.expect(&Token::LeftBrace, "Expected '{' before interface body")?;

        let mut fields: Vec<(String, TypeAnnotation)> = Vec::new();
        while !self.check(&Token::RightBrace) && !self.is_at_end()
            invariant
                self.wf(),
                self.tokens == old(self).tokens,
                self.current > old(self).current,
                self.async_depth == old(self).async_depth,
            decreases self.tokens@.len() - self.current,
        {
            // Skip 'readonly' modifier (parsed and discarded)
            if self.at_word("readonly") {
                self.advance();
            }
            let field_name = self.expect_identifier("Expected field name")?;
            self.expect(&Token::Colon, "Expected ':' after field name")?;
            let type_ann = self.type_annotation()?;
            // Allow semicolons or commas as separators, or just newlines
            self.match_token(&Token::Semicolon);
            self.match_token(&Token::Comma);
            fields.push((field_name, type_ann));
        }

        self.expect(&Token::RightBrace, "Expected '}' after interface body")?;
        self.consume_semicolon()?;

        Ok(
            Statement {
                kind: StmtKind::InterfaceDecl { name, extends, fields },
                span: self.span_from(&start_span),
            },
        )
    }

    fn type_alias_declaration(&mut self) -> (r: Result<Statement, CompileError>)
        requires
            old(self).wf(),
            !old(self).at_end(),
        ensures
            Self::outcome(*old(self), *final(self), r),
            Self::progress(*old(self), *final(self), r),
            r matches Ok(st) ==> st.kind is TypeAlias,
        decreases old(self).tokens@.len() - old(self).current, 30nat,
    {
        let start_span = self.current_span();
        self.advance();  // consume 'type' identifier

        let name = self.expect_identifier("Expected type alias name")?;

        // Optional type parameters: type IsNumber<T> = ...
        let type_params = if self.check(&Token::Less) {
            self.parse_type_params()?
        } else {
            Vec::new()
        };

        self.expect(&Token::Assign, "Expected '=' in type alias")?;
        let type_ann = self.type_annotation()?;
        self.consume_semicolon()?;

        Ok(
            Statement {
                kind: StmtKind::TypeAlias { name, type_params, type_ann },
                span: self.span_from(&start_span),
            },
        )
    }

    fn enum_declaration(&mut self) -> (r: Result<Statement, CompileError>)
        requires
            old(self).wf(),
            !old(self).at_end(),
        ensures
            Self::outcome(*old(self), *final(self), r),
            Self::progress(*old(self), *final(self), r),
            r matches Ok(st) ==> st.kind is EnumDecl,
        decreases old(self).tokens@.len() - old(self).current, 30nat,
    {
        let start_span = self.current_span();
        self.advance();  // consume 'enum'

        let name = self.expect_identifier("Expected enum name")?;
        self.expect(&Token::LeftBrace, "Expected '{' before enum body")?;

        let mut members: Vec<EnumMember> = Vec::new();
        while !self.check(&Token::RightBrace) && !self.is_at_end()
            invariant
                self.wf(),
                self.tokens == old(self).tokens,
                self.current > old(self).current,
                self.async_depth == old(self).async_depth,
            decreases self.tokens@.len() - self.current,
        {
            let member_span = self.current_span();
            let member_name = self.expect_identifier("Expected enum member name")?;

            let value = if self.match_token(&Token::Assign) {
                match self.peek_token() {
                    Token::String(s) => {
                        self.advance();
                        Some(EnumValue::String(s))
                    },
                    Token::Number(n) => {
                        self.advance();
                        Some(EnumValue::Number(n))
                    },
                    _ => {
                        return Err(self.error("Expected string or number value for enum member"));
                    },
                }
            } else {
                None
            };
            members.push(
                EnumMember { name: member_name, value, span: self.span_from(&member_span) },
            );
            // Allow trailing comma
            self.match_token(&Token::Comma);
        }

        self.expect(&Token::RightBrace, "Expected '}' after enum body")?;
        self.consume_semicolon()?;

        Ok(
            Statement {
                kind: StmtKind::EnumDecl { name, members },
                span: self.span_from(&start_span),
            },
        )
    }

    fn import_declaration(&mut self) -> (r: Result<Statement, CompileError>)
        requires
            old(self).wf(),
            !old(self).at_end(),
        ensures
            Self::outcome(*old(self), *final(self), r),
            Self::progress(*old(self), *final(self), r),
            r matches Ok(st) ==> st.kind is Import,
        decreases old(self).tokens@.len() - old(self).current, 30nat,
    {
        let start_span = self.current_span();
        self.advance();  // consume 'import'

        self.expect(&Token::LeftBrace, "Expected '{' in import declaration")?;

        let mut specifiers: Vec<ImportSpecifier> = Vec::new();
        if !self.check(&Token::RightBrace) {
            loop
                invariant
                    self.wf(),
                    self.tokens == old(self).tokens,
                    self.current > old(self).current,
                    self.async_depth == old(self).async_depth,
                decreases self.tokens@.len() - self.current,
            {
                let spec_span = self.current_span();
                let imported = self.expect_identifier("Expected imported name")?;

                let local = if self.match_token(&Token::As) {
                    self.expect_identifier("Expected local name after 'as'")?
                } else {
                    imported.clone()
                };
                specifiers.push(
                    ImportSpecifier { imported, local, span: self.span_from(&spec_span) },
                );
                if !self.match_token(&Token::Comma) {
                    break;
                }
            }
        }
        self.expect(&Token::RightBrace, "Expected '}' in import declaration")?;

        self.expect(&Token::From, "Expected 'from' after import specifiers")?;
        let source = self.expect_string("Expected module path string")?;
        self.consume_semicolon()?;

        Ok(
            Statement {
                kind: StmtKind::Import { specifiers, source },
                span: self.span_from(&start_span),
            },
        )
    }

    fn export_declaration(&mut self) -> (r: Result<Statement, CompileError>)
        requires
            old(self).wf(),
            !old(self).at_end(),
        ensures
            Self::outcome(*old(self), *final(self), r),
            Self::progress(*old(self), *final(self), r),
            r matches Ok(st) ==> (st.kind matches StmtKind::FunctionDecl { is_exported: true, .. }) || (st.kind matches StmtKind::VariableDecl { is_exported: true, .. }) || st.kind is ArrayDestructure || st.kind is ObjectDestructure || st.kind is Expression,
        decreases old(self).tokens@.len() - old(self).current, 30nat,
    {
        self.advance();  // consume 'export'

        match self.peek_token() {
            Token::Function => self.function_declaration(true, false),
            Token::Async => self.async_declaration(true),
            Token::Let | Token::Const | Token::Var => self.variable_declaration(true),
            _ => Err(self.error("Expected function, let, or const after 'export'")),
        }
    }

    fn parameter_list(&mut self) -> (r: Result<Vec<Parameter>, CompileError>)
        requires
            old(self).wf(),
        ensures
            Self::outcome(*old(self), *final(self), r),
            old(self).peek_spec() is RightParen ==> (r matches Ok(ps) && ps@.len() == 0
                && final(self).current == old(self).current),
            !(old(self).peek_spec() is RightParen) && r is Ok ==> r->Ok_0@.len() >= 1
                && final(self).current > old(self).current,
            r matches Ok(ps) ==> forall|i: int| 0 <= i < ps@.len() - 1 ==> !(#[trigger] ps@[i]).is_rest,
            r matches Ok(ps) ==> forall|i: int|
                0 <= i < ps@.len() && (#[trigger] ps@[i]).is_rest ==> ps@[i].default is None,
        decreases old(self).tokens@.len() - old(self).current, 1nat,
    {
        let mut params: Vec<Parameter> = Vec::new();
        if !self.check(&Token::RightParen) {
            loop
                invariant_except_break
                    forall|i: int| 0 <= i < params@.len() ==> !(#[trigger] params@[i]).is_rest,
                invariant
                    self.wf(),
                    self.tokens == old(self).tokens,
                    self.current >= old(self).current,
                    self.async_depth == old(self).async_depth,
                    !(old(self).peek_spec() is RightParen),
                    params@.len() > 0 ==> self.current > old(self).current,
                    forall|i: int|
                        0 <= i < params@.len() && (#[trigger] params@[i]).is_rest ==> params@[i].default is None,
                ensures
                    params@.len() >= 1,
                    self.current > old(self).current,
                    forall|i: int| 0 <= i < params@.len() - 1 ==> !(#[trigger] params@[i]).is_rest,
                decreases self.tokens@.len() - self.current,
            {
                let param_span = self.current_span();
                let is_rest = self.match_token(&Token::Ellipsis);
                let name = self.expect_identifier("Expected parameter name")?;
                let type_ann = if self.match_token(&Token::Colon) {
                    Some(self.type_annotation()?)
                } else {
                    None
                };
                let default = if !is_rest && self.match_token(&Token::Assign) {
                    Some(self.expression()?)
                } else {
                    None
                };
                params.push(
                    Parameter { name, type_ann, default, is_rest, span: self.span_from(&param_span) },
                );
                // Rest param must be last; stop parsing params after it
                if is_rest || !self.match_token(&Token::Comma) {
                    break;
                }
            }
        }
        Ok(params)
    }

    fn if_statement(&mut self) -> (r: Result<Statement, CompileError>)
        requires
            old(self).wf(),
            !old(self).at_end(),
            old(self).peek_spec() is If,
        ensures
            Self::outcome(*old(self), *final(self), r),
            Self::progress(*old(self), *final(self), r),
            r matches Ok(st) ==> st.kind is If,
            stmt_shape(old(self).tokens@, old(self).current as int) matches Some(n) ==> (r matches Ok(
                st,
            ) && stmt_end(old(self).tokens@, old(self).current as int, st) == Some(n) && final(self).current
                == n),
        decreases old(self).tokens@.len() - old(self).current, 30nat,
    {
        proof {
            lemma_compound_not_simple(old(self).tokens@, old(self).current as int);
        }
        let start_span = self.current_span();
        self.advance();

        self.expect(&Token::LeftParen, "Expected '(' after 'if'")?;
        let condition = self.expression()?;
        self.expect(&Token::RightParen, "Expected ')' after if condition")?;

        let then_branch = if self.check(&Token::LeftBrace) {
            self.advance();
            self.block_body()?
        } else {
            // Single-statement if body (no braces)
            let s = self.statement()?;
            let mut v: Vec<Statement> = Vec::new();
            v.push(s);
            v
        };

        let else_branch = if self.match_token(&Token::Else) {
            if self.check(&Token::If) {
                let else_if = self.if_statement()?;
                let mut v: Vec<Statement> = Vec::new();
                v.push(else_if);
                Some(v)
            } else {
                self.expect(&Token::LeftBrace, "Expected '{' after 'else'")?;
                Some(self.block_body()?)
            }
        } else {
            None
        };

        Ok(
            Statement {
                kind: StmtKind::If { condition, then_branch, else_branch },
                span: self.span_from(&start_span),
            },
        )
    }

    fn while_statement(&mut self) -> (r: Result<Statement, CompileError>)
        requires
            old(self).wf(),
            !old(self).at_end(),
            old(self).peek_spec() is While,
        ensures
            Self::outcome(*old(self), *final(self), r),
            Self::progress(*old(self), *final(self), r),
            r matches Ok(st) ==> st.kind is While,
            stmt_shape(old(self).tokens@, old(self).current as int) matches Some(n) ==> (r matches Ok(
                st,
            ) && stmt_end(old(self).tokens@, old(self).current as int, st) == Some(n) && final(self).current
                == n),
        decreases old(self).tokens@.len() - old(self).current, 30nat,
    {
        proof {
            lemma_compound_not_simple(old(self).tokens@, old(self).current as int);
        }
        let start_span = self.current_span();
        self.advance();

        self.expect(&Token::LeftParen, "Expected '(' after 'while'")?;
        let condition = self.expression()?;
        self.expect(&Token::RightParen, "Expected ')' after while condition")?;

        self.expect(&Token::LeftBrace, "Expected '{' after while condition")?;
        let body = self.block_body()?;

        Ok(
            Statement {
                kind: StmtKind::While { condition, body },
                span: self.span_from(&start_span),
            },
        )
    }

    fn do_while_statement(&mut self) -> (r: Result<Statement, CompileError>)
        requires
            old(self).wf(),
            !old(self).at_end(),
        ensures
            Self::outcome(*old(self), *final(self), r),
            Self::progress(*old(self), *final(self), r),
            r matches Ok(st) ==> st.kind is DoWhile,
        decreases old(self).tokens@.len() - old(self).current, 30nat,
    {
        let start_span = self.current_span();
        self.advance();  // consume 'do'

        self.expect(&Token::LeftBrace, "Expected '{' after 'do'")?;
        let body = self.block_body()?;

        self.expect(&Token::While, "Expected 'while' after do block")?;
        self.expect(&Token::LeftParen, "Expected '(' after 'while'")?;
        let condition = self.expression()?;
        self.expect(&Token::RightParen, "Expected ')' after condition")?;
        self.consume_semicolon()?;

        Ok(
            Statement {
                kind: StmtKind::DoWhile { body, condition },
                span: self.span_from(&start_span),
            },
        )
    }

    fn for_statement(&mut self) -> (r: Result<Statement, CompileError>)
        requires
            old(self).wf(),
            !old(self).at_end(),
        ensures
            Self::outcome(*old(self), *final(self), r),
            Self::progress(*old(self), *final(self), r),
            r matches Ok(st) ==> st.kind is For || st.kind is ForOf || st.kind is ForIn,
        decreases old(self).tokens@.len() - old(self).current, 30nat,
    {
        let start_span = self.current_span();
        self.advance();

        self.expect(&Token::LeftParen, "Expected '(' after 'for'")?;

        // Detect `for (let/const/var x of iterable)` or `for (let/const/var x in obj)`
        if self.check(&Token::Let) || self.check(&Token::Const) || self.check(&Token::Var) {
            let is_for_of = self.kind_at(1) == IDENT_KIND && self.kind_at(2) == 16;
            let is_for_in = self.kind_at(1) == IDENT_KIND && self.kind_at(2) == 17;
            if is_for_of {
                let is_const = self.check(&Token::Const);
                self.advance();  // consume let/const/var
                let var_name = self.expect_identifier("Expected variable name in for-of")?;
                self.advance();  // consume 'of'
                let iterable = self.expression()?;
                self.expect(&Token::RightParen, "Expected ')' after for-of iterable")?;
                self.expect(&Token::LeftBrace, "Expected '{' after for-of header")?;
                let body = self.block_body()?;
                return Ok(
                    Statement {
                        kind: StmtKind::ForOf { var_name, is_const, iterable, body },
                        span: self.span_from(&start_span),
                    },
                );
            }
            if is_for_in {
                self.advance();  // consume let/const/var
                let var_name = self.expect_identifier("Expected variable name in for-in")?;
                self.advance();  // consume 'in'
                let object = self.expression()?;
                self.expect(&Token::RightParen, "Expected ')' after for-in object")?;
                self.expect(&Token::LeftBrace, "Expected '{' after for-in header")?;
                let body = self.block_body()?;
                return Ok(
                    Statement {
                        kind: StmtKind::ForIn { var_name, object, body },
                        span: self.span_from(&start_span),
                    },
                );
            }
        }
        let init = if self.match_token(&Token::Semicolon) {
            None
        } else if self.check(&Token::Let) || self.check(&Token::Const) {
            let decl = self.variable_declaration(false)?;
            Some(Box::new(decl))
        } else {
            let expr = self.expression()?;
            self.consume_semicolon()?;
            let span = expr.span;
            Some(Box::new(Statement { span, kind: StmtKind::Expression { expr } }))
        };

        let condition = if self.check(&Token::Semicolon) {
            None
        } else {
            Some(self.expression()?)
        };
        self.consume_semicolon()?;

        let update = if self.check(&Token::RightParen) {
            None
        } else {
            Some(self.expression()?)
        };
        self.expect(&Token::RightParen, "Expected ')' after for clauses")?;

        self.expect(&Token::LeftBrace, "Expected '{' after for clauses")?;
        let body = self.block_body()?;

        Ok(
            Statement {
                kind: StmtKind::For { init, condition, update, body },
                span: self.span_from(&start_span),
            },
        )
    }

    fn switch_statement(&mut self) -> (r: Result<Statement, CompileError>)
        requires
            old(self).wf(),
            !old(self).at_end(),
        ensures
            Self::outcome(*old(self), *final(self), r),
            Self::progress(*old(self), *final(self), r),
            r matches Ok(st) ==> st.kind is Switch,
        decreases old(self).tokens@.len() - old(self).current, 30nat,
    {
        let start_span = self.current_span();
        self.advance();  // consume 'switch'

        self.expect(&Token::LeftParen, "Expected '(' after 'switch'")?;
        let discriminant = self.expression()?;
        self.expect(&Token::RightParen, "Expected ')' after switch expression")?;
        self.expect(&Token::LeftBrace, "Expected '{' after switch expression")?;

        let mut cases: Vec<SwitchCase> = Vec::new();
        while !self.check(&Token::RightBrace) && !self.is_at_end()
            invariant
                self.wf(),
                self.tokens == old(self).tokens,
                self.current > old(self).current,
                self.async_depth == old(self).async_depth,
            decreases self.tokens@.len() - self.current,
        {
            let ghost iter_start = self.current;
            let test = if self.match_token(&Token::Case) {
                let expr = self.expression()?;
                self.expect(&Token::Colon, "Expected ':' after case value")?;
                Some(expr)
            } else if self.match_token(&Token::Default) {
                self.expect(&Token::Colon, "Expected ':' after 'default'")?;
                None
            } else {
                return Err(self.error("Expected 'case' or 'default' in switch body"));
            };

            let mut body: Vec<Statement> = Vec::new();
            while !(self.check(&Token::Case) || self.check(&Token::Default) || self.check(
                &Token::RightBrace,
            ) || self.is_at_end())
                invariant
                    self.wf(),
                    self.tokens == old(self).tokens,
                    self.current > old(self).current,
                    self.current > iter_start,
                    self.async_depth == old(self).async_depth,
                decreases self.tokens@.len() - self.current,
            {
                let s = self.statement()?;
                body.push(s);
            }
            cases.push(SwitchCase { test, body });
        }

        self.expect(&Token::RightBrace, "Expected '}' after switch body")?;
        self.consume_semicolon()?;

        Ok(
            Statement {
                kind: StmtKind::Switch { discriminant, cases },
                span: self.span_from(&start_span),
            },
        )
    }

    fn return_statement(&mut self) -> (r: Result<Statement, CompileError>)
        requires
            old(self).wf(),
            !old(self).at_end(),
        ensures
            Self::outcome(*old(self), *final(self), r),
            Self::progress(*old(self), *final(self), r),
            r matches Ok(st) ==> st.kind is Return,
        decreases old(self).tokens@.len() - old(self).current, 30nat,
    {
        let start_span = self.current_span();
        self.advance();

        let value = if self.check(&Token::Semicolon) || self.check(&Token::RightBrace) {
            None
        } else {
            Some(self.expression()?)
        };

        self.consume_semicolon()?;

        Ok(Statement { kind: StmtKind::Return { value }, span: self.span_from(&start_span) })
    }

    fn break_statement(&mut self) -> (r: Result<Statement, CompileError>)
        requires
            old(self).wf(),
            !old(self).at_end(),
        ensures
            Self::outcome(*old(self), *final(self), r),
            Self::progress(*old(self), *final(self), r),
            r matches Ok(st) ==> st.kind is Break,
    {
        let start_span = self.current_span();
        self.advance();  // consume 'break'
        let label = if self.check(&Token::Identifier(String::new())) {
            Some(self.expect_identifier("Expected label")?)
        } else {
            None
        };
        self.consume_semicolon()?;
        Ok(Statement { kind: StmtKind::Break { label }, span: self.span_from(&start_span) })
    }

    fn continue_statement(&mut self) -> (r: Result<Statement, CompileError>)
        requires
            old(self).wf(),
            !old(self).at_end(),
        ensures
            Self::outcome(*old(self), *final(self), r),
            Self::progress(*old(self), *final(self), r),
            r matches Ok(st) ==> st.kind is Continue,
    {
        let start_span = self.current_span();
        self.advance();  // consume 'continue'
        let label = if self.check(&Token::Identifier(String::new())) {
            Some(self.expect_identifier("Expected label")?)
        } else {
            None
        };
        self.consume_semicolon()?;
        Ok(Statement { kind: StmtKind::Continue { label }, span: self.span_from(&start_span) })
    }

    fn block_statement(&mut self) -> (r: Result<Statement, CompileError>)
        requires
            old(self).wf(),
            !old(self).at_end(),
            old(self).peek_spec() is LeftBrace,
        ensures
            Self::outcome(*old(self), *final(self), r),
            Self::progress(*old(self), *final(self), r),
            r matches Ok(st) ==> st.kind is Block,
            stmt_shape(old(self).tokens@, old(self).current as int) matches Some(n) ==> (r matches Ok(
                st,
            ) && stmt_end(old(self).tokens@, old(self).current as int, st) == Some(n) && final(self).current
                == n),
        decreases old(self).tokens@.len() - old(self).current, 30nat,
    {
        proof {
            lemma_compound_not_simple(old(self).tokens@, old(self).current as int);
        }
        let start_span = self.current_span();
        self.advance();
        let statements = self.block_body()?;
        Ok(Statement { kind: StmtKind::Block { statements }, span: self.span_from(&start_span) })
    }

    /// Statements up to and including the closing `}`.
    fn block_body(&mut self) -> (r: Result<Vec<Statement>, CompileError>)
        requires
            old(self).wf(),
        ensures
            Self::outcome(*old(self), *final(self), r),
            Self::progress(*old(self), *final(self), r),
            block_shape(old(self).tokens@, old(self).current as int) matches Some(m) ==> (r matches Ok(
                ss,
            ) && block_end(old(self).tokens@, old(self).current as int, ss@) == Some(m) && final(self).current
                == m),
        decreases old(self).tokens@.len() - old(self).current, 40nat,
    {
        let mut statements: Vec<Statement> = Vec::new();
        let ghost t = self.tokens@;
        let ghost j0 = self.current as int;
        let ghost sh = block_shape(t, j0);
        while !self.check(&Token::RightBrace) && !self.is_at_end()
            invariant
                self.wf(),
                self.tokens == old(self).tokens,
                self.current >= old(self).current,
                self.async_depth == old(self).async_depth,
                t == self.tokens@,
                j0 == old(self).current,
                sh == block_shape(t, j0),
                sh is Some ==> (items_end(t, j0, statements@) == Some(self.current as int)
                    && block_shape(t, self.current as int) == sh),
            decreases self.tokens@.len() - self.current,
        {
            let ghost cur = self.current as int;
            let ghost before = statements@;
            proof {
                if sh is Some {
                    assert(self.peek_spec() == tok(t, cur));
                    assert(tok(t, cur).kind() != Token::RightBrace.kind());
                    assert(!(tok(t, cur) is RightBrace));
                }
            }
            let s = self.statement()?;
            statements.push(s);
            proof {
                if sh is Some {
                    lemma_items_end_push(t, j0, before, s);
                }
            }
        }
        proof {
            if sh is Some {
                assert(self.peek_spec() == tok(t, self.current as int));
                if tok(t, self.current as int) is Eof {
                    lemma_no_statement_at_eof(t, self.current as int);
                }
                lemma_kind_right_brace(tok(t, self.current as int));
            }
        }
        self.expect(&Token::RightBrace, "Expected '}'")?;
        Ok(statements)
    }

    fn expression_statement(&mut self) -> (r: Result<Statement, CompileError>)
        requires
            old(self).wf(),
        ensures
            Self::await_refused(*old(self), r),
            Self::outcome(*old(self), *final(self), r),
            Self::progress(*old(self), *final(self), r),
            r matches Ok(st) ==> st.kind is Expression,
            plain_chain(old(self).tokens@, old(self).current as int) || assign_form(
                old(self).tokens@,
                old(self).current as int,
            ) || (comparison_form(old(self).tokens@, old(self).current as int) && !is_assign_op(
                tok(old(self).tokens@, comparison_tree(old(self).tokens@, old(self).current as int).1),
            )) || (equality_form(old(self).tokens@, old(self).current as int) && !is_assign_op(
                tok(old(self).tokens@, equality_tree(old(self).tokens@, old(self).current as int).1),
            )) || (logic_form(old(self).tokens@, old(self).current as int) && !is_assign_op(
                tok(old(self).tokens@, logic_tree(old(self).tokens@, old(self).current as int).1),
            )) ==> (simple_stmt(old(self).tokens@, old(self).current as int) matches Some((st, n)) && r
                == Ok::<Statement, CompileError>(st) && final(self).current == n),
            Self::assign_parsed(*old(self), r),
        decreases old(self).tokens@.len() - old(self).current, 30nat,
    {
        let start_span = self.current_span();
        let expr = self.expression()?;
        self.consume_semicolon()?;
        Ok(Statement { kind: StmtKind::Expression { expr }, span: self.span_from(&start_span) })
    }

    // --- Type Annotations ---

    fn type_annotation(&mut self) -> (r: Result<TypeAnnotation, CompileError>)
        requires
            old(self).wf(),
        ensures
            Self::type_outcome(*old(self), *final(self), r),
            simple_type_kind(old(self).peek_spec()) is Some && old(self).peek_at(1) is Assign ==> (r
                == Ok::<TypeAnnotation, CompileError>(
                TypeAnnotation {
                    kind: simple_type_kind(old(self).peek_spec())->0,
                    span: span_at(old(self).tokens@, old(self).current as int),
                },
            ) && final(self).current == old(self).current + 1),
        decreases old(self).tokens@.len() - old(self).current, 3nat,
    {
        let span = self.current_span();

        // Consume optional leading pipe: `type T = | A | B` is valid TypeScript
        self.match_token(&Token::Pipe);

        // Parse the first type (handles typeof, keyof, function types,
        // primitives, identifiers, array suffix, and intersection &)
        let base = self.type_annotation_base()?;

        // Check for conditional type: CheckType extends ExtendsType ? TrueType : FalseType
        if self.check(&Token::Extends) {
            self.advance();  // consume 'extends'
            let extends_type = self.type_annotation_base()?;
            self.expect(&Token::Question, "Expected '?' in conditional type")?;
            let true_type = self.type_annotation()?;
            self.expect(&Token::Colon, "Expected ':' in conditional type")?;
            let false_type = self.type_annotation()?;
            return Ok(
                TypeAnnotation {
                    kind: TypeAnnKind::Conditional {
                        check_type: Box::new(base),
                        extends_type: Box::new(extends_type),
                        true_type: Box::new(true_type),
                        false_type: Box::new(false_type),
                    },
                    span: self.span_from(&span),
                },
            );
        }
        // Type predicate: `param is Type`

        let base = match base.kind {
            TypeAnnKind::Named(param_name) => {
                if self.at_word("is") {
                    self.advance();  // consume 'is'
                    let predicate_type = self.type_annotation()?;
                    return Ok(
                        TypeAnnotation {
                            kind: TypeAnnKind::TypePredicate {
                                param: param_name,
                                ty: Box::new(predicate_type),
                            },
                            span: self.span_from(&span),
                        },
                    );
                }
                TypeAnnotation { kind: TypeAnnKind::Named(param_name), span: base.span }
            },
            other => TypeAnnotation { kind: other, span: base.span },
        };

        // Check for union type: Type | Type | ...
        if self.check(&Token::Pipe) {
            let mut variants: Vec<TypeAnnotation> = Vec::new();
            variants.push(base);
            while self.match_token(&Token::Pipe)
                invariant
                    self.wf(),
                    !(simple_type_kind(old(self).peek_spec()) is Some && old(self).peek_at(1) is Assign),
                    self.tokens == old(self).tokens,
                    self.current > old(self).current,
                    self.async_depth == old(self).async_depth,
                decreases self.tokens@.len() - self.current,
            {
                let v = self.type_annotation_base()?;
                variants.push(v);
            }
            return Ok(
                TypeAnnotation {
                    kind: TypeAnnKind::Union(variants),
                    span: self.span_from(&span),
                },
            );
        }
        Ok(base)
    }

    /// Wraps `base` in array types for each `[]` that follows; with
    /// `indexed`, a non-empty `[T]` makes an indexed access type.
    fn array_suffixes(&mut self, base: TypeAnnotation, span: Span, indexed: bool) -> (r: Result<
        TypeAnnotation,
        CompileError,
    >)
        requires
            old(self).wf(),
        ensures
            Self::outcome(*old(self), *final(self), r),
            final(self).async_depth == old(self).async_depth,
            !(old(self).peek_spec() is LeftBracket) ==> (r == Ok::<TypeAnnotation, CompileError>(base)
                && final(self).current == old(self).current),
            r matches Ok(t) ==> (t == base || t.kind is Array || (indexed
                && t.kind is IndexedAccess)),
        decreases old(self).tokens@.len() - old(self).current, 2nat,
    {
        let ghost base0 = base;
        let mut base = base;
        while self.check(&Token::LeftBracket)
            invariant
                self.wf(),
                self.tokens == old(self).tokens,
                self.current >= old(self).current,
                self.async_depth == old(self).async_depth,
                !(old(self).peek_spec() is LeftBracket) ==> self.current == old(self).current,
                self.current == old(self).current ==> base == base0,
                base == base0 || base.kind is Array || (indexed && base.kind is IndexedAccess),
            decreases self.tokens@.len() - self.current,
        {
            if self.kind_at(1) == 82 {
                // Empty brackets: Type[] → array
                self.advance();
                self.advance();
                base = TypeAnnotation {
                    kind: TypeAnnKind::Array(Box::new(base)),
                    span: self.span_from(&span),
                };
            } else if indexed {
                // Non-empty brackets: T[P] → indexed access type
                self.advance();  // consume '['
                let index_type = self.type_annotation()?;
                self.expect(&Token::RightBracket, "Expected ']'")?;
                base = TypeAnnotation {
                    kind: TypeAnnKind::IndexedAccess {
                        object_type: Box::new(base),
                        index_type: Box::new(index_type),
                    },
                    span: self.span_from(&span),
                };
            } else {
                break;
            }
        }
        Ok(base)
    }

    /// A primitive, literal or plain named type at the next token, if there is one.
    fn simple_type(&mut self, span: Span) -> (r: Option<TypeAnnotation>)
        requires
            old(self).wf(),
        ensures
            final(self).wf(),
            final(self).tokens == old(self).tokens,
            final(self).async_depth == old(self).async_depth,
            r is Some ==> final(self).current == old(self).current + 1,
            r is None ==> final(self).current == old(self).current,
            r is Some == simple_type_kind(old(self).peek_spec()) is Some,
            r matches Some(ta) ==> Some(ta.kind) == simple_type_kind(old(self).peek_spec())
                && ta.span == (Span {
                start: span.start,
                end: old(self).tokens@[old(self).current as int].span.end,
                line: span.line,
                column: span.column,
            }),
    {
        let kind = match self.peek_token() {
            Token::NumberType => TypeAnnKind::Number,
            Token::StringType => TypeAnnKind::String,
            Token::BooleanType => TypeAnnKind::Boolean,
            Token::Void => TypeAnnKind::Void,
            Token::Null => TypeAnnKind::Null,
            Token::Undefined => TypeAnnKind::Undefined,
            Token::String(s) => TypeAnnKind::StringLiteral(s),
            Token::Number(n) => TypeAnnKind::NumberLiteral(n),
            _ => {
                return None;
            },
        };
        self.advance();
        Some(TypeAnnotation { kind, span: self.span_from(&span) })
    }

    /// Parse a single type (without union) — handles typeof, keyof, function types,
    /// primitives, identifiers, array suffix, and intersection &.
    fn type_annotation_base(&mut self) -> (r: Result<TypeAnnotation, CompileError>)
        requires
            old(self).wf(),
        ensures
            Self::type_outcome(*old(self), *final(self), r),
            simple_type_kind(old(self).peek_spec()) is Some && old(self).peek_at(1) is Assign ==> (r
                == Ok::<TypeAnnotation, CompileError>(
                TypeAnnotation {
                    kind: simple_type_kind(old(self).peek_spec())->0,
                    span: span_at(old(self).tokens@, old(self).current as int),
                },
            ) && final(self).current == old(self).current + 1),
        decreases old(self).tokens@.len() - old(self).current, 2nat,
    {
        let span = self.current_span();

        // keyof Type
        if self.at_word("keyof") {
            self.advance();
            let inner = self.type_annotation()?;
            return Ok(
                TypeAnnotation {
                    kind: TypeAnnKind::Keyof(Box::new(inner)),
                    span: self.span_from(&span),
                },
            );
        }
        // typeof x

        if self.match_token(&Token::Typeof) {
            let name = self.expect_identifier("Expected identifier after 'typeof'")?;
            let base = TypeAnnotation {
                kind: TypeAnnKind::Typeof(name),
                span: self.span_from(&span),
            };
            return self.array_suffixes(base, span, false);
        }
        // Function type

        if self.check(&Token::LeftParen) {
            if let Some(func_type) = self.try_function_type(&span)? {
                return Ok(func_type);
            }
        }
        let mut base = if let Some(t) = self.simple_type(span) {
            t
        } else if self.check(&Token::True) || self.check(&Token::False) {
            let b = self.check(&Token::True);
            self.advance();
            TypeAnnotation { kind: TypeAnnKind::BooleanLiteral(b), span: self.span_from(&span) }
        } else if self.check(&Token::LeftBrace) {
            self.advance();

            // Skip optional 'readonly' modifier
            if self.at_word("readonly") {
                self.advance();
            }
            // Check for mapped type: { [P in keyof T]: T[P] }

            if self.check(&Token::LeftBracket) {
                let saved = self.current;
                self.advance();  // consume '['
                if let Ok(param) = self.expect_identifier("mapped type param") {
                    if self.check(&Token::In) {
                        self.advance();  // consume 'in'
                        let constraint = self.type_annotation()?;
                        self.expect(&Token::RightBracket, "Expected ']'")?;
                        self.expect(&Token::Colon, "Expected ':'")?;
                        let value_type = self.type_annotation()?;
                        self.match_token(&Token::Semicolon);
                        self.expect(&Token::RightBrace, "Expected '}'")?;
                        return Ok(
                            TypeAnnotation {
                                kind: TypeAnnKind::Mapped {
                                    param,
                                    constraint: Box::new(constraint),
                                    value_type: Box::new(value_type),
                                },
                                span: self.span_from(&span),
                            },
                        );
                    }
                }
                // Not a mapped type — backtrack
                self.current = saved;
            }
            let mut fields: Vec<(String, TypeAnnotation)> = Vec::new();
            while !self.check(&Token::RightBrace) && !self.is_at_end()
                invariant
                    self.wf(),
                    !(simple_type_kind(old(self).peek_spec()) is Some && old(self).peek_at(1) is Assign),
                    self.tokens == old(self).tokens,
                    self.current > old(self).current,
                    self.async_depth == old(self).async_depth,
                decreases self.tokens@.len() - self.current,
            {
                if self.at_word("readonly") {
                    self.advance();
                }
                let field_name = self.expect_identifier("Expected field name in type")?;
                self.expect(&Token::Colon, "Expected ':' in object type")?;
                let field_type = self.type_annotation()?;
                fields.push((field_name, field_type));
                if !self.match_token(&Token::Comma) {
                    self.match_token(&Token::Semicolon);
                }
            }
            self.expect(&Token::RightBrace, "Expected '}' in object type")?;
            TypeAnnotation { kind: TypeAnnKind::Object { fields }, span: self.span_from(&span) }
        } else if self.check(&Token::Identifier(String::new())) {
            let name = self.expect_identifier("Expected type annotation")?;
            // Check for type arguments: IsNumber<number>
            if self.check(&Token::Less) {
                // Speculatively parse type args — save position
                let saved = self.current;
                match self.parse_type_args() {
                    Ok(type_args) => TypeAnnotation {
                        kind: TypeAnnKind::Generic { name, type_args },
                        span: self.span_from(&span),
                    },
                    Err(_) => {
                        self.current = saved;
                        TypeAnnotation {
                            kind: TypeAnnKind::Named(name),
                            span: self.span_from(&span),
                        }
                    },
                }
            } else {
                TypeAnnotation { kind: TypeAnnKind::Named(name), span: self.span_from(&span) }
            }
        } else if self.check(&Token::LeftBracket) {
            // Tuple type: [number, string, ...]
            self.advance();  // consume '['
            let mut element_types: Vec<TypeAnnotation> = Vec::new();
            while !self.check(&Token::RightBracket) && !self.is_at_end()
                invariant
                    self.wf(),
                    !(simple_type_kind(old(self).peek_spec()) is Some && old(self).peek_at(1) is Assign),
                    self.tokens == old(self).tokens,
                    self.current > old(self).current,
                    self.async_depth == old(self).async_depth,
                decreases self.tokens@.len() - self.current,
            {
                let t = self.type_annotation()?;
                element_types.push(t);
                if !self.match_token(&Token::Comma) {
                    break;
                }
            }
            self.expect(&Token::RightBracket, "Expected ']' in tuple type")?;
            TypeAnnotation { kind: TypeAnnKind::Tuple(element_types), span: self.span_from(&span) }
        } else {
            return Err(self.error("Expected type annotation"));
        };

        // Array suffix or indexed access type
        base = self.array_suffixes(base, span, true)?;

        // Intersection: Type & Type & ... (binds tighter than union |)
        if self.check(&Token::Ampersand) {
            let mut variants: Vec<TypeAnnotation> = Vec::new();
            variants.push(base);
            while self.match_token(&Token::Ampersand)
                invariant
                    self.wf(),
                    !(simple_type_kind(old(self).peek_spec()) is Some && old(self).peek_at(1) is Assign),
                    self.tokens == old(self).tokens,
                    self.current > old(self).current,
                    self.async_depth == old(self).async_depth,
                decreases self.tokens@.len() - self.current,
            {
                let v = self.type_annotation_atom()?;
                variants.push(v);
            }
            return Ok(
                TypeAnnotation {
                    kind: TypeAnnKind::Intersection(variants),
                    span: self.span_from(&span),
                },
            );
        }
        Ok(base)
    }

    /// Parse a single atomic type (no union, no intersection) — used by intersection parsing
    fn type_annotation_atom(&mut self) -> (r: Result<TypeAnnotation, CompileError>)
        requires
            old(self).wf(),
        ensures
            Self::type_outcome(*old(self), *final(self), r),
        decreases old(self).tokens@.len() - old(self).current, 1nat,
    {
        let span = self.current_span();
        let base = if let Some(t) = self.simple_type(span) {
            t
        } else if self.check(&Token::Identifier(String::new())) {
            let name = self.expect_identifier("Expected type annotation")?;
            TypeAnnotation { kind: TypeAnnKind::Named(name), span: self.span_from(&span) }
        } else {
            return Err(self.error("Expected type annotation"));
        };
        // Array suffix
        self.array_suffixes(base, span, false)
    }

    fn try_function_type(&mut self, start_span: &Span) -> (r: Result<
        Option<TypeAnnotation>,
        CompileError,
    >)
        requires
            old(self).wf(),
            !old(self).at_end(),
        ensures
            Self::outcome(*old(self), *final(self), r),
            final(self).async_depth == old(self).async_depth,
            r matches Ok(Some(_)) ==> final(self).current > old(self).current,
            r matches Ok(None) ==> final(self).current == old(self).current,
            r matches Ok(Some(t)) ==> t.kind is FunctionType && t.span.start == start_span.start
                && t.span.line == start_span.line && t.span.column == start_span.column,
            old(self).peek_at(1) is RightParen && old(self).peek_at(2) is Arrow ==> !(r matches Ok(
                None,
            )),
        decreases old(self).tokens@.len() - old(self).current, 1nat,
    {
        let saved = self.current;
        self.advance();  // consume '('

        // Try to parse parameter types
        let mut param_types: Vec<TypeAnnotation> = Vec::new();
        if !self.check(&Token::RightParen) {
            loop
                invariant
                    self.wf(),
                    self.tokens == old(self).tokens,
                    self.current > old(self).current,
                    self.async_depth == old(self).async_depth,
                    saved == old(self).current,
                    old(self).wf(),
                    !(old(self).peek_at(1) is RightParen),
                decreases self.tokens@.len() - self.current,
            {
                // Could be "name: Type" or just "Type"
                let parsed = if self.check(&Token::Identifier(String::new())) {
                    let saved_inner = self.current;
                    self.advance();  // consume identifier
                    if self.match_token(&Token::Colon) {
                        // name: Type format
                        self.type_annotation()
                    } else {
                        // Just an identifier used as a type name — rollback
                        self.current = saved_inner;
                        self.type_annotation()
                    }
                } else {
                    self.type_annotation()
                };
                match parsed {
                    Ok(t) => param_types.push(t),
                    Err(_) => {
                        self.current = saved;
                        return Ok(None);
                    },
                }
                if !self.match_token(&Token::Comma) {
                    break;
                }
            }
        }
        if !self.match_token(&Token::RightParen) {
            self.current = saved;
            return Ok(None);
        }
        if !self.match_token(&Token::Arrow) {
            self.current = saved;
            return Ok(None);
        }
        let return_type = self.type_annotation()?;

        Ok(
            Some(
                TypeAnnotation {
                    kind: TypeAnnKind::FunctionType {
                        params: param_types,
                        return_type: Box::new(return_type),
                    },
                    span: self.span_from(start_span),
                },
            ),
        )
    }

    // --- Expressions ---

    fn expression(&mut self) -> (r: Result<Expr, CompileError>)
        requires
            old(self).wf(),
        ensures
            Self::await_refused(*old(self), r),
            Self::outcome(*old(self), *final(self), r),
            Self::progress(*old(self), *final(self), r),
            Self::plain_parsed(*old(self), *final(self), r),
            Self::compared_plain(*old(self), *final(self), r),
            Self::equality_plain(*old(self), *final(self), r),
            Self::logic_plain(*old(self), *final(self), r),
            assign_form(old(self).tokens@, old(self).current as int) ==> (r == Ok::<Expr, CompileError>(
                assign_tree(old(self).tokens@, old(self).current as int),
            ) && final(self).current == chain_tree(old(self).tokens@, old(self).current + 2).1),
            Self::assign_parsed(*old(self), r),
        decreases old(self).tokens@.len() - old(self).current, 20nat,
    {
        self.assignment()
    }

    #[verifier::rlimit(80)]
    fn assignment(&mut self) -> (r: Result<Expr, CompileError>)
        requires
            old(self).wf(),
        ensures
            Self::await_refused(*old(self), r),
            Self::outcome(*old(self), *final(self), r),
            Self::progress(*old(self), *final(self), r),
            Self::plain_parsed(*old(self), *final(self), r),
            Self::compared_plain(*old(self), *final(self), r),
            Self::equality_plain(*old(self), *final(self), r),
            Self::logic_plain(*old(self), *final(self), r),
            assign_form(old(self).tokens@, old(self).current as int) ==> (r == Ok::<Expr, CompileError>(
                assign_tree(old(self).tokens@, old(self).current as int),
            ) && final(self).current == chain_tree(old(self).tokens@, old(self).current + 2).1),
            Self::assign_parsed(*old(self), r),
        decreases old(self).tokens@.len() - old(self).current, 19nat,
    {
        // Single-parameter arrow function without parentheses: x => expr
        if self.check(&Token::Identifier(String::new())) && self.kind_at(1) == 87 {
            let span = self.current_span();
            let param_name = self.expect_identifier("Expected parameter name")?;
            self.advance();  // consume =>
            let body = if self.check(&Token::LeftBrace) {
                self.advance();
                ArrowBody::Block(self.block_body()?)
            } else {
                ArrowBody::Expr(Box::new(self.assignment()?))
            };
            let mut params: Vec<Parameter> = Vec::new();
            params.push(
                Parameter { name: param_name, type_ann: None, default: None, is_rest: false, span },
            );
            return Ok(
                Expr {
                    kind: ExprKind::ArrowFunction { params, return_type: None, body, is_async: false },
                    span: self.span_from(&span),
                },
            );
        }
        let mut expr = self.ternary()?;

        // Type assertion: expr as Type  /  expr as const
        while self.check(&Token::As) || self.at_word("satisfies")
            invariant
                self.wf(),
                self.tokens == old(self).tokens,
                self.current > old(self).current,
                self.async_depth == old(self).async_depth,
                !(old(self).peek_spec() is Await && !old(self).in_async()),
                old(self).on_chain() ==> (expr == chain_tree(old(self).tokens@, old(self).current as int).0
                    && self.current == chain_tree(old(self).tokens@, old(self).current as int).1
                    && is_chain_end(tok(self.tokens@, self.current as int))),
                comparison_form(old(self).tokens@, old(self).current as int) ==> (expr
                    == comparison_tree(old(self).tokens@, old(self).current as int).0 && self.current
                    == comparison_tree(old(self).tokens@, old(self).current as int).1 && is_chain_end(
                    tok(self.tokens@, self.current as int),
                )),
                equality_form(old(self).tokens@, old(self).current as int) ==> (expr
                    == equality_tree(old(self).tokens@, old(self).current as int).0 && self.current
                    == equality_tree(old(self).tokens@, old(self).current as int).1 && is_chain_end(
                    tok(self.tokens@, self.current as int),
                )),
                logic_form(old(self).tokens@, old(self).current as int) ==> (expr
                    == logic_tree(old(self).tokens@, old(self).current as int).0 && self.current
                    == logic_tree(old(self).tokens@, old(self).current as int).1 && is_chain_end(
                    tok(self.tokens@, self.current as int),
                )),
            decreases self.tokens@.len() - self.current,
        {
            if self.match_token(&Token::As) {
                // as const — parse and discard (no-op at runtime)
                if self.match_token(&Token::Const) {
                    continue;
                }
                let target_type = self.type_annotation()?;
                expr = Expr {
                    span: Span::new(
                        expr.span.start,
                        target_type.span.end,
                        expr.span.line,
                        expr.span.column,
                    ),
                    kind: ExprKind::TypeAssertion { expr: Box::new(expr), target_type },
                };
            } else {
                // satisfies Type
                self.advance();  // consume 'satisfies' identifier
                let target_type = self.type_annotation()?;
                expr = Expr {
                    span: Span::new(
                        expr.span.start,
                        target_type.span.end,
                        expr.span.line,
                        expr.span.column,
                    ),
                    kind: ExprKind::Satisfies { expr: Box::new(expr), target_type },
                };
            }
        }

        if self.match_token(&Token::Assign) {
            let value = self.assignment()?;
            let span = Span::new(expr.span.start, value.span.end, expr.span.line, expr.span.column);
            let target_span = expr.span;
            return match expr.kind {
                ExprKind::Identifier(name) => Ok(
                    Expr { span, kind: ExprKind::Assignment { name, value: Box::new(value) } },
                ),
                // Member assignment: obj.prop = value or this.prop = value
                ExprKind::Member { object, property } => Ok(
                    Expr {
                        span,
                        kind: ExprKind::MemberAssignment { object, property, value: Box::new(value) },
                    },
                ),
                _ => Err(CompileError::error(string_of("Invalid assignment target"), target_span)),
            };
        }
        // Compound assignment: desugar x += y → x = x + y

        let compound_op = if self.check(&Token::PlusEqual) {
            Some(BinOp::Add)
        } else if self.check(&Token::MinusEqual) {
            Some(BinOp::Subtract)
        } else if self.check(&Token::StarEqual) {
            Some(BinOp::Multiply)
        } else if self.check(&Token::SlashEqual) {
            Some(BinOp::Divide)
        } else if self.check(&Token::PercentEqual) {
            Some(BinOp::Modulo)
        } else {
            None
        };

        if let Some(op) = compound_op {
            self.advance();
            let rhs = self.assignment()?;
            let target_span = expr.span;
            return match expr.kind {
                ExprKind::Identifier(name) => {
                    let span = Span::new(
                        target_span.start,
                        rhs.span.end,
                        target_span.line,
                        target_span.column,
                    );
                    let left = Expr { kind: ExprKind::Identifier(name.clone()), span: target_span };
                    let binary = Expr {
                        span,
                        kind: ExprKind::Binary { left: Box::new(left), op, right: Box::new(rhs) },
                    };
                    Ok(Expr { span, kind: ExprKind::Assignment { name, value: Box::new(binary) } })
                },
                _ => Err(
                    CompileError::error(
                        string_of("Invalid compound assignment target"),
                        target_span,
                    ),
                ),
            };
        }
        Ok(expr)
    }

    fn ternary(&mut self) -> (r: Result<Expr, CompileError>)
        requires
            old(self).wf(),
        ensures
            Self::await_refused(*old(self), r),
            Self::outcome(*old(self), *final(self), r),
            Self::progress(*old(self), *final(self), r),
            Self::chain_parsed(*old(self), *final(self), r),
            Self::compared_parsed(*old(self), *final(self), r),
            Self::equality_parsed(*old(self), *final(self), r),
            Self::logic_parsed(*old(self), *final(self), r, 2),
        decreases old(self).tokens@.len() - old(self).current, 18nat,
    {
        let expr = self.logical_or()?;

        if self.match_token(&Token::Question) {
            let consequent = self.assignment()?;
            self.expect(&Token::Colon, "Expected ':' in ternary expression")?;
            let alternate = self.assignment()?;
            return Ok(
                Expr {
                    span: Span::new(
                        expr.span.start,
                        alternate.span.end,
                        expr.span.line,
                        expr.span.column,
                    ),
                    kind: ExprKind::Conditional {
                        condition: Box::new(expr),
                        consequent: Box::new(consequent),
                        alternate: Box::new(alternate),
                    },
                },
            );
        }
        Ok(expr)
    }

    /// `left op right`, spanning both operands.
    fn binary(left: Expr, op: BinOp, right: Expr) -> (r: Expr)
        ensures
            r == (Expr {
                span: Span {
                    start: left.span.start,
                    end: right.span.end,
                    line: left.span.line,
                    column: left.span.column,
                },
                kind: ExprKind::Binary { left: Box::new(left), op, right: Box::new(right) },
            }),
    {
        Expr {
            span: Span::new(left.span.start, right.span.end, left.span.line, left.span.column),
            kind: ExprKind::Binary { left: Box::new(left), op, right: Box::new(right) },
        }
    }

    fn logical_or(&mut self) -> (r: Result<Expr, CompileError>)
        requires
            old(self).wf(),
        ensures
            Self::await_refused(*old(self), r),
            Self::outcome(*old(self), *final(self), r),
            Self::progress(*old(self), *final(self), r),
            Self::chain_parsed(*old(self), *final(self), r),
            Self::compared_parsed(*old(self), *final(self), r),
            Self::equality_parsed(*old(self), *final(self), r),
            Self::logic_parsed(*old(self), *final(self), r, 2),
        decreases old(self).tokens@.len() - old(self).current, 17nat,
    {
        let ghost t = self.tokens@;
        let ghost i0 = self.current as int;
        let ghost k = chain_tree(t, i0).1;
        proof {
            if term_from(t, i0) {
                lemma_term_tree_end(t, i0);
            }
            if logic_form(t, i0) {
                lemma_logic_bounds(t, i0);
                lemma_chain_tree_end(t, k + 1);
                lemma_logic_tree_parts(t, i0);
                lemma_comparison_kinds(tok(t, logic_tree(t, i0).1));
            }
            lemma_comparison_kinds(tok(t, k));
        }
        let mut left = self.nullish_coalescing()?;
        while self.match_token(&Token::PipePipe)
            invariant
                self.wf(),
                self.tokens == old(self).tokens,
                self.current > old(self).current,
                self.async_depth == old(self).async_depth,
                !(old(self).peek_spec() is Await && !old(self).in_async()),
                old(self).on_chain() ==> (left == chain_tree(old(self).tokens@, old(self).current as int).0
                    && self.current == chain_tree(old(self).tokens@, old(self).current as int).1
                    && is_chain_end(tok(self.tokens@, self.current as int))),
                comparison_form(old(self).tokens@, old(self).current as int) ==> (left
                    == comparison_tree(old(self).tokens@, old(self).current as int).0 && self.current
                    == comparison_tree(old(self).tokens@, old(self).current as int).1 && is_chain_end(
                    tok(self.tokens@, self.current as int),
                )),
                equality_form(old(self).tokens@, old(self).current as int) ==> (left
                    == equality_tree(old(self).tokens@, old(self).current as int).0 && self.current
                    == equality_tree(old(self).tokens@, old(self).current as int).1 && is_chain_end(
                    tok(self.tokens@, self.current as int),
                )),
                t == self.tokens@,
                i0 == old(self).current,
                k == chain_tree(t, i0).1,
                logic_form(t, i0) ==> chain_from(t, k + 1) && k < logic_tree(t, i0).1 && is_chain_end(
                    tok(t, logic_tree(t, i0).1),
                ) && logic_tree(t, i0).0 == bin(
                    chain_tree(t, i0).0,
                    logic_op(tok(t, k))->0,
                    chain_tree(t, k + 1).0,
                ) && logic_tree(t, i0).1 == chain_tree(t, k + 1).1,
                term_from(t, i0) ==> is_term_end(tok(t, k)),
                kind_facts(tok(t, k)),
                logic_form(t, i0) ==> kind_facts(tok(t, logic_tree(t, i0).1)),
                logic_form(t, i0) && logic_rank(tok(t, k)) < 2 ==> (left == logic_tree(t, i0).0
                    && self.current == logic_tree(t, i0).1 && is_chain_end(tok(t, self.current as int))),
                logic_form(t, i0) && logic_rank(tok(t, k)) == 2 ==> ((self.current == k && left
                    == chain_tree(t, i0).0) || (self.current == logic_tree(t, i0).1 && left == logic_tree(
                    t,
                    i0,
                ).0 && is_chain_end(tok(t, self.current as int)))),
                term_from(t, i0) && logic_op(tok(t, k)) is Some && logic_rank(tok(t, k)) > 2 ==> (left
                    == chain_tree(t, i0).0 && self.current == k),
            decreases self.tokens@.len() - self.current,
        {
            let ghost j = self.current as int;
            proof {
                if logic_form(t, i0) && logic_rank(tok(t, k)) == 2 {
                    assert(j == k + 1);
                    assert(chain_from(t, k + 1));
                }
            }
            let right = self.nullish_coalescing()?;
            left = Self::binary(left, BinOp::Or, right);
        }
        Ok(left)
    }

    fn nullish_coalescing(&mut self) -> (r: Result<Expr, CompileError>)
        requires
            old(self).wf(),
        ensures
            Self::await_refused(*old(self), r),
            Self::outcome(*old(self), *final(self), r),
            Self::progress(*old(self), *final(self), r),
            Self::chain_parsed(*old(self), *final(self), r),
            Self::compared_parsed(*old(self), *final(self), r),
            Self::equality_parsed(*old(self), *final(self), r),
            Self::logic_parsed(*old(self), *final(self), r, 1),
            Self::logic_passed(*old(self), *final(self), r, 1),
        decreases old(self).tokens@.len() - old(self).current, 16nat,
    {
        let ghost t = self.tokens@;
        let ghost i0 = self.current as int;
        let ghost k = chain_tree(t, i0).1;
        proof {
            if term_from(t, i0) {
                lemma_term_tree_end(t, i0);
            }
            if logic_form(t, i0) {
                lemma_logic_bounds(t, i0);
                lemma_chain_tree_end(t, k + 1);
                lemma_logic_tree_parts(t, i0);
                lemma_comparison_kinds(tok(t, logic_tree(t, i0).1));
            }
            lemma_comparison_kinds(tok(t, k));
        }
        let mut left = self.logical_and()?;
        while self.match_token(&Token::QuestionQuestion)
            invariant
                self.wf(),
                self.tokens == old(self).tokens,
                self.current > old(self).current,
                self.async_depth == old(self).async_depth,
                !(old(self).peek_spec() is Await && !old(self).in_async()),
                old(self).on_chain() ==> (left == chain_tree(old(self).tokens@, old(self).current as int).0
                    && self.current == chain_tree(old(self).tokens@, old(self).current as int).1
                    && is_chain_end(tok(self.tokens@, self.current as int))),
                comparison_form(old(self).tokens@, old(self).current as int) ==> (left
                    == comparison_tree(old(self).tokens@, old(self).current as int).0 && self.current
                    == comparison_tree(old(self).tokens@, old(self).current as int).1 && is_chain_end(
                    tok(self.tokens@, self.current as int),
                )),
                equality_form(old(self).tokens@, old(self).current as int) ==> (left
                    == equality_tree(old(self).tokens@, old(self).current as int).0 && self.current
                    == equality_tree(old(self).tokens@, old(self).current as int).1 && is_chain_end(
                    tok(self.tokens@, self.current as int),
                )),
                t == self.tokens@,
                i0 == old(self).current,
                k == chain_tree(t, i0).1,
                logic_form(t, i0) ==> chain_from(t, k + 1) && k < logic_tree(t, i0).1 && is_chain_end(
                    tok(t, logic_tree(t, i0).1),
                ) && logic_tree(t, i0).0 == bin(
                    chain_tree(t, i0).0,
                    logic_op(tok(t, k))->0,
                    chain_tree(t, k + 1).0,
                ) && logic_tree(t, i0).1 == chain_tree(t, k + 1).1,
                term_from(t, i0) ==> is_term_end(tok(t, k)),
                kind_facts(tok(t, k)),
                logic_form(t, i0) ==> kind_facts(tok(t, logic_tree(t, i0).1)),
                logic_form(t, i0) && logic_rank(tok(t, k)) < 1 ==> (left == logic_tree(t, i0).0
                    && self.current == logic_tree(t, i0).1 && is_chain_end(tok(t, self.current as int))),
                logic_form(t, i0) && logic_rank(tok(t, k)) == 1 ==> ((self.current == k && left
                    == chain_tree(t, i0).0) || (self.current == logic_tree(t, i0).1 && left == logic_tree(
                    t,
                    i0,
                ).0 && is_chain_end(tok(t, self.current as int)))),
                term_from(t, i0) && logic_op(tok(t, k)) is Some && logic_rank(tok(t, k)) > 1 ==> (left
                    == chain_tree(t, i0).0 && self.current == k),
            decreases self.tokens@.len() - self.current,
        {
            let ghost j = self.current as int;
            proof {
                if logic_form(t, i0) && logic_rank(tok(t, k)) == 1 {
                    assert(j == k + 1);
                    assert(chain_from(t, k + 1));
                }
            }
            let right = self.logical_and()?;
            left = Self::binary(left, BinOp::NullishCoalescing, right);
        }
        Ok(left)
    }

    fn logical_and(&mut self) -> (r: Result<Expr, CompileError>)
        requires
            old(self).wf(),
        ensures
            Self::await_refused(*old(self), r),
            Self::outcome(*old(self), *final(self), r),
            Self::progress(*old(self), *final(self), r),
            Self::chain_parsed(*old(self), *final(self), r),
            Self::compared_parsed(*old(self), *final(self), r),
            Self::equality_parsed(*old(self), *final(self), r),
            Self::logic_parsed(*old(self), *final(self), r, 0),
            Self::logic_passed(*old(self), *final(self), r, 0),
        decreases old(self).tokens@.len() - old(self).current, 15nat,
    {
        let ghost t = self.tokens@;
        let ghost i0 = self.current as int;
        let ghost k = chain_tree(t, i0).1;
        proof {
            if term_from(t, i0) {
                lemma_term_tree_end(t, i0);
            }
            if logic_form(t, i0) {
                lemma_logic_bounds(t, i0);
                lemma_chain_tree_end(t, k + 1);
                lemma_logic_tree_parts(t, i0);
                lemma_comparison_kinds(tok(t, logic_tree(t, i0).1));
            }
            lemma_comparison_kinds(tok(t, k));
        }
        let mut left = self.equality()?;
        while self.match_token(&Token::AmpersandAmpersand)
            invariant
                self.wf(),
                self.tokens == old(self).tokens,
                self.current > old(self).current,
                self.async_depth == old(self).async_depth,
                !(old(self).peek_spec() is Await && !old(self).in_async()),
                old(self).on_chain() ==> (left == chain_tree(old(self).tokens@, old(self).current as int).0
                    && self.current == chain_tree(old(self).tokens@, old(self).current as int).1
                    && is_chain_end(tok(self.tokens@, self.current as int))),
                comparison_form(old(self).tokens@, old(self).current as int) ==> (left
                    == comparison_tree(old(self).tokens@, old(self).current as int).0 && self.current
                    == comparison_tree(old(self).tokens@, old(self).current as int).1 && is_chain_end(
                    tok(self.tokens@, self.current as int),
                )),
                equality_form(old(self).tokens@, old(self).current as int) ==> (left
                    == equality_tree(old(self).tokens@, old(self).current as int).0 && self.current
                    == equality_tree(old(self).tokens@, old(self).current as int).1 && is_chain_end(
                    tok(self.tokens@, self.current as int),
                )),
                t == self.tokens@,
                i0 == old(self).current,
                k == chain_tree(t, i0).1,
                logic_form(t, i0) ==> chain_from(t, k + 1) && k < logic_tree(t, i0).1 && is_chain_end(
                    tok(t, logic_tree(t, i0).1),
                ) && logic_tree(t, i0).0 == bin(
                    chain_tree(t, i0).0,
                    logic_op(tok(t, k))->0,
                    chain_tree(t, k + 1).0,
                ) && logic_tree(t, i0).1 == chain_tree(t, k + 1).1,
                term_from(t, i0) ==> is_term_end(tok(t, k)),
                kind_facts(tok(t, k)),
                logic_form(t, i0) ==> kind_facts(tok(t, logic_tree(t, i0).1)),
                logic_form(t, i0) && logic_rank(tok(t, k)) < 0 ==> (left == logic_tree(t, i0).0
                    && self.current == logic_tree(t, i0).1 && is_chain_end(tok(t, self.current as int))),
                logic_form(t, i0) && logic_rank(tok(t, k)) == 0 ==> ((self.current == k && left
                    == chain_tree(t, i0).0) || (self.current == logic_tree(t, i0).1 && left == logic_tree(
                    t,
                    i0,
                ).0 && is_chain_end(tok(t, self.current as int)))),
                term_from(t, i0) && logic_op(tok(t, k)) is Some && logic_rank(tok(t, k)) > 0 ==> (left
                    == chain_tree(t, i0).0 && self.current == k),
            decreases self.tokens@.len() - self.current,
        {
            let ghost j = self.current as int;
            proof {
                if logic_form(t, i0) && logic_rank(tok(t, k)) == 0 {
                    assert(j == k + 1);
                    assert(chain_from(t, k + 1));
                }
            }
            let right = self.equality()?;
            left = Self::binary(left, BinOp::And, right);
        }
        Ok(left)
    }

    fn equality(&mut self) -> (r: Result<Expr, CompileError>)
        requires
            old(self).wf(),
        ensures
            Self::await_refused(*old(self), r),
            Self::outcome(*old(self), *final(self), r),
            Self::progress(*old(self), *final(self), r),
            Self::chain_parsed(*old(self), *final(self), r),
            Self::compared_parsed(*old(self), *final(self), r),
            Self::equality_parsed(*old(self), *final(self), r),
            Self::logic_passed(*old(self), *final(self), r, -1),
        decreases old(self).tokens@.len() - old(self).current, 14nat,
    {
        let ghost t = self.tokens@;
        let ghost i0 = self.current as int;
        let ghost k = chain_tree(t, i0).1;
        proof {
            if equality_form(t, i0) {
                lemma_term_tree_end(t, i0);
                lemma_chain_tree_end(t, k + 1);
                lemma_equality_tree_parts(t, i0);
            }
        }
        let mut left = self.comparison()?;
        loop
            invariant
                self.wf(),
                self.tokens == old(self).tokens,
                self.current > old(self).current,
                self.async_depth == old(self).async_depth,
                !(old(self).peek_spec() is Await && !old(self).in_async()),
                old(self).on_chain() ==> (left == chain_tree(old(self).tokens@, old(self).current as int).0
                    && self.current == chain_tree(old(self).tokens@, old(self).current as int).1
                    && is_chain_end(tok(self.tokens@, self.current as int))),
                comparison_form(old(self).tokens@, old(self).current as int) ==> (left
                    == comparison_tree(old(self).tokens@, old(self).current as int).0 && self.current
                    == comparison_tree(old(self).tokens@, old(self).current as int).1 && is_chain_end(
                    tok(self.tokens@, self.current as int),
                )),
                t == self.tokens@,
                i0 == old(self).current,
                k == chain_tree(t, i0).1,
                equality_form(t, i0) ==> chain_from(t, k + 1) && k < equality_tree(t, i0).1,
                term_from(t, i0) && logic_op(tok(t, k)) is Some ==> (left == chain_tree(t, i0).0
                    && self.current == k),
                equality_form(t, i0) ==> ((self.current == k && left == chain_tree(t, i0).0) || (
                self.current == equality_tree(t, i0).1 && left == equality_tree(t, i0).0 && is_chain_end(
                    tok(t, self.current as int),
                ))),
            ensures
                term_from(t, i0) && logic_op(tok(t, k)) is Some ==> (left == chain_tree(t, i0).0
                    && self.current == k),
                equality_form(t, i0) ==> (left == equality_tree(t, i0).0 && self.current
                    == equality_tree(t, i0).1 && is_chain_end(tok(t, self.current as int))),
                old(self).on_chain() ==> (left == chain_tree(old(self).tokens@, old(self).current as int).0
                    && self.current == chain_tree(old(self).tokens@, old(self).current as int).1
                    && is_chain_end(tok(self.tokens@, self.current as int))),
                comparison_form(old(self).tokens@, old(self).current as int) ==> (left
                    == comparison_tree(old(self).tokens@, old(self).current as int).0 && self.current
                    == comparison_tree(old(self).tokens@, old(self).current as int).1 && is_chain_end(
                    tok(self.tokens@, self.current as int),
                )),
            decreases self.tokens@.len() - self.current,
        {
            proof {
                lemma_comparison_kinds(tok(t, self.current as int));
                assert(self.peek_spec() == tok(t, self.current as int));
            }
            let op = if self.check(&Token::EqualEqual) {
                BinOp::Equal
            } else if self.check(&Token::EqualEqualEqual) {
                BinOp::StrictEqual
            } else if self.check(&Token::BangEqual) {
                BinOp::NotEqual
            } else if self.check(&Token::BangEqualEqual) {
                BinOp::StrictNotEqual
            } else {
                break;
            };
            let ghost j = self.current as int;
            proof {
                if equality_form(t, i0) {
                    assert(j == k);
                    assert(op == equality_op(tok(t, k))->0);
                    assert(chain_from(t, k + 1));
                }
            }
            self.advance();
            let right = self.comparison()?;
            proof {
                if equality_form(t, i0) {
                    assert(right == chain_tree(t, k + 1).0);
                    assert(self.current == chain_tree(t, k + 1).1);
                    lemma_equality_tree_parts(t, i0);
                }
            }
            left = Self::binary(left, op, right);
        }
        Ok(left)
    }

    fn comparison(&mut self) -> (r: Result<Expr, CompileError>)
        requires
            old(self).wf(),
        ensures
            Self::await_refused(*old(self), r),
            Self::outcome(*old(self), *final(self), r),
            Self::progress(*old(self), *final(self), r),
            Self::chain_parsed(*old(self), *final(self), r),
            Self::compared_parsed(*old(self), *final(self), r),
            term_from(old(self).tokens@, old(self).current as int) && (equality_op(
                tok(old(self).tokens@, chain_tree(old(self).tokens@, old(self).current as int).1),
            ) is Some || logic_op(
                tok(old(self).tokens@, chain_tree(old(self).tokens@, old(self).current as int).1),
            ) is Some) ==> (r == Ok::<Expr, CompileError>(
                chain_tree(old(self).tokens@, old(self).current as int).0,
            ) && final(self).current == chain_tree(old(self).tokens@, old(self).current as int).1),
        decreases old(self).tokens@.len() - old(self).current, 13nat,
    {
        let ghost t = self.tokens@;
        let ghost i0 = self.current as int;
        let ghost k = chain_tree(t, i0).1;
        let mut left = self.additive()?;
        proof {
            lemma_comparison_kinds(tok(t, self.current as int));
            if term_from(t, i0) {
                lemma_term_tree_end(t, i0);
            }
            if comparison_form(t, i0) {
                lemma_term_tree_end(t, i0);
                assert(chain_from(t, k + 1));
                lemma_chain_tree_end(t, k + 1);
                lemma_comparison_tree_parts(t, i0);
            }
        }
        loop
            invariant
                self.wf(),
                self.tokens == old(self).tokens,
                self.current > old(self).current,
                self.async_depth == old(self).async_depth,
                !(old(self).peek_spec() is Await && !old(self).in_async()),
                old(self).on_chain() ==> (left == chain_tree(old(self).tokens@, old(self).current as int).0
                    && self.current == chain_tree(old(self).tokens@, old(self).current as int).1
                    && is_chain_end(tok(self.tokens@, self.current as int))),
                t == self.tokens@,
                i0 == old(self).current,
                k == chain_tree(t, i0).1,
                term_from(t, i0) && (equality_op(tok(t, k)) is Some || logic_op(tok(t, k)) is Some) ==> (left == chain_tree(t, i0).0
                    && self.current == k),
                comparison_form(t, i0) ==> chain_from(t, k + 1) && k < comparison_tree(t, i0).1,
                comparison_form(t, i0) ==> ((self.current == k && left == chain_tree(t, i0).0) || (
                self.current == comparison_tree(t, i0).1 && left == comparison_tree(t, i0).0 && is_chain_end(
                    tok(t, self.current as int),
                ))),
            ensures
                term_from(t, i0) && (equality_op(tok(t, k)) is Some || logic_op(tok(t, k)) is Some) ==> (left == chain_tree(t, i0).0
                    && self.current == k),
                comparison_form(t, i0) ==> (left == comparison_tree(t, i0).0 && self.current
                    == comparison_tree(t, i0).1 && is_chain_end(tok(t, self.current as int))),
            decreases self.tokens@.len() - self.current,
        {
            proof {
                lemma_comparison_kinds(tok(t, self.current as int));
                assert(self.peek_spec() == tok(t, self.current as int));
            }
            let op = if self.check(&Token::Less) {
                BinOp::Less
            } else if self.check(&Token::Greater) {
                BinOp::Greater
            } else if self.check(&Token::LessEqual) {
                BinOp::LessEqual
            } else if self.check(&Token::GreaterEqual) {
                BinOp::GreaterEqual
            } else {
                break;
            };
            let ghost j = self.current as int;
            proof {
                if comparison_form(t, i0) {
                    assert(j == k);
                    assert(op == comparison_op(tok(t, k))->0);
                    assert(chain_from(t, k + 1));
                }
            }
            self.advance();
            let right = self.additive()?;
            left = Self::binary(left, op, right);
            proof {
                if comparison_form(t, i0) {
                    lemma_comparison_tree_parts(t, i0);
                }
            }
        }
        Ok(left)
    }

    fn additive(&mut self) -> (r: Result<Expr, CompileError>)
        requires
            old(self).wf(),
        ensures
            Self::await_refused(*old(self), r),
            Self::outcome(*old(self), *final(self), r),
            Self::progress(*old(self), *final(self), r),
            Self::chain_parsed(*old(self), *final(self), r),
            old(self).on_term() ==> {
                &&& r == Ok::<Expr, CompileError>(chain_tree(old(self).tokens@, old(self).current as int).0)
                &&& final(self).current == chain_tree(old(self).tokens@, old(self).current as int).1
                &&& is_term_end(tok(old(self).tokens@, final(self).current as int))
            },
        decreases old(self).tokens@.len() - old(self).current, 12nat,
    {
        let ghost t = self.tokens@;
        let ghost i0 = self.current as int;
        let mut left = self.multiplicative()?;
        proof {
            if chain_from(t, i0) {
                lemma_mul_level_chain(t, i0);
            }
            if term_from(t, i0) {
                lemma_mul_level_term(t, i0);
            }
        }
        loop
            invariant
                self.wf(),
                self.tokens == old(self).tokens,
                self.current > old(self).current,
                self.async_depth == old(self).async_depth,
                !(old(self).peek_spec() is Await && !old(self).in_async()),
                t == old(self).tokens@,
                i0 == old(self).current,
                chain_from(t, i0) ==> (chain_after(t, self.current as int) && (add_op(
                    tok(t, self.current as int),
                ) is Some || is_chain_end(tok(t, self.current as int))) && add_fold(
                    t,
                    left,
                    self.current as int,
                ) == chain_tree(t, i0)),
                term_from(t, i0) ==> (term_after(t, self.current as int) && (add_op(
                    tok(t, self.current as int),
                ) is Some || is_term_end(tok(t, self.current as int))) && add_fold(
                    t,
                    left,
                    self.current as int,
                ) == chain_tree(t, i0)),
            ensures
                chain_from(t, i0) ==> (left == chain_tree(t, i0).0 && self.current == chain_tree(
                    t,
                    i0,
                ).1 && is_chain_end(tok(t, self.current as int))),
                term_from(t, i0) ==> (left == chain_tree(t, i0).0 && self.current == chain_tree(
                    t,
                    i0,
                ).1 && is_term_end(tok(t, self.current as int))),
            decreases self.tokens@.len() - self.current,
        {
            let op = if self.check(&Token::Plus) {
                BinOp::Add
            } else if self.check(&Token::Minus) {
                BinOp::Subtract
            } else {
                proof {
                    assert(self.peek_spec() == tok(t, self.current as int));
                    if chain_from(t, i0) {
                        lemma_chain_tree_end(t, i0);
                        assert(add_op(tok(t, self.current as int)) is None);
                        assert(add_fold(t, left, self.current as int) == (left, self.current as int));
                    }
                    if term_from(t, i0) {
                        lemma_term_tree_end(t, i0);
                        assert(add_op(tok(t, self.current as int)) is None);
                        assert(add_fold(t, left, self.current as int) == (left, self.current as int));
                    }
                }
                break;
            };
            let ghost j = self.current as int;
            self.advance();
            let right = self.multiplicative()?;
            proof {
                if chain_from(t, i0) {
                    lemma_mul_level_chain(t, j + 1);
                }
                if term_from(t, i0) {
                    lemma_mul_level_term(t, j + 1);
                }
            }
            left = Self::binary(left, op, right);
        }
        Ok(left)
    }

    fn multiplicative(&mut self) -> (r: Result<Expr, CompileError>)
        requires
            old(self).wf(),
        ensures
            Self::await_refused(*old(self), r),
            Self::outcome(*old(self), *final(self), r),
            Self::progress(*old(self), *final(self), r),
            old(self).on_chain() ==> (r == Ok::<Expr, CompileError>(mul_level(old(self).tokens@, old(self).current as int).0) && final(self).current == mul_level(old(self).tokens@, old(self).current as int).1),
            old(self).on_term() ==> (r == Ok::<Expr, CompileError>(mul_level(old(self).tokens@, old(self).current as int).0) && final(self).current == mul_level(old(self).tokens@, old(self).current as int).1),
        decreases old(self).tokens@.len() - old(self).current, 11nat,
    {
        let ghost t = self.tokens@;
        let ghost i0 = self.current as int;
        let mut left = self.exponentiation()?;
        proof {
            if chain_from(t, i0) {
                lemma_pow_chain(t, i0);
            }
            if term_from(t, i0) {
                lemma_pow_term(t, i0);
            }
        }
        loop
            invariant
                self.wf(),
                self.tokens == old(self).tokens,
                self.current > old(self).current,
                self.async_depth == old(self).async_depth,
                !(old(self).peek_spec() is Await && !old(self).in_async()),
                t == old(self).tokens@,
                i0 == old(self).current,
                chain_from(t, i0) ==> (chain_after(t, self.current as int) && !(tok(
                    t,
                    self.current as int,
                ) is StarStar) && mul_fold(t, left, self.current as int) == mul_level(t, i0)),
                term_from(t, i0) ==> (term_after(t, self.current as int) && !(tok(
                    t,
                    self.current as int,
                ) is StarStar) && mul_fold(t, left, self.current as int) == mul_level(t, i0)),
            ensures
                chain_from(t, i0) ==> (left == mul_level(t, i0).0 && self.current == mul_level(
                    t,
                    i0,
                ).1),
                term_from(t, i0) ==> (left == mul_level(t, i0).0 && self.current == mul_level(
                    t,
                    i0,
                ).1),
            decreases self.tokens@.len() - self.current,
        {
            let op = if self.check(&Token::Star) {
                BinOp::Multiply
            } else if self.check(&Token::Slash) {
                BinOp::Divide
            } else if self.check(&Token::Percent) {
                BinOp::Modulo
            } else {
                proof {
                    assert(self.peek_spec() == tok(t, self.current as int));
                    if chain_from(t, i0) || term_from(t, i0) {
                        assert(mul_op(tok(t, self.current as int)) is None);
                        assert(mul_fold(t, left, self.current as int) == (left, self.current as int));
                    }
                }
                break;
            };
            let ghost j = self.current as int;
            self.advance();
            let right = self.exponentiation()?;
            proof {
                if chain_from(t, i0) {
                    lemma_pow_chain(t, j + 1);
                }
                if term_from(t, i0) {
                    lemma_pow_term(t, j + 1);
                }
            }
            left = Self::binary(left, op, right);
        }
        Ok(left)
    }

    fn exponentiation(&mut self) -> (r: Result<Expr, CompileError>)
        requires
            old(self).wf(),
        ensures
            Self::await_refused(*old(self), r),
            Self::outcome(*old(self), *final(self), r),
            Self::progress(*old(self), *final(self), r),
            old(self).on_chain() ==> (r == Ok::<Expr, CompileError>(pow_tree(old(self).tokens@, old(self).current as int)) && final(self).current == pow_end(old(self).tokens@, old(self).current as int)),
            old(self).on_term() ==> (r == Ok::<Expr, CompileError>(pow_tree(old(self).tokens@, old(self).current as int)) && final(self).current == pow_end(old(self).tokens@, old(self).current as int)),
        decreases old(self).tokens@.len() - old(self).current, 10nat,
    {
        let base = self.unary()?;

        if self.match_token(&Token::StarStar) {
            // Right-associative: 2 ** 3 ** 2 = 2 ** (3 ** 2)
            let exp = self.exponentiation()?;
            return Ok(Self::binary(base, BinOp::Power, exp));
        }
        Ok(base)
    }

    fn unary(&mut self) -> (r: Result<Expr, CompileError>)
        requires
            old(self).wf(),
        ensures
            Self::await_refused(*old(self), r),
            Self::outcome(*old(self), *final(self), r),
            Self::progress(*old(self), *final(self), r),
            Self::operand_parsed(*old(self), *final(self), r),
        decreases old(self).tokens@.len() - old(self).current, 9nat,
    {
        let span = self.current_span();
        if self.check(&Token::Minus) || self.check(&Token::Bang) {
            let op = if self.check(&Token::Minus) {
                UnaryOp::Negate
            } else {
                UnaryOp::Not
            };
            self.advance();
            let operand = self.unary()?;
            return Ok(
                Expr {
                    span: self.span_from(&span),
                    kind: ExprKind::Unary { op, operand: Box::new(operand) },
                },
            );
        }
        if self.check(&Token::Typeof) {
            self.advance();
            let operand = self.unary()?;
            return Ok(
                Expr {
                    span: self.span_from(&span),
                    kind: ExprKind::Typeof { operand: Box::new(operand) },
                },
            );
        }
        if self.check(&Token::Await) {
            if self.async_depth == 0 {
                return Err(
                    CompileError::error(
                        string_of("'await' can only be used inside an async function"),
                        span,
                    ),
                );
            }
            self.advance();
            let operand = self.unary()?;
            return Ok(
                Expr {
                    span: self.span_from(&span),
                    kind: ExprKind::Await { expr: Box::new(operand) },
                },
            );
        }
        if self.check(&Token::PlusPlus) || self.check(&Token::MinusMinus) {
            let op = if self.check(&Token::PlusPlus) {
                UpdateOp::Increment
            } else {
                UpdateOp::Decrement
            };
            self.advance();
            let target = self.call()?;
            return Ok(
                Expr {
                    span: self.span_from(&span),
                    kind: ExprKind::PrefixUpdate { target: Box::new(target), op },
                },
            );
        }
        self.postfix()
    }

    fn postfix(&mut self) -> (r: Result<Expr, CompileError>)
        requires
            old(self).wf(),
        ensures
            Self::outcome(*old(self), *final(self), r),
            Self::progress(*old(self), *final(self), r),
            Self::operand_parsed(*old(self), *final(self), r),
        decreases old(self).tokens@.len() - old(self).current, 8nat,
    {
        let expr = self.call()?;

        // Only consume ++/-- when the LHS is a valid lvalue
        let is_lvalue = match &expr.kind {
            ExprKind::Identifier(_) | ExprKind::IndexAccess { .. } | ExprKind::Member { .. } =>
                true,
            _ => false,
        };

        if is_lvalue && (self.check(&Token::PlusPlus) || self.check(&Token::MinusMinus)) {
            let op = if self.check(&Token::PlusPlus) {
                UpdateOp::Increment
            } else {
                UpdateOp::Decrement
            };
            let start_span = expr.span;
            self.advance();
            return Ok(
                Expr {
                    span: self.span_from(&start_span),
                    kind: ExprKind::PostfixUpdate { target: Box::new(expr), op },
                },
            );
        }
        Ok(expr)
    }

    /// Comma-separated expressions up to `)`; the `(` has been consumed and
    /// the `)` is consumed too.
    /// Reads the arguments of a call up to and including its `)`.
    fn arguments(&mut self, message: &str) -> (r: Result<Vec<Expr>, CompileError>)
        requires
            old(self).wf(),
        ensures
            Self::outcome(*old(self), *final(self), r),
            Self::progress(*old(self), *final(self), r),
            call_args(old(self).tokens@, old(self).current as int) matches Some((items, m)) ==> (
            r matches Ok(a) && a@ == items && final(self).current == m),
        decreases old(self).tokens@.len() - old(self).current, 21nat,
    {
        let mut args: Vec<Expr> = Vec::new();
        let ghost t = self.tokens@;
        let ghost lit = call_args(t, old(self).current as int);
        if !self.check(&Token::RightParen) {
            loop
                invariant_except_break
                    lit is Some ==> (call_items(t, self.current as int) matches Some((rest, m))
                        && args@ + rest == (lit->0).0 && m == (lit->0).1),
                invariant
                    self.wf(),
                    self.tokens == old(self).tokens,
                    self.current >= old(self).current,
                    self.async_depth == old(self).async_depth,
                    t == self.tokens@,
                    lit == call_args(t, old(self).current as int),
                    !(tok(t, old(self).current as int) is RightParen),
                ensures
                    lit is Some ==> (args@ == (lit->0).0 && tok(t, self.current as int) is RightParen
                        && self.current + 1 == (lit->0).1),
                decreases self.tokens@.len() - self.current,
            {
                let ghost j = self.current as int;
                let ghost before = args@;
                proof {
                    if lit is Some {
                        lemma_chain_tree_end(t, j);
                    }
                }
                let a = self.expression()?;
                args.push(a);
                if !self.match_token(&Token::Comma) {
                    proof {
                        if lit is Some {
                            assert(args@ =~= before + seq![chain_tree(t, j).0]);
                            assert(args@ =~= (lit->0).0);
                        }
                    }
                    break;
                }
                proof {
                    if lit is Some {
                        let rest = (call_items(t, self.current as int)->0).0;
                        assert(args@ + rest =~= before + (seq![chain_tree(t, j).0] + rest));
                    }
                }
            }
        }
        proof {
            if lit is Some {
                assert(tok(t, self.current as int) is RightParen);
                assert(self.peek_spec() == tok(t, self.current as int));
            }
        }
        self.expect(&Token::RightParen, message)?;
        Ok(args)
    }

    fn call(&mut self) -> (r: Result<Expr, CompileError>)
        requires
            old(self).wf(),
        ensures
            Self::outcome(*old(self), *final(self), r),
            Self::progress(*old(self), *final(self), r),
            Self::operand_parsed(*old(self), *final(self), r),
        decreases old(self).tokens@.len() - old(self).current, 7nat,
    {
        let mut expr = self.primary()?;

        loop
            invariant
                self.wf(),
                self.tokens == old(self).tokens,
                self.current > old(self).current,
                self.async_depth == old(self).async_depth,
                old(self).on_chain() ==> (self.current == old(self).current + 1 && expr
                    == operand_expr(old(self).tokens@, old(self).current as int)),
                old(self).on_term() ==> (self.current == old(self).current + 1 && expr
                    == operand_expr(old(self).tokens@, old(self).current as int)),
            decreases self.tokens@.len() - self.current,
        {
            if self.match_token(&Token::LeftParen) {
                let args = self.arguments("Expected ')' after arguments")?;
                expr = Expr {
                    span: Span::new(
                        expr.span.start,
                        self.previous_span().end,
                        expr.span.line,
                        expr.span.column,
                    ),
                    kind: ExprKind::Call { callee: Box::new(expr), args },
                };
            } else if self.match_token(&Token::Dot) {
                let property = self.expect_identifier("Expected property name after '.'")?;
                expr = Expr {
                    span: Span::new(
                        expr.span.start,
                        self.previous_span().end,
                        expr.span.line,
                        expr.span.column,
                    ),
                    kind: ExprKind::Member { object: Box::new(expr), property },
                };
            } else if self.match_token(&Token::QuestionDot) {
                let property = self.expect_identifier("Expected property name after '?.'")?;
                expr = Expr {
                    span: Span::new(
                        expr.span.start,
                        self.previous_span().end,
                        expr.span.line,
                        expr.span.column,
                    ),
                    kind: ExprKind::OptionalMember { object: Box::new(expr), property },
                };
            } else if self.match_token(&Token::LeftBracket) {
                let index = self.expression()?;
                self.expect(&Token::RightBracket, "Expected ']' after index")?;
                expr = Expr {
                    span: Span::new(
                        expr.span.start,
                        self.previous_span().end,
                        expr.span.line,
                        expr.span.column,
                    ),
                    kind: ExprKind::IndexAccess { object: Box::new(expr), index: Box::new(index) },
                };
            } else {
                break;
            }
        }
        Ok(expr)
    }

    #[verifier::rlimit(60)]
    fn primary(&mut self) -> (r: Result<Expr, CompileError>)
        requires
            old(self).wf(),
        ensures
            Self::outcome(*old(self), *final(self), r),
            Self::progress(*old(self), *final(self), r),
            ({
                let t = old(self).peek_spec();
                let here = old(self).tokens@[old(self).current as int].span;
                match t {
                    Token::Identifier(n) => {
                        &&& r matches Ok(e)
                        &&& e.kind == ExprKind::Identifier(n)
                        &&& e.span == here
                        &&& final(self).current == old(self).current + 1
                    },
                    Token::New => {
                        &&& r matches Ok(e) ==> e.kind is NewExpr
                        &&& (tok(old(self).tokens@, old(self).current + 1) is Identifier && tok(
                            old(self).tokens@,
                            old(self).current + 2,
                        ) is LeftParen) ==> (call_args(old(self).tokens@, old(self).current + 3) matches Some(
                            (items, m),
                        ) ==> (r matches Ok(e) && e.kind matches ExprKind::NewExpr { class_name, args }
                            && tok(old(self).tokens@, old(self).current + 1) == Token::Identifier(
                            class_name,
                        ) && args@ == items && final(self).current == m))
                    },
                    Token::Function => r matches Ok(e) ==> e.kind matches ExprKind::ArrowFunction {
                        is_async: false,
                        body: ArrowBody::Block(_),
                        ..
                    },
                    Token::Async => r matches Ok(e) ==> e.kind matches ExprKind::ArrowFunction {
                        is_async: true,
                        ..
                    },
                    Token::LeftBracket => r matches Ok(e) ==> e.kind is ArrayLiteral,
                    Token::LeftBrace => {
                        &&& r matches Ok(e) ==> e.kind is ObjectLiteral
                        &&& obj_items(old(self).tokens@, old(self).current + 1) matches Some((items, m))
                            ==> (r matches Ok(e) && (e.kind matches ExprKind::ObjectLiteral { properties }
                            && props_match(properties@, items)) && final(self).current == m)
                    },
                    Token::LeftParen => {
                        let t = old(self).tokens@;
                        let c = old(self).current as int;
                        &&& r matches Ok(e) ==> (e.kind is Grouping || e.kind matches ExprKind::ArrowFunction {
                            is_async: false,
                            ..
                        })
                        &&& (plain_chain(t, c + 1) && tok(t, chain_tree(t, c + 1).1) is RightParen && !(tok(
                            t,
                            c + 2,
                        ) is Comma) && !(tok(t, c + 2) is RightParen && (tok(t, c + 3) is Arrow || tok(
                            t,
                            c + 3,
                        ) is Colon))) ==> (r matches Ok(e) && e.kind == ExprKind::Grouping {
                            expr: Box::new(chain_tree(t, c + 1).0),
                        } && final(self).current == chain_tree(t, c + 1).1 + 1)
                        &&& arrow_names(t, c + 1) matches Some((ns, m)) ==> (tok(t, m + 1) is Arrow
                            && plain_chain(t, m + 2) ==> (r matches Ok(e) && (e.kind matches ExprKind::ArrowFunction {
                            params,
                            return_type,
                            body,
                            is_async,
                        } && params@.len() == ns.len() && (forall|i: int|
                            0 <= i < params@.len() ==> (#[trigger] params@[i]).name@ == ns[i])
                            && return_type is None && body == ArrowBody::Expr(
                            Box::new(chain_tree(t, m + 2).0),
                        ) && !is_async) && final(self).current == chain_tree(t, m + 2).1))
                    },
                    _ => match literal_kind(t) {
                        Some(k) => {
                            &&& r matches Ok(e)
                            &&& e.kind == k
                            &&& e.span == here
                            &&& final(self).current == old(self).current + 1
                        },
                        None => r is Err,
                    },
                }
            }),
            array_literal(old(self).tokens@, old(self).current as int) matches Some((items, m)) ==> (
            r matches Ok(e) && e.kind is ArrayLiteral && e.kind->ArrayLiteral_elements@ == items
                && e.span == span_between(old(self).tokens@, old(self).current as int, m)
                && final(self).current == m),
        decreases old(self).tokens@.len() - old(self).current, 6nat,
    {
        let span = self.current_span();
        let literal = match self.peek_token() {
            Token::Number(n) => Some(ExprKind::NumberLiteral(n)),
            Token::String(s) => Some(ExprKind::StringLiteral(s)),
            Token::True => Some(ExprKind::BooleanLiteral(true)),
            Token::False => Some(ExprKind::BooleanLiteral(false)),
            Token::Null => Some(ExprKind::NullLiteral),
            Token::Undefined => Some(ExprKind::UndefinedLiteral),
            Token::This => Some(ExprKind::This),
            _ => None,
        };
        if let Some(kind) = literal {
            self.advance();
            return Ok(Expr { kind, span: self.span_from(&span) });
        }
        if self.check(&Token::New) {
            self.advance();
            let class_name = self.expect_identifier("Expected class name after 'new'")?;
            self.expect(&Token::LeftParen, "Expected '(' after class name")?;
            let args = self.arguments("Expected ')' after constructor arguments")?;
            return Ok(Expr { kind: ExprKind::NewExpr { class_name, args }, span: self.span_from(&span) });
        }
        if self.check(&Token::Function) {
            // Function expression: function(params): RetType { body }
            // Desugared to an arrow function
            self.advance();  // consume 'function'
            // Optional function name (ignored)
            if self.check(&Token::Identifier(String::new())) {
                self.advance();
            }
            self.expect(&Token::LeftParen, "Expected '(' after 'function'")?;
            let params = self.parameter_list()?;
            self.expect(&Token::RightParen, "Expected ')' after parameters")?;
            let return_type = if self.match_token(&Token::Colon) {
                Some(self.type_annotation()?)
            } else {
                None
            };
            self.expect(&Token::LeftBrace, "Expected '{' before function body")?;
            let body = self.block_body()?;
            return Ok(
                Expr {
                    kind: ExprKind::ArrowFunction {
                        params,
                        return_type,
                        body: ArrowBody::Block(body),
                        is_async: false,
                    },
                    span: self.span_from(&span),
                },
            );
        }
        if self.check(&Token::Async) {
            // async () => body  or  async (params) => body
            self.advance();  // consume 'async'
            return self.finish_async_arrow(span);
        }
        if self.check(&Token::Identifier(String::new())) {
            let name = self.expect_identifier("Expected identifier")?;
            return Ok(Expr { kind: ExprKind::Identifier(name), span: self.span_from(&span) });
        }
        if self.check(&Token::LeftBracket) {
            self.advance();
            let mut elements: Vec<Expr> = Vec::new();
            let ghost t = self.tokens@;
            let ghost lit = array_literal(t, old(self).current as int);
            if !self.check(&Token::RightBracket) {
                loop
                    invariant_except_break
                        lit is Some ==> (array_items(t, self.current as int) matches Some((rest, m))
                            && elements@ + rest == (lit->0).0 && m == (lit->0).1),
                    invariant
                        self.wf(),
                        self.tokens == old(self).tokens,
                        self.current > old(self).current,
                        self.async_depth == old(self).async_depth,
                        old(self).peek_spec() is LeftBracket,
                        t == self.tokens@,
                        lit == array_literal(t, old(self).current as int),
                        !(tok(t, old(self).current + 1) is RightBracket),
                    ensures
                        lit is Some ==> (elements@ == (lit->0).0 && tok(t, self.current as int) is RightBracket
                            && self.current + 1 == (lit->0).1),
                    decreases self.tokens@.len() - self.current,
                {
                    let ghost j = self.current as int;
                    let ghost before = elements@;
                    proof {
                        if lit is Some {
                            lemma_chain_tree_end(t, j);
                        }
                    }
                    let elem_span = self.current_span();
                    if self.match_token(&Token::Ellipsis) {
                        let spread_expr = self.expression()?;
                        elements.push(
                            Expr {
                                span: self.span_from(&elem_span),
                                kind: ExprKind::Spread { expr: Box::new(spread_expr) },
                            },
                        );
                    } else {
                        let e = self.expression()?;
                        elements.push(e);
                    }
                    if !self.match_token(&Token::Comma) {
                        proof {
                            if lit is Some {
                                assert(elements@ =~= before + seq![chain_tree(t, j).0]);
                                assert(elements@ =~= (lit->0).0);
                            }
                        }
                        break;
                    }
                    proof {
                        if lit is Some {
                            let rest = (array_items(t, self.current as int)->0).0;
                            assert(elements@ + rest =~= before + (seq![chain_tree(t, j).0] + rest));
                        }
                    }
                }
            }
            proof {
                if lit is Some {
                    assert(tok(t, self.current as int) is RightBracket);
                    assert(self.peek_spec() == tok(t, self.current as int));
                    assert(elements@ == (lit->0).0);
                }
            }
            self.expect(&Token::RightBracket, "Expected ']' after array elements")?;
            return Ok(
                Expr { kind: ExprKind::ArrayLiteral { elements }, span: self.span_from(&span) },
            );
        }
        if self.check(&Token::LeftBrace) {
            self.advance();
            let properties = self.object_properties()?;
            return Ok(
                Expr { kind: ExprKind::ObjectLiteral { properties }, span: self.span_from(&span) },
            );
        }
        if self.check(&Token::LeftParen) {
            self.advance();
            if let Some(arrow) = self.try_arrow_function(&span)? {
                return Ok(arrow);
            }
            let expr = self.expression()?;
            self.expect(&Token::RightParen, "Expected ')'")?;
            return Ok(
                Expr { kind: ExprKind::Grouping { expr: Box::new(expr) }, span: self.span_from(&span) },
            );
        }
        let t = self.peek_token();
        let mut message = string_of("Unexpected token: ");
        append_token_debug(&mut message, &t);
        Err(CompileError::error(message, self.current_span()))
    }

    /// Properties of an object literal up to and including the closing `}`;
    /// the `{` has been consumed.
    fn object_properties(&mut self) -> (r: Result<Vec<ObjectProperty>, CompileError>)
        requires
            old(self).wf(),
        ensures
            Self::outcome(*old(self), *final(self), r),
            Self::progress(*old(self), *final(self), r),
            obj_items(old(self).tokens@, old(self).current as int) matches Some((items, m)) ==> (
            r matches Ok(ps) && props_match(ps@, items) && final(self).current == m),
        decreases old(self).tokens@.len() - old(self).current, 5nat,
    {
        let mut properties: Vec<ObjectProperty> = Vec::new();
        let ghost t = self.tokens@;
        let ghost lit = obj_items(t, old(self).current as int);
        while !self.check(&Token::RightBrace) && !self.is_at_end()
            invariant_except_break
                lit is Some ==> (obj_items(t, self.current as int) matches Some((rest, m))
                    && m == (lit->0).1 && properties@.len() + rest.len() == (lit->0).0.len()
                    && rest == (lit->0).0.skip(properties@.len() as int) && props_match(
                    properties@,
                    (lit->0).0.take(properties@.len() as int),
                )),
            invariant
                self.wf(),
                self.tokens == old(self).tokens,
                self.current >= old(self).current,
                self.async_depth == old(self).async_depth,
                t == self.tokens@,
                lit == obj_items(t, old(self).current as int),
            ensures
                lit is Some ==> (props_match(properties@, (lit->0).0) && tok(t, self.current as int) is RightBrace
                    && self.current + 1 == (lit->0).1),
            decreases self.tokens@.len() - self.current,
        {
            let ghost j = self.current as int;
            let ghost before = properties@;
            proof {
                if lit is Some {
                    assert(self.peek_spec() == tok(t, j));
                    assert(tok(t, j) is Identifier && tok(t, j + 1) is Colon && plain_chain(t, j + 2));
                    lemma_chain_tree_end(t, j + 2);
                }
            }
            let prop_span = self.current_span();

            // Spread element: { ...expr }
            if self.match_token(&Token::Ellipsis) {
                let spread_expr = self.expression()?;
                properties.push(
                    ObjectProperty {
                        key: String::new(),
                        computed_key: None,
                        value: spread_expr,
                        is_spread: true,
                        is_method: false,
                        params: Vec::new(),
                        return_type: None,
                        span: self.span_from(&prop_span),
                    },
                );
                self.match_token(&Token::Comma);
                continue;
            }
            // Computed property key: { [expr]: value }

            if self.match_token(&Token::LeftBracket) {
                let key_expr = self.expression()?;
                self.expect(&Token::RightBracket, "Expected ']' after computed key")?;
                self.expect(&Token::Colon, "Expected ':' after computed property key")?;
                let value = self.expression()?;
                properties.push(
                    ObjectProperty {
                        key: String::new(),
                        computed_key: Some(key_expr),
                        value,
                        is_spread: false,
                        is_method: false,
                        params: Vec::new(),
                        return_type: None,
                        span: self.span_from(&prop_span),
                    },
                );
                self.match_token(&Token::Comma);
                continue;
            }
            let key = self.expect_identifier("Expected property name")?;

            if self.check(&Token::LeftParen) {
                // Method shorthand: name(params) { body }
                self.advance();  // consume '('
                let params = self.parameter_list()?;
                self.expect(&Token::RightParen, "Expected ')'")?;
                let return_type = if self.match_token(&Token::Colon) {
                    Some(self.type_annotation()?)
                } else {
                    None
                };
                self.expect(&Token::LeftBrace, "Expected '{' before method body")?;
                let body_stmts = self.block_body()?;
                // The method body is stored as an arrow function
                let value = Expr {
                    kind: ExprKind::ArrowFunction {
                        params: copy_params(&params),
                        return_type: copy_opt_type_ann(&return_type),
                        body: ArrowBody::Block(body_stmts),
                        is_async: false,
                    },
                    span: self.span_from(&prop_span),
                };
                properties.push(
                    ObjectProperty {
                        key,
                        computed_key: None,
                        value,
                        is_method: true,
                        is_spread: false,
                        params,
                        return_type,
                        span: self.span_from(&prop_span),
                    },
                );
            } else if self.check(&Token::Comma) || self.check(&Token::RightBrace) {
                // Shorthand property: { name } → { name: name }
                let value = Expr { kind: ExprKind::Identifier(key.clone()), span: prop_span };
                properties.push(
                    ObjectProperty {
                        key,
                        computed_key: None,
                        value,
                        is_method: false,
                        is_spread: false,
                        params: Vec::new(),
                        return_type: None,
                        span: self.span_from(&prop_span),
                    },
                );
            } else {
                // Regular property: key: value
                self.expect(&Token::Colon, "Expected ':' after property name")?;
                let value = self.expression()?;
                properties.push(
                    ObjectProperty {
                        key,
                        computed_key: None,
                        value,
                        is_method: false,
                        is_spread: false,
                        params: Vec::new(),
                        return_type: None,
                        span: self.span_from(&prop_span),
                    },
                );
            }
            proof {
                if lit is Some {
                    let items = (lit->0).0;
                    assert(properties@ == before.push(properties@.last()));
                    assert(items.take(properties@.len() as int) =~= items.take(before.len() as int).push(
                        items[before.len() as int],
                    ));
                }
            }
            if !self.match_token(&Token::Comma) {
                proof {
                    if lit is Some {
                        assert((lit->0).0.take(properties@.len() as int) =~= (lit->0).0);
                    }
                }
                break;
            }
            proof {
                if lit is Some {
                    let items = (lit->0).0;
                    let k = chain_tree(t, j + 2).1;
                    assert(self.current == k + 1);
                    assert(tok(t, k) is Comma);
                    assert(obj_items(t, k + 1) is Some);
                    let rest2 = (obj_items(t, k + 1)->0).0;
                    assert(obj_items(t, j) == Some((seq![
                        (tok(t, j)->Identifier_0@, chain_tree(t, j + 2).0),
                    ] + rest2, (obj_items(t, k + 1)->0).1)));
                    assert(items.skip(before.len() as int) == (obj_items(t, j)->0).0);
                    assert(items.skip(before.len() as int) =~= seq![
                        (tok(t, j)->Identifier_0@, chain_tree(t, j + 2).0),
                    ] + rest2);
                    assert(properties@.len() == before.len() + 1);
                    assert forall|x: int| 0 <= x < rest2.len() implies rest2[x] == items.skip(
                        properties@.len() as int,
                    )[x] by {
                        assert(rest2[x] == items.skip(before.len() as int)[x + 1]);
                    }
                    assert(rest2 =~= items.skip(properties@.len() as int));
                    assert(items[before.len() as int] == items.skip(before.len() as int)[0]);
                    let tk = items.take(properties@.len() as int);
                    assert forall|i: int| 0 <= i < properties@.len() implies (#[trigger] properties@[i]).key@
                        == tk[i].0 && properties@[i].value == tk[i].1 && !properties@[i].is_spread
                        && properties@[i].computed_key is None && !properties@[i].is_method by {
                        if i < before.len() {
                            assert(properties@[i] == before[i]);
                            assert(tk[i] == items.take(before.len() as int)[i]);
                        }
                    }
                    assert(props_match(properties@, tk));
                }
            }
        }
        proof {
            if lit is Some {
                assert(self.peek_spec() == tok(t, self.current as int));
            }
        }
        self.expect(&Token::RightBrace, "Expected '}' after object literal")?;
        Ok(properties)
    }

    fn try_arrow_function(&mut self, start_span: &Span) -> (r: Result<Option<Expr>, CompileError>)
        requires
            old(self).wf(),
        ensures
            Self::outcome(*old(self), *final(self), r),
            r matches Ok(Some(_)) ==> final(self).current > old(self).current,
            r matches Ok(Some(e)) ==> e.kind matches ExprKind::ArrowFunction { is_async: false, .. },
            r matches Ok(None) ==> final(self).current == old(self).current,
            r matches Ok(Some(e)) ==> e.span.start == start_span.start && e.span.line
                == start_span.line && e.span.column == start_span.column,
            r matches Ok(Some(e)) ==> (e.kind matches ExprKind::ArrowFunction { params, .. }
                && forall|i: int|
                0 <= i < params@.len() ==> !(#[trigger] params@[i]).is_rest
                    && params@[i].default is None),
            !(old(self).peek_spec() is RightParen) && !(old(self).peek_spec() is Identifier) ==> r
                == Ok::<Option<Expr>, CompileError>(None),
            old(self).peek_spec() is RightParen && old(self).peek_at(1) is Arrow ==> !(r matches Ok(
                None,
            )),
            old(self).peek_spec() is Identifier && !(old(self).peek_at(1) is Colon) && !(old(
                self,
            ).peek_at(1) is Comma) && !(old(self).peek_at(1) is RightParen && (old(self).peek_at(2) is Arrow
                || old(self).peek_at(2) is Colon)) ==> (r == Ok::<Option<Expr>, CompileError>(None)
                && final(self).current == old(self).current),
            ({
                let t = old(self).tokens@;
                arrow_names(t, old(self).current as int) matches Some((ns, m)) ==> (tok(t, m + 1) is Arrow
                    && plain_chain(t, m + 2) ==> (r matches Ok(Some(e)) && (e.kind matches ExprKind::ArrowFunction {
                    params,
                    return_type,
                    body,
                    is_async,
                } && params@.len() == ns.len() && (forall|i: int|
                    0 <= i < params@.len() ==> (#[trigger] params@[i]).name@ == ns[i]) && return_type is None
                    && body == ArrowBody::Expr(Box::new(chain_tree(t, m + 2).0)) && !is_async)
                    && final(self).current == chain_tree(t, m + 2).1))
            }),
        decreases old(self).tokens@.len() - old(self).current, 5nat,
    {
        let saved = self.current;
        proof {
            let t = old(self).tokens@;
            if arrow_names(t, old(self).current as int) is Some {
                lemma_arrow_names_end(t, old(self).current as int);
                let m = (arrow_names(t, old(self).current as int)->0).1;
                if plain_chain(t, m + 2) {
                    lemma_chain_tree_end(t, m + 2);
                }
            }
        }

        let params_result = self.try_parse_arrow_params();
        match params_result {
            Some(params) => {
                if self.match_token(&Token::RightParen) {
                    let return_type = if self.match_token(&Token::Colon) {
                        Some(self.type_annotation()?)
                    } else {
                        None
                    };

                    if self.match_token(&Token::Arrow) {
                        let body = if self.check(&Token::LeftBrace) {
                            self.advance();
                            ArrowBody::Block(self.block_body()?)
                        } else {
                            ArrowBody::Expr(Box::new(self.expression()?))
                        };

                        return Ok(
                            Some(
                                Expr {
                                    kind: ExprKind::ArrowFunction {
                                        params,
                                        return_type,
                                        body,
                                        is_async: false,
                                    },
                                    span: self.span_from(start_span),
                                },
                            ),
                        );
                    }
                }
                self.current = saved;
                Ok(None)
            },
            None => {
                self.current = saved;
                Ok(None)
            },
        }
    }

    fn try_parse_arrow_params(&mut self) -> (r: Option<Vec<Parameter>>)
        requires
            old(self).wf(),
        ensures
            final(self).wf(),
            final(self).tokens == old(self).tokens,
            final(self).current >= old(self).current,
            final(self).async_depth == old(self).async_depth,
            old(self).peek_spec() is RightParen ==> (r matches Some(ps) && ps@.len() == 0
                && final(self).current == old(self).current),
            !(old(self).peek_spec() is RightParen) && !(old(self).peek_spec() is Identifier) ==> (r
                is None && final(self).current == old(self).current),
            !(old(self).peek_spec() is RightParen) && r is Some ==> r->0@.len() >= 1
                && final(self).current > old(self).current,
            r matches Some(ps) ==> forall|i: int|
                0 <= i < ps@.len() ==> !(#[trigger] ps@[i]).is_rest && ps@[i].default is None,
            old(self).peek_spec() is Identifier && !(old(self).peek_at(1) is Colon) && !(old(
                self,
            ).peek_at(1) is Comma) ==> (r matches Some(ps) && ps@.len() == 1 && final(self).current
                == old(self).current + 1),
            arrow_names(old(self).tokens@, old(self).current as int) matches Some((ns, m)) ==> (
            r matches Some(ps) && ps@.len() == ns.len() && (forall|i: int|
                0 <= i < ps@.len() ==> (#[trigger] ps@[i]).name@ == ns[i] && ps@[i].type_ann is None)
                && final(self).current == m),
        decreases old(self).tokens@.len() - old(self).current, 4nat,
    {
        let ghost single = old(self).peek_spec() is Identifier && !(old(self).peek_at(1) is Colon)
            && !(old(self).peek_at(1) is Comma);
        let ghost t = self.tokens@;
        let ghost lit = arrow_names(t, old(self).current as int);
        let mut params: Vec<Parameter> = Vec::new();
        if self.check(&Token::RightParen) {
            return Some(params);
        }
        loop
            invariant_except_break
                single ==> params@.len() == 0,
                lit is Some ==> (arrow_names(t, self.current as int) matches Some((rest, m))
                    && m == (lit->0).1 && params@.len() + rest.len() == (lit->0).0.len() && rest
                    == (lit->0).0.skip(params@.len() as int) && forall|i: int|
                    0 <= i < params@.len() ==> (#[trigger] params@[i]).name@ == (lit->0).0[i]
                        && params@[i].type_ann is None),
            invariant
                t == self.tokens@,
                lit == arrow_names(t, old(self).current as int),
                self.wf(),
                self.tokens == old(self).tokens,
                self.current >= old(self).current,
                self.async_depth == old(self).async_depth,
                !(old(self).peek_spec() is RightParen),
                !(old(self).peek_spec() is Identifier) ==> self.current == old(self).current,
                params@.len() > 0 ==> self.current > old(self).current,
                params@.len() == 0 ==> self.current == old(self).current,
                forall|i: int|
                    0 <= i < params@.len() ==> !(#[trigger] params@[i]).is_rest
                        && params@[i].default is None,
                single == (old(self).peek_spec() is Identifier && !(old(self).peek_at(1) is Colon)
                    && !(old(self).peek_at(1) is Comma)),
            ensures
                params@.len() >= 1,
                self.current > old(self).current,
                single ==> params@.len() == 1 && self.current == old(self).current + 1,
                lit is Some ==> (params@.len() == (lit->0).0.len() && (forall|i: int|
                    0 <= i < params@.len() ==> (#[trigger] params@[i]).name@ == (lit->0).0[i]
                        && params@[i].type_ann is None) && self.current == (lit->0).1),
            decreases self.tokens@.len() - self.current,
        {
            let ghost j = self.current as int;
            let ghost before = params@;
            proof {
                if lit is Some {
                    assert(self.peek_spec() == tok(t, j));
                    assert(tok(t, j) is Identifier && (tok(t, j + 1) is Comma || tok(t, j + 1) is RightParen));
                }
            }
            let param_span = self.current_span();
            if self.check(&Token::Identifier(String::new())) {
                let name = match self.expect_identifier("Expected parameter name") {
                    Ok(n) => n,
                    Err(_) => {
                        return None;
                    },
                };
                let type_ann = if self.match_token(&Token::Colon) {
                    match self.type_annotation() {
                        Ok(t) => Some(t),
                        Err(_) => {
                            return None;
                        },
                    }
                } else {
                    None
                };
                params.push(
                    Parameter {
                        name,
                        type_ann,
                        default: None,
                        is_rest: false,
                        span: self.span_from(&param_span),
                    },
                );
                assert(single ==> !(self.peek_spec() is Comma));
                proof {
                    if lit is Some {
                        assert(params@[params@.len() - 1].name@ == tok(t, j)->Identifier_0@);
                        assert forall|i: int| 0 <= i < before.len() implies params@[i] == before[i] by {}
                    }
                }
                if !self.match_token(&Token::Comma) {
                    proof {
                        if lit is Some {
                            let items = (lit->0).0;
                            assert(tok(t, j + 1) is RightParen);
                            assert(items.skip(before.len() as int) == (arrow_names(t, j)->0).0);
                            assert(items[before.len() as int] == items.skip(before.len() as int)[0]);
                            assert forall|i: int| 0 <= i < params@.len() implies (#[trigger] params@[i]).name@
                                == items[i] && params@[i].type_ann is None by {
                                if i < before.len() {
                                    assert(params@[i] == before[i]);
                                }
                            }
                        }
                    }
                    break;
                }
                proof {
                    if lit is Some {
                        let items = (lit->0).0;
                        let rest2 = (arrow_names(t, j + 2)->0).0;
                        assert(items.skip(before.len() as int) == (arrow_names(t, j)->0).0);
                        assert forall|x: int| 0 <= x < rest2.len() implies rest2[x] == items.skip(
                            params@.len() as int,
                        )[x] by {
                            assert(rest2[x] == items.skip(before.len() as int)[x + 1]);
                        }
                        assert(rest2 =~= items.skip(params@.len() as int));
                        assert(items[before.len() as int] == items.skip(before.len() as int)[0]);
                    }
                }
            } else {
                return None;
            }
        }
        Some(params)
    }

    // --- Helpers ---

    fn peek_token(&self) -> (r: Token)
        ensures
            r == self.peek_spec(),
    {
        if self.current < self.tokens.len() {
            self.tokens[self.current].token.duplicate()
        } else {
            Token::Eof
        }
    }

    /// Kind code of the token `offset` places ahead, `Eof`'s past the end.
    fn kind_at(&self, offset: usize) -> (r: u8)
        requires
            self.wf(),
        ensures
            offset == 0 ==> r as nat == self.peek_spec().kind(),
            r as nat == self.peek_at(offset as int).kind(),
    {
        if offset < self.tokens.len() && self.current < self.tokens.len() - offset {
            self.tokens[self.current + offset].token.kind_code()
        } else {
            89
        }
    }

    fn current_span(&self) -> (r: Span)
        ensures
            self.current < self.tokens@.len() ==> r == self.tokens@[self.current as int].span,
            r == span_at(self.tokens@, self.current as int),
    {
        if self.current < self.tokens.len() {
            self.tokens[self.current].span
        } else {
            Span::new(0, 0, 0, 0)
        }
    }

    fn previous_span(&self) -> (r: Span)
        ensures
            1 <= self.current <= self.tokens@.len() ==> r == self.tokens@[self.current - 1].span,
    {
        let i = if self.current >= 1 {
            self.current - 1
        } else {
            0
        };
        if i < self.tokens.len() {
            self.tokens[i].span
        } else {
            Span::new(0, 0, 0, 0)
        }
    }

    /// The span from `start` to the end of the last token read.
    fn span_from(&self, start: &Span) -> (r: Span)
        ensures
            1 <= self.current <= self.tokens@.len() ==> r == (Span {
                start: start.start,
                end: self.tokens@[self.current - 1].span.end,
                line: start.line,
                column: start.column,
            }),
    {
        let end = self.previous_span();
        Span::new(start.start, end.end, start.line, start.column)
    }

    fn advance(&mut self)
        requires
            old(self).wf(),
        ensures
            final(self).wf(),
            final(self).tokens == old(self).tokens,
            final(self).async_depth == old(self).async_depth,
            final(self).current == if old(self).at_end() {
                old(self).current as int
            } else {
                old(self).current + 1
            },
    {
        if self.current < self.tokens.len() && !self.is_at_end() {
            self.current = self.current + 1;
        }
    }

    fn check(&self, token: &Token) -> (r: bool)
        ensures
            r == (self.peek_spec().kind() == token.kind()),
    {
        if self.current < self.tokens.len() {
            self.tokens[self.current].token.same_kind(token)
        } else {
            token.kind_code() == 89
        }
    }

    fn match_token(&mut self, token: &Token) -> (r: bool)
        requires
            old(self).wf(),
            !(token is Eof),
        ensures
            final(self).wf(),
            final(self).tokens == old(self).tokens,
            final(self).async_depth == old(self).async_depth,
            r == (old(self).peek_spec().kind() == token.kind()),
            final(self).current == old(self).current + if r { 1int } else { 0int },
    {
        if self.check(token) {
            self.advance();
            true
        } else {
            false
        }
    }

    fn expect(&mut self, token: &Token, message: &str) -> (r: Result<(), CompileError>)
        requires
            old(self).wf(),
            !(token is Eof),
        ensures
            Self::outcome(*old(self), *final(self), r),
            final(self).async_depth == old(self).async_depth,
            final(self).current == old(self).current + if r is Ok { 1int } else { 0int },
            r is Ok == (old(self).peek_spec().kind() == token.kind()),
    {
        if self.check(token) {
            self.advance();
            Ok(())
        } else {
            Err(self.error(message))
        }
    }

    fn expect_identifier(&mut self, message: &str) -> (r: Result<String, CompileError>)
        requires
            old(self).wf(),
        ensures
            Self::outcome(*old(self), *final(self), r),
            final(self).async_depth == old(self).async_depth,
            final(self).current == old(self).current + if r is Ok { 1int } else { 0int },
            match old(self).peek_spec() {
                Token::Identifier(n) => r matches Ok(m) && m == n,
                _ => r is Err,
            },
    {
        match self.peek_token() {
            Token::Identifier(name) => {
                self.advance();
                Ok(name)
            },
            _ => Err(self.error(message)),
        }
    }

    fn expect_string(&mut self, message: &str) -> (r: Result<String, CompileError>)
        requires
            old(self).wf(),
        ensures
            Self::outcome(*old(self), *final(self), r),
            final(self).async_depth == old(self).async_depth,
            final(self).current == old(self).current + if r is Ok { 1int } else { 0int },
            match old(self).peek_spec() {
                Token::String(v) => r matches Ok(m) && m == v,
                _ => r is Err,
            },
    {
        match self.peek_token() {
            Token::String(s) => {
                self.advance();
                Ok(s)
            },
            _ => Err(self.error(message)),
        }
    }

    fn consume_semicolon(&mut self) -> (r: Result<(), CompileError>)
        requires
            old(self).wf(),
        ensures
            Self::outcome(*old(self), *final(self), r),
            final(self).async_depth == old(self).async_depth,
            r is Ok,
            final(self).current == old(self).current + if old(self).peek_spec() is Semicolon {
                1int
            } else {
                0int
            },
    {
        self.match_token(&Token::Semicolon);
        Ok(())
    }

    fn is_at_end(&self) -> (r: bool)
        ensures
            r == self.at_end(),
    {
        self.kind_at_current() == 89
    }

    fn kind_at_current(&self) -> (r: u8)
        ensures
            r as nat == self.peek_spec().kind(),
    {
        if self.current < self.tokens.len() {
            self.tokens[self.current].token.kind_code()
        } else {
            89
        }
    }

    fn error(&self, message: &str) -> (e: CompileError)
        ensures
            parse_error(e),
            e.message@ == message@,
    {
        CompileError::error(string_of(message), self.current_span())
    }
}

/// The type that a single token stands for in a type annotation: a primitive
/// type keyword, `null`, `undefined`, or a string or number literal type.
pub open spec fn simple_type_kind(t: Token) -> Option<TypeAnnKind> {
    match t {
        Token::NumberType => Some(TypeAnnKind::Number),
        Token::StringType => Some(TypeAnnKind::String),
        Token::BooleanType => Some(TypeAnnKind::Boolean),
        Token::Void => Some(TypeAnnKind::Void),
        Token::Null => Some(TypeAnnKind::Null),
        Token::Undefined => Some(TypeAnnKind::Undefined),
        Token::String(s) => Some(TypeAnnKind::StringLiteral(s)),
        Token::Number(n) => Some(TypeAnnKind::NumberLiteral(n)),
        _ => None,
    }
}

/// The words that may stand before a class member: `public`, `private`,
/// `protected`, `static`, `readonly`, `abstract` and `override`.
pub open spec fn is_modifier_word(w: Seq<char>) -> bool {
    ||| w == "public"@
    ||| w == "private"@
    ||| w == "protected"@
    ||| w == "static"@
    ||| w == "readonly"@
    ||| w == "abstract"@
    ||| w == "override"@
}

/// The name of a token's variant, such as `LeftParen` or `Identifier`.
pub open spec fn variant_name(t: Token) -> Seq<char> {
    match t {
        Token::True => "True"@,
        Token::False => "False"@,
        Token::Null => "Null"@,
        Token::Undefined => "Undefined"@,
        Token::Let => "Let"@,
        Token::Const => "Const"@,
        Token::Var => "Var"@,
        Token::Function => "Function"@,
        Token::Return => "Return"@,
        Token::If => "If"@,
        Token::Else => "Else"@,
        Token::While => "While"@,
        Token::For => "For"@,
        Token::Of => "Of"@,
        Token::In => "In"@,
        Token::Break => "Break"@,
        Token::Continue => "Continue"@,
        Token::Do => "Do"@,
        Token::Switch => "Switch"@,
        Token::Case => "Case"@,
        Token::Default => "Default"@,
        Token::Void => "Void"@,
        Token::Import => "Import"@,
        Token::Export => "Export"@,
        Token::From => "From"@,
        Token::As => "As"@,
        Token::Typeof => "Typeof"@,
        Token::Class => "Class"@,
        Token::New => "New"@,
        Token::This => "This"@,
        Token::Extends => "Extends"@,
        Token::Super => "Super"@,
        Token::Interface => "Interface"@,
        Token::Enum => "Enum"@,
        Token::Constructor => "Constructor"@,
        Token::Async => "Async"@,
        Token::Await => "Await"@,
        Token::Throw => "Throw"@,
        Token::Try => "Try"@,
        Token::Catch => "Catch"@,
        Token::Finally => "Finally"@,
        Token::NumberType => "NumberType"@,
        Token::StringType => "StringType"@,
        Token::BooleanType => "BooleanType"@,
        Token::Plus => "Plus"@,
        Token::Minus => "Minus"@,
        Token::Star => "Star"@,
        Token::StarStar => "StarStar"@,
        Token::Slash => "Slash"@,
        Token::Percent => "Percent"@,
        Token::Assign => "Assign"@,
        Token::PlusEqual => "PlusEqual"@,
        Token::MinusEqual => "MinusEqual"@,
        Token::StarEqual => "StarEqual"@,
        Token::SlashEqual => "SlashEqual"@,
        Token::PercentEqual => "PercentEqual"@,
        Token::EqualEqual => "EqualEqual"@,
        Token::EqualEqualEqual => "EqualEqualEqual"@,
        Token::BangEqual => "BangEqual"@,
        Token::BangEqualEqual => "BangEqualEqual"@,
        Token::Less => "Less"@,
        Token::Greater => "Greater"@,
        Token::LessEqual => "LessEqual"@,
        Token::GreaterEqual => "GreaterEqual"@,
        Token::AmpersandAmpersand => "AmpersandAmpersand"@,
        Token::PipePipe => "PipePipe"@,
        Token::Bang => "Bang"@,
        Token::PlusPlus => "PlusPlus"@,
        Token::MinusMinus => "MinusMinus"@,
        Token::Ampersand => "Ampersand"@,
        Token::Pipe => "Pipe"@,
        Token::Question => "Question"@,
        Token::QuestionQuestion => "QuestionQuestion"@,
        Token::QuestionDot => "QuestionDot"@,
        Token::LeftParen => "LeftParen"@,
        Token::RightParen => "RightParen"@,
        Token::LeftBrace => "LeftBrace"@,
        Token::RightBrace => "RightBrace"@,
        Token::LeftBracket => "LeftBracket"@,
        Token::RightBracket => "RightBracket"@,
        Token::Colon => "Colon"@,
        Token::Semicolon => "Semicolon"@,
        Token::Comma => "Comma"@,
        Token::Dot => "Dot"@,
        Token::Arrow => "Arrow"@,
        Token::Ellipsis => "Ellipsis"@,
        Token::Eof => "Eof"@,
        Token::Number(_) => "Number"@,
        Token::String(_) => "String"@,
        Token::Identifier(_) => "Identifier"@,
    }
}

/// The debug rendering of a token: its variant name, followed by its payload
/// in brackets (quoted for strings and identifiers).
pub open spec fn token_debug_text(t: Token) -> Seq<char> {
    match t {
        Token::Number(n) => "Number("@ + n@ + ")"@,
        Token::String(v) => "String(\""@ + v@ + "\")"@,
        Token::Identifier(v) => "Identifier(\""@ + v@ + "\")"@,
        _ => variant_name(t),
    }
}

/// Appends a debug rendering of a token, such as `Identifier("x")` or `LeftParen`.
fn append_token_debug(s: &mut String, t: &Token)
    ensures
        final(s)@ == old(s)@ + token_debug_text(*t),
{
    match t {
        Token::Number(n) => {
            s.append("Number(");
            s.append(n.as_str());
            s.append(")");
        },
        Token::String(v) => {
            s.append("String(\"");
            s.append(v.as_str());
            s.append("\")");
        },
        Token::Identifier(v) => {
            s.append("Identifier(\"");
            s.append(v.as_str());
            s.append("\")");
        },
        _ => {
            s.append(token_name(t));
        },
    }
}

/// The variant name of a token without payload.
fn token_name(t: &Token) -> (r: &'static str)
    ensures
        r@ == variant_name(*t),
{
    match t {
        Token::True => "True",
        Token::False => "False",
        Token::Null => "Null",
        Token::Undefined => "Undefined",
        Token::Let => "Let",
        Token::Const => "Const",
        Token::Var => "Var",
        Token::Function => "Function",
        Token::Return => "Return",
        Token::If => "If",
        Token::Else => "Else",
        Token::While => "While",
        Token::For => "For",
        Token::Of => "Of",
        Token::In => "In",
        Token::Break => "Break",
        Token::Continue => "Continue",
        Token::Do => "Do",
        Token::Switch => "Switch",
        Token::Case => "Case",
        Token::Default => "Default",
        Token::Void => "Void",
        Token::Import => "Import",
        Token::Export => "Export",
        Token::From => "From",
        Token::As => "As",
        Token::Typeof => "Typeof",
        Token::Class => "Class",
        Token::New => "New",
        Token::This => "This",
        Token::Extends => "Extends",
        Token::Super => "Super",
        Token::Interface => "Interface",
        Token::Enum => "Enum",
        Token::Constructor => "Constructor",
        Token::Async => "Async",
        Token::Await => "Await",
        Token::Throw => "Throw",
        Token::Try => "Try",
        Token::Catch => "Catch",
        Token::Finally => "Finally",
        Token::NumberType => "NumberType",
        Token::StringType => "StringType",
        Token::BooleanType => "BooleanType",
        Token::Plus => "Plus",
        Token::Minus => "Minus",
        Token::Star => "Star",
        Token::StarStar => "StarStar",
        Token::Slash => "Slash",
        Token::Percent => "Percent",
        Token::Assign => "Assign",
        Token::PlusEqual => "PlusEqual",
        Token::MinusEqual => "MinusEqual",
        Token::StarEqual => "StarEqual",
        Token::SlashEqual => "SlashEqual",
        Token::PercentEqual => "PercentEqual",
        Token::EqualEqual => "EqualEqual",
        Token::EqualEqualEqual => "EqualEqualEqual",
        Token::BangEqual => "BangEqual",
        Token::BangEqualEqual => "BangEqualEqual",
        Token::Less => "Less",
        Token::Greater => "Greater",
        Token::LessEqual => "LessEqual",
        Token::GreaterEqual => "GreaterEqual",
        Token::AmpersandAmpersand => "AmpersandAmpersand",
        Token::PipePipe => "PipePipe",
        Token::Bang => "Bang",
        Token::PlusPlus => "PlusPlus",
        Token::MinusMinus => "MinusMinus",
        Token::Ampersand => "Ampersand",
        Token::Pipe => "Pipe",
        Token::Question => "Question",
        Token::QuestionQuestion => "QuestionQuestion",
        Token::QuestionDot => "QuestionDot",
        Token::LeftParen => "LeftParen",
        Token::RightParen => "RightParen",
        Token::LeftBrace => "LeftBrace",
        Token::RightBrace => "RightBrace",
        Token::LeftBracket => "LeftBracket",
        Token::RightBracket => "RightBracket",
        Token::Colon => "Colon",
        Token::Semicolon => "Semicolon",
        Token::Comma => "Comma",
        Token::Dot => "Dot",
        Token::Arrow => "Arrow",
        Token::Ellipsis => "Ellipsis",
        Token::Eof => "Eof",
        Token::Number(_) => "Number",
        Token::String(_) => "String",
        Token::Identifier(_) => "Identifier",
    }
}

/// No statement of the forms `stmt_shape` describes, and no block, starts at an `Eof`.
proof fn lemma_no_statement_at_eof(t: Seq<SpannedToken>, j: int)
    requires
        tok(t, j) is Eof,
    ensures
        stmt_shape(t, j) is None,
        block_shape(t, j) is None,
{
    assert(!chain_from(t, j));
    assert(!term_from(t, j));
    assert(simple_stmt(t, j) is None);
    assert(cond_head(t, j) is None);
}

/// A token of the kind of `}` is a `}`.
proof fn lemma_kind_right_brace(k: Token)
    ensures
        k.kind() == Token::RightBrace.kind() ==> k is RightBrace,
{
    match k {
        Token::RightBrace => {},
        _ => {},
    }
}

/// A statement that starts with `if`, `while` or `{` is no simple statement.
proof fn lemma_compound_not_simple(t: Seq<SpannedToken>, i: int)
    ensures
        tok(t, i) is If || tok(t, i) is While || tok(t, i) is LeftBrace ==> simple_stmt(t, i) is None,
{
    if tok(t, i) is If || tok(t, i) is While || tok(t, i) is LeftBrace {
        assert(!chain_from(t, i));
        assert(!term_from(t, i));
        assert(!plain_chain(t, i));
        assert(!assign_form(t, i));
        assert(decl_head(t, i) is None);
    }
}

/// A token of the kind of `const` is a `const`.
proof fn lemma_kind_const(k: Token)
    ensures
        k.kind() == Token::Const.kind() <==> k is Const,
{
    match k {
        Token::Const => {},
        _ => {},
    }
}

/// What the kinds of tokens tell apart: the tokens expressions end at, and
/// the comparison, equality and logical operators.
pub open spec fn kind_facts(k: Token) -> bool {
    &&& (is_chain_end(k) ==> k.kind() != Token::Less.kind() && k.kind() != Token::Greater.kind()
            && k.kind() != Token::LessEqual.kind() && k.kind() != Token::GreaterEqual.kind())
    &&& (comparison_op(k) is Some ==> (k.kind() == Token::Less.kind() <==> k is Less) && (k.kind()
            == Token::Greater.kind() <==> k is Greater) && (k.kind() == Token::LessEqual.kind()
            <==> k is LessEqual) && (k.kind() == Token::GreaterEqual.kind() <==> k is GreaterEqual))
    &&& (equality_op(k) is Some ==> k.kind() != Token::Less.kind() && k.kind() != Token::Greater.kind()
            && k.kind() != Token::LessEqual.kind() && k.kind() != Token::GreaterEqual.kind())
    &&& (is_chain_end(k) ==> k.kind() != Token::EqualEqual.kind() && k.kind()
            != Token::EqualEqualEqual.kind() && k.kind() != Token::BangEqual.kind() && k.kind()
            != Token::BangEqualEqual.kind())
    &&& (equality_op(k) is Some ==> (k.kind() == Token::EqualEqual.kind() <==> k is EqualEqual) && (
        k.kind() == Token::EqualEqualEqual.kind() <==> k is EqualEqualEqual) && (k.kind()
            == Token::BangEqual.kind() <==> k is BangEqual) && (k.kind() == Token::BangEqualEqual.kind()
            <==> k is BangEqualEqual))
    &&& (logic_op(k) is Some ==> k.kind() != Token::Less.kind() && k.kind() != Token::Greater.kind()
            && k.kind() != Token::LessEqual.kind() && k.kind() != Token::GreaterEqual.kind() && k.kind()
            != Token::EqualEqual.kind() && k.kind() != Token::EqualEqualEqual.kind() && k.kind()
            != Token::BangEqual.kind() && k.kind() != Token::BangEqualEqual.kind())
    &&& (is_chain_end(k) ==> k.kind() != Token::AmpersandAmpersand.kind() && k.kind()
            != Token::QuestionQuestion.kind() && k.kind() != Token::PipePipe.kind())
    &&& (logic_op(k) is Some ==> (k.kind() == Token::AmpersandAmpersand.kind() <==> k is AmpersandAmpersand)
            && (k.kind() == Token::QuestionQuestion.kind() <==> k is QuestionQuestion) && (k.kind()
            == Token::PipePipe.kind() <==> k is PipePipe))
}

/// Kinds tell apart the tokens `kind_facts` names.
proof fn lemma_comparison_kinds(k: Token)
    ensures
        kind_facts(k),
{
    match k {
        Token::AmpersandAmpersand => {},
        Token::QuestionQuestion => {},
        Token::PipePipe => {},
        Token::Semicolon => {},
        Token::Eof => {},
        Token::Comma => {},
        Token::RightBracket => {},
        Token::RightParen => {},
        Token::Assign => {},
        Token::PlusEqual => {},
        Token::MinusEqual => {},
        Token::StarEqual => {},
        Token::SlashEqual => {},
        Token::PercentEqual => {},
        Token::Less => {},
        Token::Greater => {},
        Token::LessEqual => {},
        Token::GreaterEqual => {},
        Token::EqualEqual => {},
        Token::EqualEqualEqual => {},
        Token::BangEqual => {},
        Token::BangEqualEqual => {},
        _ => {},
    }
}

/// A token of the kind of `]` is a `]`.
proof fn lemma_kind_right_bracket(k: Token)
    ensures
        k.kind() == Token::RightBracket.kind() ==> k is RightBracket,
{
    match k {
        Token::RightBracket => {},
        _ => {},
    }
}

/// Tokens of the kind of `]` are `]`.
proof fn lemma_kind_right_bracket_all()
    ensures
        forall|k: Token| #[trigger] k.kind() == Token::RightBracket.kind() ==> k is RightBracket,
{
    assert forall|k: Token| #[trigger] k.kind() == Token::RightBracket.kind() implies k is RightBracket by {
        lemma_kind_right_bracket(k);
    }
}

/// Tokens of the kind of `}` are `}`.
proof fn lemma_kind_right_brace_all()
    ensures
        forall|k: Token| #[trigger] k.kind() == Token::RightBrace.kind() ==> k is RightBrace,
{
    assert forall|k: Token| #[trigger] k.kind() == Token::RightBrace.kind() implies k is RightBrace by {
        lemma_kind_right_brace(k);
    }
}

} // verus!
