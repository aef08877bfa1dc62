//! A compiler front end for a subset of TypeScript: scanning, parsing and
//! type checking, with the analyses code generation relies on.
pub mod codegen;
pub mod diagnostics;
pub mod lexer;
pub mod modules;
pub mod parser;
pub mod text;
pub mod types;

use vstd::prelude::*;

use crate::diagnostics::CompileError;
use crate::lexer::lexing::{lex_error_of, lexemes_of, scan, LexError, Lexeme};
use crate::lexer::scanner::{scan_error_ok, scan_result_ok, Scanner};
use crate::lexer::token::SpannedToken;
use crate::parser::grammar::{items_end, prog_shape, simple_program};
use crate::parser::ast::Program;
use crate::parser::parser::{parse_error, Parser};
use crate::text::string_of;
use crate::types::checker::{
    checks_fresh, hoisted_start, lemma_fresh_start, type_error, Scope, TypeChecker,
};

verus! {

/// The stage of the front end that refused a program.
#[derive(Debug, Clone, Copy, PartialEq, Eq, Structural)]
pub enum Stage {
    Lexer,
    Parse,
    Type,
}

/// A refusal by the front end: the stage and its diagnostic.
#[derive(Debug)]
pub struct FrontEndError {
    pub stage: Stage,
    pub error: CompileError,
}

/// The prefix of a stage's one-line message.
pub open spec fn stage_prefix(s: Stage) -> Seq<char> {
    match s {
        Stage::Lexer => "Lexer error: "@,
        Stage::Parse => "Parse error: "@,
        Stage::Type => "Type error: "@,
    }
}

impl FrontEndError {
    /// The one-line message: the stage's prefix, then the diagnostic's message.
    pub fn message(&self) -> (r: String)
        ensures
            r@ == stage_prefix(self.stage) + self.error.message@,
    {
        proof {
            reveal_strlit("Lexer error: ");
            reveal_strlit("Parse error: ");
            reveal_strlit("Type error: ");
        }
        let mut m = match self.stage {
            Stage::Lexer => string_of("Lexer error: "),
            Stage::Parse => string_of("Parse error: "),
            Stage::Type => string_of("Type error: "),
        };
        m.append(self.error.message.as_str());
        m
    }
}

/// Whether `ts` are the tokens that scanning `src` gives.
pub open spec fn scanned(src: Seq<char>, ts: Seq<SpannedToken>) -> bool {
    &&& scan(src) == Ok::<Seq<Lexeme>, LexError>(lexemes_of(ts))
    &&& scan_result_ok(ts, src.len())
}

/// Whether `p` is a program that parsing the tokens of `src` can give: where
/// the tokens make a program of the simple statements `simple_program`
/// describes, it holds exactly those statements; where they make one of the
/// statements `stmt_shape` describes (blocks, `if` and `while` included), its
/// statements are the ones those tokens make, read one after another
/// (`items_end`) up to the end.
pub open spec fn parsed_from(src: Seq<char>, p: Program) -> bool {
    exists|ts: Seq<SpannedToken>|
        #[trigger] scanned(src, ts) && (simple_program(ts, 0) matches Some(ss) ==> p.statements@
            == ss) && (prog_shape(ts, 0) matches Some(n) ==> items_end(ts, 0, p.statements@) == Some(
            n,
        ))
}

/// Scans, parses and type checks a source text. On success the checked
/// program is returned for code generation; otherwise the stage that refused
/// it and its diagnostic. The scan is the one `scan` describes: it fails
/// exactly when `scan` does, with its error.
pub fn compile_source(source: &str) -> (r: Result<Program, FrontEndError>)
    requires
        source@.len() < usize::MAX,
    ensures
        match r {
            Ok(p) => {
                &&& scan(source@) is Ok
                &&& parsed_from(source@, p)
                &&& checks_fresh(Seq::empty(), p.statements@, Ok(()))
            },
            Err(e) => match e.stage {
                Stage::Lexer => {
                    &&& scan_error_ok(e.error, source@.len())
                    &&& scan(source@) == Err::<Seq<Lexeme>, LexError>(lex_error_of(e.error))
                },
                Stage::Parse => {
                    &&& scan(source@) is Ok
                    &&& parse_error(e.error)
                    &&& exists|ts: Seq<SpannedToken>|
                        #[trigger] scanned(source@, ts) && simple_program(ts, 0) is None && prog_shape(
                            ts,
                            0,
                        ) is None
                },
                Stage::Type => {
                    &&& scan(source@) is Ok
                    &&& type_error(e.error)
                    &&& exists|p: Program|
                        #[trigger] parsed_from(source@, p) && checks_fresh(
                            Seq::empty(),
                            p.statements@,
                            Err(e.error),
                        )
                },
            },
        },
        (scan(source@) matches Ok(ls) && ls.len() == 1) ==> r is Ok,
{
    // Lex
    let tokens = match Scanner::new(source).scan_tokens() {
        Ok(ts) => ts,
        Err(e) => {
            return Err(FrontEndError { stage: Stage::Lexer, error: e });
        },
    };
    let ghost ts = tokens@;
    assert(scanned(source@, ts));
    // Parse
    let mut parser = Parser::new(tokens);
    let program = match parser.parse() {
        Ok(p) => p,
        Err(e) => {
            return Err(FrontEndError { stage: Stage::Parse, error: e });
        },
    };
    assert(parsed_from(source@, program));
    // Type check
    let mut checker = TypeChecker::new();
    let ghost fresh = checker;
    let checked = checker.check(&program);
    proof {
        let ss = choose|ss: Seq<Seq<Scope>>|
            #[trigger] TypeChecker::run_of(None, None, program.statements@, ss, checked)
                && hoisted_start(fresh.scope_stack(), fresh.imports(), program.statements@, ss[0]);
        lemma_fresh_start(fresh.scope_stack(), fresh.imports(), program.statements@, ss[0]);
        assert(fresh.imports() =~= Seq::<(String, crate::types::ty::Type)>::empty());
        if checked is Ok {
            assert(TypeChecker::run_of(None, None, program.statements@, ss, Ok(())));
        }
        assert(checks_fresh(Seq::empty(), program.statements@, checked));
    }
    match checked {
        Ok(_) => Ok(program),
        Err(e) => Err(FrontEndError { stage: Stage::Type, error: e }),
    }
}

} // verus!
