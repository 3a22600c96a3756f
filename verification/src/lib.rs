//! Jabr: the front end of a small programming language — a lexer that
//! turns source text into tokens, and a parser that turns tokens into a
//! syntax tree.
use vstd::prelude::*;

pub mod ast;
pub mod lexer;
pub mod lexing_laws;
pub mod parser;
pub mod printing;
pub mod text;
pub mod token;

use crate::ast::{SpecStmt, Stmt, stmts_view};
use crate::lexer::{Lexer, lex, lemma_lex_ends_with_eof};
use crate::parser::{Parser, program_at};

verus! {

/// The statements of a source text, or the message of the first error, lexing first.
pub open spec fn parse_text(s: Seq<char>) -> Result<Seq<SpecStmt>, Seq<char>> {
    match lex(s, 0) {
        Err(m) => Err(m),
        Ok(toks) => program_at(toks, 0),
    }
}

/// Lexing a text and parsing its tokens is what reading a text means: a
/// lexing error is the outcome, and otherwise the parser's outcome on the
/// tokens is, its errors included.
pub proof fn lemma_parse_text_is_lex_then_parse(s: Seq<char>)
    ensures
        lex(s, 0) matches Err(m) ==> parse_text(s) == Err::<Seq<SpecStmt>, Seq<char>>(m),
        lex(s, 0) matches Ok(toks) ==> parse_text(s) == program_at(toks, 0),
        lex(s, 0) matches Ok(toks) ==> (program_at(toks, 0) is Err <==> parse_text(s) is Err),
{
}

/// Lexes and parses a whole source text; a lexing error is returned as it is,
/// before any parsing.
pub fn parse_source(source: &str) -> (res: Result<Vec<Stmt>, String>)
    requires
        source@.len() < usize::MAX,
    ensures
        lex(source@, 0) matches Err(m) ==> res matches Err(e) && e@ == m,
        lex(source@, 0) matches Ok(toks) ==> match res {
            Ok(v) => program_at(toks, 0) == Ok::<Seq<SpecStmt>, Seq<char>>(stmts_view(v@)),
            Err(m) => program_at(toks, 0) == Err::<Seq<SpecStmt>, Seq<char>>(m@),
        },
        match res {
            Ok(v) => parse_text(source@) == Ok::<Seq<SpecStmt>, Seq<char>>(stmts_view(v@)),
            Err(m) => parse_text(source@) == Err::<Seq<SpecStmt>, Seq<char>>(m@),
        },
{
    let mut lx = Lexer::new(source);
    let tokens = match lx.tokenize() {
        Ok(t) => t,
        Err(m) => return Err(m),
    };
    proof {
        lemma_lex_ends_with_eof(source@, 0);
        let toks = crate::token::tokens_view(tokens@);
        assert(toks[toks.len() - 1].kind is Eof);
        assert(crate::parser::has_eof_from(toks, 0));
    }
    let mut parser = Parser::new(tokens);
    parser.parse_program()
}

} // verus!
