//! A small ahead-of-time compiler for a textual arithmetic-expression
//! language: integer and string literals, the binary operators
//! `+ - * / =` with fixed precedence, variable assignment, and
//! semicolon-terminated statements.
//!
//! The pipeline runs in three stages. The [`lex::Lexer`] turns source
//! text into a stream of spanned tokens; the [`parse::Parser`] consumes
//! that stream through a one-token, whitespace-filtering buffer and
//! builds an expression tree plus a table of variable slots; the
//! [`codegen::Codegen`] lowers the tree into AT&T-style x86-64 assembly
//! text using a single accumulator register and fixed stack-frame slots.
//! Every stage reports failures as spanned errors that the
//! [`error::Reporter`] formats uniformly.

pub mod codegen;
pub mod error;
pub mod lex;
pub mod parse;
pub mod rand;
pub mod span;
pub mod text;

pub use codegen::Codegen;
pub use error::{Report, Reporter};
pub use lex::Lexer;
pub use parse::Parser;
pub use span::{Span, Spanned, WithSpan};

use vstd::prelude::*;

verus! {

/// Any stage's error, for a caller that drives the whole pipeline.
#[derive(Debug, PartialEq, Eq, Clone, Copy)]
pub enum CompileError {
    Parse(parse::Error),
    Codegen(codegen::Error),
}

impl Spanned for CompileError {
    open spec fn spec_span(&self) -> Span {
        match *self {
            CompileError::Parse(e) => e.span,
            CompileError::Codegen(e) => e.span,
        }
    }

    fn span(&self) -> Span {
        match self {
            CompileError::Parse(e) => e.span,
            CompileError::Codegen(e) => e.span,
        }
    }
}

impl Report for CompileError {
    open spec fn spec_message(&self, source: Seq<char>) -> Seq<char> {
        match *self {
            CompileError::Parse(e) => e.spec_message(source),
            CompileError::Codegen(e) => e.spec_message(source),
        }
    }

    open spec fn valid_for(&self, source: Seq<char>) -> bool {
        match *self {
            CompileError::Parse(e) => e.valid_for(source),
            CompileError::Codegen(e) => e.valid_for(source),
        }
    }

    fn message(&self, source: &str) -> (m: String) {
        match self {
            CompileError::Parse(e) => e.message(source),
            CompileError::Codegen(e) => e.message(source),
        }
    }
}

/// What compiling a source text yields: the assembly text of its
/// statements between the fixed entry, prologue, and epilogue sequences,
/// or the first error any stage meets.
pub open spec fn spec_compile(src: Seq<char>) -> Result<Seq<char>, CompileError> {
    match parse::spec_stmts(lex::lex_nonws(src, 0), Seq::empty()) {
        parse::StmtsResult::Failed(e) => Err(CompileError::Parse(e)),
        parse::StmtsResult::Parsed { exprs, .. } => match codegen::emit_stmts(exprs) {
            Err(e) => Err(CompileError::Codegen(e)),
            Ok(t) => Ok(
                codegen::entry_text() + codegen::start_main_text() + t + codegen::end_main_text(),
            ),
        },
    }
}

/// Compiles one source text to assembly text: lexing, parsing, and
/// lowering in one strict pass, aborted by the first error.
pub fn run(input: &str) -> (r: Result<String, CompileError>)
    ensures
        match spec_compile(input@) {
            Ok(t) => r matches Ok(s) && s@ == t,
            Err(e) => r matches Err(x) && x == e,
        },
{
    let lexer = Lexer::new(input);
    let mut parser = Parser::new(lexer);
    let ast = match parser.parse() {
        Err(e) => {
            return Err(CompileError::Parse(e));
        },
        Ok(ast) => ast,
    };
    proof {
        parse::lemma_stmts_wf(lex::lex_nonws(input@, 0), Seq::empty());
    }
    let out = String::new();
    match Codegen::new(out).write(&ast) {
        Err(e) => Err(CompileError::Codegen(e)),
        Ok(s) => {
            proof {
                match codegen::emit_program(ast@) {
                    Ok(t) => {
                        assert(Seq::<char>::empty() + t =~= t);
                    },
                    Err(_) => {},
                }
            }
            Ok(s)
        },
    }
}

} // verus!
