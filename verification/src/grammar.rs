//! The machinery for reading OPENQASM programs: tokens, syntax trees and the
//! parser.
use vstd::prelude::*;

use crate::api::lemma_parse_error_located;
use crate::error::{QasmSimError, qasm_of_parse_error};
use crate::grammar::ast::{Expression, ExpressionV, OpenQasmLibrary, OpenQasmProgram, Span, SpannedV, Statement, StatementV, ProgramV, spans_view};
use crate::grammar::lexer::tokenize;
use crate::grammar::parser::{ParseErrorV, p_end, p_expr, p_library, p_program, p_program_body, p_statement_node};

pub mod ast;
pub mod lexer;
pub mod parser;
pub mod rules;

verus! {

/// The value of the outcome of parsing `source`: what `parsed` answers, with
/// a parse error related to its line of `source`.
pub open spec fn parse_outcome<T>(source: Seq<char>, parsed: Result<T, ParseErrorV>) -> Result<T, crate::error::QasmSimErrorV> {
    match parsed {
        Ok(v) => Ok(v),
        Err(e) => Err(qasm_of_parse_error(source, e)),
    }
}

/// Reading `source` with a rule whose outcome is `parsed` needs no line of
/// an empty source.
pub open spec fn parse_readable<T>(source: Seq<char>, parsed: Result<T, ParseErrorV>) -> bool {
    &&& source.len() < usize::MAX
    &&& parsed is Err ==> source.len() > 0
}

/// Parse `source` into an expression.
pub fn parse_expression(source: &str) -> (r: Result<Expression, QasmSimError>)
    requires
        parse_readable(source@, p_end(tokenize(source@), p_expr(tokenize(source@), 0))),
    ensures
        match parse_outcome(source@, p_end(tokenize(source@), p_expr(tokenize(source@), 0))) {
            Ok(v) => r matches Ok(x) && x@ == v,
            Err(e) => r matches Err(x) && x@ == e,
        },
{
    match parser::expression(source) {
        Ok(e) => Ok(e),
        Err(e) => {
            proof {
                lemma_parse_error_located(source@, e@);
            }
            Err(QasmSimError::from_parse_error(source, e))
        },
    }
}

/// Parse `source` into a library: gate declarations only.
pub fn parse_library(source: &str) -> (r: Result<OpenQasmLibrary, QasmSimError>)
    requires
        parse_readable(source@, p_library(tokenize(source@))),
    ensures
        match parse_outcome(source@, p_library(tokenize(source@))) {
            Ok(v) => r matches Ok(x) && x@ == v,
            Err(e) => r matches Err(x) && x@ == e,
        },
{
    match parser::library(source) {
        Ok(l) => Ok(l),
        Err(e) => {
            proof {
                lemma_parse_error_located(source@, e@);
            }
            Err(QasmSimError::from_parse_error(source, e))
        },
    }
}

/// Parse `source` into a program: a version and its statements.
pub fn parse_program(source: &str) -> (r: Result<OpenQasmProgram, QasmSimError>)
    requires
        parse_readable(source@, p_program(tokenize(source@))),
    ensures
        match parse_outcome(source@, p_program(tokenize(source@))) {
            Ok(v) => r matches Ok(x) && x@ == v,
            Err(e) => r matches Err(x) && x@ == e,
        },
{
    match parser::program(source) {
        Ok(p) => Ok(p),
        Err(e) => {
            proof {
                lemma_parse_error_located(source@, e@);
            }
            Err(QasmSimError::from_parse_error(source, e))
        },
    }
}

/// Parse `source` into a list of statements, each with its boundaries.
pub fn parse_program_body(source: &str) -> (r: Result<Vec<Span<Statement>>, QasmSimError>)
    requires
        parse_readable(source@, p_program_body(tokenize(source@))),
    ensures
        match parse_outcome(source@, p_program_body(tokenize(source@))) {
            Ok(v) => r matches Ok(x) && spans_view(x@) == v,
            Err(e) => r matches Err(x) && x@ == e,
        },
{
    match parser::program_body(source) {
        Ok(b) => Ok(b),
        Err(e) => {
            proof {
                lemma_parse_error_located(source@, e@);
            }
            Err(QasmSimError::from_parse_error(source, e))
        },
    }
}

/// Parse `source` into a single statement.
pub fn parse_statement(source: &str) -> (r: Result<Statement, QasmSimError>)
    requires
        parse_readable(source@, p_end(tokenize(source@), p_statement_node(tokenize(source@), 0))),
    ensures
        match parse_outcome(
            source@,
            p_end(tokenize(source@), p_statement_node(tokenize(source@), 0)),
        ) {
            Ok(v) => r matches Ok(x) && x@ == v,
            Err(e) => r matches Err(x) && x@ == e,
        },
{
    match parser::statement(source) {
        Ok(s) => Ok(s),
        Err(e) => {
            proof {
                lemma_parse_error_located(source@, e@);
            }
            Err(QasmSimError::from_parse_error(source, e))
        },
    }
}

} // verus!
