//! The errors of the library, related to the source code where they
//! happen.
use vstd::prelude::*;

use crate::grammar::lexer::{Tok, TokView};
use crate::grammar::parser::{ParseError, ParseErrorV};
use crate::grammar::ast::strings_view;
use crate::interpreter::runtime::{RuntimeError, RuntimeErrorV};
use crate::linker::{LinkerError, LinkerErrorV};
use crate::semantics::{QasmType, SemanticError, SemanticErrorV};
use crate::text::{chars_of, string_of_range};

verus! {

/// Types of errors in QasmSim. QasmSim errors contain information about the
/// error and the line of source code where the error happens.
#[derive(Debug, Clone, PartialEq, Eq, Hash)]
#[non_exhaustive]
pub enum QasmSimError {
    /// A generic unknown error.
    UnknownError(String),
    /// Found an invalid token at some position.
    InvalidToken {
        /// Line source.
        source: String,
        /// Line number.
        lineno: usize,
        /// Position inside the line (0-based) where the invalid token starts.
        startpos: usize,
        /// Position inside the line (0-based) where the invalid token ends.
        endpos: Option<usize>,
        /// Token found.
        token: Option<Tok>,
        /// A list of expected tokens.
        expected: Vec<String>,
    },
    /// Found an unexpected end of file.
    UnexpectedEOF {
        /// Line source.
        source: String,
        /// Line number.
        lineno: usize,
        /// Position inside the line (0-based) where the invalid token starts.
        startpos: usize,
        /// Position inside the line (0-based) where the invalid token ends.
        endpos: Option<usize>,
        /// Token found.
        token: Option<Tok>,
        /// A list of expected tokens.
        expected: Vec<String>,
    },
    /// Found an unexpected token.
    UnexpectedToken {
        /// Line source.
        source: String,
        /// Line number.
        lineno: usize,
        /// Position inside the line (0-based) where the invalid token starts.
        startpos: usize,
        /// Position inside the line (0-based) where the invalid token ends.
        endpos: Option<usize>,
        /// Token found.
        token: Option<Tok>,
        /// A list of expected tokens.
        expected: Vec<String>,
    },
    /// Found a redefinition of a symbol.
    RedefinitionError {
        /// Line source.
        source: String,
        /// Name of the symbol declared for second time.
        symbol_name: String,
        /// Line number.
        lineno: usize,
        /// Line number where the symbol was first declared.
        previous_lineno: usize,
    },
    /// The unability of linking a library.
    LibraryNotFound {
        /// Line source.
        source: String,
        /// Path to the library to be included.
        libpath: String,
        /// Line number.
        lineno: usize,
    },
    /// Use of register index that does not fit the register size.
    IndexOutOfBounds {
        /// Line source.
        source: String,
        /// Line number.
        lineno: usize,
        /// Name of the register being indexed.
        symbol_name: String,
        /// Index tried to access.
        index: usize,
        /// Size of the register.
        size: usize,
    },
    /// Use of an unknown/undeclared symbol.
    SymbolNotFound {
        /// Line source.
        source: String,
        /// Line number.
        lineno: usize,
        /// Name of the unknown symbol.
        symbol_name: String,
        /// The expected type.
        expected: QasmType,
    },
    /// The attempt of applying an operation passing the wrong number of
    /// parameters.
    WrongNumberOfParameters {
        /// Line source.
        source: String,
        /// Line number.
        lineno: usize,
        /// Name of the operation.
        symbol_name: String,
        /// Indicate if the parameters are registers or real values.
        are_registers: bool,
        /// The number of passed parameters.
        given: usize,
        /// The number of expected parameters.
        expected: usize,
    },
    /// Use of a gate not previously defined.
    UndefinedGate {
        /// Line source.
        source: String,
        /// Line number.
        lineno: usize,
        /// Name of the unknown gate.
        symbol_name: String,
    },
    /// Found an unexpected type of value.
    TypeMismatch {
        /// Line source.
        source: String,
        /// Line number.
        lineno: usize,
        /// Name of the symbol with the incorrect type.
        symbol_name: String,
        /// Expected type.
        expected: QasmType,
    },
    /// Attempt of applying an operation to different sizes registers.
    RegisterSizeMismatch {
        /// Line source.
        source: String,
        /// Line number.
        lineno: usize,
        /// Name of the operation.
        symbol_name: String,
        /// Sizes of the different registers involved.
        sizes: Vec<usize>,
    },
}

/// The value of a syntax error: the line, where in it the error is, the
/// token found and the tokens expected.
pub struct SyntaxV {
    pub source: Seq<char>,
    pub lineno: usize,
    pub startpos: usize,
    pub endpos: Option<usize>,
    pub token: Option<TokView>,
    pub expected: Seq<Seq<char>>,
}

/// The value of a [`QasmSimError`].
pub enum QasmSimErrorV {
    UnknownError(Seq<char>),
    InvalidToken(SyntaxV),
    UnexpectedEOF(SyntaxV),
    UnexpectedToken(SyntaxV),
    RedefinitionError { source: Seq<char>, symbol_name: Seq<char>, lineno: usize, previous_lineno: usize },
    LibraryNotFound { source: Seq<char>, libpath: Seq<char>, lineno: usize },
    IndexOutOfBounds { source: Seq<char>, lineno: usize, symbol_name: Seq<char>, index: usize, size: usize },
    SymbolNotFound { source: Seq<char>, lineno: usize, symbol_name: Seq<char>, expected: QasmType },
    WrongNumberOfParameters {
        source: Seq<char>,
        lineno: usize,
        symbol_name: Seq<char>,
        are_registers: bool,
        given: usize,
        expected: usize,
    },
    UndefinedGate { source: Seq<char>, lineno: usize, symbol_name: Seq<char> },
    TypeMismatch { source: Seq<char>, lineno: usize, symbol_name: Seq<char>, expected: QasmType },
    RegisterSizeMismatch { source: Seq<char>, lineno: usize, symbol_name: Seq<char>, sizes: Seq<usize> },
}

/// The value of an optional token.
pub open spec fn opt_tok_view(t: Option<Tok>) -> Option<TokView> {
    match t {
        Some(x) => Some(x@),
        None => None,
    }
}

/// The value of the fields of a syntax error.
pub open spec fn syntax_view(
    source: String,
    lineno: usize,
    startpos: usize,
    endpos: Option<usize>,
    token: Option<Tok>,
    expected: Vec<String>,
) -> SyntaxV {
    SyntaxV {
        source: source@,
        lineno,
        startpos,
        endpos,
        token: opt_tok_view(token),
        expected: strings_view(expected@),
    }
}

impl View for QasmSimError {
    type V = QasmSimErrorV;

    open spec fn view(&self) -> QasmSimErrorV {
        match self {
            QasmSimError::UnknownError(m) => QasmSimErrorV::UnknownError(m@),
            QasmSimError::InvalidToken { source, lineno, startpos, endpos, token, expected } =>
                QasmSimErrorV::InvalidToken(
                syntax_view(*source, *lineno, *startpos, *endpos, *token, *expected),
            ),
            QasmSimError::UnexpectedEOF { source, lineno, startpos, endpos, token, expected } =>
                QasmSimErrorV::UnexpectedEOF(
                syntax_view(*source, *lineno, *startpos, *endpos, *token, *expected),
            ),
            QasmSimError::UnexpectedToken { source, lineno, startpos, endpos, token, expected } =>
                QasmSimErrorV::UnexpectedToken(
                syntax_view(*source, *lineno, *startpos, *endpos, *token, *expected),
            ),
            QasmSimError::RedefinitionError { source, symbol_name, lineno, previous_lineno } =>
                QasmSimErrorV::RedefinitionError {
                source: source@,
                symbol_name: symbol_name@,
                lineno: *lineno,
                previous_lineno: *previous_lineno,
            },
            QasmSimError::LibraryNotFound { source, libpath, lineno } =>
                QasmSimErrorV::LibraryNotFound {
                source: source@,
                libpath: libpath@,
                lineno: *lineno,
            },
            QasmSimError::IndexOutOfBounds { source, lineno, symbol_name, index, size } =>
                QasmSimErrorV::IndexOutOfBounds {
                source: source@,
                lineno: *lineno,
                symbol_name: symbol_name@,
                index: *index,
                size: *size,
            },
            QasmSimError::SymbolNotFound { source, lineno, symbol_name, expected } =>
                QasmSimErrorV::SymbolNotFound {
                source: source@,
                lineno: *lineno,
                symbol_name: symbol_name@,
                expected: *expected,
            },
            QasmSimError::WrongNumberOfParameters {
                source,
                lineno,
                symbol_name,
                are_registers,
                given,
                expected,
            } => QasmSimErrorV::WrongNumberOfParameters {
                source: source@,
                lineno: *lineno,
                symbol_name: symbol_name@,
                are_registers: *are_registers,
                given: *given,
                expected: *expected,
            },
            QasmSimError::UndefinedGate { source, lineno, symbol_name } =>
                QasmSimErrorV::UndefinedGate {
                source: source@,
                lineno: *lineno,
                symbol_name: symbol_name@,
            },
            QasmSimError::TypeMismatch { source, lineno, symbol_name, expected } =>
                QasmSimErrorV::TypeMismatch {
                source: source@,
                lineno: *lineno,
                symbol_name: symbol_name@,
                expected: *expected,
            },
            QasmSimError::RegisterSizeMismatch { source, lineno, symbol_name, sizes } =>
                QasmSimErrorV::RegisterSizeMismatch {
                source: source@,
                lineno: *lineno,
                symbol_name: symbol_name@,
                sizes: sizes@,
            },
        }
    }
}

// ---------------------------------------------------------------------------
// Lines of a document.
// ---------------------------------------------------------------------------

/// Where the line holding position `offset` of `doc` starts.
pub open spec fn line_start(doc: Seq<char>, offset: int) -> int
    decreases offset,
{
    if offset <= 0 {
        0
    } else if doc[offset - 1] == '\n' {
        offset
    } else {
        line_start(doc, offset - 1)
    }
}

/// The number, from 1, of the line holding position `offset` of `doc`.
pub open spec fn line_number(doc: Seq<char>, offset: int) -> int
    decreases offset,
{
    if offset <= 0 {
        1
    } else {
        line_number(doc, offset - 1) + (if doc[offset - 1] == '\n' {
            1int
        } else {
            0
        })
    }
}

/// Where the line holding position `k` ends: after its new line character,
/// or at the end of `doc`.
pub open spec fn line_end_from(doc: Seq<char>, k: int) -> int
    decreases doc.len() - k,
{
    if k >= doc.len() {
        doc.len() as int
    } else if doc[k] == '\n' {
        k + 1
    } else {
        line_end_from(doc, k + 1)
    }
}

/// Where the text taken as the line of `offset` ends: the end of its line;
/// at the very end of `doc`, one character after the start of `doc`,
/// unless the last line starts later, when it is the end of `doc`.
pub open spec fn line_end(doc: Seq<char>, offset: int) -> int {
    if offset < doc.len() {
        line_end_from(doc, offset)
    } else if 1 < line_start(doc, offset) {
        doc.len() as int
    } else {
        1
    }
}

/// A position can be related to its line: within `doc`, which is not
/// empty, and with an end that does not come before the start of the line.
pub open spec fn line_ok(doc: Seq<char>, offset: int, endoffset: Option<int>) -> bool {
    &&& 0 <= offset <= doc.len()
    &&& doc.len() > 0
    &&& offset < usize::MAX
    &&& endoffset matches Some(e) ==> line_start(doc, offset) <= e <= usize::MAX
}

/// The line of `doc` holding `offset`, its number, where `offset` and
/// `endoffset` are in it.
pub open spec fn line_of(doc: Seq<char>, offset: int, endoffset: Option<int>) -> (Seq<char>, usize, usize, Option<usize>) {
    let start = line_start(doc, offset);
    (
        doc.subrange(start, line_end(doc, offset)),
        line_number(doc, offset) as usize,
        (offset - start) as usize,
        match endoffset {
            Some(e) => Some((e - start) as usize),
            None => None,
        },
    )
}

pub proof fn lemma_line_start_bound(doc: Seq<char>, offset: int)
    requires
        0 <= offset,
    ensures
        0 <= line_start(doc, offset) <= offset,
    decreases offset,
{
    if offset > 0 {
        lemma_line_start_bound(doc, offset - 1);
    }
}

proof fn lemma_line_number_bound(doc: Seq<char>, offset: int)
    requires
        0 <= offset,
    ensures
        1 <= line_number(doc, offset) <= offset + 1,
    decreases offset,
{
    if offset > 0 {
        lemma_line_number_bound(doc, offset - 1);
    }
}

proof fn lemma_line_end_from_bound(doc: Seq<char>, k: int)
    requires
        0 <= k < doc.len(),
    ensures
        k < line_end_from(doc, k) <= doc.len(),
    decreases doc.len() - k,
{
    if doc[k] != '\n' && k + 1 < doc.len() {
        lemma_line_end_from_bound(doc, k + 1);
    } else if doc[k] != '\n' {
        assert(line_end_from(doc, k + 1) == doc.len());
    }
}

/// The line of `doc` holding `offset`, its number, and where `offset` and
/// `endoffset` are in it.
pub fn extract_line(offset: usize, endoffset: Option<usize>, doc: &str) -> (r: (String, usize, usize, Option<usize>))
    requires
        line_ok(
            doc@,
            offset as int,
            match endoffset {
                Some(e) => Some(e as int),
                None => None,
            },
        ),
    ensures
        (r.0@, r.1, r.2, r.3) == line_of(
            doc@,
            offset as int,
            match endoffset {
                Some(e) => Some(e as int),
                None => None,
            },
        ),
{
    let chars = chars_of(doc);
    let ghost d = doc@;
    let mut linecount: usize = 1;
    let mut start: usize = 0;
    let mut idx: usize = 0;
    proof {
        lemma_line_number_bound(d, offset as int);
    }
    while idx < offset
        invariant
            chars@ == d,
            offset <= d.len(),
            offset < usize::MAX,
            line_number(d, offset as int) <= offset + 1,
            idx <= offset,
            start as int == line_start(d, idx as int),
            linecount as int == line_number(d, idx as int),
        decreases offset - idx,
    {
        proof {
            lemma_line_number_bound(d, idx + 1);
        }
        if chars[idx] == '\n' {
            start = idx + 1;
            linecount = linecount + 1;
        }
        idx += 1;
    }
    proof {
        lemma_line_start_bound(d, offset as int);
    }
    let mut end: usize = 1;
    if offset < chars.len() {
        let mut k = offset;
        proof {
            lemma_line_end_from_bound(d, offset as int);
        }
        end = chars.len();
        while k < chars.len()
            invariant_except_break
                end == d.len(),
            invariant
                chars@ == d,
                offset <= k <= d.len(),
                line_end_from(d, offset as int) == line_end_from(d, k as int),
            ensures
                end == line_end_from(d, offset as int),
            decreases d.len() - k,
        {
            if chars[k] == '\n' {
                end = k + 1;
                break;
            }
            k += 1;
        }
    } else if end < start {
        end = chars.len();
    }
    let source = string_of_range(&chars, start, end);
    let endpos = match endoffset {
        Some(e) => Some(e - start),
        None => None,
    };
    (source, linecount, offset - start, endpos)
}

} // verus!

verus! {

// ---------------------------------------------------------------------------
// Relating errors with the source code.
// ---------------------------------------------------------------------------

/// A syntax error at `offset` (and `endoffset`) of `doc`.
pub open spec fn syntax_at(
    doc: Seq<char>,
    offset: int,
    endoffset: Option<int>,
    token: Option<TokView>,
    expected: Seq<Seq<char>>,
) -> SyntaxV {
    let l = line_of(doc, offset, endoffset);
    SyntaxV { source: l.0, lineno: l.1, startpos: l.2, endpos: l.3, token, expected }
}

/// The error for parse error `e` in `doc`.
pub open spec fn qasm_of_parse_error(doc: Seq<char>, e: ParseErrorV) -> QasmSimErrorV {
    match e {
        ParseErrorV::InvalidToken(l) => QasmSimErrorV::InvalidToken(
            syntax_at(doc, l, None, None, Seq::empty()),
        ),
        ParseErrorV::UnrecognizedEOF(l, exp) => QasmSimErrorV::UnexpectedEOF(
            syntax_at(doc, l, None, None, exp),
        ),
        ParseErrorV::UnrecognizedToken(t, exp) => QasmSimErrorV::UnexpectedToken(
            syntax_at(doc, t.0, Some(t.2), Some(t.1), exp),
        ),
        ParseErrorV::ExtraToken(t) => QasmSimErrorV::UnexpectedToken(
            syntax_at(doc, t.0, Some(t.2), Some(t.1), Seq::empty()),
        ),
        ParseErrorV::User(l) => QasmSimErrorV::InvalidToken(
            syntax_at(doc, l, None, None, Seq::empty()),
        ),
    }
}

/// The positions of parse error `e` can be related to lines of `doc`.
pub open spec fn parse_error_located(doc: Seq<char>, e: ParseErrorV) -> bool {
    match e {
        ParseErrorV::InvalidToken(l) => line_ok(doc, l, None),
        ParseErrorV::UnrecognizedEOF(l, _) => line_ok(doc, l, None),
        ParseErrorV::UnrecognizedToken(t, _) => line_ok(doc, t.0, Some(t.2)),
        ParseErrorV::ExtraToken(t) => line_ok(doc, t.0, Some(t.2)),
        ParseErrorV::User(l) => line_ok(doc, l, None),
    }
}

/// The error for runtime error `e` in `doc`.
pub open spec fn qasm_of_runtime_error(doc: Seq<char>, e: RuntimeErrorV) -> QasmSimErrorV {
    match e {
        RuntimeErrorV::Other => QasmSimErrorV::UnknownError("Other"@),
        RuntimeErrorV::RegisterSizeMismatch { location, name, sizes } => {
            let l = line_of(doc, location as int, None);
            QasmSimErrorV::RegisterSizeMismatch { source: l.0, lineno: l.1, symbol_name: name, sizes }
        },
        RuntimeErrorV::TypeMismatch { location, name, expected } => {
            let l = line_of(doc, location as int, None);
            QasmSimErrorV::TypeMismatch { source: l.0, lineno: l.1, symbol_name: name, expected }
        },
        RuntimeErrorV::UndefinedGate { location, name } => {
            let l = line_of(doc, location as int, None);
            QasmSimErrorV::UndefinedGate { source: l.0, lineno: l.1, symbol_name: name }
        },
        RuntimeErrorV::WrongNumberOfParameters { are_registers, location, name, expected, given } => {
            let l = line_of(doc, location as int, None);
            QasmSimErrorV::WrongNumberOfParameters {
                source: l.0,
                lineno: l.1,
                symbol_name: name,
                are_registers,
                given,
                expected,
            }
        },
        RuntimeErrorV::SymbolNotFound { location, name, expected } => {
            let l = line_of(doc, location as int, None);
            QasmSimErrorV::SymbolNotFound { source: l.0, lineno: l.1, symbol_name: name, expected }
        },
        RuntimeErrorV::IndexOutOfBounds { location, name, index, size } => {
            let l = line_of(doc, location as int, None);
            QasmSimErrorV::IndexOutOfBounds { source: l.0, lineno: l.1, symbol_name: name, index, size }
        },
        RuntimeErrorV::Semantic(SemanticErrorV::Redefinition { name, location, previous }) => {
            let l = line_of(doc, location as int, None);
            let p = line_of(doc, previous as int, None);
            QasmSimErrorV::RedefinitionError {
                source: l.0,
                symbol_name: name,
                lineno: l.1,
                previous_lineno: p.1,
            }
        },
    }
}

/// The locations of runtime error `e` can be related to lines of `doc`.
pub open spec fn runtime_error_located(doc: Seq<char>, e: RuntimeErrorV) -> bool {
    match e {
        RuntimeErrorV::Other => true,
        RuntimeErrorV::RegisterSizeMismatch { location, .. } => line_ok(doc, location as int, None),
        RuntimeErrorV::TypeMismatch { location, .. } => line_ok(doc, location as int, None),
        RuntimeErrorV::UndefinedGate { location, .. } => line_ok(doc, location as int, None),
        RuntimeErrorV::WrongNumberOfParameters { location, .. } => line_ok(doc, location as int, None),
        RuntimeErrorV::SymbolNotFound { location, .. } => line_ok(doc, location as int, None),
        RuntimeErrorV::IndexOutOfBounds { location, .. } => line_ok(doc, location as int, None),
        RuntimeErrorV::Semantic(SemanticErrorV::Redefinition { location, previous, .. }) => line_ok(
            doc,
            location as int,
            None,
        ) && line_ok(doc, previous as int, None),
    }
}

/// Whether `error` can be related to lines of `doc`: the places it refers
/// to lie within `doc`, which is not empty.
pub fn runtime_error_is_located(doc: &str, error: &RuntimeError) -> (b: bool)
    ensures
        b == runtime_error_located(doc@, error@),
{
    let len = chars_of(doc).len();
    let fits = |offset: usize| -> (ok: bool)
        ensures
            ok == (0 <= offset <= doc@.len() && doc@.len() > 0 && offset < usize::MAX),
        { len > 0 && offset <= len && offset < usize::MAX };
    match error {
        RuntimeError::Other => true,
        RuntimeError::SemanticError(SemanticError::RedefinitionError { location, previous_location, .. }) =>
            fits(location.0) && fits(previous_location.0),
        RuntimeError::IndexOutOfBounds { location, .. } => fits(location.0),
        RuntimeError::SymbolNotFound { location, .. } => fits(location.0),
        RuntimeError::WrongNumberOfParameters { location, .. } => fits(location.0),
        RuntimeError::UndefinedGate { location, .. } => fits(location.0),
        RuntimeError::TypeMismatch { location, .. } => fits(location.0),
        RuntimeError::RegisterSizeMismatch { location, .. } => fits(location.0),
    }
}

/// The error for linker error `e` in `doc`.
pub open spec fn qasm_of_linker_error(doc: Seq<char>, e: LinkerErrorV) -> QasmSimErrorV {
    match e {
        LinkerErrorV::LibraryNotFound { location, libpath } => {
            let l = line_of(doc, location as int, None);
            QasmSimErrorV::LibraryNotFound { source: l.0, libpath, lineno: l.1 }
        },
    }
}

/// The location of linker error `e` can be related to a line of `doc`.
pub open spec fn linker_error_located(doc: Seq<char>, e: LinkerErrorV) -> bool {
    match e {
        LinkerErrorV::LibraryNotFound { location, .. } => line_ok(doc, location as int, None),
    }
}

/// An empty list of names.
fn no_names() -> (r: Vec<String>)
    ensures
        strings_view(r@) == Seq::<Seq<char>>::empty(),
{
    let r: Vec<String> = Vec::new();
    assert(strings_view(r@) =~= Seq::<Seq<char>>::empty());
    r
}

impl QasmSimError {
    /// An unknown error with message `err`.
    pub fn from_message(err: String) -> (r: Self)
        ensures
            r@ == QasmSimErrorV::UnknownError(err@),
    {
        QasmSimError::UnknownError(err)
    }

    /// The error for parse error `error` in source `input`.
    pub fn from_parse_error(input: &str, error: ParseError) -> (r: Self)
        requires
            parse_error_located(input@, error@),
        ensures
            r@ == qasm_of_parse_error(input@, error@),
    {
        match error {
            ParseError::InvalidToken { location } => {
                let (source, lineno, startpos, endpos) = extract_line(location.0, None, input);
                QasmSimError::InvalidToken { source, lineno, startpos, endpos, token: None, expected: no_names() }
            },
            ParseError::UnrecognizedEOF { location, expected } => {
                let (source, lineno, startpos, endpos) = extract_line(location.0, None, input);
                QasmSimError::UnexpectedEOF { source, lineno, startpos, endpos, token: None, expected }
            },
            ParseError::UnrecognizedToken { token, expected } => {
                let (source, lineno, startpos, endpos) = extract_line(token.0.0, Some(token.2.0), input);
                QasmSimError::UnexpectedToken { source, lineno, startpos, endpos, token: Some(token.1), expected }
            },
            ParseError::ExtraToken { token } => {
                let (source, lineno, startpos, endpos) = extract_line(token.0.0, Some(token.2.0), input);
                QasmSimError::UnexpectedToken {
                    source,
                    lineno,
                    startpos,
                    endpos,
                    token: Some(token.1),
                    expected: no_names(),
                }
            },
            ParseError::User { error: lexer_error } => {
                let (source, lineno, startpos, endpos) = extract_line(lexer_error.location.0, None, input);
                QasmSimError::InvalidToken { source, lineno, startpos, endpos, token: None, expected: no_names() }
            },
        }
    }

    /// The error for runtime error `error` in source `input`.
    pub fn from_runtime_error(input: &str, error: RuntimeError) -> (r: Self)
        requires
            runtime_error_located(input@, error@),
        ensures
            r@ == qasm_of_runtime_error(input@, error@),
    {
        match error {
            RuntimeError::Other => QasmSimError::UnknownError("Other".to_owned()),
            RuntimeError::RegisterSizeMismatch { location, symbol_name, sizes } => {
                let (source, lineno, _, _) = extract_line(location.0, None, input);
                QasmSimError::RegisterSizeMismatch { source, lineno, symbol_name, sizes }
            },
            RuntimeError::TypeMismatch { location, symbol_name, expected } => {
                let (source, lineno, _, _) = extract_line(location.0, None, input);
                QasmSimError::TypeMismatch { source, lineno, symbol_name, expected }
            },
            RuntimeError::UndefinedGate { location, symbol_name } => {
                let (source, lineno, _, _) = extract_line(location.0, None, input);
                QasmSimError::UndefinedGate { source, lineno, symbol_name }
            },
            RuntimeError::WrongNumberOfParameters { are_registers, location, symbol_name, given, expected } => {
                let (source, lineno, _, _) = extract_line(location.0, None, input);
                QasmSimError::WrongNumberOfParameters {
                    are_registers,
                    source,
                    symbol_name,
                    lineno,
                    expected,
                    given,
                }
            },
            RuntimeError::SymbolNotFound { location, symbol_name, expected } => {
                let (source, lineno, _, _) = extract_line(location.0, None, input);
                QasmSimError::SymbolNotFound { source, symbol_name, lineno, expected }
            },
            RuntimeError::IndexOutOfBounds { location, symbol_name, index, size } => {
                let (source, lineno, _, _) = extract_line(location.0, None, input);
                QasmSimError::IndexOutOfBounds { source, symbol_name, lineno, size, index }
            },
            RuntimeError::SemanticError(semantic_error) => match semantic_error {
                SemanticError::RedefinitionError { symbol_name, location, previous_location } => {
                    let (source, lineno, _, _) = extract_line(location.0, None, input);
                    let (_, previous_lineno, _, _) = extract_line(previous_location.0, None, input);
                    QasmSimError::RedefinitionError { source, symbol_name, lineno, previous_lineno }
                },
            },
        }
    }

    /// The error for linker error `error` in source `input`.
    pub fn from_linker_error(input: &str, error: LinkerError) -> (r: Self)
        requires
            linker_error_located(input@, error@),
        ensures
            r@ == qasm_of_linker_error(input@, error@),
    {
        match error {
            LinkerError::LibraryNotFound { location, libpath } => {
                let (source, lineno, _, _) = extract_line(location.0, None, input);
                QasmSimError::LibraryNotFound { source, libpath, lineno }
            },
        }
    }
}

} // verus!
