//! Reading programs: parsing, linking and relating errors to the source.
use vstd::prelude::*;

use crate::error::{QasmSimError, QasmSimErrorV, line_ok, parse_error_located, qasm_of_linker_error, qasm_of_parse_error, linker_error_located};
use crate::grammar::ast::{OpenQasmProgram, ProgramV, SpannedV};
use crate::grammar::lexer::{item_within, lemma_tokenize_empty, lemma_tokens_within_source, tokenize, ItemV};
use crate::grammar::parser::{ParseErrorV, error_from_tokens, eof_location, p_program, program, spans_from_tokens};
use crate::linker::{linker_error_text, Linker, LinkerErrorV, link_ok, link_program, link_statements, lemma_link_starts, starts_within};
use crate::qe::QELIB1;
use crate::grammar::ast::{copy_strings, strings_view};
use crate::grammar::lexer::{Tok, TokKind, items_view};
use crate::grammar::parser::{is_kind, tok_at, tokens};
use crate::error::{qasm_of_runtime_error, runtime_error_located};
use crate::interpreter::runtime::{RuntimeError, RuntimeErrorV, StepV, compile_program, lemma_compile_errors_at_statements, step_errs_at};
use crate::semantics::SemanticsV;
use crate::semantics::{extract_semantics, semantics_defined, semantics_of, empty_builder, lemma_run_locations, lemma_names};
use crate::table::{find, keys_of, lookup};

verus! {

/// The milliseconds spent in parsing a program and in simulating it.
#[derive(Debug, Clone, Copy, PartialEq, Eq, Structural, Hash)]
pub struct ExecutionTimes {
    /// Time spent in parsing the program and converting it to an AST.
    pub parsing_time: u128,
    /// Time spent in simulating the program.
    pub simulation_time: u128,
}

impl ExecutionTimes {
    /// Creates new time statistics.
    pub fn new(parsing_time: u128, simulation_time: u128) -> (r: Self)
        ensures
            r.parsing_time == parsing_time,
            r.simulation_time == simulation_time,
    {
        ExecutionTimes { parsing_time, simulation_time }
    }
}

/// A parse error about the tokens of `doc` can be related to its lines.
pub proof fn lemma_parse_error_located(doc: Seq<char>, e: ParseErrorV)
    requires
        error_from_tokens(tokenize(doc), e),
        0 < doc.len() < usize::MAX,
    ensures
        parse_error_located(doc, e),
{
    let toks = tokenize(doc);
    lemma_tokens_within_source(doc);
    match e {
        ParseErrorV::InvalidToken(l) => {
            let i = choose|i: int| #![trigger toks[i]] 0 <= i < toks.len() && toks[i] is Ok && toks[i]->Ok_0.0 == l;
            assert(item_within(doc, toks[i]));
        },
        ParseErrorV::UnrecognizedEOF(l, _) => {
            if toks.len() > 0 {
                assert(item_within(doc, toks[toks.len() - 1]));
            }
        },
        ParseErrorV::UnrecognizedToken(t, _) => {
            let i = choose|i: int| #![trigger toks[i]] 0 <= i < toks.len() && toks[i] == Ok::<(int, crate::grammar::lexer::TokView, int), int>(t);
            assert(item_within(doc, toks[i]));
            crate::error::lemma_line_start_bound(doc, t.0);
        },
        ParseErrorV::ExtraToken(t) => {
            let i = choose|i: int| #![trigger toks[i]] 0 <= i < toks.len() && toks[i] == Ok::<(int, crate::grammar::lexer::TokView, int), int>(t);
            assert(item_within(doc, toks[i]));
            crate::error::lemma_line_start_bound(doc, t.0);
        },
        ParseErrorV::User(l) => {
            let i = choose|i: int| #![trigger toks[i]] 0 <= i < toks.len() && toks[i] == Err::<(int, crate::grammar::lexer::TokView, int), int>(l);
            assert(item_within(doc, toks[i]));
        },
    }
}

/// The statements read from the tokens of `doc` start within `doc`.
pub proof fn lemma_spans_within(doc: Seq<char>, ss: Seq<SpannedV>)
    requires
        spans_from_tokens(tokenize(doc), ss),
    ensures
        starts_within(ss, doc.len() as int),
{
    let toks = tokenize(doc);
    lemma_tokens_within_source(doc);
    assert forall|k: int| 0 <= k < ss.len() implies 0 <= #[trigger] ss[k].start <= doc.len() by {
        assert(crate::grammar::parser::starts_token(toks, ss[k].start));
        let i = choose|i: int| #![trigger toks[i]] 0 <= i < toks.len() && toks[i] is Ok && toks[i]->Ok_0.0 == ss[k].start;
        assert(item_within(doc, toks[i]));
    }
}

/// The program read from `input`, or the error for what could not be read.
pub open spec fn compiled_source(input: Seq<char>) -> Result<ProgramV, QasmSimErrorV> {
    match p_program(tokenize(input)) {
        Ok(p) => Ok(p),
        Err(e) => Err(qasm_of_parse_error(input, e)),
    }
}

/// The program read from `input` and linked with the libraries `embedded`,
/// or the error for what could not be read or linked.
pub open spec fn linked_source(input: Seq<char>, embedded: Seq<(Seq<char>, Seq<char>)>) -> Result<ProgramV, QasmSimErrorV> {
    match compiled_source(input) {
        Err(e) => Err(e),
        Ok(p) => match link_program(embedded, p) {
            Ok(q) => Ok(q),
            Err(le) => Err(qasm_of_linker_error(input, le)),
        },
    }
}

/// The program read from `input` and linked with the libraries `embedded`,
/// or the error for what could not be read; a library that cannot be
/// linked is an unknown error with the text of the linker error.
pub open spec fn compiled_and_linked(input: Seq<char>, embedded: Seq<(Seq<char>, Seq<char>)>) -> Result<ProgramV, QasmSimErrorV> {
    match compiled_source(input) {
        Err(e) => Err(e),
        Ok(p) => match link_program(embedded, p) {
            Ok(q) => Ok(q),
            Err(le) => Err(QasmSimErrorV::UnknownError(linker_error_text(le))),
        },
    }
}

/// Reading `input` needs no line of an empty source: an error of a source
/// is related to one of its lines, and an empty source has none.
pub open spec fn readable(input: Seq<char>) -> bool {
    &&& input.len() < usize::MAX
    &&& p_program(tokenize(input)) is Err ==> input.len() > 0
}

/// The AST of `input`.
pub fn compile(input: &str) -> (r: Result<OpenQasmProgram, QasmSimError>)
    requires
        readable(input@),
    ensures
        match compiled_source(input@) {
            Ok(p) => r matches Ok(x) && x@ == p,
            Err(e) => r matches Err(x) && x@ == e,
        },
        r matches Ok(p) ==> starts_within(p@.program, input@.len() as int),
{
    match program(input) {
        Ok(p) => {
            proof {
                lemma_spans_within(input@, p@.program);
            }
            Ok(p)
        },
        Err(e) => {
            proof {
                lemma_parse_error_located(input@, e@);
            }
            Err(QasmSimError::from_parse_error(input, e))
        },
    }
}

/// The AST of `input`, with the libraries it includes linked by `linker`.
/// A library that is not found gives an unknown error that holds the text
/// of the linker error.
pub fn compile_with_linker(input: &str, linker: Linker) -> (r: Result<OpenQasmProgram, QasmSimError>)
    requires
        readable(input@),
        p_program(tokenize(input@)) matches Ok(p) ==> link_ok(linker@, p.program),
    ensures
        match compiled_and_linked(input@, linker@) {
            Ok(p) => r matches Ok(x) && x@ == p,
            Err(e) => r matches Err(x) && x@ == e,
        },
        r matches Ok(p) ==> starts_within(p@.program, input@.len() as int),
{
    let program = match compile(input) {
        Ok(p) => p,
        Err(e) => return Err(e),
    };
    proof {
        lemma_link_starts(linker@, program@.program, input@.len() as int);
        if input@.len() == 0 {
            lemma_tokenize_empty(input@);
        }
    }
    match linker.link(program) {
        Ok(p) => Ok(p),
        Err(e) => Err(QasmSimError::from_message(e.display())),
    }
}

/// The libraries of the default linker: `qelib1.inc`.
pub open spec fn default_embedded() -> Seq<(Seq<char>, Seq<char>)> {
    seq![("qelib1.inc"@, QELIB1@)]
}

/// The linker which includes the [`qelib1.inc`] library.
pub fn default_linker() -> (r: Linker)
    ensures
        r@ == default_embedded(),
        r.paths_unique(),
{
    let mut embedded: Vec<(String, String)> = Vec::new();
    embedded.push(("qelib1.inc".to_owned(), QELIB1.to_owned()));
    assert(keys_of(embedded@) =~= seq!["qelib1.inc"@]);
    let r = Linker::with_embedded(embedded);
    assert(r@ =~= default_embedded());
    r
}

/// What `parse_and_link` answers for a readable `input`.
pub open spec fn parsed_and_linked(input: Seq<char>) -> Result<ProgramV, QasmSimErrorV> {
    match p_program(tokenize(input)) {
        Ok(p) => if link_ok(default_embedded(), p.program) {
            linked_source(input, default_embedded())
        } else {
            Err(QasmSimErrorV::UnknownError("an embedded library cannot be parsed"@))
        },
        Err(_) => compiled_source(input),
    }
}

/// The AST of `input` with the libraries it includes linked by the default
/// linker. The embedded library parses, so the unknown error for a library
/// that does not is never answered.
pub fn parse_and_link(input: &str) -> (r: Result<OpenQasmProgram, QasmSimError>)
    requires
        readable(input@),
    ensures
        match parsed_and_linked(input@) {
            Ok(p) => r matches Ok(x) && x@ == p,
            Err(e) => r matches Err(x) && x@ == e,
        },
        r matches Ok(p) ==> starts_within(p@.program, input@.len() as int) && input@.len() > 0,
{
    proof {
        if input@.len() == 0 {
            lemma_tokenize_empty(input@);
            assert(p_program(tokenize(input@)) is Err);
        }
    }
    let linker = default_linker();
    let program = match compile(input) {
        Ok(p) => p,
        Err(e) => return Err(e),
    };
    if !linker.can_link(&program) {
        return Err(QasmSimError::from_message("an embedded library cannot be parsed".to_owned()));
    }
    proof {
        lemma_link_starts(linker@, program@.program, input@.len() as int);
        if input@.len() == 0 {
            lemma_tokenize_empty(input@);
        }
    }
    match linker.link(program) {
        Ok(p) => Ok(p),
        Err(e) => Err(QasmSimError::from_linker_error(input, e)),
    }
}

/// The documentation of gate `name` among the tokens `toks` from `i`: the
/// text of the first documentation string right before `gate name`, or
/// nothing.
pub open spec fn doc_from(toks: Seq<ItemV>, name: Seq<char>, i: int) -> Seq<char>
    decreases toks.len() - i,
{
    if i < 0 || i + 2 >= toks.len() {
        Seq::empty()
    } else if is_kind(toks, i, TokKind::DocStr) && is_kind(toks, i + 1, TokKind::Gate) && is_kind(
        toks,
        i + 2,
        TokKind::Id,
    ) && tok_at(toks, i + 2).1.repr == name {
        tok_at(toks, i).1.repr
    } else {
        doc_from(toks, name, i + 1)
    }
}

/// The documentation of gate `gate_name` in `input`: the comments right
/// before its declaration, or nothing.
pub fn gate_docstring(input: &str, gate_name: &str) -> (r: String)
    ensures
        r@ == doc_from(tokenize(input@), gate_name@, 0),
{
    let toks = tokens(input);
    let ghost tv = items_view(toks@);
    let name = gate_name.to_owned();
    let mut i: usize = 0;
    while toks.len() > 2 && i < toks.len() - 2
        invariant
            tv == items_view(toks@),
            tv == tokenize(input@),
            name@ == gate_name@,
            doc_from(tv, name@, i as int) == doc_from(tv, name@, 0),
        decreases toks@.len() - i,
    {
        assert(tv[i as int] == crate::grammar::lexer::item_view(toks@[i as int]));
        assert(tv[i + 1] == crate::grammar::lexer::item_view(toks@[i + 1]));
        assert(tv[i + 2] == crate::grammar::lexer::item_view(toks@[i + 2]));
        let found = match (&toks[i], &toks[i + 1], &toks[i + 2]) {
            (Ok((_, Tok::DocStr { repr }, _)), Ok((_, Tok::Gate, _)), Ok((_, Tok::Id { repr: id }, _))) => {
                if *id == name {
                    Some(repr.clone())
                } else {
                    None
                }
            },
            _ => None,
        };
        match found {
            Some(d) => {
                return d;
            },
            None => {},
        }
        i += 1;
    }
    String::new()
}

/// The signature of a gate: its name, its real parameters and its quantum
/// arguments.
pub type GateSignature = (String, Vec<String>, Vec<String>);

/// What `get_gate_info` answers for a readable `input`.
pub open spec fn gate_info(input: Seq<char>, name: Seq<char>) -> Result<(Seq<char>, (Seq<char>, Seq<Seq<char>>, Seq<Seq<char>>)), QasmSimErrorV> {
    match parsed_and_linked(input) {
        Err(e) => Err(e),
        Ok(p) => match semantics_of(p) {
            Err(se) => Err(qasm_of_runtime_error(input, RuntimeErrorV::Semantic(se))),
            Ok(sem) => match lookup(sem.macros, name) {
                None => Err(QasmSimErrorV::UndefinedGate { source: Seq::empty(), lineno: 0, symbol_name: name }),
                Some(def) => Ok((doc_from(tokenize(input), name, 0), (def.name, def.reals, def.args))),
            },
        },
    }
}

/// The documentation and signature of gate `gate_name`, defined in `input`
/// or in a library it includes. An opaque gate, or one that is not found,
/// is an undefined gate with no source and line 0.
pub fn get_gate_info(input: &str, gate_name: &str) -> (r: Result<(String, GateSignature), QasmSimError>)
    requires
        readable(input@),
        parsed_and_linked(input@) matches Ok(p) ==> semantics_defined(p),
    ensures
        match gate_info(input@, gate_name@) {
            Ok(v) => r matches Ok(x) && x.0@ == v.0 && x.1.0@ == v.1.0 && strings_view(x.1.1@) == v.1.1
                && strings_view(x.1.2@) == v.1.2,
            Err(e) => r matches Err(x) && x@ == e,
        },
{
    let linked = parse_and_link(input)?;
    proof {
        if input@.len() == 0 {
            lemma_tokenize_empty(input@);
        }
        crate::semantics::lemma_empty_locations(input@.len() as int);
        lemma_run_locations(empty_builder(), linked@.program, input@.len() as int);
    }
    let semantics = match extract_semantics(&linked) {
        Ok(s) => s,
        Err(e) => {
            let err = RuntimeError::from_semantic_error(e);
            return Err(QasmSimError::from_runtime_error(input, err));
        },
    };
    let name = gate_name.to_owned();
    proof {
        lemma_names(semantics.macro_definitions@);
    }
    match find(&semantics.macro_definitions, &name) {
        None => Err(QasmSimError::UndefinedGate { source: String::new(), lineno: 0, symbol_name: name }),
        Some(i) => {
            let def = &semantics.macro_definitions[i].1;
            Ok((gate_docstring(input, gate_name), (def.0.clone(), copy_strings(&def.1), copy_strings(&def.2))))
        },
    }
}


/// Every error that compiling a program read from `input` raises can be
/// related to a line of `input`: it is reported at the start of the
/// statement that raised it, which lies within `input`.
pub proof fn lemma_compile_errors_located(input: Seq<char>, sem: SemanticsV, p: ProgramV)
    requires
        0 < input.len() < usize::MAX,
        starts_within(p.program, input.len() as int),
    ensures
        forall|k: int|
            0 <= k < p.program.len() ==> match #[trigger] compile_program(sem, p)[k] {
                StepV::Run(Err(e)) => runtime_error_located(input, e),
                StepV::Conditional(_, _, Err(e)) => runtime_error_located(input, e),
                _ => true,
            },
{
    lemma_compile_errors_at_statements(sem, p);
    assert forall|k: int| 0 <= k < p.program.len() implies match #[trigger] compile_program(sem, p)[k] {
        StepV::Run(Err(e)) => runtime_error_located(input, e),
        StepV::Conditional(_, _, Err(e)) => runtime_error_located(input, e),
        _ => true,
    } by {
        assert(0 <= p.program[k].start <= input.len());
        assert(step_errs_at(compile_program(sem, p)[k], p.program[k].start as usize));
    }
}

} // verus!
