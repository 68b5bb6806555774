//! The OPENQASM 2.0 grammar: an LL(1) parser from the tokens of the lexer
//! to abstract syntax trees.
//!
//! Each rule of the grammar is stated as a spec function over the values of
//! the tokens, and the executable rule is proved to compute it.
use vstd::prelude::*;

use crate::grammar::ast::{ArgumentV, ExpressionV, GateOperationV, QuantumOperationV, SpannedV, StatementV, UnitaryV, ProgramV};
use crate::grammar::ast::{Expression, Funccode, Opcode, Span, Statement, OpenQasmProgram, OpenQasmLibrary};
use crate::grammar::ast::{spans_view, strings_view};
use crate::grammar::lexer::{ItemV, LexicalError, Lexer, Location, Tok, TokKind, TokView, tokenize};
use crate::grammar::rules::{Tokens, result_view};

verus! {

/// A failure to parse.
#[derive(Debug, PartialEq, Eq)]
pub enum ParseError {
    /// A token that cannot be read, such as an integer that does not fit.
    InvalidToken {
        /// Where the token starts.
        location: Location,
    },
    /// The input ended where one of `expected` was due.
    UnrecognizedEOF {
        /// The end of the last token.
        location: Location,
        /// The names of the tokens that could follow.
        expected: Vec<String>,
    },
    /// A token came where one of `expected` was due.
    UnrecognizedToken {
        /// The token found.
        token: (Location, Tok, Location),
        /// The names of the tokens that could follow.
        expected: Vec<String>,
    },
    /// A token came after a complete phrase.
    ExtraToken {
        /// The token found.
        token: (Location, Tok, Location),
    },
    /// The lexer found an unrecognised sequence.
    User {
        /// The lexer's error.
        error: LexicalError<Location>,
    },
}

/// The value of a [`ParseError`].
pub enum ParseErrorV {
    InvalidToken(int),
    UnrecognizedEOF(int, Seq<Seq<char>>),
    UnrecognizedToken((int, TokView, int), Seq<Seq<char>>),
    ExtraToken((int, TokView, int)),
    User(int),
}

impl View for ParseError {
    type V = ParseErrorV;

    open spec fn view(&self) -> ParseErrorV {
        match self {
            ParseError::InvalidToken { location } => ParseErrorV::InvalidToken(location.0 as int),
            ParseError::UnrecognizedEOF { location, expected } => ParseErrorV::UnrecognizedEOF(
                location.0 as int,
                strings_view(expected@),
            ),
            ParseError::UnrecognizedToken { token, expected } => ParseErrorV::UnrecognizedToken(
                (token.0.0 as int, token.1@, token.2.0 as int),
                strings_view(expected@),
            ),
            ParseError::ExtraToken { token } => ParseErrorV::ExtraToken(
                (token.0.0 as int, token.1@, token.2.0 as int),
            ),
            ParseError::User { error } => ParseErrorV::User(error.location.0 as int),
        }
    }
}

/// The outcome of a rule applied at some position: a value and the position
/// after it, or an error.
pub type PRes<T> = Result<(T, int), ParseErrorV>;

/// The name of a token class in the lists of expected tokens.
pub open spec fn term_name(k: TokKind) -> Seq<char> {
    match k {
        TokKind::Add => "\"+\""@,
        TokKind::Minus => "\"-\""@,
        TokKind::Mult => "\"*\""@,
        TokKind::Div => "\"/\""@,
        TokKind::Pow => "\"^\""@,
        TokKind::LBracket => "\"[\""@,
        TokKind::RBracket => "\"]\""@,
        TokKind::LBrace => "\"{\""@,
        TokKind::RBrace => "\"}\""@,
        TokKind::LParent => "\"(\""@,
        TokKind::RParent => "\")\""@,
        TokKind::Semi => "\";\""@,
        TokKind::Comma => "\",\""@,
        TokKind::Arrow => "\"->\""@,
        TokKind::Equal => "\"==\""@,
        TokKind::Sin => "\"sin\""@,
        TokKind::Cos => "\"cos\""@,
        TokKind::Tan => "\"tan\""@,
        TokKind::Exp => "\"exp\""@,
        TokKind::Ln => "\"ln\""@,
        TokKind::Sqrt => "\"sqrt\""@,
        TokKind::ConstPi => "\"pi\""@,
        TokKind::U => "\"U\""@,
        TokKind::CX => "\"CX\""@,
        TokKind::Opaque => "\"opaque\""@,
        TokKind::Gate => "\"gate\""@,
        TokKind::Include => "\"include\""@,
        TokKind::QReg => "\"qreg\""@,
        TokKind::CReg => "\"creg\""@,
        TokKind::Measure => "\"measure\""@,
        TokKind::Reset => "\"reset\""@,
        TokKind::Barrier => "\"barrier\""@,
        TokKind::If => "\"if\""@,
        TokKind::QASMHeader => "\"OPENQASM\""@,
        TokKind::Version => "version"@,
        TokKind::Id => "id"@,
        TokKind::Int => "int"@,
        TokKind::Real => "real"@,
        TokKind::Str => "str"@,
        TokKind::DocStr => "docstr"@,
    }
}

/// The names of a list of token classes.
pub open spec fn kinds_names(ks: Seq<TokKind>) -> Seq<Seq<char>> {
    ks.map_values(|k: TokKind| term_name(k))
}

/// Where the input ends: the end of the last token, or 0.
pub open spec fn eof_location(toks: Seq<ItemV>) -> int {
    if toks.len() == 0 {
        0
    } else {
        match toks.last() {
            Ok(t) => t.2,
            Err(l) => l,
        }
    }
}

/// The error for finding, at position `i`, something else than one of
/// `expected`.
pub open spec fn unexpected(toks: Seq<ItemV>, i: int, expected: Seq<TokKind>) -> ParseErrorV {
    if i < 0 || i >= toks.len() {
        ParseErrorV::UnrecognizedEOF(eof_location(toks), kinds_names(expected))
    } else {
        match toks[i] {
            Ok(t) => ParseErrorV::UnrecognizedToken(t, kinds_names(expected)),
            Err(l) => ParseErrorV::User(l),
        }
    }
}

/// Error `e` is about the tokens `toks`: it holds one of them, or the start
/// of one of them, or the location of an unrecognised sequence among them,
/// or their end.
pub open spec fn error_from_tokens(toks: Seq<ItemV>, e: ParseErrorV) -> bool {
    match e {
        ParseErrorV::InvalidToken(l) => exists|i: int|
            #![trigger toks[i]]
            0 <= i < toks.len() && toks[i] is Ok && toks[i]->Ok_0.0 == l,
        ParseErrorV::UnrecognizedEOF(l, _) => l == eof_location(toks),
        ParseErrorV::UnrecognizedToken(t, _) => exists|i: int|
            #![trigger toks[i]]
            0 <= i < toks.len() && toks[i] == Ok::<(int, TokView, int), int>(t),
        ParseErrorV::ExtraToken(t) => exists|i: int|
            #![trigger toks[i]]
            0 <= i < toks.len() && toks[i] == Ok::<(int, TokView, int), int>(t),
        ParseErrorV::User(l) => exists|i: int|
            #![trigger toks[i]]
            0 <= i < toks.len() && toks[i] == Err::<(int, TokView, int), int>(l),
    }
}

/// Location `l` is where one of the tokens `toks` starts.
pub open spec fn starts_token(toks: Seq<ItemV>, l: int) -> bool {
    exists|i: int| #![trigger toks[i]] 0 <= i < toks.len() && toks[i] is Ok && toks[i]->Ok_0.0 == l
}

/// Location `l` is where one of the tokens `toks` ends.
pub open spec fn ends_token(toks: Seq<ItemV>, l: int) -> bool {
    exists|i: int| #![trigger toks[i]] 0 <= i < toks.len() && toks[i] is Ok && toks[i]->Ok_0.2 == l
}

/// Every statement of `ss` starts where a token starts and ends where a
/// token ends.
pub open spec fn spans_from_tokens(toks: Seq<ItemV>, ss: Seq<SpannedV>) -> bool {
    forall|k: int| 0 <= k < ss.len() ==> starts_token(toks, #[trigger] ss[k].start) && ends_token(toks, ss[k].end)
}

/// The token at position `i` is of class `k`.
pub open spec fn is_kind(toks: Seq<ItemV>, i: int, k: TokKind) -> bool {
    0 <= i < toks.len() && toks[i] is Ok && toks[i]->Ok_0.1.kind == k
}

/// The token at position `i`, which must be one.
pub open spec fn tok_at(toks: Seq<ItemV>, i: int) -> (int, TokView, int) {
    toks[i]->Ok_0
}

/// The value of a string of decimal digits, read from the left.
pub open spec fn digits_value(s: Seq<char>) -> nat
    decreases s.len(),
{
    if s.len() == 0 {
        0
    } else {
        digits_value(s.drop_last()) * 10 + ((s.last() as int - '0' as int) as nat)
    }
}

/// All of `s` are decimal digits.
pub open spec fn all_digits(s: Seq<char>) -> bool {
    forall|i: int| 0 <= i < s.len() ==> '0' <= #[trigger] s[i] && s[i] <= '9'
}

/// The number spelled by `s` if it is made of digits and is at most `max`.
pub open spec fn read_number(s: Seq<char>, max: nat) -> Option<nat> {
    if all_digits(s) && digits_value(s) <= max {
        Some(digits_value(s))
    } else {
        None
    }
}

proof fn lemma_digits_value_grows(s: Seq<char>, k: int)
    requires
        0 <= k <= s.len(),
        all_digits(s),
    ensures
        digits_value(s.take(k)) <= digits_value(s),
    decreases s.len() - k,
{
    if k < s.len() {
        lemma_digits_value_grows(s, k + 1);
        assert(s.take(k + 1).drop_last() =~= s.take(k));
    } else {
        assert(s.take(k) =~= s);
    }
}

/// Reads the decimal number `s` if it is made of digits and at most `max`.
pub fn read_decimal(s: &String, max: u64) -> (r: Option<u64>)
    ensures
        match r {
            Some(v) => read_number(s@, max as nat) == Some(v as nat),
            None => read_number(s@, max as nat) is None,
        },
{
    let chars = crate::text::chars_of(s.as_str());
    let mut v: u64 = 0;
    let mut k: usize = 0;
    while k < chars.len()
        invariant
            chars@ == s@,
            k <= chars@.len(),
            all_digits(chars@.take(k as int)),
            v as nat == digits_value(chars@.take(k as int)),
            v <= max,
        decreases chars.len() - k,
    {
        let c = chars[k];
        assert(chars@.take(k + 1).drop_last() =~= chars@.take(k as int));
        if !('0' <= c && c <= '9') {
            assert(!all_digits(s@)) by {
                assert(s@[k as int] == c);
            }
            return None;
        }
        let d = (c as u64) - ('0' as u64);
        if d > max || v > (max - d) / 10 {
            proof {
                assert(digits_value(chars@.take(k + 1)) == v * 10 + d);
                if d <= max {
                    assert(v * 10 + d > max) by (nonlinear_arith)
                        requires
                            v > (max - d) / 10,
                            d <= max,
                    ;
                }
                if all_digits(s@) {
                    lemma_digits_value_grows(s@, k + 1);
                }
            }
            return None;
        }
        proof {
            assert(v * 10 + d <= max) by (nonlinear_arith)
                requires
                    v <= (max - d) / 10,
                    d <= 9,
            ;
        }
        v = v * 10 + d;
        k += 1;
        assert(all_digits(chars@.take(k as int))) by {
            assert forall|i: int| 0 <= i < k implies '0' <= #[trigger] chars@.take(k as int)[i]
                && chars@.take(k as int)[i] <= '9' by {
                if i < k - 1 {
                    assert(chars@.take(k as int)[i] == chars@.take(k - 1)[i]);
                }
            }
        }
    }
    assert(chars@.take(k as int) =~= s@);
    Some(v)
}

} // verus!

verus! {

// ---------------------------------------------------------------------------
// The grammar, rule by rule.
// ---------------------------------------------------------------------------

/// The error of a rule that cannot go on at position `i`. It is never
/// produced: every rule that answers consumes at least one token.
pub open spec fn stalled(i: int) -> ParseErrorV {
    ParseErrorV::InvalidToken(i)
}

/// `arg := id | id "[" int "]"`
pub open spec fn p_arg(toks: Seq<ItemV>, i: int) -> PRes<ArgumentV> {
    if !is_kind(toks, i, TokKind::Id) {
        Err(unexpected(toks, i, seq![TokKind::Id]))
    } else {
        let name = tok_at(toks, i).1.repr;
        if is_kind(toks, i + 1, TokKind::LBracket) {
            if !is_kind(toks, i + 2, TokKind::Int) {
                Err(unexpected(toks, i + 2, seq![TokKind::Int]))
            } else {
                match read_number(tok_at(toks, i + 2).1.repr, usize::MAX as nat) {
                    None => Err(ParseErrorV::InvalidToken(tok_at(toks, i + 2).0)),
                    Some(n) => if !is_kind(toks, i + 3, TokKind::RBracket) {
                        Err(unexpected(toks, i + 3, seq![TokKind::RBracket]))
                    } else {
                        Ok((ArgumentV::Item(name, n as usize), i + 4))
                    },
                }
            }
        } else {
            Ok((ArgumentV::Id(name), i + 1))
        }
    }
}

/// The rest of `args := arg ("," arg)*` after `acc`.
pub open spec fn p_args_rest(toks: Seq<ItemV>, acc: Seq<ArgumentV>, i: int) -> PRes<
    Seq<ArgumentV>,
>
    decreases toks.len() - i,
{
    if is_kind(toks, i, TokKind::Comma) {
        match p_arg(toks, i + 1) {
            Err(e) => Err(e),
            Ok((a, j)) => if i < j <= toks.len() {
                p_args_rest(toks, acc.push(a), j)
            } else {
                Err(stalled(j))
            },
        }
    } else {
        Ok((acc, i))
    }
}

/// `args := arg ("," arg)*`
pub open spec fn p_args(toks: Seq<ItemV>, i: int) -> PRes<Seq<ArgumentV>> {
    match p_arg(toks, i) {
        Err(e) => Err(e),
        Ok((a, j)) => p_args_rest(toks, seq![a], j),
    }
}

/// The rest of `ids := id ("," id)*` after `acc`.
pub open spec fn p_ids_rest(toks: Seq<ItemV>, acc: Seq<Seq<char>>, i: int) -> PRes<
    Seq<Seq<char>>,
>
    decreases toks.len() - i,
{
    if is_kind(toks, i, TokKind::Comma) {
        if is_kind(toks, i + 1, TokKind::Id) {
            p_ids_rest(toks, acc.push(tok_at(toks, i + 1).1.repr), i + 2)
        } else {
            Err(unexpected(toks, i + 1, seq![TokKind::Id]))
        }
    } else {
        Ok((acc, i))
    }
}

/// `ids := id ("," id)*`
pub open spec fn p_ids(toks: Seq<ItemV>, i: int) -> PRes<Seq<Seq<char>>> {
    if is_kind(toks, i, TokKind::Id) {
        p_ids_rest(toks, seq![tok_at(toks, i).1.repr], i + 1)
    } else {
        Err(unexpected(toks, i, seq![TokKind::Id]))
    }
}

/// The function named by a token class.
pub open spec fn func_of(k: TokKind) -> Option<Funccode> {
    match k {
        TokKind::Sin => Some(Funccode::Sin),
        TokKind::Cos => Some(Funccode::Cos),
        TokKind::Tan => Some(Funccode::Tan),
        TokKind::Exp => Some(Funccode::Exp),
        TokKind::Ln => Some(Funccode::Ln),
        TokKind::Sqrt => Some(Funccode::Sqrt),
        _ => None,
    }
}

/// The token classes that may start an expression.
pub open spec fn expr_starts() -> Seq<TokKind> {
    seq![
        TokKind::Minus,
        TokKind::LParent,
        TokKind::ConstPi,
        TokKind::Id,
        TokKind::Real,
        TokKind::Int,
        TokKind::Sin,
        TokKind::Cos,
        TokKind::Tan,
        TokKind::Exp,
        TokKind::Ln,
        TokKind::Sqrt,
    ]
}

/// `atom := "pi" | id | real | int | "(" expr ")" | func "(" expr ")"`
pub open spec fn p_atom(toks: Seq<ItemV>, i: int) -> PRes<ExpressionV>
    decreases toks.len() - i, 0nat,
{
    if is_kind(toks, i, TokKind::ConstPi) {
        Ok((ExpressionV::Pi, i + 1))
    } else if is_kind(toks, i, TokKind::Id) {
        Ok((ExpressionV::Id(tok_at(toks, i).1.repr), i + 1))
    } else if is_kind(toks, i, TokKind::Real) {
        Ok((ExpressionV::Real(tok_at(toks, i).1.repr), i + 1))
    } else if is_kind(toks, i, TokKind::Int) {
        match read_number(tok_at(toks, i).1.repr, u64::MAX as nat) {
            None => Err(ParseErrorV::InvalidToken(tok_at(toks, i).0)),
            Some(v) => Ok((ExpressionV::Int(v as u64), i + 1)),
        }
    } else if is_kind(toks, i, TokKind::LParent) {
        match p_expr(toks, i + 1) {
            Err(e) => Err(e),
            Ok((e, j)) => if is_kind(toks, j, TokKind::RParent) {
                Ok((e, j + 1))
            } else {
                Err(unexpected(toks, j, seq![TokKind::RParent]))
            },
        }
    } else if 0 <= i < toks.len() && toks[i] is Ok && func_of(tok_at(toks, i).1.kind) is Some {
        let f = func_of(tok_at(toks, i).1.kind).unwrap();
        if !is_kind(toks, i + 1, TokKind::LParent) {
            Err(unexpected(toks, i + 1, seq![TokKind::LParent]))
        } else {
            match p_expr(toks, i + 2) {
                Err(e) => Err(e),
                Ok((e, j)) => if is_kind(toks, j, TokKind::RParent) {
                    Ok((ExpressionV::Function(f, Box::new(e)), j + 1))
                } else {
                    Err(unexpected(toks, j, seq![TokKind::RParent]))
                },
            }
        }
    } else {
        Err(unexpected(toks, i, expr_starts()))
    }
}

/// `power := atom ("^" unary)?`
pub open spec fn p_power(toks: Seq<ItemV>, i: int) -> PRes<ExpressionV>
    decreases toks.len() - i, 1nat,
{
    match p_atom(toks, i) {
        Err(e) => Err(e),
        Ok((a, j)) => if is_kind(toks, j, TokKind::Pow) {
            if i <= j {
                match p_unary(toks, j + 1) {
                    Err(e) => Err(e),
                    Ok((b, k)) => Ok((ExpressionV::Op(Opcode::Pow, Box::new(a), Box::new(b)), k)),
                }
            } else {
                Err(stalled(j))
            }
        } else {
            Ok((a, j))
        },
    }
}

/// `unary := "-" unary | power`
pub open spec fn p_unary(toks: Seq<ItemV>, i: int) -> PRes<ExpressionV>
    decreases toks.len() - i, 2nat,
{
    if is_kind(toks, i, TokKind::Minus) {
        match p_unary(toks, i + 1) {
            Err(e) => Err(e),
            Ok((e, j)) => Ok((ExpressionV::Minus(Box::new(e)), j)),
        }
    } else {
        p_power(toks, i)
    }
}

/// The rest of `term := unary (("*" | "/") unary)*` after `acc`.
pub open spec fn p_term_rest(toks: Seq<ItemV>, acc: ExpressionV, i: int) -> PRes<ExpressionV>
    decreases toks.len() - i, 3nat,
{
    if is_kind(toks, i, TokKind::Mult) || is_kind(toks, i, TokKind::Div) {
        let op = if is_kind(toks, i, TokKind::Mult) {
            Opcode::Mul
        } else {
            Opcode::Div
        };
        match p_unary(toks, i + 1) {
            Err(e) => Err(e),
            Ok((u, j)) => if i < j <= toks.len() {
                p_term_rest(toks, ExpressionV::Op(op, Box::new(acc), Box::new(u)), j)
            } else {
                Err(stalled(j))
            },
        }
    } else {
        Ok((acc, i))
    }
}

/// `term := unary (("*" | "/") unary)*`
pub open spec fn p_term(toks: Seq<ItemV>, i: int) -> PRes<ExpressionV>
    decreases toks.len() - i, 4nat,
{
    match p_unary(toks, i) {
        Err(e) => Err(e),
        Ok((u, j)) => if i < j <= toks.len() {
            p_term_rest(toks, u, j)
        } else {
            Err(stalled(j))
        },
    }
}

/// The rest of `expr := term (("+" | "-") term)*` after `acc`.
pub open spec fn p_expr_rest(toks: Seq<ItemV>, acc: ExpressionV, i: int) -> PRes<ExpressionV>
    decreases toks.len() - i, 5nat,
{
    if is_kind(toks, i, TokKind::Add) || is_kind(toks, i, TokKind::Minus) {
        let op = if is_kind(toks, i, TokKind::Add) {
            Opcode::Add
        } else {
            Opcode::Sub
        };
        match p_term(toks, i + 1) {
            Err(e) => Err(e),
            Ok((t, j)) => if i < j <= toks.len() {
                p_expr_rest(toks, ExpressionV::Op(op, Box::new(acc), Box::new(t)), j)
            } else {
                Err(stalled(j))
            },
        }
    } else {
        Ok((acc, i))
    }
}

/// `expr := term (("+" | "-") term)*`
pub open spec fn p_expr(toks: Seq<ItemV>, i: int) -> PRes<ExpressionV>
    decreases toks.len() - i, 6nat,
{
    match p_term(toks, i) {
        Err(e) => Err(e),
        Ok((t, j)) => if i < j <= toks.len() {
            p_expr_rest(toks, t, j)
        } else {
            Err(stalled(j))
        },
    }
}

} // verus!

verus! {

/// The additive operator of the token at `i`.
pub open spec fn additive_at(toks: Seq<ItemV>, i: int) -> bool {
    is_kind(toks, i, TokKind::Add) || is_kind(toks, i, TokKind::Minus)
}

/// The multiplicative operator of the token at `i`.
pub open spec fn multiplicative_at(toks: Seq<ItemV>, i: int) -> bool {
    is_kind(toks, i, TokKind::Mult) || is_kind(toks, i, TokKind::Div)
}

/// Sums and differences group to the left: three terms `a op1 b op2 c`
/// with additive operators, and no additive operator after `c`, read as
/// `(a op1 b) op2 c`.
pub proof fn lemma_expr_left_associative(
    toks: Seq<ItemV>,
    p: int,
    a: ExpressionV,
    i: int,
    b: ExpressionV,
    j: int,
    c: ExpressionV,
    k: int,
)
    requires
        p_term(toks, p) == Ok::<(ExpressionV, int), ParseErrorV>((a, i)),
        p < i,
        additive_at(toks, i),
        p_term(toks, i + 1) == Ok::<(ExpressionV, int), ParseErrorV>((b, j)),
        i + 1 < j,
        additive_at(toks, j),
        p_term(toks, j + 1) == Ok::<(ExpressionV, int), ParseErrorV>((c, k)),
        j + 1 < k <= toks.len(),
        !additive_at(toks, k),
    ensures
        p_expr(toks, p) == Ok::<(ExpressionV, int), ParseErrorV>(
            (
                ExpressionV::Op(
                    if is_kind(toks, j, TokKind::Add) {
                        Opcode::Add
                    } else {
                        Opcode::Sub
                    },
                    Box::new(
                        ExpressionV::Op(
                            if is_kind(toks, i, TokKind::Add) {
                                Opcode::Add
                            } else {
                                Opcode::Sub
                            },
                            Box::new(a),
                            Box::new(b),
                        ),
                    ),
                    Box::new(c),
                ),
                k,
            ),
        ),
{
    reveal_with_fuel(p_expr_rest, 3);
}

/// Products and quotients group to the left: three factors `a op1 b op2 c`
/// with multiplicative operators, and no multiplicative operator after `c`,
/// read as `(a op1 b) op2 c`.
pub proof fn lemma_term_left_associative(
    toks: Seq<ItemV>,
    p: int,
    a: ExpressionV,
    i: int,
    b: ExpressionV,
    j: int,
    c: ExpressionV,
    k: int,
)
    requires
        p_unary(toks, p) == Ok::<(ExpressionV, int), ParseErrorV>((a, i)),
        p < i,
        multiplicative_at(toks, i),
        p_unary(toks, i + 1) == Ok::<(ExpressionV, int), ParseErrorV>((b, j)),
        i + 1 < j,
        multiplicative_at(toks, j),
        p_unary(toks, j + 1) == Ok::<(ExpressionV, int), ParseErrorV>((c, k)),
        j + 1 < k <= toks.len(),
        !multiplicative_at(toks, k),
    ensures
        p_term(toks, p) == Ok::<(ExpressionV, int), ParseErrorV>(
            (
                ExpressionV::Op(
                    if is_kind(toks, j, TokKind::Mult) {
                        Opcode::Mul
                    } else {
                        Opcode::Div
                    },
                    Box::new(
                        ExpressionV::Op(
                            if is_kind(toks, i, TokKind::Mult) {
                                Opcode::Mul
                            } else {
                                Opcode::Div
                            },
                            Box::new(a),
                            Box::new(b),
                        ),
                    ),
                    Box::new(c),
                ),
                k,
            ),
        ),
{
    reveal_with_fuel(p_term_rest, 3);
}

/// The rest of `exprs := expr ("," expr)*` after `acc`.
pub open spec fn p_exprs_rest(toks: Seq<ItemV>, acc: Seq<ExpressionV>, i: int) -> PRes<
    Seq<ExpressionV>,
>
    decreases toks.len() - i,
{
    if is_kind(toks, i, TokKind::Comma) {
        match p_expr(toks, i + 1) {
            Err(e) => Err(e),
            Ok((a, j)) => if i < j <= toks.len() {
                p_exprs_rest(toks, acc.push(a), j)
            } else {
                Err(stalled(j))
            },
        }
    } else {
        Ok((acc, i))
    }
}

/// `exprs := expr ("," expr)*`
pub open spec fn p_exprs(toks: Seq<ItemV>, i: int) -> PRes<Seq<ExpressionV>> {
    match p_expr(toks, i) {
        Err(e) => Err(e),
        Ok((a, j)) => p_exprs_rest(toks, seq![a], j),
    }
}

/// `";"` at `i`, finishing a phrase whose value is `v`; `expected` are the
/// token classes that could have come at `i`.
pub open spec fn p_semi<T>(toks: Seq<ItemV>, v: T, i: int, expected: Seq<TokKind>) -> PRes<T> {
    if is_kind(toks, i, TokKind::Semi) {
        Ok((v, i + 1))
    } else {
        Err(unexpected(toks, i, expected))
    }
}

/// The token classes that may follow argument `a` where `ks` are due: a
/// whole register may still be indexed with `"["`.
pub open spec fn arg_follow(a: ArgumentV, ks: Seq<TokKind>) -> Seq<TokKind> {
    match a {
        ArgumentV::Id(_) => ks.push(TokKind::LBracket),
        ArgumentV::Item(_, _) => ks,
    }
}

/// The token classes that may follow a list of arguments ending a phrase.
pub open spec fn args_follow(args: Seq<ArgumentV>) -> Seq<TokKind> {
    if args.len() == 0 {
        seq![TokKind::Comma, TokKind::Semi]
    } else {
        arg_follow(args.last(), seq![TokKind::Comma, TokKind::Semi])
    }
}

/// The name of the primitive gate `U`.
pub open spec fn u_name() -> Seq<char> {
    "U"@
}

/// The name of the primitive gate `CX`.
pub open spec fn cx_name() -> Seq<char> {
    "CX"@
}

/// `"U" "(" expr "," expr "," expr ")" arg ";"`
pub open spec fn p_u(toks: Seq<ItemV>, i: int) -> PRes<UnitaryV> {
    if !is_kind(toks, i + 1, TokKind::LParent) {
        Err(unexpected(toks, i + 1, seq![TokKind::LParent]))
    } else {
        match p_expr(toks, i + 2) {
            Err(e) => Err(e),
            Ok((e1, j1)) => if !is_kind(toks, j1, TokKind::Comma) {
                Err(unexpected(toks, j1, seq![TokKind::Comma]))
            } else {
                match p_expr(toks, j1 + 1) {
                    Err(e) => Err(e),
                    Ok((e2, j2)) => if !is_kind(toks, j2, TokKind::Comma) {
                        Err(unexpected(toks, j2, seq![TokKind::Comma]))
                    } else {
                        match p_expr(toks, j2 + 1) {
                            Err(e) => Err(e),
                            Ok((e3, j3)) => if !is_kind(toks, j3, TokKind::RParent) {
                                Err(unexpected(toks, j3, seq![TokKind::RParent]))
                            } else {
                                match p_arg(toks, j3 + 1) {
                                    Err(e) => Err(e),
                                    Ok((a, j4)) => p_semi(
                                        toks,
                                        UnitaryV {
                                            name: u_name(),
                                            reals: seq![e1, e2, e3],
                                            args: seq![a],
                                        },
                                        j4,
                                        arg_follow(a, seq![TokKind::Semi]),
                                    ),
                                }
                            },
                        }
                    },
                }
            },
        }
    }
}

/// `"CX" arg "," arg ";"`
pub open spec fn p_cx(toks: Seq<ItemV>, i: int) -> PRes<UnitaryV> {
    match p_arg(toks, i + 1) {
        Err(e) => Err(e),
        Ok((a1, j1)) => if !is_kind(toks, j1, TokKind::Comma) {
            Err(unexpected(toks, j1, arg_follow(a1, seq![TokKind::Comma])))
        } else {
            match p_arg(toks, j1 + 1) {
                Err(e) => Err(e),
                Ok((a2, j2)) => p_semi(
                    toks,
                    UnitaryV { name: cx_name(), reals: Seq::empty(), args: seq![a1, a2] },
                    j2,
                    arg_follow(a2, seq![TokKind::Semi]),
                ),
            }
        },
    }
}

/// The optional real parameters of a gate call: `("(" exprs? ")")?`.
pub open spec fn p_call_params(toks: Seq<ItemV>, i: int) -> PRes<Seq<ExpressionV>> {
    if is_kind(toks, i, TokKind::LParent) {
        if is_kind(toks, i + 1, TokKind::RParent) {
            Ok((Seq::empty(), i + 2))
        } else {
            match p_exprs(toks, i + 1) {
                Err(e) => Err(e),
                Ok((es, j)) => if is_kind(toks, j, TokKind::RParent) {
                    Ok((es, j + 1))
                } else {
                    Err(unexpected(toks, j, seq![TokKind::Comma, TokKind::RParent]))
                },
            }
        }
    } else {
        Ok((Seq::empty(), i))
    }
}

/// `id ("(" exprs? ")")? args ";"`
pub open spec fn p_call(toks: Seq<ItemV>, i: int) -> PRes<UnitaryV> {
    match p_call_params(toks, i + 1) {
        Err(e) => Err(e),
        Ok((reals, j)) => match p_args(toks, j) {
            Err(e) => Err(e),
            Ok((args, k)) => p_semi(
                toks,
                UnitaryV { name: tok_at(toks, i).1.repr, reals, args },
                k,
                args_follow(args),
            ),
        },
    }
}

/// `uop := U-call | CX-call | gate call`
pub open spec fn p_uop(toks: Seq<ItemV>, i: int) -> PRes<UnitaryV> {
    if is_kind(toks, i, TokKind::U) {
        p_u(toks, i)
    } else if is_kind(toks, i, TokKind::CX) {
        p_cx(toks, i)
    } else if is_kind(toks, i, TokKind::Id) {
        p_call(toks, i)
    } else {
        Err(unexpected(toks, i, seq![TokKind::U, TokKind::CX, TokKind::Id]))
    }
}

/// `qop := uop | "measure" arg "->" arg ";" | "reset" arg ";"`
pub open spec fn p_qop(toks: Seq<ItemV>, i: int) -> PRes<QuantumOperationV> {
    if is_kind(toks, i, TokKind::Measure) {
        match p_arg(toks, i + 1) {
            Err(e) => Err(e),
            Ok((a, j)) => if !is_kind(toks, j, TokKind::Arrow) {
                Err(unexpected(toks, j, arg_follow(a, seq![TokKind::Arrow])))
            } else {
                match p_arg(toks, j + 1) {
                    Err(e) => Err(e),
                    Ok((b, k)) => p_semi(
                        toks,
                        QuantumOperationV::Measure(a, b),
                        k,
                        arg_follow(b, seq![TokKind::Semi]),
                    ),
                }
            },
        }
    } else if is_kind(toks, i, TokKind::Reset) {
        match p_arg(toks, i + 1) {
            Err(e) => Err(e),
            Ok((a, j)) => p_semi(
                toks,
                QuantumOperationV::Reset(a),
                j,
                arg_follow(a, seq![TokKind::Semi]),
            ),
        }
    } else {
        match p_uop(toks, i) {
            Err(e) => Err(e),
            Ok((u, j)) => Ok((QuantumOperationV::Unitary(u), j)),
        }
    }
}

/// `gateop := uop | "barrier" args ";"`
pub open spec fn p_gateop(toks: Seq<ItemV>, i: int) -> PRes<GateOperationV> {
    if is_kind(toks, i, TokKind::Barrier) {
        match p_args(toks, i + 1) {
            Err(e) => Err(e),
            Ok((args, j)) => p_semi(toks, GateOperationV::Barrier(args), j, args_follow(args)),
        }
    } else {
        match p_uop(toks, i) {
            Err(e) => Err(e),
            Ok((u, j)) => Ok((GateOperationV::Unitary(u), j)),
        }
    }
}

/// The token classes that may start a gate operation.
pub open spec fn gateop_starts() -> Seq<TokKind> {
    seq![TokKind::RBrace, TokKind::Barrier, TokKind::U, TokKind::CX, TokKind::Id]
}

/// The rest of a gate body, `gateop* "}"`, after `acc`.
pub open spec fn p_gate_body(toks: Seq<ItemV>, acc: Seq<GateOperationV>, i: int) -> PRes<
    Seq<GateOperationV>,
>
    decreases toks.len() - i,
{
    if is_kind(toks, i, TokKind::RBrace) {
        Ok((acc, i + 1))
    } else if is_kind(toks, i, TokKind::Barrier) || is_kind(toks, i, TokKind::U) || is_kind(
        toks,
        i,
        TokKind::CX,
    ) || is_kind(toks, i, TokKind::Id) {
        match p_gateop(toks, i) {
            Err(e) => Err(e),
            Ok((g, j)) => if i < j <= toks.len() {
                p_gate_body(toks, acc.push(g), j)
            } else {
                Err(stalled(j))
            },
        }
    } else {
        Err(unexpected(toks, i, gateop_starts()))
    }
}

/// The formal real parameters of a gate declaration: `("(" ids? ")")?`.
pub open spec fn p_formal_params(toks: Seq<ItemV>, i: int) -> PRes<Seq<Seq<char>>> {
    if is_kind(toks, i, TokKind::LParent) {
        if is_kind(toks, i + 1, TokKind::RParent) {
            Ok((Seq::empty(), i + 2))
        } else {
            match p_ids(toks, i + 1) {
                Err(e) => Err(e),
                Ok((ids, j)) => if is_kind(toks, j, TokKind::RParent) {
                    Ok((ids, j + 1))
                } else {
                    Err(unexpected(toks, j, seq![TokKind::Comma, TokKind::RParent]))
                },
            }
        }
    } else {
        Ok((Seq::empty(), i))
    }
}

/// The head of a gate declaration after its keyword at `i`: the name, the
/// formal real parameters and the formal registers.
pub open spec fn p_gate_head(toks: Seq<ItemV>, i: int) -> PRes<
    (Seq<char>, Seq<Seq<char>>, Seq<Seq<char>>),
> {
    if !is_kind(toks, i + 1, TokKind::Id) {
        Err(unexpected(toks, i + 1, seq![TokKind::Id]))
    } else {
        match p_formal_params(toks, i + 2) {
            Err(e) => Err(e),
            Ok((params, j)) => match p_ids(toks, j) {
                Err(e) => Err(e),
                Ok((args, k)) => Ok(((tok_at(toks, i + 1).1.repr, params, args), k)),
            },
        }
    }
}

/// `"gate" id formal-params ids "{" gateop* "}"` or
/// `"opaque" id formal-params ids ";"`, the keyword being at `i`.
pub open spec fn p_gate_decl(toks: Seq<ItemV>, i: int) -> PRes<StatementV> {
    match p_gate_head(toks, i) {
        Err(e) => Err(e),
        Ok((head, j)) => if is_kind(toks, i, TokKind::Gate) {
            if !is_kind(toks, j, TokKind::LBrace) {
                Err(unexpected(toks, j, seq![TokKind::Comma, TokKind::LBrace]))
            } else {
                match p_gate_body(toks, Seq::empty(), j + 1) {
                    Err(e) => Err(e),
                    Ok((body, k)) => Ok((StatementV::GateDecl(head.0, head.1, head.2, body), k)),
                }
            }
        } else {
            if !is_kind(toks, j, TokKind::Semi) {
                Err(unexpected(toks, j, seq![TokKind::Comma, TokKind::Semi]))
            } else {
                Ok((StatementV::OpaqueGateDecl(head.0, head.1, head.2), j + 1))
            }
        },
    }
}

/// `("qreg" | "creg") id "[" int "]" ";"`
pub open spec fn p_reg_decl(toks: Seq<ItemV>, i: int) -> PRes<StatementV> {
    if !is_kind(toks, i + 1, TokKind::Id) {
        Err(unexpected(toks, i + 1, seq![TokKind::Id]))
    } else if !is_kind(toks, i + 2, TokKind::LBracket) {
        Err(unexpected(toks, i + 2, seq![TokKind::LBracket]))
    } else if !is_kind(toks, i + 3, TokKind::Int) {
        Err(unexpected(toks, i + 3, seq![TokKind::Int]))
    } else {
        match read_number(tok_at(toks, i + 3).1.repr, usize::MAX as nat) {
            None => Err(ParseErrorV::InvalidToken(tok_at(toks, i + 3).0)),
            Some(n) => if !is_kind(toks, i + 4, TokKind::RBracket) {
                Err(unexpected(toks, i + 4, seq![TokKind::RBracket]))
            } else {
                let name = tok_at(toks, i + 1).1.repr;
                p_semi(
                    toks,
                    if is_kind(toks, i, TokKind::QReg) {
                        StatementV::QRegDecl(name, n as usize)
                    } else {
                        StatementV::CRegDecl(name, n as usize)
                    },
                    i + 5,
                    seq![TokKind::Semi],
                )
            },
        }
    }
}

/// `"if" "(" id "==" int ")" qop`
pub open spec fn p_conditional(toks: Seq<ItemV>, i: int) -> PRes<StatementV> {
    if !is_kind(toks, i + 1, TokKind::LParent) {
        Err(unexpected(toks, i + 1, seq![TokKind::LParent]))
    } else if !is_kind(toks, i + 2, TokKind::Id) {
        Err(unexpected(toks, i + 2, seq![TokKind::Id]))
    } else if !is_kind(toks, i + 3, TokKind::Equal) {
        Err(unexpected(toks, i + 3, seq![TokKind::Equal]))
    } else if !is_kind(toks, i + 4, TokKind::Int) {
        Err(unexpected(toks, i + 4, seq![TokKind::Int]))
    } else {
        match read_number(tok_at(toks, i + 4).1.repr, u64::MAX as nat) {
            None => Err(ParseErrorV::InvalidToken(tok_at(toks, i + 4).0)),
            Some(v) => if !is_kind(toks, i + 5, TokKind::RParent) {
                Err(unexpected(toks, i + 5, seq![TokKind::RParent]))
            } else {
                match p_qop(toks, i + 6) {
                    Err(e) => Err(e),
                    Ok((q, j)) => Ok(
                        (
                            StatementV::Conditional(
                                ArgumentV::Id(tok_at(toks, i + 2).1.repr),
                                v as u64,
                                q,
                            ),
                            j,
                        ),
                    ),
                }
            },
        }
    }
}

/// The token classes that may start a statement.
pub open spec fn statement_starts() -> Seq<TokKind> {
    seq![
        TokKind::QReg,
        TokKind::CReg,
        TokKind::DocStr,
        TokKind::Gate,
        TokKind::Opaque,
        TokKind::Include,
        TokKind::Barrier,
        TokKind::If,
        TokKind::Measure,
        TokKind::Reset,
        TokKind::U,
        TokKind::CX,
        TokKind::Id,
    ]
}

/// A statement without its boundaries, starting at `i`.
pub open spec fn p_statement_node(toks: Seq<ItemV>, i: int) -> PRes<StatementV> {
    if is_kind(toks, i, TokKind::QReg) || is_kind(toks, i, TokKind::CReg) {
        p_reg_decl(toks, i)
    } else if is_kind(toks, i, TokKind::DocStr) {
        if is_kind(toks, i + 1, TokKind::Gate) || is_kind(toks, i + 1, TokKind::Opaque) {
            p_gate_decl(toks, i + 1)
        } else {
            Err(unexpected(toks, i + 1, seq![TokKind::Gate, TokKind::Opaque]))
        }
    } else if is_kind(toks, i, TokKind::Gate) || is_kind(toks, i, TokKind::Opaque) {
        p_gate_decl(toks, i)
    } else if is_kind(toks, i, TokKind::Include) {
        if !is_kind(toks, i + 1, TokKind::Str) {
            Err(unexpected(toks, i + 1, seq![TokKind::Str]))
        } else {
            p_semi(
                toks,
                StatementV::Include(tok_at(toks, i + 1).1.repr),
                i + 2,
                seq![TokKind::Semi],
            )
        }
    } else if is_kind(toks, i, TokKind::Barrier) {
        match p_args(toks, i + 1) {
            Err(e) => Err(e),
            Ok((args, j)) => p_semi(toks, StatementV::Barrier(args), j, args_follow(args)),
        }
    } else if is_kind(toks, i, TokKind::If) {
        p_conditional(toks, i)
    } else if is_kind(toks, i, TokKind::Measure) || is_kind(toks, i, TokKind::Reset)
        || is_kind(toks, i, TokKind::U) || is_kind(toks, i, TokKind::CX) || is_kind(
        toks,
        i,
        TokKind::Id,
    ) {
        match p_qop(toks, i) {
            Err(e) => Err(e),
            Ok((q, j)) => Ok((StatementV::QuantumOperation(q), j)),
        }
    } else {
        Err(unexpected(toks, i, statement_starts()))
    }
}

/// A statement starting at `i` with its boundaries: from its first token
/// (the keyword, for a documented gate) to the end of its last token.
pub open spec fn p_statement(toks: Seq<ItemV>, i: int) -> PRes<SpannedV> {
    match p_statement_node(toks, i) {
        Err(e) => Err(e),
        Ok((node, j)) => if i < j <= toks.len() {
            let first = if is_kind(toks, i, TokKind::DocStr) {
                i + 1
            } else {
                i
            };
            Ok((SpannedV { start: tok_at(toks, first).0, end: tok_at(toks, j - 1).2, node }, j))
        } else {
            Err(stalled(j))
        },
    }
}

/// The statements from `i` to the end of the input, after `acc`.
pub open spec fn p_body(toks: Seq<ItemV>, acc: Seq<SpannedV>, i: int) -> PRes<Seq<SpannedV>>
    decreases toks.len() - i,
{
    if i >= toks.len() {
        Ok((acc, i))
    } else {
        match p_statement(toks, i) {
            Err(e) => Err(e),
            Ok((s, j)) => if i < j <= toks.len() {
                p_body(toks, acc.push(s), j)
            } else {
                Err(stalled(j))
            },
        }
    }
}

/// `program := "OPENQASM" version ";" statement*`
pub open spec fn p_program(toks: Seq<ItemV>) -> Result<ProgramV, ParseErrorV> {
    if !is_kind(toks, 0, TokKind::QASMHeader) {
        Err(unexpected(toks, 0, seq![TokKind::QASMHeader]))
    } else if !is_kind(toks, 1, TokKind::Version) {
        Err(unexpected(toks, 1, seq![TokKind::Version]))
    } else if !is_kind(toks, 2, TokKind::Semi) {
        Err(unexpected(toks, 2, seq![TokKind::Semi]))
    } else {
        match p_body(toks, Seq::empty(), 3) {
            Err(e) => Err(e),
            Ok((body, _)) => Ok(ProgramV { version: tok_at(toks, 1).1.repr, program: body }),
        }
    }
}

/// Gate declarations from `i` to the end of the input, after `acc`.
pub open spec fn p_library_decls(toks: Seq<ItemV>, acc: Seq<StatementV>, i: int) -> Result<
    Seq<StatementV>,
    ParseErrorV,
>
    decreases toks.len() - i,
{
    if i >= toks.len() {
        Ok(acc)
    } else if is_kind(toks, i, TokKind::DocStr) || is_kind(toks, i, TokKind::Gate) || is_kind(
        toks,
        i,
        TokKind::Opaque,
    ) {
        match p_statement_node(toks, i) {
            Err(e) => Err(e),
            Ok((s, j)) => if i < j <= toks.len() {
                p_library_decls(toks, acc.push(s), j)
            } else {
                Err(stalled(j))
            },
        }
    } else {
        Err(unexpected(toks, i, seq![TokKind::DocStr, TokKind::Gate, TokKind::Opaque]))
    }
}

/// `library := gate-declaration*`
pub open spec fn p_library(toks: Seq<ItemV>) -> Result<Seq<StatementV>, ParseErrorV> {
    p_library_decls(toks, Seq::empty(), 0)
}

/// A complete phrase read by `rule` ends at `j`: the input must end there.
pub open spec fn p_end<T>(toks: Seq<ItemV>, r: PRes<T>) -> Result<T, ParseErrorV> {
    match r {
        Err(e) => Err(e),
        Ok((v, j)) => if 0 <= j < toks.len() {
            match toks[j] {
                Ok(t) => Err(ParseErrorV::ExtraToken(t)),
                Err(l) => Err(ParseErrorV::User(l)),
            }
        } else {
            Ok(v)
        },
    }
}

} // verus!

verus! {

/// A list of statements over the whole input.
pub open spec fn p_program_body(toks: Seq<ItemV>) -> Result<Seq<SpannedV>, ParseErrorV> {
    match p_body(toks, Seq::empty(), 0) {
        Ok((b, _)) => Ok(b),
        Err(e) => Err(e),
    }
}

/// The tokens of `source`, as the lexer answers them.
fn tokens_of(source: &str) -> (t: Tokens)
    ensures
        t.tv() == tokenize(source@),
{
    let lexer = Lexer::new(source);
    Tokens { items: lexer.tokens() }
}

/// The answers of the lexer for `source`.
pub fn tokens(source: &str) -> (r: Vec<crate::grammar::lexer::Item>)
    ensures
        crate::grammar::lexer::items_view(r@) == tokenize(source@),
{
    tokens_of(source).items
}

/// Parses `source` as a complete program.
pub fn program(source: &str) -> (r: Result<OpenQasmProgram, ParseError>)
    ensures
        result_view(r, |p: OpenQasmProgram| p@) == p_program(tokenize(source@)),
        r matches Ok(p) ==> spans_from_tokens(tokenize(source@), p@.program),
        r matches Err(e) ==> error_from_tokens(tokenize(source@), e@),
{
    tokens_of(source).program()
}

/// Parses `source` as a library of gate declarations.
pub fn library(source: &str) -> (r: Result<OpenQasmLibrary, ParseError>)
    ensures
        result_view(r, |l: OpenQasmLibrary| l@) == p_library(tokenize(source@)),
        r matches Err(e) ==> error_from_tokens(tokenize(source@), e@),
{
    tokens_of(source).library()
}

/// Parses `source` as a list of statements.
pub fn program_body(source: &str) -> (r: Result<Vec<Span<Statement>>, ParseError>)
    ensures
        result_view(r, |v: Vec<Span<Statement>>| spans_view(v@)) == p_program_body(
            tokenize(source@),
        ),
        r matches Ok(v) ==> spans_from_tokens(tokenize(source@), spans_view(v@)),
        r matches Err(e) ==> error_from_tokens(tokenize(source@), e@),
{
    match tokens_of(source).body(0) {
        Ok((v, _)) => Ok(v),
        Err(e) => Err(e),
    }
}

/// Parses `source` as a single statement.
pub fn statement(source: &str) -> (r: Result<Statement, ParseError>)
    ensures
        result_view(r, |s: Statement| s@) == p_end(
            tokenize(source@),
            p_statement_node(tokenize(source@), 0),
        ),
        r matches Err(e) ==> error_from_tokens(tokenize(source@), e@),
{
    let toks = tokens_of(source);
    match toks.statement_node(0) {
        Err(e) => Err(e),
        Ok((s, j)) => match toks.rest_error(j) {
            Some(e) => Err(e),
            None => Ok(s),
        },
    }
}

/// Parses `source` as a single expression.
pub fn expression(source: &str) -> (r: Result<Expression, ParseError>)
    ensures
        result_view(r, |e: Expression| e@) == p_end(tokenize(source@), p_expr(tokenize(source@), 0)),
        r matches Err(e) ==> error_from_tokens(tokenize(source@), e@),
{
    let toks = tokens_of(source);
    match toks.expr(0) {
        Err(e) => Err(e),
        Ok((x, j)) => match toks.rest_error(j) {
            Some(e) => Err(e),
            None => Ok(x),
        },
    }
}

} // verus!
