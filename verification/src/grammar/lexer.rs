//! Splitting OPENQASM source code into tokens.
//!
//! The lexer works on the characters of the source and reports positions as
//! 0-based character indices. It is a stacked-mode lexer: the mode on top of
//! the stack decides which token classes may be recognised next.
use vstd::prelude::*;

use crate::text::{chars_of, decimal, push_chars, string_of_range, string_push, string_push_str, usize_to_string};

verus! {

/// A position inside the source code, as a 0-based character index.
#[derive(Debug, Clone, Copy, PartialEq, Eq, Structural, Hash, PartialOrd, Ord, Default)]
pub struct Location(pub usize);

impl Location {
    /// Creates a new location at char index 0.
    pub fn new() -> (r: Self)
        ensures
            r.0 == 0,
    {
        Location(0)
    }

    /// Creates a new location at `position`.
    pub fn new_at(position: usize) -> (r: Self)
        ensures
            r.0 == position,
    {
        Location(position)
    }

    /// Human readable form of the location: `character N`.
    pub fn display(&self) -> (r: String)
        ensures
            r@ == seq!['c', 'h', 'a', 'r', 'a', 'c', 't', 'e', 'r', ' '] + decimal(self.0 as nat),
    {
        let mut r = String::new();
        string_push_str(&mut r, "character ");
        let n = usize_to_string(self.0);
        string_push_str(&mut r, n.as_str());
        proof {
            reveal_strlit("character ");
        }
        assert(r@ =~= seq!['c', 'h', 'a', 'r', 'a', 'c', 't', 'e', 'r', ' '] + decimal(
            self.0 as nat,
        ));
        r
    }
}

/// An unrecognized sequence starting at `location`.
#[derive(Debug, Clone, PartialEq, Eq, PartialOrd, Ord)]
pub struct LexicalError<Loc> {
    /// Location at which the unknown sequence starts.
    pub location: Loc,
}

impl<Loc> LexicalError<Loc> {
    /// Create a new LexicalError at `location`.
    pub fn new_at(location: Loc) -> (r: Self)
        ensures
            r.location == location,
    {
        LexicalError { location }
    }
}

impl LexicalError<Location> {
    /// Human readable form of the error: `invalid token at character N`.
    pub fn display(&self) -> (r: String)
        ensures
            r@ == "invalid token at "@ + seq!['c', 'h', 'a', 'r', 'a', 'c', 't', 'e', 'r', ' ']
                + decimal(self.location.0 as nat),
    {
        let mut r = String::new();
        string_push_str(&mut r, "invalid token at ");
        let l = self.location.display();
        string_push_str(&mut r, l.as_str());
        r
    }
}

/// An OPENQASM language token.
#[non_exhaustive]
#[derive(Debug, Clone, PartialEq, Eq, Hash)]
pub enum Tok {
    /// The addition operator `+`.
    Add,
    /// The substraction operator `-`.
    Minus,
    /// The multiplication operator `*`.
    Mult,
    /// The division operator `/`.
    Div,
    /// The power operator `^`.
    Pow,
    /// The left square bracket `[`.
    LBracket,
    /// The right square bracket `]`.
    RBracket,
    /// The left curly bracket `{`.
    LBrace,
    /// The right curly bracket `}`.
    RBrace,
    /// The left parenthesis `(`.
    LParent,
    /// The right parenthesis `)`.
    RParent,
    /// A semicolon `;`.
    Semi,
    /// A comma `,`.
    Comma,
    /// The arrow symbol `->`.
    Arrow,
    /// The equal symbol `==`.
    Equal,
    /// The sinus function id `sin`.
    Sin,
    /// The cosinus function id `cos`.
    Cos,
    /// The tangent function id `tan`.
    Tan,
    /// The exponential function id `exp`.
    Exp,
    /// The natural logarithm id `ln`.
    Ln,
    /// The square root function id `sqrt`.
    Sqrt,
    /// The const `pi`.
    ConstPi,
    /// The key-word `U`.
    U,
    /// The key-word `CX`.
    CX,
    /// The key-word `opaque`.
    Opaque,
    /// The key-word `gate`.
    Gate,
    /// The key-word `include`.
    Include,
    /// The key-word `qreg`.
    QReg,
    /// The key-word `creg`.
    CReg,
    /// The key-word `measure`.
    Measure,
    /// The key-word `reset`.
    Reset,
    /// The key-word `barrier`.
    Barrier,
    /// The key-word `if`.
    If,
    /// The QASM header `OPENQASM`.
    QASMHeader,
    /// The version of OPENQASM as `X.Y`.
    Version {
        /// Version value.
        repr: String,
    },
    /// An identifier: a lower-case letter followed by letters, digits or
    /// underscores.
    Id {
        /// Identifier value.
        repr: String,
    },
    /// An integer number.
    Int {
        /// The integer as it appears in the source code.
        repr: String,
    },
    /// A real number.
    Real {
        /// The real number as it appears in the source code.
        repr: String,
    },
    /// A string of unicode characters.
    Str {
        /// The string as it appears in the source code, without quotes.
        repr: String,
    },
    /// The documentation of a gate: the comments right before it, without
    /// the comment marks and including the new lines.
    DocStr {
        /// The documentation text.
        repr: String,
    },
}

/// The class of a token, forgetting its text.
#[derive(Debug, Clone, Copy, PartialEq, Eq, Structural)]
pub enum TokKind {
    Add,
    Minus,
    Mult,
    Div,
    Pow,
    LBracket,
    RBracket,
    LBrace,
    RBrace,
    LParent,
    RParent,
    Semi,
    Comma,
    Arrow,
    Equal,
    Sin,
    Cos,
    Tan,
    Exp,
    Ln,
    Sqrt,
    ConstPi,
    U,
    CX,
    Opaque,
    Gate,
    Include,
    QReg,
    CReg,
    Measure,
    Reset,
    Barrier,
    If,
    QASMHeader,
    Version,
    Id,
    Int,
    Real,
    Str,
    DocStr,
}

/// The mathematical value of a token: its class and, for the classes that
/// carry text, that text.
pub struct TokView {
    pub kind: TokKind,
    pub repr: Seq<char>,
}

/// `before`, `text` and `after` one after the other.
fn quoted(before: &str, text: &String, after: &str) -> (r: String)
    ensures
        r@ == before@ + text@ + after@,
{
    let mut r = before.to_owned();
    string_push_str(&mut r, text.as_str());
    string_push_str(&mut r, after);
    r
}

/// The human readable description of a token.
pub open spec fn tok_display(t: TokView) -> Seq<char> {
    match t.kind {
        TokKind::Add => "+"@,
        TokKind::Minus => "-"@,
        TokKind::Mult => "*"@,
        TokKind::Div => "/"@,
        TokKind::Pow => "^"@,
        TokKind::LBracket => "["@,
        TokKind::RBracket => "]"@,
        TokKind::LBrace => "{"@,
        TokKind::RBrace => "}"@,
        TokKind::LParent => "("@,
        TokKind::RParent => ")"@,
        TokKind::Semi => ";"@,
        TokKind::Comma => ","@,
        TokKind::Arrow => "=>"@,
        TokKind::Equal => "=="@,
        TokKind::Sin => "function `sin`"@,
        TokKind::Cos => "function `cos`"@,
        TokKind::Tan => "function `tan`"@,
        TokKind::Exp => "function `exp`"@,
        TokKind::Ln => "function `ln`"@,
        TokKind::Sqrt => "function `sqrt`"@,
        TokKind::ConstPi => "constant `pi`"@,
        TokKind::U => "primitive gate `U`"@,
        TokKind::CX => "primitive gate `CX`"@,
        TokKind::Opaque => "keyword `opaque`"@,
        TokKind::Gate => "keyword `gate`"@,
        TokKind::Include => "keyword `include`"@,
        TokKind::QReg => "keyword `qreg`"@,
        TokKind::CReg => "keyword `creg`"@,
        TokKind::Measure => "keyword `measure`"@,
        TokKind::Reset => "keyword `reset`"@,
        TokKind::Barrier => "keyword `barrier`"@,
        TokKind::If => "keyword `if`"@,
        TokKind::QASMHeader => "qasm header `OPENQASM`"@,
        TokKind::Version => "open qasm version `"@ + t.repr + "`"@,
        TokKind::Id => "identifier `"@ + t.repr + "`"@,
        TokKind::Int => "integer literal `"@ + t.repr + "`"@,
        TokKind::Real => "real literal `"@ + t.repr + "`"@,
        TokKind::Str => "string literal `\""@ + t.repr + "\"`"@,
        TokKind::DocStr => "doc string `\""@ + t.repr + "\"`"@,
    }
}

/// Whether tokens of class `k` carry a text.
pub open spec fn has_repr(k: TokKind) -> bool {
    k == TokKind::Version || k == TokKind::Id || k == TokKind::Int || k == TokKind::Real
        || k == TokKind::Str || k == TokKind::DocStr
}

/// The token of class `k` with text `repr` (dropped where the class has none).
pub open spec fn tok_view(k: TokKind, repr: Seq<char>) -> TokView {
    TokView { kind: k, repr: if has_repr(k) { repr } else { Seq::empty() } }
}

impl View for Tok {
    type V = TokView;

    open spec fn view(&self) -> TokView {
        match self {
            Tok::Add => tok_view(TokKind::Add, Seq::empty()),
            Tok::Minus => tok_view(TokKind::Minus, Seq::empty()),
            Tok::Mult => tok_view(TokKind::Mult, Seq::empty()),
            Tok::Div => tok_view(TokKind::Div, Seq::empty()),
            Tok::Pow => tok_view(TokKind::Pow, Seq::empty()),
            Tok::LBracket => tok_view(TokKind::LBracket, Seq::empty()),
            Tok::RBracket => tok_view(TokKind::RBracket, Seq::empty()),
            Tok::LBrace => tok_view(TokKind::LBrace, Seq::empty()),
            Tok::RBrace => tok_view(TokKind::RBrace, Seq::empty()),
            Tok::LParent => tok_view(TokKind::LParent, Seq::empty()),
            Tok::RParent => tok_view(TokKind::RParent, Seq::empty()),
            Tok::Semi => tok_view(TokKind::Semi, Seq::empty()),
            Tok::Comma => tok_view(TokKind::Comma, Seq::empty()),
            Tok::Arrow => tok_view(TokKind::Arrow, Seq::empty()),
            Tok::Equal => tok_view(TokKind::Equal, Seq::empty()),
            Tok::Sin => tok_view(TokKind::Sin, Seq::empty()),
            Tok::Cos => tok_view(TokKind::Cos, Seq::empty()),
            Tok::Tan => tok_view(TokKind::Tan, Seq::empty()),
            Tok::Exp => tok_view(TokKind::Exp, Seq::empty()),
            Tok::Ln => tok_view(TokKind::Ln, Seq::empty()),
            Tok::Sqrt => tok_view(TokKind::Sqrt, Seq::empty()),
            Tok::ConstPi => tok_view(TokKind::ConstPi, Seq::empty()),
            Tok::U => tok_view(TokKind::U, Seq::empty()),
            Tok::CX => tok_view(TokKind::CX, Seq::empty()),
            Tok::Opaque => tok_view(TokKind::Opaque, Seq::empty()),
            Tok::Gate => tok_view(TokKind::Gate, Seq::empty()),
            Tok::Include => tok_view(TokKind::Include, Seq::empty()),
            Tok::QReg => tok_view(TokKind::QReg, Seq::empty()),
            Tok::CReg => tok_view(TokKind::CReg, Seq::empty()),
            Tok::Measure => tok_view(TokKind::Measure, Seq::empty()),
            Tok::Reset => tok_view(TokKind::Reset, Seq::empty()),
            Tok::Barrier => tok_view(TokKind::Barrier, Seq::empty()),
            Tok::If => tok_view(TokKind::If, Seq::empty()),
            Tok::QASMHeader => tok_view(TokKind::QASMHeader, Seq::empty()),
            Tok::Version { repr } => tok_view(TokKind::Version, repr@),
            Tok::Id { repr } => tok_view(TokKind::Id, repr@),
            Tok::Int { repr } => tok_view(TokKind::Int, repr@),
            Tok::Real { repr } => tok_view(TokKind::Real, repr@),
            Tok::Str { repr } => tok_view(TokKind::Str, repr@),
            Tok::DocStr { repr } => tok_view(TokKind::DocStr, repr@),
        }
    }
}

impl Tok {
    /// The class of this token.
    pub fn kind(&self) -> (k: TokKind)
        ensures
            k == self@.kind,
    {
        match self {
            Tok::Add => TokKind::Add,
            Tok::Minus => TokKind::Minus,
            Tok::Mult => TokKind::Mult,
            Tok::Div => TokKind::Div,
            Tok::Pow => TokKind::Pow,
            Tok::LBracket => TokKind::LBracket,
            Tok::RBracket => TokKind::RBracket,
            Tok::LBrace => TokKind::LBrace,
            Tok::RBrace => TokKind::RBrace,
            Tok::LParent => TokKind::LParent,
            Tok::RParent => TokKind::RParent,
            Tok::Semi => TokKind::Semi,
            Tok::Comma => TokKind::Comma,
            Tok::Arrow => TokKind::Arrow,
            Tok::Equal => TokKind::Equal,
            Tok::Sin => TokKind::Sin,
            Tok::Cos => TokKind::Cos,
            Tok::Tan => TokKind::Tan,
            Tok::Exp => TokKind::Exp,
            Tok::Ln => TokKind::Ln,
            Tok::Sqrt => TokKind::Sqrt,
            Tok::ConstPi => TokKind::ConstPi,
            Tok::U => TokKind::U,
            Tok::CX => TokKind::CX,
            Tok::Opaque => TokKind::Opaque,
            Tok::Gate => TokKind::Gate,
            Tok::Include => TokKind::Include,
            Tok::QReg => TokKind::QReg,
            Tok::CReg => TokKind::CReg,
            Tok::Measure => TokKind::Measure,
            Tok::Reset => TokKind::Reset,
            Tok::Barrier => TokKind::Barrier,
            Tok::If => TokKind::If,
            Tok::QASMHeader => TokKind::QASMHeader,
            Tok::Version { .. } => TokKind::Version,
            Tok::Id { .. } => TokKind::Id,
            Tok::Int { .. } => TokKind::Int,
            Tok::Real { .. } => TokKind::Real,
            Tok::Str { .. } => TokKind::Str,
            Tok::DocStr { .. } => TokKind::DocStr,
        }
    }

    /// A copy of this token.
    pub fn copy(&self) -> (t: Tok)
        ensures
            t == *self,
            t@ == self@,
    {
        match self {
            Tok::Version { repr } => Tok::Version { repr: repr.clone() },
            Tok::Id { repr } => Tok::Id { repr: repr.clone() },
            Tok::Int { repr } => Tok::Int { repr: repr.clone() },
            Tok::Real { repr } => Tok::Real { repr: repr.clone() },
            Tok::Str { repr } => Tok::Str { repr: repr.clone() },
            Tok::DocStr { repr } => Tok::DocStr { repr: repr.clone() },
            Tok::Add => Tok::Add,
            Tok::Minus => Tok::Minus,
            Tok::Mult => Tok::Mult,
            Tok::Div => Tok::Div,
            Tok::Pow => Tok::Pow,
            Tok::LBracket => Tok::LBracket,
            Tok::RBracket => Tok::RBracket,
            Tok::LBrace => Tok::LBrace,
            Tok::RBrace => Tok::RBrace,
            Tok::LParent => Tok::LParent,
            Tok::RParent => Tok::RParent,
            Tok::Semi => Tok::Semi,
            Tok::Comma => Tok::Comma,
            Tok::Arrow => Tok::Arrow,
            Tok::Equal => Tok::Equal,
            Tok::Sin => Tok::Sin,
            Tok::Cos => Tok::Cos,
            Tok::Tan => Tok::Tan,
            Tok::Exp => Tok::Exp,
            Tok::Ln => Tok::Ln,
            Tok::Sqrt => Tok::Sqrt,
            Tok::ConstPi => Tok::ConstPi,
            Tok::U => Tok::U,
            Tok::CX => Tok::CX,
            Tok::Opaque => Tok::Opaque,
            Tok::Gate => Tok::Gate,
            Tok::Include => Tok::Include,
            Tok::QReg => Tok::QReg,
            Tok::CReg => Tok::CReg,
            Tok::Measure => Tok::Measure,
            Tok::Reset => Tok::Reset,
            Tok::Barrier => Tok::Barrier,
            Tok::If => Tok::If,
            Tok::QASMHeader => Tok::QASMHeader,
        }
    }

    /// The text this token carries, empty for the classes that carry none.
    pub fn text(&self) -> (r: String)
        ensures
            r@ == self@.repr,
    {
        match self {
            Tok::Version { repr } => repr.clone(),
            Tok::Id { repr } => repr.clone(),
            Tok::Int { repr } => repr.clone(),
            Tok::Real { repr } => repr.clone(),
            Tok::Str { repr } => repr.clone(),
            Tok::DocStr { repr } => repr.clone(),
            _ => String::new(),
        }
    }

    /// The human readable description of this token, as error messages
    /// show it.
    pub fn display(&self) -> (r: String)
        ensures
            r@ == tok_display(self@),
    {
        match self {
            Tok::Add => "+".to_owned(),
            Tok::Minus => "-".to_owned(),
            Tok::Mult => "*".to_owned(),
            Tok::Div => "/".to_owned(),
            Tok::Pow => "^".to_owned(),
            Tok::LBracket => "[".to_owned(),
            Tok::RBracket => "]".to_owned(),
            Tok::LBrace => "{".to_owned(),
            Tok::RBrace => "}".to_owned(),
            Tok::LParent => "(".to_owned(),
            Tok::RParent => ")".to_owned(),
            Tok::Semi => ";".to_owned(),
            Tok::Comma => ",".to_owned(),
            Tok::Arrow => "=>".to_owned(),
            Tok::Equal => "==".to_owned(),
            Tok::Sin => "function `sin`".to_owned(),
            Tok::Cos => "function `cos`".to_owned(),
            Tok::Tan => "function `tan`".to_owned(),
            Tok::Exp => "function `exp`".to_owned(),
            Tok::Ln => "function `ln`".to_owned(),
            Tok::Sqrt => "function `sqrt`".to_owned(),
            Tok::ConstPi => "constant `pi`".to_owned(),
            Tok::U => "primitive gate `U`".to_owned(),
            Tok::CX => "primitive gate `CX`".to_owned(),
            Tok::Opaque => "keyword `opaque`".to_owned(),
            Tok::Gate => "keyword `gate`".to_owned(),
            Tok::Include => "keyword `include`".to_owned(),
            Tok::QReg => "keyword `qreg`".to_owned(),
            Tok::CReg => "keyword `creg`".to_owned(),
            Tok::Measure => "keyword `measure`".to_owned(),
            Tok::Reset => "keyword `reset`".to_owned(),
            Tok::Barrier => "keyword `barrier`".to_owned(),
            Tok::If => "keyword `if`".to_owned(),
            Tok::QASMHeader => "qasm header `OPENQASM`".to_owned(),
            Tok::Version { repr } => quoted("open qasm version `", repr, "`"),
            Tok::Id { repr } => quoted("identifier `", repr, "`"),
            Tok::Int { repr } => quoted("integer literal `", repr, "`"),
            Tok::Real { repr } => quoted("real literal `", repr, "`"),
            Tok::Str { repr } => quoted("string literal `\"", repr, "\"`"),
            Tok::DocStr { repr } => quoted("doc string `\"", repr, "\"`"),
        }
    }

    /// The token of class `k`; `repr` is its text where the class has one.
    pub fn from_kind(k: TokKind, repr: String) -> (t: Tok)
        ensures
            t@ == tok_view(k, repr@),
    {
        match k {
            TokKind::Add => Tok::Add,
            TokKind::Minus => Tok::Minus,
            TokKind::Mult => Tok::Mult,
            TokKind::Div => Tok::Div,
            TokKind::Pow => Tok::Pow,
            TokKind::LBracket => Tok::LBracket,
            TokKind::RBracket => Tok::RBracket,
            TokKind::LBrace => Tok::LBrace,
            TokKind::RBrace => Tok::RBrace,
            TokKind::LParent => Tok::LParent,
            TokKind::RParent => Tok::RParent,
            TokKind::Semi => Tok::Semi,
            TokKind::Comma => Tok::Comma,
            TokKind::Arrow => Tok::Arrow,
            TokKind::Equal => Tok::Equal,
            TokKind::Sin => Tok::Sin,
            TokKind::Cos => Tok::Cos,
            TokKind::Tan => Tok::Tan,
            TokKind::Exp => Tok::Exp,
            TokKind::Ln => Tok::Ln,
            TokKind::Sqrt => Tok::Sqrt,
            TokKind::ConstPi => Tok::ConstPi,
            TokKind::U => Tok::U,
            TokKind::CX => Tok::CX,
            TokKind::Opaque => Tok::Opaque,
            TokKind::Gate => Tok::Gate,
            TokKind::Include => Tok::Include,
            TokKind::QReg => Tok::QReg,
            TokKind::CReg => Tok::CReg,
            TokKind::Measure => Tok::Measure,
            TokKind::Reset => Tok::Reset,
            TokKind::Barrier => Tok::Barrier,
            TokKind::If => Tok::If,
            TokKind::QASMHeader => Tok::QASMHeader,
            TokKind::Version => Tok::Version { repr },
            TokKind::Id => Tok::Id { repr },
            TokKind::Int => Tok::Int { repr },
            TokKind::Real => Tok::Real { repr },
            TokKind::Str => Tok::Str { repr },
            TokKind::DocStr => Tok::DocStr { repr },
        }
    }
}

} // verus!

verus! {

// ---------------------------------------------------------------------------
// Character classes and the token classes of the lexical grammar.
// ---------------------------------------------------------------------------

/// `' '` or `'\t'`.
pub open spec fn is_blank(c: char) -> bool {
    c == ' ' || c == '\t'
}

/// `[0-9]`.
pub open spec fn is_digit(c: char) -> bool {
    '0' <= c && c <= '9'
}

/// `[1-9]`.
pub open spec fn is_nonzero_digit(c: char) -> bool {
    '1' <= c && c <= '9'
}

/// `[a-z]`.
pub open spec fn is_lower(c: char) -> bool {
    'a' <= c && c <= 'z'
}

/// `[A-Za-z0-9_]`: the characters that may follow the first one of an
/// identifier, and the word characters for word boundaries.
pub open spec fn is_word(c: char) -> bool {
    ('a' <= c && c <= 'z') || ('A' <= c && c <= 'Z') || is_digit(c) || c == '_'
}

/// Length of the run of blanks starting at `i`.
pub open spec fn blank_run(inp: Seq<char>, i: int) -> nat
    decreases inp.len() - i,
{
    if 0 <= i < inp.len() && is_blank(inp[i]) {
        1 + blank_run(inp, i + 1)
    } else {
        0
    }
}

/// Length of the run of digits starting at `i`.
pub open spec fn digit_run(inp: Seq<char>, i: int) -> nat
    decreases inp.len() - i,
{
    if 0 <= i < inp.len() && is_digit(inp[i]) {
        1 + digit_run(inp, i + 1)
    } else {
        0
    }
}

/// Length of the run of word characters starting at `i`.
pub open spec fn word_run(inp: Seq<char>, i: int) -> nat
    decreases inp.len() - i,
{
    if 0 <= i < inp.len() && is_word(inp[i]) {
        1 + word_run(inp, i + 1)
    } else {
        0
    }
}

/// Length of the run of characters other than a new line starting at `i`.
pub open spec fn line_run(inp: Seq<char>, i: int) -> nat
    decreases inp.len() - i,
{
    if 0 <= i < inp.len() && inp[i] != '\n' {
        1 + line_run(inp, i + 1)
    } else {
        0
    }
}

/// Whether position `j` ends a word: the input ends there or a non-word
/// character follows.
pub open spec fn word_ends_at(inp: Seq<char>, j: int) -> bool {
    j >= inp.len() || !is_word(inp[j])
}

/// `inp[i..]` starts with `w`.
pub open spec fn starts_with_at(inp: Seq<char>, i: int, w: Seq<char>) -> bool {
    0 <= i && i + w.len() <= inp.len() && inp.subrange(i, i + w.len()) == w
}

/// The header keyword.
pub open spec fn openqasm_word() -> Seq<char> {
    seq!['O', 'P', 'E', 'N', 'Q', 'A', 'S', 'M']
}

/// `OPENQASM\b` matches at `i`.
pub open spec fn header_at(inp: Seq<char>, i: int) -> bool {
    starts_with_at(inp, i, openqasm_word()) && word_ends_at(inp, i + 8)
}

/// Length of the match of `(CX|U)\b` at `i`, or 0.
pub open spec fn gate_len(inp: Seq<char>, i: int) -> nat {
    if starts_with_at(inp, i, seq!['C', 'X']) && word_ends_at(inp, i + 2) {
        2
    } else if starts_with_at(inp, i, seq!['U']) && word_ends_at(inp, i + 1) {
        1
    } else {
        0
    }
}

/// Length of the match of `[a-z][A-Za-z0-9_]*` at `i`, or 0.
pub open spec fn id_len(inp: Seq<char>, i: int) -> nat {
    if 0 <= i < inp.len() && is_lower(inp[i]) {
        1 + word_run(inp, i + 1)
    } else {
        0
    }
}

/// Length of the match of `[eE][+-]?[0-9]+` at `i`, or 0.
pub open spec fn exponent_len(inp: Seq<char>, i: int) -> nat {
    if 0 <= i < inp.len() && (inp[i] == 'e' || inp[i] == 'E') {
        if i + 1 < inp.len() && (inp[i + 1] == '+' || inp[i + 1] == '-') {
            if digit_run(inp, i + 2) > 0 {
                2 + digit_run(inp, i + 2)
            } else {
                0
            }
        } else if digit_run(inp, i + 1) > 0 {
            1 + digit_run(inp, i + 1)
        } else {
            0
        }
    } else {
        0
    }
}

/// Length of the mantissa of a real, `[0-9]+\.[0-9]*|[0-9]*\.[0-9]+`,
/// at `i`, or 0.
pub open spec fn mantissa_len(inp: Seq<char>, i: int) -> nat {
    let d = digit_run(inp, i);
    if 0 <= i + d < inp.len() && inp[i + d] == '.' {
        if d > 0 {
            d + 1 + digit_run(inp, i + d + 1)
        } else if digit_run(inp, i + 1) > 0 {
            1 + digit_run(inp, i + 1)
        } else {
            0
        }
    } else {
        0
    }
}

/// Length of the match of a real number, the mantissa followed by an
/// optional exponent, at `i`, or 0.
pub open spec fn real_len(inp: Seq<char>, i: int) -> nat {
    let m = mantissa_len(inp, i);
    if m > 0 {
        m + exponent_len(inp, i + m)
    } else {
        0
    }
}

/// Length of the match of `[0-9]+\.[0-9]+` at `i`, or 0.
pub open spec fn version_len(inp: Seq<char>, i: int) -> nat {
    let d = digit_run(inp, i);
    if d > 0 && 0 <= i + d < inp.len() && inp[i + d] == '.' && digit_run(inp, i + d + 1) > 0 {
        d + 1 + digit_run(inp, i + d + 1)
    } else {
        0
    }
}

/// Length of the match of `[1-9]+[0-9]*|0` at `i`, or 0.
pub open spec fn int_len(inp: Seq<char>, i: int) -> nat {
    if 0 <= i < inp.len() && is_nonzero_digit(inp[i]) {
        digit_run(inp, i)
    } else if 0 <= i < inp.len() && inp[i] == '0' {
        1
    } else {
        0
    }
}

/// The single-character symbol `c`, if it is one.
pub open spec fn single_symbol(c: char) -> Option<TokKind> {
    if c == '+' {
        Some(TokKind::Add)
    } else if c == '-' {
        Some(TokKind::Minus)
    } else if c == '*' {
        Some(TokKind::Mult)
    } else if c == '/' {
        Some(TokKind::Div)
    } else if c == '^' {
        Some(TokKind::Pow)
    } else if c == '[' {
        Some(TokKind::LBracket)
    } else if c == ']' {
        Some(TokKind::RBracket)
    } else if c == '{' {
        Some(TokKind::LBrace)
    } else if c == '}' {
        Some(TokKind::RBrace)
    } else if c == '(' {
        Some(TokKind::LParent)
    } else if c == ')' {
        Some(TokKind::RParent)
    } else if c == ';' {
        Some(TokKind::Semi)
    } else if c == ',' {
        Some(TokKind::Comma)
    } else {
        None
    }
}

/// What the symbol rule `->|==|//|[+\-*/^\[\]{}();,]` matches at `i`:
/// `Some((None, 2))` for a comment start `//`, `Some((Some(k), n))` for a
/// symbol token of class `k` and length `n`, `None` for no match.
pub open spec fn symbol_at(inp: Seq<char>, i: int) -> Option<(Option<TokKind>, nat)> {
    if starts_with_at(inp, i, seq!['-', '>']) {
        Some((Some(TokKind::Arrow), 2))
    } else if starts_with_at(inp, i, seq!['=', '=']) {
        Some((Some(TokKind::Equal), 2))
    } else if starts_with_at(inp, i, seq!['/', '/']) {
        Some((None, 2))
    } else if 0 <= i < inp.len() && single_symbol(inp[i]) is Some {
        Some((Some(single_symbol(inp[i]).unwrap()), 1))
    } else {
        None
    }
}

/// The keyword spelled `w`, if any.
pub open spec fn keyword_of(w: Seq<char>) -> Option<TokKind> {
    if w == seq!['s', 'i', 'n'] {
        Some(TokKind::Sin)
    } else if w == seq!['c', 'o', 's'] {
        Some(TokKind::Cos)
    } else if w == seq!['t', 'a', 'n'] {
        Some(TokKind::Tan)
    } else if w == seq!['e', 'x', 'p'] {
        Some(TokKind::Exp)
    } else if w == seq!['l', 'n'] {
        Some(TokKind::Ln)
    } else if w == seq!['s', 'q', 'r', 't'] {
        Some(TokKind::Sqrt)
    } else if w == seq!['p', 'i'] {
        Some(TokKind::ConstPi)
    } else if w == seq!['o', 'p', 'a', 'q', 'u', 'e'] {
        Some(TokKind::Opaque)
    } else if w == seq!['g', 'a', 't', 'e'] {
        Some(TokKind::Gate)
    } else if w == seq!['i', 'n', 'c', 'l', 'u', 'd', 'e'] {
        Some(TokKind::Include)
    } else if w == seq!['q', 'r', 'e', 'g'] {
        Some(TokKind::QReg)
    } else if w == seq!['c', 'r', 'e', 'g'] {
        Some(TokKind::CReg)
    } else if w == seq!['m', 'e', 'a', 's', 'u', 'r', 'e'] {
        Some(TokKind::Measure)
    } else if w == seq!['r', 'e', 's', 'e', 't'] {
        Some(TokKind::Reset)
    } else if w == seq!['b', 'a', 'r', 'r', 'i', 'e', 'r'] {
        Some(TokKind::Barrier)
    } else if w == seq!['i', 'f'] {
        Some(TokKind::If)
    } else {
        None
    }
}

/// The keywords of the language with their tokens.
pub fn keywords() -> (r: Vec<(String, Tok)>)
    ensures
        forall|i: int| 0 <= i < r@.len() ==> keyword_of(#[trigger] r@[i].0@) == Some(r@[i].1@.kind),
        r@.len() == 16,
{
    let mut r: Vec<(String, Tok)> = Vec::new();
    r.push(("sin".to_owned(), Tok::Sin));
    r.push(("cos".to_owned(), Tok::Cos));
    r.push(("tan".to_owned(), Tok::Tan));
    r.push(("exp".to_owned(), Tok::Exp));
    r.push(("ln".to_owned(), Tok::Ln));
    r.push(("sqrt".to_owned(), Tok::Sqrt));
    r.push(("pi".to_owned(), Tok::ConstPi));
    r.push(("opaque".to_owned(), Tok::Opaque));
    r.push(("gate".to_owned(), Tok::Gate));
    r.push(("include".to_owned(), Tok::Include));
    r.push(("qreg".to_owned(), Tok::QReg));
    r.push(("creg".to_owned(), Tok::CReg));
    r.push(("measure".to_owned(), Tok::Measure));
    r.push(("reset".to_owned(), Tok::Reset));
    r.push(("barrier".to_owned(), Tok::Barrier));
    r.push(("if".to_owned(), Tok::If));
    proof {
        reveal_strlit("sin");
        reveal_strlit("cos");
        reveal_strlit("tan");
        reveal_strlit("exp");
        reveal_strlit("ln");
        reveal_strlit("sqrt");
        reveal_strlit("pi");
        reveal_strlit("opaque");
        reveal_strlit("gate");
        reveal_strlit("include");
        reveal_strlit("qreg");
        reveal_strlit("creg");
        reveal_strlit("measure");
        reveal_strlit("reset");
        reveal_strlit("barrier");
        reveal_strlit("if");
        assert(r@[0].0@ =~= seq!['s', 'i', 'n']);
        assert(keyword_of(r@[0].0@) == Some(r@[0].1@.kind));
        assert(r@[1].0@ =~= seq!['c', 'o', 's']);
        assert(keyword_of(r@[1].0@) == Some(r@[1].1@.kind));
        assert(r@[2].0@ =~= seq!['t', 'a', 'n']);
        assert(keyword_of(r@[2].0@) == Some(r@[2].1@.kind));
        assert(r@[3].0@ =~= seq!['e', 'x', 'p']);
        assert(keyword_of(r@[3].0@) == Some(r@[3].1@.kind));
        assert(r@[4].0@ =~= seq!['l', 'n']);
        assert(keyword_of(r@[4].0@) == Some(r@[4].1@.kind));
        assert(r@[5].0@ =~= seq!['s', 'q', 'r', 't']);
        assert(keyword_of(r@[5].0@) == Some(r@[5].1@.kind));
        assert(r@[6].0@ =~= seq!['p', 'i']);
        assert(keyword_of(r@[6].0@) == Some(r@[6].1@.kind));
        assert(r@[7].0@ =~= seq!['o', 'p', 'a', 'q', 'u', 'e']);
        assert(keyword_of(r@[7].0@) == Some(r@[7].1@.kind));
        assert(r@[8].0@ =~= seq!['g', 'a', 't', 'e']);
        assert(keyword_of(r@[8].0@) == Some(r@[8].1@.kind));
        assert(r@[9].0@ =~= seq!['i', 'n', 'c', 'l', 'u', 'd', 'e']);
        assert(keyword_of(r@[9].0@) == Some(r@[9].1@.kind));
        assert(r@[10].0@ =~= seq!['q', 'r', 'e', 'g']);
        assert(keyword_of(r@[10].0@) == Some(r@[10].1@.kind));
        assert(r@[11].0@ =~= seq!['c', 'r', 'e', 'g']);
        assert(keyword_of(r@[11].0@) == Some(r@[11].1@.kind));
        assert(r@[12].0@ =~= seq!['m', 'e', 'a', 's', 'u', 'r', 'e']);
        assert(keyword_of(r@[12].0@) == Some(r@[12].1@.kind));
        assert(r@[13].0@ =~= seq!['r', 'e', 's', 'e', 't']);
        assert(keyword_of(r@[13].0@) == Some(r@[13].1@.kind));
        assert(r@[14].0@ =~= seq!['b', 'a', 'r', 'r', 'i', 'e', 'r']);
        assert(keyword_of(r@[14].0@) == Some(r@[14].1@.kind));
        assert(r@[15].0@ =~= seq!['i', 'f']);
        assert(keyword_of(r@[15].0@) == Some(r@[15].1@.kind));
    }
    r
}

/// Position of the closing quote of a string whose content starts at `i`;
/// a backslash makes the lexer skip the next character.
pub open spec fn string_end(inp: Seq<char>, i: int) -> Option<int>
    decreases inp.len() - i,
{
    if i < 0 || i >= inp.len() {
        None
    } else if inp[i] == '\\' {
        if i + 1 >= inp.len() {
            None
        } else {
            string_end(inp, i + 2)
        }
    } else if inp[i] == '"' {
        Some(i)
    } else {
        string_end(inp, i + 1)
    }
}

} // verus!

verus! {

// ---------------------------------------------------------------------------
// The lexer as a state machine over the input characters.
// ---------------------------------------------------------------------------

/// The modes of the lexer. The mode on top of the stack decides which token
/// classes the lexer recognises next.
#[derive(Debug, Clone, Copy, PartialEq, Eq, Structural)]
pub enum Mode {
    /// Regular program text.
    Base,
    /// Right after the `OPENQASM` header, waiting for the version.
    Version,
    /// Inside a `//` comment, up to the end of the line.
    Comment,
    /// Inside a string literal.
    Str,
    /// A token has been delayed after emitting a documentation string.
    EmitDelayedToken,
}

/// The value of one step of the lexer: a token with its start and end
/// locations, or the location of an unrecognised sequence.
pub type ItemV = Result<(int, TokView, int), int>;

/// The state of the lexer, as mathematical values.
pub struct LexModel {
    /// Mode stack; the top is the last element.
    pub mode: Seq<Mode>,
    /// Position of the next character to read.
    pub pos: int,
    /// Whether an unrecognised sequence was found.
    pub errored: bool,
    /// The documentation being collected: start, text and end.
    pub doc: Option<(int, Seq<char>, int)>,
    /// The token delayed after a documentation string.
    pub delayed: Option<(int, TokView, int)>,
}

/// The outcome of a single rule of the lexer: go on reading, or answer.
pub enum StepV {
    Continue(LexModel),
    Return(LexModel, Option<ItemV>),
}

/// The initial state of the lexer.
pub open spec fn initial_model() -> LexModel {
    LexModel { mode: seq![Mode::Base], pos: 0, errored: false, doc: None, delayed: None }
}

/// The states the lexer can be in while reading `inp`.
pub open spec fn lex_wf(inp: Seq<char>, s: LexModel) -> bool {
    &&& s.mode.len() >= 1
    &&& s.mode[0] == Mode::Base
    &&& forall|i: int|
        0 <= i < s.mode.len() - 1 ==> (#[trigger] s.mode[i] == Mode::Base || s.mode[i]
            == Mode::Version)
    &&& 0 <= s.pos <= inp.len()
    &&& (s.mode.last() == Mode::EmitDelayedToken) == (s.delayed is Some)
    &&& s.mode.last() == Mode::Comment ==> s.doc is Some
    &&& s.mode.last() == Mode::Str ==> s.pos >= 1
    &&& s.doc matches Some(d) ==> 0 <= d.0 && 0 <= d.2
    &&& s.delayed matches Some(d) ==> 0 <= d.0 && 0 <= d.2
}

/// The rules for the token classes, tried in order once blanks, new lines,
/// strings and comments are ruled out.
pub open spec fn step_token(inp: Seq<char>, s: LexModel) -> StepV {
    let p = s.pos;
    let m = s.mode.last();
    if header_at(inp, p) {
        StepV::Return(
            LexModel { pos: p + 8, mode: s.mode.push(Mode::Version), ..s },
            Some(Ok((p, tok_view(TokKind::QASMHeader, Seq::empty()), p + 8))),
        )
    } else if gate_len(inp, p) > 0 {
        let n = gate_len(inp, p);
        StepV::Return(
            LexModel { pos: p + n, ..s },
            Some(
                Ok(
                    (
                        p,
                        tok_view(
                            if n == 2 {
                                TokKind::CX
                            } else {
                                TokKind::U
                            },
                            Seq::empty(),
                        ),
                        p + n,
                    ),
                ),
            ),
        )
    } else if id_len(inp, p) > 0 {
        let n = id_len(inp, p);
        let w = inp.subrange(p, p + n);
        match keyword_of(w) {
            None => StepV::Return(
                LexModel { pos: p + n, ..s },
                Some(Ok((p, tok_view(TokKind::Id, w), p + n))),
            ),
            Some(k) => if s.doc is Some && (k == TokKind::Gate || k == TokKind::Opaque) {
                let d = s.doc.unwrap();
                StepV::Return(
                    LexModel {
                        pos: p + n,
                        mode: s.mode.push(Mode::EmitDelayedToken),
                        delayed: Some((p, tok_view(k, Seq::empty()), p + n)),
                        doc: None,
                        ..s
                    },
                    Some(Ok((d.0, tok_view(TokKind::DocStr, d.1), d.2))),
                )
            } else {
                StepV::Return(
                    LexModel { pos: p + n, doc: None, ..s },
                    Some(Ok((p, tok_view(k, Seq::empty()), p + n))),
                )
            },
        }
    } else if m == Mode::Base && real_len(inp, p) > 0 {
        let n = real_len(inp, p);
        StepV::Return(
            LexModel { pos: p + n, ..s },
            Some(Ok((p, tok_view(TokKind::Real, inp.subrange(p, p + n)), p + n))),
        )
    } else if m == Mode::Version && version_len(inp, p) > 0 {
        let n = version_len(inp, p);
        StepV::Return(
            LexModel { pos: p + n, mode: s.mode.drop_last(), ..s },
            Some(Ok((p, tok_view(TokKind::Version, inp.subrange(p, p + n)), p + n))),
        )
    } else if int_len(inp, p) > 0 {
        let n = int_len(inp, p);
        StepV::Return(
            LexModel { pos: p + n, ..s },
            Some(Ok((p, tok_view(TokKind::Int, inp.subrange(p, p + n)), p + n))),
        )
    } else {
        match symbol_at(inp, p) {
            Some((None, _)) => StepV::Continue(
                LexModel {
                    pos: p + 2,
                    doc: if s.doc is None {
                        Some((p, Seq::empty(), p))
                    } else {
                        s.doc
                    },
                    mode: s.mode.push(Mode::Comment),
                    ..s
                },
            ),
            Some((Some(k), n)) => StepV::Return(
                LexModel { pos: p + n, ..s },
                Some(Ok((p, tok_view(k, Seq::empty()), p + n))),
            ),
            None => StepV::Return(LexModel { errored: true, ..s }, Some(Err(p))),
        }
    }
}

/// One rule of the lexer applied to state `s`.
pub open spec fn step_once(inp: Seq<char>, s: LexModel) -> StepV {
    let p = s.pos;
    let m = s.mode.last();
    if m == Mode::EmitDelayedToken {
        StepV::Return(
            LexModel { mode: s.mode.drop_last(), delayed: None, ..s },
            Some(Ok(s.delayed.unwrap())),
        )
    } else if s.errored || p >= inp.len() {
        StepV::Return(s, None)
    } else if inp[p] == '\n' {
        if m == Mode::Comment {
            let d = s.doc.unwrap();
            StepV::Continue(
                LexModel {
                    pos: p + 1,
                    mode: s.mode.drop_last(),
                    doc: Some((d.0, d.1.push('\n'), p + 1)),
                    ..s
                },
            )
        } else {
            StepV::Continue(LexModel { pos: p + 1, doc: None, ..s })
        }
    } else if (m == Mode::Base || m == Mode::Version) && blank_run(inp, p) > 0 {
        StepV::Continue(LexModel { pos: p + blank_run(inp, p), ..s })
    } else if m == Mode::Base && inp[p] == '"' {
        StepV::Continue(LexModel { pos: p + 1, mode: s.mode.push(Mode::Str), ..s })
    } else if m == Mode::Str {
        match string_end(inp, p) {
            None => StepV::Return(LexModel { pos: inp.len() as int, ..s }, None),
            Some(e) => StepV::Return(
                LexModel { pos: e + 1, mode: s.mode.drop_last(), ..s },
                Some(Ok((p - 1, tok_view(TokKind::Str, inp.subrange(p, e)), e + 1))),
            ),
        }
    } else if m == Mode::Comment {
        let n = line_run(inp, p);
        let d = s.doc.unwrap();
        StepV::Continue(
            LexModel { pos: p + n, doc: Some((d.0, d.1 + inp.subrange(p, p + n), p + n)), ..s },
        )
    } else {
        step_token(inp, s)
    }
}

/// What one call of `next` does in state `s`: the rules are applied until
/// one of them answers.
pub open spec fn lex_step(inp: Seq<char>, s: LexModel) -> (LexModel, Option<ItemV>)
    decreases inp.len() - s.pos,
{
    match step_once(inp, s) {
        StepV::Return(s2, r) => (s2, r),
        StepV::Continue(s2) => if s.pos < s2.pos <= inp.len() {
            lex_step(inp, s2)
        } else {
            (s2, None)
        },
    }
}

/// A measure that each answered token makes smaller.
pub open spec fn lex_measure(inp: Seq<char>, s: LexModel) -> int {
    2 * (inp.len() - s.pos) + (if s.delayed is Some {
        1int
    } else {
        0
    }) + (if s.errored {
        0int
    } else {
        1
    })
}

/// All the answers of the lexer from state `s` until it answers nothing.
pub open spec fn lex_all(inp: Seq<char>, s: LexModel) -> Seq<ItemV>
    decreases lex_measure(inp, s),
{
    let (s2, r) = lex_step(inp, s);
    match r {
        None => Seq::empty(),
        Some(it) => if 0 <= lex_measure(inp, s2) < lex_measure(inp, s) {
            seq![it] + lex_all(inp, s2)
        } else {
            Seq::empty()
        },
    }
}

/// The tokens of `inp`, as the lexer answers them from its initial state.
pub open spec fn tokenize(inp: Seq<char>) -> Seq<ItemV> {
    lex_all(inp, initial_model())
}

proof fn lemma_blank_run_bound(inp: Seq<char>, i: int)
    requires
        0 <= i <= inp.len(),
    ensures
        i + blank_run(inp, i) <= inp.len(),
    decreases inp.len() - i,
{
    if i < inp.len() {
        lemma_blank_run_bound(inp, i + 1);
    }
}

proof fn lemma_line_run_bound(inp: Seq<char>, i: int)
    requires
        0 <= i <= inp.len(),
    ensures
        i + line_run(inp, i) <= inp.len(),
        i < inp.len() && inp[i] != '\n' ==> line_run(inp, i) > 0,
    decreases inp.len() - i,
{
    if i < inp.len() {
        lemma_line_run_bound(inp, i + 1);
    }
}

proof fn lemma_digit_run_bound(inp: Seq<char>, i: int)
    requires
        0 <= i,
    ensures
        i <= inp.len() ==> i + digit_run(inp, i) <= inp.len(),
        digit_run(inp, i) > 0 ==> i < inp.len(),
    decreases inp.len() - i,
{
    if 0 <= i < inp.len() && is_digit(inp[i]) {
        lemma_digit_run_bound(inp, i + 1);
    }
}

proof fn lemma_word_run_bound(inp: Seq<char>, i: int)
    requires
        0 <= i,
    ensures
        i <= inp.len() ==> i + word_run(inp, i) <= inp.len(),
    decreases inp.len() - i,
{
    if 0 <= i < inp.len() && is_word(inp[i]) {
        lemma_word_run_bound(inp, i + 1);
    }
}

proof fn lemma_string_end_bound(inp: Seq<char>, i: int)
    ensures
        string_end(inp, i) matches Some(e) ==> i <= e < inp.len() && inp[e] == '"',
    decreases inp.len() - i,
{
    if 0 <= i < inp.len() {
        if inp[i] == '\\' {
            if i + 1 < inp.len() {
                lemma_string_end_bound(inp, i + 2);
            }
        } else if inp[i] != '"' {
            lemma_string_end_bound(inp, i + 1);
        }
    }
}

/// Every token class matches within the input.
proof fn lemma_token_lengths(inp: Seq<char>, p: int)
    requires
        0 <= p < inp.len(),
    ensures
        header_at(inp, p) ==> p + 8 <= inp.len(),
        p + gate_len(inp, p) <= inp.len(),
        p + id_len(inp, p) <= inp.len(),
        p + real_len(inp, p) <= inp.len(),
        p + version_len(inp, p) <= inp.len(),
        p + int_len(inp, p) <= inp.len(),
        symbol_at(inp, p) matches Some((_, n)) ==> p + n <= inp.len() && n > 0,
{
    lemma_word_run_bound(inp, p + 1);
    lemma_digit_run_bound(inp, p);
    let d = digit_run(inp, p);
    lemma_digit_run_bound(inp, p + d + 1);
    lemma_digit_run_bound(inp, p + 1);
    let m = mantissa_len(inp, p);
    lemma_digit_run_bound(inp, p + m + 1);
    lemma_digit_run_bound(inp, p + m + 2);
}

/// Each rule keeps the lexer in a valid state; the rules that go on reading
/// consume input.
pub proof fn lemma_step_once(inp: Seq<char>, s: LexModel)
    requires
        lex_wf(inp, s),
    ensures
        match step_once(inp, s) {
            StepV::Continue(s2) => lex_wf(inp, s2) && s.pos < s2.pos <= inp.len() && s2.delayed
                == s.delayed && s2.errored == s.errored,
            StepV::Return(s2, r) => lex_wf(inp, s2) && s.pos <= s2.pos && (r is Some
                ==> lex_measure(inp, s2) < lex_measure(inp, s)) && (r is None ==> s2.delayed
                is None) && (s.errored ==> s2.errored),
        },
{
    let p = s.pos;
    let m = s.mode.last();
    if m != Mode::EmitDelayedToken && !s.errored && p < inp.len() {
        lemma_blank_run_bound(inp, p);
        lemma_line_run_bound(inp, p);
        lemma_string_end_bound(inp, p);
        lemma_token_lengths(inp, p);
        if inp[p] != '\n' && m != Mode::Str && m != Mode::Comment && !((m == Mode::Base || m
            == Mode::Version) && blank_run(inp, p) > 0) && !(m == Mode::Base && inp[p] == '"') {
            assert(m == Mode::Base || m == Mode::Version) by {
                assert(s.mode[s.mode.len() - 1] == m);
                if s.mode.len() > 1 {
                    assert(s.mode[s.mode.len() - 1] == Mode::Base || s.mode[s.mode.len() - 1]
                        == Mode::Version || m == Mode::EmitDelayedToken || m == Mode::Comment
                        || m == Mode::Str);
                }
            }
        }
    }
    match step_once(inp, s) {
        StepV::Continue(s2) => {
            assert(forall|i: int|
                0 <= i < s2.mode.len() - 1 ==> (#[trigger] s2.mode[i] == Mode::Base
                    || s2.mode[i] == Mode::Version)) by {
                assert forall|i: int| 0 <= i < s2.mode.len() - 1 implies (#[trigger] s2.mode[i]
                    == Mode::Base || s2.mode[i] == Mode::Version) by {
                    if s2.mode.len() > s.mode.len() {
                        assert(i < s.mode.len());
                        if i < s.mode.len() - 1 {
                            assert(s2.mode[i] == s.mode[i]);
                        }
                    } else if s2.mode.len() < s.mode.len() {
                        assert(s2.mode[i] == s.mode[i]);
                    } else {
                        assert(s2.mode == s.mode);
                    }
                }
            }
        },
        StepV::Return(s2, r) => {
            assert(forall|i: int|
                0 <= i < s2.mode.len() - 1 ==> (#[trigger] s2.mode[i] == Mode::Base
                    || s2.mode[i] == Mode::Version)) by {
                assert forall|i: int| 0 <= i < s2.mode.len() - 1 implies (#[trigger] s2.mode[i]
                    == Mode::Base || s2.mode[i] == Mode::Version) by {
                    if s2.mode.len() > s.mode.len() {
                        if i < s.mode.len() - 1 {
                            assert(s2.mode[i] == s.mode[i]);
                        }
                    } else if s2.mode.len() < s.mode.len() {
                        assert(s2.mode[i] == s.mode[i]);
                    } else {
                        assert(s2.mode == s.mode);
                    }
                }
            }
        },
    }
}

/// `lex_step` keeps the lexer in a valid state, and each answered token
/// makes the measure smaller.
pub proof fn lemma_lex_step(inp: Seq<char>, s: LexModel)
    requires
        lex_wf(inp, s),
    ensures
        lex_wf(inp, lex_step(inp, s).0),
        lex_step(inp, s).1 is Some ==> lex_measure(inp, lex_step(inp, s).0) < lex_measure(
            inp,
            s,
        ),
        lex_step(inp, s).0.pos >= s.pos,
    decreases inp.len() - s.pos,
{
    lemma_step_once(inp, s);
    match step_once(inp, s) {
        StepV::Continue(s2) => {
            lemma_lex_step(inp, s2);
        },
        StepV::Return(_, _) => {},
    }
}

} // verus!

verus! {

/// A located token lies within `inp` and does not end before it starts.
pub open spec fn span_within(inp: Seq<char>, t: (int, TokView, int)) -> bool {
    0 <= t.0 <= t.2 <= inp.len()
}

/// An answer of the lexer points within `inp`.
pub open spec fn item_within(inp: Seq<char>, it: ItemV) -> bool {
    match it {
        Ok(t) => span_within(inp, t),
        Err(l) => 0 <= l <= inp.len(),
    }
}

/// The documentation being collected and the delayed token end before the
/// current position.
pub open spec fn lex_bounds(s: LexModel) -> bool {
    &&& s.doc matches Some(d) ==> 0 <= d.0 <= d.2 <= s.pos
    &&& s.delayed matches Some(d) ==> 0 <= d.0 <= d.2 <= s.pos
}

/// One rule keeps the bounds, and what it answers lies within the input.
proof fn lemma_step_once_bounds(inp: Seq<char>, s: LexModel)
    requires
        lex_wf(inp, s),
        lex_bounds(s),
    ensures
        match step_once(inp, s) {
            StepV::Continue(s2) => lex_bounds(s2),
            StepV::Return(s2, r) => lex_bounds(s2) && (r matches Some(it) ==> item_within(inp, it)),
        },
{
    lemma_step_once(inp, s);
    let p = s.pos;
    if p < inp.len() {
        lemma_blank_run_bound(inp, p);
        lemma_line_run_bound(inp, p);
        lemma_string_end_bound(inp, p);
        lemma_token_lengths(inp, p);
    }
}

/// A call of `next` keeps the bounds, and what it answers lies within the
/// input.
proof fn lemma_lex_step_bounds(inp: Seq<char>, s: LexModel)
    requires
        lex_wf(inp, s),
        lex_bounds(s),
    ensures
        lex_bounds(lex_step(inp, s).0),
        lex_step(inp, s).1 matches Some(it) ==> item_within(inp, it),
    decreases inp.len() - s.pos,
{
    lemma_step_once(inp, s);
    lemma_step_once_bounds(inp, s);
    match step_once(inp, s) {
        StepV::Continue(s2) => {
            if s.pos < s2.pos <= inp.len() {
                lemma_lex_step_bounds(inp, s2);
            }
        },
        StepV::Return(_, _) => {},
    }
}

/// Every answer of the lexer from a state within bounds lies within the
/// input.
proof fn lemma_lex_all_bounds(inp: Seq<char>, s: LexModel)
    requires
        lex_wf(inp, s),
        lex_bounds(s),
    ensures
        forall|i: int| 0 <= i < lex_all(inp, s).len() ==> item_within(inp, #[trigger] lex_all(inp, s)[i]),
    decreases lex_measure(inp, s),
{
    lemma_lex_step(inp, s);
    lemma_lex_step_bounds(inp, s);
    let (s2, r) = lex_step(inp, s);
    match r {
        None => {},
        Some(it) => {
            if 0 <= lex_measure(inp, s2) < lex_measure(inp, s) {
                lemma_lex_all_bounds(inp, s2);
                let all = lex_all(inp, s);
                assert(all == seq![it] + lex_all(inp, s2));
                assert forall|i: int| 0 <= i < all.len() implies item_within(inp, #[trigger] all[i]) by {
                    if i > 0 {
                        assert(all[i] == lex_all(inp, s2)[i - 1]);
                    }
                }
            }
        },
    }
}

/// A state where an unrecognised sequence was found holds no delayed
/// token, as do all the states the lexer reaches.
pub open spec fn errored_alone(s: LexModel) -> bool {
    s.errored ==> s.delayed is None
}

/// A call of `next` that answers an unrecognised sequence leaves the lexer
/// errored, and an errored lexer answers nothing and stays as it is.
pub proof fn lemma_lex_step_error(inp: Seq<char>, s: LexModel)
    requires
        lex_wf(inp, s),
        errored_alone(s),
    ensures
        errored_alone(lex_step(inp, s).0),
        lex_step(inp, s).1 matches Some(Err(_)) ==> lex_step(inp, s).0.errored,
        s.errored ==> lex_step(inp, s) == (s, None::<ItemV>),
    decreases inp.len() - s.pos,
{
    lemma_step_once(inp, s);
    match step_once(inp, s) {
        StepV::Continue(s2) => {
            lemma_lex_step_error(inp, s2);
        },
        StepV::Return(_, _) => {},
    }
}

/// Every answer of the lexer from `s` that follows an unrecognised sequence
/// is none: such a sequence is the last answer.
proof fn lemma_lex_all_error_last(inp: Seq<char>, s: LexModel)
    requires
        lex_wf(inp, s),
        errored_alone(s),
    ensures
        forall|i: int| 0 <= i < lex_all(inp, s).len() && #[trigger] lex_all(inp, s)[i] is Err ==> i
            == lex_all(inp, s).len() - 1,
    decreases lex_measure(inp, s),
{
    lemma_lex_step(inp, s);
    lemma_lex_step_error(inp, s);
    let (s2, r) = lex_step(inp, s);
    if let Some(it) = r {
        if 0 <= lex_measure(inp, s2) < lex_measure(inp, s) {
            lemma_lex_all_error_last(inp, s2);
            let all = lex_all(inp, s);
            assert(all == seq![it] + lex_all(inp, s2));
            if it is Err {
                lemma_lex_step_error(inp, s2);
                assert(lex_all(inp, s2) =~= Seq::<ItemV>::empty());
            }
            assert forall|i: int| 0 <= i < all.len() && #[trigger] all[i] is Err implies i == all.len()
                - 1 by {
                if i > 0 {
                    assert(all[i] == lex_all(inp, s2)[i - 1]);
                }
            }
        }
    }
}

/// The lexer never resumes after an unrecognised sequence: it is the last
/// answer among the tokens of any source.
pub proof fn lemma_error_ends_tokens(inp: Seq<char>)
    ensures
        forall|i: int| 0 <= i < tokenize(inp).len() && #[trigger] tokenize(inp)[i] is Err ==> i
            == tokenize(inp).len() - 1,
{
    assert(lex_wf(inp, initial_model()));
    lemma_lex_all_error_last(inp, initial_model());
}

/// A run of lowercase letters is a run of word characters.
proof fn lemma_word_run_lower(w: Seq<char>, i: int)
    requires
        0 <= i <= w.len(),
        forall|j: int| 0 <= j < w.len() ==> is_lower(#[trigger] w[j]),
    ensures
        word_run(w, i) == w.len() - i,
    decreases w.len() - i,
{
    if i < w.len() {
        lemma_word_run_lower(w, i + 1);
    }
}

/// The keywords are made of lowercase letters, at most seven.
proof fn lemma_keyword_lower(w: Seq<char>)
    requires
        keyword_of(w) is Some,
    ensures
        1 <= w.len() <= 7,
        forall|j: int| 0 <= j < w.len() ==> is_lower(#[trigger] w[j]),
{
    assert forall|j: int| 0 <= j < w.len() implies is_lower(#[trigger] w[j]) by {
        if j == 0 {
        } else if j == 1 {
        } else if j == 2 {
        } else if j == 3 {
        } else if j == 4 {
        } else if j == 5 {
        } else {
        }
    }
}

/// Each keyword, alone in a source, lexes to its own token spanning it.
pub proof fn lemma_keyword_alone(w: Seq<char>)
    requires
        keyword_of(w) is Some,
    ensures
        tokenize(w) == seq![
            Ok::<(int, TokView, int), int>(
                (0, tok_view(keyword_of(w).unwrap(), Seq::empty()), w.len() as int),
            ),
        ],
{
    lemma_keyword_lower(w);
    lemma_word_run_lower(w, 1);
    let s = initial_model();
    let n = w.len() as int;
    assert(!header_at(w, 0));
    assert(!starts_with_at(w, 0, seq!['C', 'X'])) by {
        if starts_with_at(w, 0, seq!['C', 'X']) {
            assert(w.subrange(0, 2)[0] == w[0]);
        }
    }
    assert(!starts_with_at(w, 0, seq!['U'])) by {
        if starts_with_at(w, 0, seq!['U']) {
            assert(w.subrange(0, 1)[0] == w[0]);
        }
    }
    assert(gate_len(w, 0) == 0);
    assert(id_len(w, 0) == n);
    assert(w.subrange(0, n) =~= w);
    assert(blank_run(w, 0) == 0);
    let k = keyword_of(w).unwrap();
    let s2 = LexModel { pos: n, doc: None, ..s };
    let it = Ok::<(int, TokView, int), int>((0, tok_view(k, Seq::empty()), n));
    assert(step_token(w, s) == StepV::Return(s2, Some(it)));
    assert(step_once(w, s) == StepV::Return(s2, Some(it)));
    assert(lex_step(w, s) == (s2, Some(it)));
    assert(step_once(w, s2) == StepV::Return(s2, None::<ItemV>));
    assert(lex_step(w, s2) == (s2, None::<ItemV>));
    assert(lex_all(w, s2) == Seq::<ItemV>::empty());
    assert(lex_all(w, s) == seq![it] + lex_all(w, s2));
    assert(tokenize(w) =~= seq![it]);
}

/// What the source between the locations of token `t` says of it: an
/// identifier, a number or a version holds that text; a string holds the
/// text between the first and the last of its characters, the last being
/// its closing quote and the first its opening quote, or a new line where
/// the string starts with new lines; the header and the primitive gates
/// are their words; any other token is its keyword, or the symbol read at
/// its start. Documentation strings gather comments and are not stated.
pub open spec fn token_text_ok(inp: Seq<char>, t: (int, TokView, int)) -> bool {
    let text = inp.subrange(t.0, t.2);
    match t.1.kind {
        TokKind::Id => t.1.repr == text,
        TokKind::Int => t.1.repr == text,
        TokKind::Real => t.1.repr == text,
        TokKind::Version => t.1.repr == text,
        TokKind::Str => t.0 + 2 <= t.2 && (inp[t.0] == '"' || inp[t.0] == '\n') && inp[t.2 - 1]
            == '"' && t.1.repr == inp.subrange(t.0 + 1, t.2 - 1),
        TokKind::QASMHeader => text == openqasm_word(),
        TokKind::U => text == seq!['U'],
        TokKind::CX => text == seq!['C', 'X'],
        TokKind::DocStr => true,
        k => keyword_of(text) == Some(k) || symbol_at(inp, t.0) == Some((Some(k), (t.2 - t.0) as nat)),
    }
}

/// The delayed token, if any, says what its text is, and inside a string
/// the lexer has just read its opening quote or a new line.
pub open spec fn delayed_text_ok(inp: Seq<char>, s: LexModel) -> bool {
    &&& s.delayed matches Some(d) ==> token_text_ok(inp, d)
    &&& s.mode.last() == Mode::Str && s.pos < inp.len() ==> (inp[s.pos - 1] == '"' || inp[s.pos - 1]
        == '\n')
}

/// One rule keeps the delayed token's text right, and answers tokens whose
/// text is right.
proof fn lemma_step_once_text(inp: Seq<char>, s: LexModel)
    requires
        lex_wf(inp, s),
        delayed_text_ok(inp, s),
    ensures
        match step_once(inp, s) {
            StepV::Continue(s2) => delayed_text_ok(inp, s2),
            StepV::Return(s2, r) => delayed_text_ok(inp, s2) && (r matches Some(Ok(t)) ==> token_text_ok(
                inp,
                t,
            )),
        },
{
    lemma_step_once(inp, s);
    let p = s.pos;
    if p < inp.len() {
        lemma_string_end_bound(inp, p);
        lemma_token_lengths(inp, p);
    }
}

/// A call of `next` keeps the delayed token's text right, and answers a
/// token whose text is right.
proof fn lemma_lex_step_text(inp: Seq<char>, s: LexModel)
    requires
        lex_wf(inp, s),
        delayed_text_ok(inp, s),
    ensures
        delayed_text_ok(inp, lex_step(inp, s).0),
        lex_step(inp, s).1 matches Some(Ok(t)) ==> token_text_ok(inp, t),
    decreases inp.len() - s.pos,
{
    lemma_step_once(inp, s);
    lemma_step_once_text(inp, s);
    match step_once(inp, s) {
        StepV::Continue(s2) => {
            if s.pos < s2.pos <= inp.len() {
                lemma_lex_step_text(inp, s2);
            }
        },
        StepV::Return(_, _) => {},
    }
}

proof fn lemma_lex_all_text(inp: Seq<char>, s: LexModel)
    requires
        lex_wf(inp, s),
        delayed_text_ok(inp, s),
    ensures
        forall|i: int|
            0 <= i < lex_all(inp, s).len() ==> (#[trigger] lex_all(inp, s)[i] matches Ok(t) ==> token_text_ok(
                inp,
                t,
            )),
    decreases lex_measure(inp, s),
{
    lemma_lex_step(inp, s);
    lemma_lex_step_text(inp, s);
    let (s2, r) = lex_step(inp, s);
    if let Some(it) = r {
        if 0 <= lex_measure(inp, s2) < lex_measure(inp, s) {
            lemma_lex_all_text(inp, s2);
            let all = lex_all(inp, s);
            assert(all == seq![it] + lex_all(inp, s2));
            assert forall|i: int| 0 <= i < all.len() implies (#[trigger] all[i] matches Ok(t) ==> token_text_ok(
                inp,
                t,
            )) by {
                if i > 0 {
                    assert(all[i] == lex_all(inp, s2)[i - 1]);
                }
            }
        }
    }
}

/// Each token of a source is what the source says between its locations:
/// identifiers, numbers and versions hold that text, strings the text
/// between their quotes, and keywords, symbols, the header and the
/// primitive gates are the text they span.
pub proof fn lemma_token_texts(inp: Seq<char>)
    ensures
        forall|i: int|
            0 <= i < tokenize(inp).len() ==> (#[trigger] tokenize(inp)[i] matches Ok(t) ==> token_text_ok(
                inp,
                t,
            )),
{
    assert(lex_wf(inp, initial_model()));
    lemma_lex_all_text(inp, initial_model());
}

/// A token that is not a documentation string.
pub open spec fn plain_token(it: ItemV) -> bool {
    it matches Ok(t) && t.1.kind != TokKind::DocStr
}

/// The tokens still to come from `s` start at or after `last`: the lexer
/// reads from there on, a string from before its current position, and the
/// delayed token lies between.
pub open spec fn order_inv(s: LexModel, last: int) -> bool {
    &&& 0 <= last <= s.pos
    &&& s.mode.last() == Mode::Str ==> last + 1 <= s.pos
    &&& s.delayed matches Some(d) ==> last <= d.0 <= d.2 <= s.pos
}

/// Answer `r`, from a state where tokens start at or after `last`, starts
/// there too when it is a token, and leaves `s2` where the tokens start at
/// or after the end of it.
pub open spec fn answer_in_order(r: Option<ItemV>, s2: LexModel, last: int) -> bool {
    match r {
        Some(it) => if plain_token(it) {
            last <= it->Ok_0.0 <= it->Ok_0.2 && order_inv(s2, it->Ok_0.2)
        } else {
            order_inv(s2, last)
        },
        None => order_inv(s2, last),
    }
}

/// One rule answers a token that starts at or after `last`, and the tokens
/// after it start at or after its end.
proof fn lemma_step_once_order(inp: Seq<char>, s: LexModel, last: int)
    requires
        lex_wf(inp, s),
        order_inv(s, last),
    ensures
        match step_once(inp, s) {
            StepV::Continue(s2) => order_inv(s2, last),
            StepV::Return(s2, r) => answer_in_order(r, s2, last),
        },
{
    lemma_step_once(inp, s);
    let p = s.pos;
    if p < inp.len() {
        lemma_blank_run_bound(inp, p);
        lemma_line_run_bound(inp, p);
        lemma_string_end_bound(inp, p);
        lemma_token_lengths(inp, p);
    }
}

/// A call of `next` answers a token that starts at or after `last`, and the
/// tokens after it start at or after its end.
proof fn lemma_lex_step_order(inp: Seq<char>, s: LexModel, last: int)
    requires
        lex_wf(inp, s),
        order_inv(s, last),
    ensures
        answer_in_order(lex_step(inp, s).1, lex_step(inp, s).0, last),
    decreases inp.len() - s.pos,
{
    lemma_step_once(inp, s);
    lemma_step_once_order(inp, s, last);
    match step_once(inp, s) {
        StepV::Continue(s2) => {
            if s.pos < s2.pos <= inp.len() {
                lemma_lex_step_order(inp, s2, last);
            }
        },
        StepV::Return(_, _) => {},
    }
}

proof fn lemma_lex_all_order(inp: Seq<char>, s: LexModel, last: int)
    requires
        lex_wf(inp, s),
        order_inv(s, last),
    ensures
        forall|i: int|
            0 <= i < lex_all(inp, s).len() && plain_token(#[trigger] lex_all(inp, s)[i]) ==> last
                <= lex_all(inp, s)[i]->Ok_0.0 <= lex_all(inp, s)[i]->Ok_0.2,
        forall|i: int, j: int|
            0 <= i < j < lex_all(inp, s).len() && plain_token(#[trigger] lex_all(inp, s)[i])
                && plain_token(#[trigger] lex_all(inp, s)[j]) ==> lex_all(inp, s)[i]->Ok_0.2 <= lex_all(
                inp,
                s,
            )[j]->Ok_0.0,
    decreases lex_measure(inp, s),
{
    lemma_lex_step(inp, s);
    lemma_lex_step_order(inp, s, last);
    let (s2, r) = lex_step(inp, s);
    if let Some(it) = r {
        if 0 <= lex_measure(inp, s2) < lex_measure(inp, s) {
            let next = if plain_token(it) {
                it->Ok_0.2
            } else {
                last
            };
            lemma_lex_all_order(inp, s2, next);
            let all = lex_all(inp, s);
            let rest = lex_all(inp, s2);
            assert(all == seq![it] + rest);
            assert forall|i: int| 0 <= i < all.len() && plain_token(#[trigger] all[i]) implies last
                <= all[i]->Ok_0.0 <= all[i]->Ok_0.2 by {
                if i > 0 {
                    assert(all[i] == rest[i - 1]);
                }
            }
            assert forall|i: int, j: int|
                0 <= i < j < all.len() && plain_token(#[trigger] all[i]) && plain_token(
                    #[trigger] all[j],
                ) implies all[i]->Ok_0.2 <= all[j]->Ok_0.0 by {
                assert(all[j] == rest[j - 1]);
                if i > 0 {
                    assert(all[i] == rest[i - 1]);
                }
            }
        }
    }
}

/// The tokens of a source, documentation strings aside, come in the order
/// of the source and do not overlap: each ends at or before the start of
/// every later one.
pub proof fn lemma_tokens_in_order(inp: Seq<char>)
    ensures
        forall|i: int, j: int|
            0 <= i < j < tokenize(inp).len() && plain_token(#[trigger] tokenize(inp)[i]) && plain_token(
                #[trigger] tokenize(inp)[j],
            ) ==> tokenize(inp)[i]->Ok_0.2 <= tokenize(inp)[j]->Ok_0.0,
{
    assert(lex_wf(inp, initial_model()));
    lemma_lex_all_order(inp, initial_model(), 0);
}

/// A character that may follow the first one of an identifier: a letter of
/// either case, a digit or an underscore.
pub open spec fn identifier_char(c: char) -> bool {
    c == '_' || ('0' <= c && c <= '9') || ('A' <= c && c <= 'Z') || ('a' <= c && c <= 'z')
}

/// The run of identifier characters from `i` to `n` is a run of word
/// characters.
proof fn lemma_word_run_identifier(inp: Seq<char>, i: int, n: int)
    requires
        1 <= i <= n <= inp.len(),
        forall|j: int| 1 <= j < n ==> identifier_char(#[trigger] inp[j]),
        n == inp.len() || !identifier_char(inp[n]),
    ensures
        word_run(inp, i) == n - i,
    decreases n - i,
{
    if i < n {
        assert(identifier_char(inp[i]));
        lemma_word_run_identifier(inp, i + 1, n);
    }
}

/// A source that starts with a lowercase letter followed by letters of
/// either case, digits and underscores, up to its end or to another
/// character, and that is no keyword, starts with one identifier token
/// spanning the whole run.
pub proof fn lemma_identifier_token(inp: Seq<char>, n: int)
    requires
        0 < n <= inp.len(),
        'a' <= inp[0] && inp[0] <= 'z',
        forall|j: int| 1 <= j < n ==> identifier_char(#[trigger] inp[j]),
        n == inp.len() || !identifier_char(inp[n]),
        keyword_of(inp.subrange(0, n)) is None,
    ensures
        tokenize(inp).len() >= 1,
        tokenize(inp)[0] == Ok::<(int, TokView, int), int>(
            (0, tok_view(TokKind::Id, inp.subrange(0, n)), n),
        ),
{
    lemma_word_run_identifier(inp, 1, n);
    let s = initial_model();
    assert(!header_at(inp, 0)) by {
        if header_at(inp, 0) {
            assert(inp.subrange(0, 8)[0] == inp[0]);
        }
    }
    assert(!starts_with_at(inp, 0, seq!['C', 'X'])) by {
        if starts_with_at(inp, 0, seq!['C', 'X']) {
            assert(inp.subrange(0, 2)[0] == inp[0]);
        }
    }
    assert(!starts_with_at(inp, 0, seq!['U'])) by {
        if starts_with_at(inp, 0, seq!['U']) {
            assert(inp.subrange(0, 1)[0] == inp[0]);
        }
    }
    assert(gate_len(inp, 0) == 0);
    assert(id_len(inp, 0) == n);
    assert(blank_run(inp, 0) == 0);
    let s2 = LexModel { pos: n, ..s };
    let it = Ok::<(int, TokView, int), int>((0, tok_view(TokKind::Id, inp.subrange(0, n)), n));
    assert(step_token(inp, s) == StepV::Return(s2, Some(it)));
    assert(step_once(inp, s) == StepV::Return(s2, Some(it)));
    assert(lex_step(inp, s) == (s2, Some(it)));
    assert(lex_all(inp, s) == seq![it] + lex_all(inp, s2));
}

/// An empty source has no token.
pub proof fn lemma_tokenize_empty(inp: Seq<char>)
    requires
        inp.len() == 0,
    ensures
        tokenize(inp).len() == 0,
{
    assert(lex_step(inp, initial_model()).1 is None);
}

/// The tokens of a source lie within it: each starts at or after the start
/// of the source, ends at or before its end, and does not end before it
/// starts; an unrecognised sequence is located within the source too.
pub proof fn lemma_tokens_within_source(inp: Seq<char>)
    ensures
        forall|i: int| 0 <= i < tokenize(inp).len() ==> item_within(inp, #[trigger] tokenize(inp)[i]),
{
    assert(lex_wf(inp, initial_model()));
    lemma_lex_all_bounds(inp, initial_model());
}

/// A token with its start and end locations, or the location of an
/// unrecognised sequence.
pub type Item = Result<(Location, Tok, Location), LexicalError<Location>>;

/// The value of a located token.
pub open spec fn spanned_view(t: (Location, Tok, Location)) -> (int, TokView, int) {
    (t.0.0 as int, t.1@, t.2.0 as int)
}

/// The value of an answer of the lexer.
pub open spec fn item_view(it: Item) -> ItemV {
    match it {
        Ok(t) => Ok(spanned_view(t)),
        Err(e) => Err(e.location.0 as int),
    }
}

/// The value of an optional answer of the lexer.
pub open spec fn opt_item_view(it: Option<Item>) -> Option<ItemV> {
    match it {
        Some(i) => Some(item_view(i)),
        None => None,
    }
}

/// The values of a list of answers of the lexer.
pub open spec fn items_view(items: Seq<Item>) -> Seq<ItemV> {
    items.map_values(|i: Item| item_view(i))
}

/// The outcome of one rule of the lexer.
enum ExecStep {
    Continue,
    Return(Option<Item>),
}

/// Splits OPENQASM source code into tokens.
#[derive(Debug)]
pub struct Lexer {
    mode: Vec<Mode>,
    offset: usize,
    input: Vec<char>,
    errored: bool,
    docstring: Option<(Location, String, Location)>,
    delayed_token: Option<(Location, Tok, Location)>,
}

impl View for Lexer {
    type V = LexModel;

    closed spec fn view(&self) -> LexModel {
        LexModel {
            mode: self.mode@,
            pos: self.offset as int,
            errored: self.errored,
            doc: match self.docstring {
                Some(d) => Some((d.0.0 as int, d.1@, d.2.0 as int)),
                None => None,
            },
            delayed: match self.delayed_token {
                Some(d) => Some(spanned_view(d)),
                None => None,
            },
        }
    }
}

impl Lexer {
    /// The characters being split.
    pub closed spec fn input(&self) -> Seq<char> {
        self.input@
    }

    /// The lexer is in one of the states it can reach.
    pub closed spec fn wf(&self) -> bool {
        lex_wf(self.input@, self@) && errored_alone(self@)
    }

    /// Creates a lexer for `input`.
    pub fn new(input: &str) -> (l: Lexer)
        ensures
            l.wf(),
            l.input() == input@,
            l@ == initial_model(),
    {
        let mut mode = Vec::new();
        mode.push(Mode::Base);
        let l = Lexer {
            mode,
            offset: 0,
            input: chars_of(input),
            errored: false,
            docstring: None,
            delayed_token: None,
        };
        assert(l@.mode =~= seq![Mode::Base]);
        l
    }

    fn blank_run_at(&self, i: usize) -> (r: usize)
        requires
            i <= self.input@.len(),
        ensures
            r == blank_run(self.input@, i as int),
    {
        let mut j = i;
        while j < self.input.len() && (self.input[j] == ' ' || self.input[j] == '\t')
            invariant
                i <= j <= self.input@.len(),
                blank_run(self.input@, i as int) == (j - i) + blank_run(self.input@, j as int),
            decreases self.input@.len() - j,
        {
            j += 1;
        }
        j - i
    }

    fn digit_run_at(&self, i: usize) -> (r: usize)
        requires
            i <= self.input@.len(),
        ensures
            r == digit_run(self.input@, i as int),
            i + r <= self.input@.len(),
    {
        let mut j = i;
        while j < self.input.len() && ('0' <= self.input[j] && self.input[j] <= '9')
            invariant
                i <= j <= self.input@.len(),
                digit_run(self.input@, i as int) == (j - i) + digit_run(self.input@, j as int),
            decreases self.input@.len() - j,
        {
            j += 1;
        }
        j - i
    }

    fn word_run_at(&self, i: usize) -> (r: usize)
        requires
            i <= self.input@.len(),
        ensures
            r == word_run(self.input@, i as int),
            i + r <= self.input@.len(),
    {
        let mut j = i;
        while j < self.input.len() && is_word_char(self.input[j])
            invariant
                i <= j <= self.input@.len(),
                word_run(self.input@, i as int) == (j - i) + word_run(self.input@, j as int),
            decreases self.input@.len() - j,
        {
            j += 1;
        }
        j - i
    }

    fn line_run_at(&self, i: usize) -> (r: usize)
        requires
            i <= self.input@.len(),
        ensures
            r == line_run(self.input@, i as int),
            i + r <= self.input@.len(),
    {
        let mut j = i;
        while j < self.input.len() && self.input[j] != '\n'
            invariant
                i <= j <= self.input@.len(),
                line_run(self.input@, i as int) == (j - i) + line_run(self.input@, j as int),
            decreases self.input@.len() - j,
        {
            j += 1;
        }
        j - i
    }

    /// Whether the characters from `i` on start with `w`.
    fn starts_with(&self, i: usize, w: &[char]) -> (r: bool)
        ensures
            r == starts_with_at(self.input@, i as int, w@),
    {
        if w.len() > self.input.len() || i > self.input.len() - w.len() {
            return false;
        }
        let mut k: usize = 0;
        while k < w.len()
            invariant
                i + w@.len() <= self.input@.len() <= usize::MAX,
                k <= w@.len(),
                forall|j: int| 0 <= j < k ==> self.input@[i + j] == w@[j],
            decreases w.len() - k,
        {
            if self.input[i + k] != w[k] {
                assert(self.input@.subrange(i as int, i + w@.len())[k as int] != w@[k as int]);
                return false;
            }
            k += 1;
        }
        assert(self.input@.subrange(i as int, i + w@.len()) =~= w@);
        true
    }

    fn header_at_pos(&self, p: usize) -> (r: bool)
        ensures
            r == header_at(self.input@, p as int),
    {
        let _len = self.input.len();
        if self.starts_with(p, &['O', 'P', 'E', 'N', 'Q', 'A', 'S', 'M']) {
            assert(['O', 'P', 'E', 'N', 'Q', 'A', 'S', 'M']@ =~= openqasm_word());
            self.word_ends(p + 8)
        } else {
            assert(['O', 'P', 'E', 'N', 'Q', 'A', 'S', 'M']@ =~= openqasm_word());
            false
        }
    }

    fn word_ends(&self, j: usize) -> (r: bool)
        ensures
            r == word_ends_at(self.input@, j as int),
    {
        j >= self.input.len() || !is_word_char(self.input[j])
    }

    /// Whether `self.input[from..to]` spells `w`.
    fn range_is(&self, from: usize, to: usize, w: &[char]) -> (r: bool)
        requires
            from <= to <= self.input@.len(),
        ensures
            r == (self.input@.subrange(from as int, to as int) == w@),
    {
        if to - from != w.len() {
            return false;
        }
        let r = self.starts_with(from, w);
        assert(r == (self.input@.subrange(from as int, to as int) == w@));
        r
    }

    /// The keyword spelled by `self.input[from..to]`, if any.
    fn keyword_at(&self, from: usize, to: usize) -> (r: Option<TokKind>)
        requires
            from <= to <= self.input@.len(),
        ensures
            r == keyword_of(self.input@.subrange(from as int, to as int)),
    {
        if self.range_is(from, to, &['s', 'i', 'n']) {
            Some(TokKind::Sin)
        } else if self.range_is(from, to, &['c', 'o', 's']) {
            Some(TokKind::Cos)
        } else if self.range_is(from, to, &['t', 'a', 'n']) {
            Some(TokKind::Tan)
        } else if self.range_is(from, to, &['e', 'x', 'p']) {
            Some(TokKind::Exp)
        } else if self.range_is(from, to, &['l', 'n']) {
            Some(TokKind::Ln)
        } else if self.range_is(from, to, &['s', 'q', 'r', 't']) {
            Some(TokKind::Sqrt)
        } else if self.range_is(from, to, &['p', 'i']) {
            Some(TokKind::ConstPi)
        } else if self.range_is(from, to, &['o', 'p', 'a', 'q', 'u', 'e']) {
            Some(TokKind::Opaque)
        } else if self.range_is(from, to, &['g', 'a', 't', 'e']) {
            Some(TokKind::Gate)
        } else if self.range_is(from, to, &['i', 'n', 'c', 'l', 'u', 'd', 'e']) {
            Some(TokKind::Include)
        } else if self.range_is(from, to, &['q', 'r', 'e', 'g']) {
            Some(TokKind::QReg)
        } else if self.range_is(from, to, &['c', 'r', 'e', 'g']) {
            Some(TokKind::CReg)
        } else if self.range_is(from, to, &['m', 'e', 'a', 's', 'u', 'r', 'e']) {
            Some(TokKind::Measure)
        } else if self.range_is(from, to, &['r', 'e', 's', 'e', 't']) {
            Some(TokKind::Reset)
        } else if self.range_is(from, to, &['b', 'a', 'r', 'r', 'i', 'e', 'r']) {
            Some(TokKind::Barrier)
        } else if self.range_is(from, to, &['i', 'f']) {
            Some(TokKind::If)
        } else {
            None
        }
    }

    fn string_end_at(&self, i: usize) -> (r: Option<usize>)
        requires
            i <= self.input@.len(),
        ensures
            match r {
                Some(e) => string_end(self.input@, i as int) == Some(e as int),
                None => string_end(self.input@, i as int) is None,
            },
    {
        let mut j = i;
        while j < self.input.len()
            invariant
                i <= j <= self.input@.len() + 1,
                string_end(self.input@, i as int) == string_end(self.input@, j as int),
            decreases self.input@.len() + 1 - j,
        {
            if self.input[j] == '\\' {
                if j + 1 >= self.input.len() {
                    return None;
                }
                j += 2;
            } else if self.input[j] == '"' {
                return Some(j);
            } else {
                j += 1;
            }
        }
        None
    }

    fn mantissa_len_at(&self, i: usize) -> (r: usize)
        requires
            i < self.input@.len(),
        ensures
            r == mantissa_len(self.input@, i as int),
            i + r <= self.input@.len(),
    {
        let _len = self.input.len();
        let d = self.digit_run_at(i);
        if i + d < self.input.len() && self.input[i + d] == '.' {
            if d > 0 {
                let d2 = self.digit_run_at(i + d + 1);
                d + 1 + d2
            } else {
                let d2 = self.digit_run_at(i + 1);
                if d2 > 0 {
                    1 + d2
                } else {
                    0
                }
            }
        } else {
            0
        }
    }

    fn exponent_len_at(&self, i: usize) -> (r: usize)
        requires
            i <= self.input@.len(),
        ensures
            r == exponent_len(self.input@, i as int),
            i + r <= self.input@.len(),
    {
        let _len = self.input.len();
        if i < self.input.len() && (self.input[i] == 'e' || self.input[i] == 'E') {
            if i + 1 < self.input.len() && (self.input[i + 1] == '+' || self.input[i + 1] == '-') {
                let d = self.digit_run_at(i + 2);
                if d > 0 {
                    2 + d
                } else {
                    0
                }
            } else {
                let d = self.digit_run_at(i + 1);
                if d > 0 {
                    1 + d
                } else {
                    0
                }
            }
        } else {
            0
        }
    }

    fn real_len_at(&self, i: usize) -> (r: usize)
        requires
            i < self.input@.len(),
        ensures
            r == real_len(self.input@, i as int),
    {
        let _len = self.input.len();
        let m = self.mantissa_len_at(i);
        if m > 0 {
            m + self.exponent_len_at(i + m)
        } else {
            0
        }
    }

    fn version_len_at(&self, i: usize) -> (r: usize)
        requires
            i < self.input@.len(),
        ensures
            r == version_len(self.input@, i as int),
    {
        let _len = self.input.len();
        let d = self.digit_run_at(i);
        if d > 0 && i + d < self.input.len() && self.input[i + d] == '.' {
            let d2 = self.digit_run_at(i + d + 1);
            if d2 > 0 {
                d + 1 + d2
            } else {
                0
            }
        } else {
            0
        }
    }

    fn int_len_at(&self, i: usize) -> (r: usize)
        requires
            i < self.input@.len(),
        ensures
            r == int_len(self.input@, i as int),
    {
        if '1' <= self.input[i] && self.input[i] <= '9' {
            self.digit_run_at(i)
        } else if self.input[i] == '0' {
            1
        } else {
            0
        }
    }

    fn symbol_at_pos(&self, i: usize) -> (r: Option<(Option<TokKind>, usize)>)
        requires
            i < self.input@.len(),
        ensures
            match r {
                Some((k, n)) => symbol_at(self.input@, i as int) == Some((k, n as nat)),
                None => symbol_at(self.input@, i as int) is None,
            },
    {
        if self.starts_with(i, &['-', '>']) {
            Some((Some(TokKind::Arrow), 2))
        } else if self.starts_with(i, &['=', '=']) {
            Some((Some(TokKind::Equal), 2))
        } else if self.starts_with(i, &['/', '/']) {
            Some((None, 2))
        } else {
            match single_symbol_of(self.input[i]) {
                Some(k) => Some((Some(k), 1)),
                None => None,
            }
        }
    }
}

impl Lexer {
    /// Appends `src[from..to]` to the documentation being collected and
    /// moves its end to `end`.
    fn extend_docstring(&mut self, from: usize, to: usize, end: usize)
        requires
            old(self).docstring is Some,
            from <= to <= old(self).input@.len(),
        ensures
            final(self).input@ == old(self).input@,
            final(self).mode@ == old(self).mode@,
            final(self).offset == old(self).offset,
            final(self).errored == old(self).errored,
            final(self).delayed_token == old(self).delayed_token,
            final(self).docstring matches Some(d) && old(self).docstring matches Some(d0) && d.0
                == d0.0 && d.1@ == d0.1@ + old(self).input@.subrange(from as int, to as int)
                && d.2.0 == end,
    {
        let doc = self.docstring.take();
        match doc {
            Some((start, mut text, _)) => {
                push_chars(&mut text, &self.input, from, to);
                self.docstring = Some((start, text, Location(end)));
            },
            None => {},
        }
    }

    /// Appends a new line to the documentation being collected and moves
    /// its end to `end`.
    fn extend_docstring_newline(&mut self, end: usize)
        requires
            old(self).docstring is Some,
        ensures
            final(self).input@ == old(self).input@,
            final(self).mode@ == old(self).mode@,
            final(self).offset == old(self).offset,
            final(self).errored == old(self).errored,
            final(self).delayed_token == old(self).delayed_token,
            final(self).docstring matches Some(d) && old(self).docstring matches Some(d0) && d.0
                == d0.0 && d.1@ == d0.1@.push('\n') && d.2.0 == end,
    {
        let doc = self.docstring.take();
        match doc {
            Some((start, mut text, _)) => {
                string_push(&mut text, '\n');
                self.docstring = Some((start, text, Location(end)));
            },
            None => {},
        }
    }

    /// The rules for the token classes.
    fn step_token(&mut self) -> (r: ExecStep)
        requires
            old(self).wf(),
            !old(self).errored,
            old(self).offset < old(self).input@.len(),
            old(self)@.mode.last() == Mode::Base || old(self)@.mode.last() == Mode::Version,
        ensures
            final(self).input@ == old(self).input@,
            match step_token(old(self).input@, old(self)@) {
                StepV::Continue(s2) => r is Continue && final(self)@ == s2,
                StepV::Return(s2, it) => r matches ExecStep::Return(x) && final(self)@ == s2
                    && opt_item_view(x) == it,
            },
    {
        let p = self.offset;
        let _len = self.input.len();
        let top = self.mode[self.mode.len() - 1];
        proof {
            lemma_token_lengths(self.input@, p as int);
        }
        if self.header_at_pos(p) {
            self.mode.push(Mode::Version);
            self.offset = p + 8;
            return ExecStep::Return(Some(Ok((Location(p), Tok::QASMHeader, Location(p + 8)))));
        }
        assert(['C', 'X']@ =~= seq!['C', 'X']);
        assert(['U']@ =~= seq!['U']);
        if self.starts_with(p, &['C', 'X']) && self.word_ends(p + 2) {
            self.offset = p + 2;
            return ExecStep::Return(Some(Ok((Location(p), Tok::CX, Location(p + 2)))));
        }
        if self.starts_with(p, &['U']) && self.word_ends(p + 1) {
            self.offset = p + 1;
            return ExecStep::Return(Some(Ok((Location(p), Tok::U, Location(p + 1)))));
        }
        let c = self.input[p];
        if 'a' <= c && c <= 'z' {
            let n = 1 + self.word_run_at(p + 1);
            let end = p + n;
            match self.keyword_at(p, end) {
                None => {
                    let repr = string_of_range(&self.input, p, end);
                    self.offset = end;
                    return ExecStep::Return(
                        Some(Ok((Location(p), Tok::Id { repr }, Location(end)))),
                    );
                },
                Some(k) => {
                    let is_emitting_gate = k == TokKind::Gate || k == TokKind::Opaque;
                    if self.docstring.is_some() && is_emitting_gate {
                        let doc = self.docstring.take();
                        match doc {
                            Some((start, text, doc_end)) => {
                                self.mode.push(Mode::EmitDelayedToken);
                                self.delayed_token = Some(
                                    (Location(p), Tok::from_kind(k, String::new()), Location(end)),
                                );
                                self.offset = end;
                                return ExecStep::Return(
                                    Some(Ok((start, Tok::DocStr { repr: text }, doc_end))),
                                );
                            },
                            None => {
                                return ExecStep::Return(None);
                            },
                        }
                    } else {
                        self.docstring = None;
                        self.offset = end;
                        return ExecStep::Return(
                            Some(Ok((Location(p), Tok::from_kind(k, String::new()), Location(end)))),
                        );
                    }
                },
            }
        }
        if top == Mode::Base {
            let n = self.real_len_at(p);
            if n > 0 {
                let repr = string_of_range(&self.input, p, p + n);
                self.offset = p + n;
                return ExecStep::Return(
                    Some(Ok((Location(p), Tok::Real { repr }, Location(p + n)))),
                );
            }
        }
        if top == Mode::Version {
            let n = self.version_len_at(p);
            if n > 0 {
                let repr = string_of_range(&self.input, p, p + n);
                self.offset = p + n;
                self.mode.pop();
                return ExecStep::Return(
                    Some(Ok((Location(p), Tok::Version { repr }, Location(p + n)))),
                );
            }
        }
        let n = self.int_len_at(p);
        if n > 0 {
            let repr = string_of_range(&self.input, p, p + n);
            self.offset = p + n;
            return ExecStep::Return(Some(Ok((Location(p), Tok::Int { repr }, Location(p + n)))));
        }
        match self.symbol_at_pos(p) {
            Some((None, _)) => {
                if self.docstring.is_none() {
                    self.docstring = Some((Location(p), String::new(), Location(p)));
                }
                self.mode.push(Mode::Comment);
                self.offset = p + 2;
                ExecStep::Continue
            },
            Some((Some(k), n)) => {
                self.offset = p + n;
                ExecStep::Return(
                    Some(Ok((Location(p), Tok::from_kind(k, String::new()), Location(p + n)))),
                )
            },
            None => {
                self.errored = true;
                ExecStep::Return(Some(Err(LexicalError { location: Location(p) })))
            },
        }
    }

    /// One rule of the lexer.
    fn step(&mut self) -> (r: ExecStep)
        requires
            old(self).wf(),
        ensures
            final(self).input@ == old(self).input@,
            match step_once(old(self).input@, old(self)@) {
                StepV::Continue(s2) => r is Continue && final(self)@ == s2,
                StepV::Return(s2, it) => r matches ExecStep::Return(x) && final(self)@ == s2
                    && opt_item_view(x) == it,
            },
    {
        let p = self.offset;
        let top = self.mode[self.mode.len() - 1];
        if top == Mode::EmitDelayedToken {
            let delayed = self.delayed_token.take();
            self.mode.pop();
            return ExecStep::Return(
                match delayed {
                    Some(t) => Some(Ok(t)),
                    None => None,
                },
            );
        }
        if self.errored || p >= self.input.len() {
            return ExecStep::Return(None);
        }
        proof {
            lemma_blank_run_bound(self.input@, p as int);
            lemma_line_run_bound(self.input@, p as int);
            lemma_string_end_bound(self.input@, p as int);
        }
        let c = self.input[p];
        if c == '\n' {
            if top == Mode::Comment {
                self.extend_docstring_newline(p + 1);
                self.mode.pop();
            } else {
                self.docstring = None;
            }
            self.offset = p + 1;
            return ExecStep::Continue;
        }
        if top == Mode::Base || top == Mode::Version {
            let n = self.blank_run_at(p);
            if n > 0 {
                self.offset = p + n;
                return ExecStep::Continue;
            }
        }
        if top == Mode::Base && c == '"' {
            self.mode.push(Mode::Str);
            self.offset = p + 1;
            return ExecStep::Continue;
        }
        if top == Mode::Str {
            match self.string_end_at(p) {
                None => {
                    self.offset = self.input.len();
                    return ExecStep::Return(None);
                },
                Some(e) => {
                    let repr = string_of_range(&self.input, p, e);
                    self.mode.pop();
                    self.offset = e + 1;
                    return ExecStep::Return(
                        Some(Ok((Location(p - 1), Tok::Str { repr }, Location(e + 1)))),
                    );
                },
            }
        }
        if top == Mode::Comment {
            let n = self.line_run_at(p);
            self.extend_docstring(p, p + n, p + n);
            self.offset = p + n;
            return ExecStep::Continue;
        }
        proof {
            lemma_step_once(self.input@, self@);
            assert(self@.mode.last() == top);
        }
        self.step_token()
    }

    /// The next token, or the location of an unrecognised sequence; `None`
    /// once the input is exhausted or after an unrecognised sequence.
    pub fn next(&mut self) -> (r: Option<Item>)
        requires
            old(self).wf(),
        ensures
            final(self).wf(),
            final(self).input() == old(self).input(),
            (final(self)@, opt_item_view(r)) == lex_step(old(self).input(), old(self)@),
            r matches Some(Err(_)) ==> final(self)@.errored,
            old(self)@.errored ==> r is None && final(self)@ == old(self)@,
    {
        let ghost s0 = self@;
        proof {
            lemma_lex_step_error(self.input@, s0);
        }
        loop
            invariant
                self.wf(),
                self.input@ == old(self).input@,
                lex_step(self.input@, self@) == lex_step(self.input@, s0),
                s0 == old(self)@,
            decreases self.input@.len() - self@.pos,
        {
            proof {
                lemma_step_once(self.input@, self@);
                lemma_lex_step(self.input@, self@);
            }
            let ghost before = self@;
            match self.step() {
                ExecStep::Continue => {
                    assert(lex_step(self.input@, before) == lex_step(self.input@, self@));
                },
                ExecStep::Return(x) => {
                    return x;
                },
            }
        }
    }

    /// All the remaining tokens, up to the end of the input or the first
    /// unrecognised sequence, which is the last item when present.
    pub fn tokens(self) -> (r: Vec<Item>)
        requires
            self.wf(),
        ensures
            items_view(r@) == lex_all(self.input(), self@),
    {
        let mut lexer = self;
        let ghost s0 = lexer@;
        let ghost inp = lexer.input@;
        let mut out: Vec<Item> = Vec::new();
        loop
            invariant
                lexer.wf(),
                lexer.input@ == inp,
                s0 == self@,
                inp == self.input(),
                items_view(out@) + lex_all(lexer.input@, lexer@) == lex_all(lexer.input@, s0),
            decreases lex_measure(lexer.input@, lexer@),
        {
            proof {
                lemma_lex_step(lexer.input@, lexer@);
            }
            let ghost before = lexer@;
            match lexer.next() {
                None => {
                    assert(lex_all(lexer.input@, before) =~= Seq::<ItemV>::empty());
                    assert(items_view(out@) =~= lex_all(lexer.input@, s0));
                    assert(s0 == self@);
                    assert(inp == self.input());
                    return out;
                },
                Some(it) => {
                    let ghost v = item_view(it);
                    let ghost prev = out@;
                    out.push(it);
                    assert(lex_all(lexer.input@, before) == seq![v] + lex_all(lexer.input@, lexer@));
                    assert(items_view(out@) =~= items_view(prev).push(v));
                    assert(items_view(out@) + lex_all(lexer.input@, lexer@) =~= items_view(prev)
                        + lex_all(lexer.input@, before));
                },
            }
        }
    }
}

/// `[A-Za-z0-9_]`.
fn is_word_char(c: char) -> (r: bool)
    ensures
        r == is_word(c),
{
    ('a' <= c && c <= 'z') || ('A' <= c && c <= 'Z') || ('0' <= c && c <= '9') || c == '_'
}

fn single_symbol_of(c: char) -> (r: Option<TokKind>)
    ensures
        r == single_symbol(c),
{
    if c == '+' {
        Some(TokKind::Add)
    } else if c == '-' {
        Some(TokKind::Minus)
    } else if c == '*' {
        Some(TokKind::Mult)
    } else if c == '/' {
        Some(TokKind::Div)
    } else if c == '^' {
        Some(TokKind::Pow)
    } else if c == '[' {
        Some(TokKind::LBracket)
    } else if c == ']' {
        Some(TokKind::RBracket)
    } else if c == '{' {
        Some(TokKind::LBrace)
    } else if c == '}' {
        Some(TokKind::RBrace)
    } else if c == '(' {
        Some(TokKind::LParent)
    } else if c == ')' {
        Some(TokKind::RParent)
    } else if c == ';' {
        Some(TokKind::Semi)
    } else if c == ',' {
        Some(TokKind::Comma)
    } else {
        None
    }
}

} // verus!
