//! The executable rules of the grammar, each proved to compute the rule of
//! the same name in `parser`.
use vstd::prelude::*;

use crate::grammar::ast::{Argument, ArgumentV, BarrierPragma, OpenQasmLibrary, OpenQasmProgram, Span, SpannedV, ProgramV, spans_view, span_view, statements_view, Expression, Funccode, GateOperation, Opcode, QuantumOperation, Statement, UnitaryOperation, args_view, exprs_view, gate_ops_view, strings_view};
use crate::grammar::lexer::{Item, ItemV, LexicalError, Location, Tok, TokKind, items_view, spanned_view};
use crate::grammar::parser::{ParseError, ParseErrorV, PRes, error_from_tokens, starts_token, ends_token, spans_from_tokens, arg_follow, args_follow, eof_location, expr_starts, gateop_starts, is_kind, kinds_names, read_decimal, read_number, statement_starts, term_name, tok_at, unexpected, p_arg, p_args, p_args_rest, p_ids, p_ids_rest, func_of, p_atom, p_power, p_unary, p_term, p_term_rest, p_expr, p_expr_rest, p_exprs, p_exprs_rest, p_u, p_cx, p_call_params, p_call, p_uop, p_qop, p_gateop, p_gate_body, p_formal_params, p_gate_head, p_gate_decl, p_reg_decl, p_conditional, p_statement_node, p_statement, p_body, p_program, p_library_decls, p_library, p_end};

verus! {

/// The value of the outcome of an executable rule, its value taken through
/// `f`.
pub open spec fn res_view<T, V>(r: Result<(T, usize), ParseError>, f: spec_fn(T) -> V) -> PRes<V> {
    match r {
        Ok((v, j)) => Ok((f(v), j as int)),
        Err(e) => Err(e@),
    }
}

/// A successful rule started at `i` consumed at least one token, and the
/// last one it consumed is a token.
pub open spec fn advanced<T>(r: Result<(T, usize), ParseError>, toks: Seq<ItemV>, i: int) -> bool {
    r matches Ok((_, j)) ==> i < j <= toks.len() && toks[j - 1] is Ok
}

/// The answers of the lexer, read by the rules.
pub struct Tokens {
    pub items: Vec<Item>,
}

impl Tokens {
    /// The values of the answers.
    pub open spec fn tv(&self) -> Seq<ItemV> {
        items_view(self.items@)
    }

    /// The class of the token at `i`, if there is a token there.
    pub fn kind_at(&self, i: usize) -> (r: Option<TokKind>)
        ensures
            r == (if i < self.tv().len() && self.tv()[i as int] is Ok {
                Some(tok_at(self.tv(), i as int).1.kind)
            } else {
                None::<TokKind>
            }),
            r is Some ==> i < usize::MAX,
    {
        if i < self.items.len() {
            match &self.items[i] {
                Ok(t) => Some(t.1.kind()),
                Err(_) => None,
            }
        } else {
            None
        }
    }

    /// The number of answers.
    pub fn len(&self) -> (n: usize)
        ensures
            n == self.tv().len(),
    {
        self.items.len()
    }

    /// Whether the token at `i` is of class `k`.
    pub fn is_at(&self, i: usize, k: TokKind) -> (r: bool)
        ensures
            r == is_kind(self.tv(), i as int, k),
            r ==> i < usize::MAX,
    {
        match self.kind_at(i) {
            Some(k2) => k2 == k,
            None => false,
        }
    }

    /// The text of the token at `i`.
    pub fn text_at(&self, i: usize) -> (r: String)
        requires
            i < self.tv().len(),
            self.tv()[i as int] is Ok,
        ensures
            r@ == tok_at(self.tv(), i as int).1.repr,
    {
        match &self.items[i] {
            Ok(t) => t.1.text(),
            Err(_) => String::new(),
        }
    }

    /// The start of the token at `i`.
    pub fn start_at(&self, i: usize) -> (r: Location)
        requires
            i < self.tv().len(),
            self.tv()[i as int] is Ok,
        ensures
            r.0 == tok_at(self.tv(), i as int).0,
    {
        match &self.items[i] {
            Ok(t) => t.0,
            Err(e) => e.location,
        }
    }

    /// The end of the token at `i`.
    pub fn end_at(&self, i: usize) -> (r: Location)
        requires
            i < self.tv().len(),
            self.tv()[i as int] is Ok,
        ensures
            r.0 == tok_at(self.tv(), i as int).2,
    {
        match &self.items[i] {
            Ok(t) => t.2,
            Err(e) => e.location,
        }
    }

    /// Where the input ends.
    pub fn eof(&self) -> (r: Location)
        ensures
            r.0 == eof_location(self.tv()),
    {
        let n = self.items.len();
        if n == 0 {
            Location(0)
        } else {
            match &self.items[n - 1] {
                Ok(t) => t.2,
                Err(e) => e.location,
            }
        }
    }

    /// The error for finding, at `i`, something else than one of `expected`.
    pub fn unexpected_at(&self, i: usize, expected: Vec<TokKind>) -> (r: ParseError)
        ensures
            r@ == unexpected(self.tv(), i as int, expected@),
            error_from_tokens(self.tv(), r@),
    {
        let names = kind_names(&expected);
        if i < self.items.len() {
            match &self.items[i] {
                Ok(t) => ParseError::UnrecognizedToken {
                    token: (t.0, t.1.copy(), t.2),
                    expected: names,
                },
                Err(e) => ParseError::User { error: LexicalError { location: e.location } },
            }
        } else {
            ParseError::UnrecognizedEOF { location: self.eof(), expected: names }
        }
    }
}

/// The name of token class `k` in the lists of expected tokens.
pub fn kind_name(k: TokKind) -> (r: String)
    ensures
        r@ == term_name(k),
{
    match k {
        TokKind::Add => "\"+\"".to_owned(),
        TokKind::Minus => "\"-\"".to_owned(),
        TokKind::Mult => "\"*\"".to_owned(),
        TokKind::Div => "\"/\"".to_owned(),
        TokKind::Pow => "\"^\"".to_owned(),
        TokKind::LBracket => "\"[\"".to_owned(),
        TokKind::RBracket => "\"]\"".to_owned(),
        TokKind::LBrace => "\"{\"".to_owned(),
        TokKind::RBrace => "\"}\"".to_owned(),
        TokKind::LParent => "\"(\"".to_owned(),
        TokKind::RParent => "\")\"".to_owned(),
        TokKind::Semi => "\";\"".to_owned(),
        TokKind::Comma => "\",\"".to_owned(),
        TokKind::Arrow => "\"->\"".to_owned(),
        TokKind::Equal => "\"==\"".to_owned(),
        TokKind::Sin => "\"sin\"".to_owned(),
        TokKind::Cos => "\"cos\"".to_owned(),
        TokKind::Tan => "\"tan\"".to_owned(),
        TokKind::Exp => "\"exp\"".to_owned(),
        TokKind::Ln => "\"ln\"".to_owned(),
        TokKind::Sqrt => "\"sqrt\"".to_owned(),
        TokKind::ConstPi => "\"pi\"".to_owned(),
        TokKind::U => "\"U\"".to_owned(),
        TokKind::CX => "\"CX\"".to_owned(),
        TokKind::Opaque => "\"opaque\"".to_owned(),
        TokKind::Gate => "\"gate\"".to_owned(),
        TokKind::Include => "\"include\"".to_owned(),
        TokKind::QReg => "\"qreg\"".to_owned(),
        TokKind::CReg => "\"creg\"".to_owned(),
        TokKind::Measure => "\"measure\"".to_owned(),
        TokKind::Reset => "\"reset\"".to_owned(),
        TokKind::Barrier => "\"barrier\"".to_owned(),
        TokKind::If => "\"if\"".to_owned(),
        TokKind::QASMHeader => "\"OPENQASM\"".to_owned(),
        TokKind::Version => "version".to_owned(),
        TokKind::Id => "id".to_owned(),
        TokKind::Int => "int".to_owned(),
        TokKind::Real => "real".to_owned(),
        TokKind::Str => "str".to_owned(),
        TokKind::DocStr => "docstr".to_owned(),
    }
}

/// The names of a list of token classes.
pub fn kind_names(ks: &Vec<TokKind>) -> (r: Vec<String>)
    ensures
        strings_view(r@) == kinds_names(ks@),
{
    let mut r: Vec<String> = Vec::new();
    let mut i: usize = 0;
    while i < ks.len()
        invariant
            i <= ks@.len(),
            strings_view(r@) == kinds_names(ks@.take(i as int)),
        decreases ks@.len() - i,
    {
        let n = kind_name(ks[i]);
        let ghost prev = r@;
        r.push(n);
        assert(strings_view(r@) =~= strings_view(prev).push(n@));
        assert(kinds_names(ks@.take(i + 1)) =~= kinds_names(ks@.take(i as int)).push(
            term_name(ks@[i as int]),
        ));
        i += 1;
    }
    assert(ks@.take(i as int) =~= ks@);
    r
}

/// `[a]`.
pub fn one_kind(a: TokKind) -> (r: Vec<TokKind>)
    ensures
        r@ == seq![a],
{
    let mut r = Vec::new();
    r.push(a);
    assert(r@ =~= seq![a]);
    r
}

/// `[a, b]`.
pub fn two_kinds(a: TokKind, b: TokKind) -> (r: Vec<TokKind>)
    ensures
        r@ == seq![a, b],
{
    let mut r = Vec::new();
    r.push(a);
    r.push(b);
    assert(r@ =~= seq![a, b]);
    r
}

/// `[a, b, c]`.
pub fn three_kinds(a: TokKind, b: TokKind, c: TokKind) -> (r: Vec<TokKind>)
    ensures
        r@ == seq![a, b, c],
{
    let mut r = Vec::new();
    r.push(a);
    r.push(b);
    r.push(c);
    assert(r@ =~= seq![a, b, c]);
    r
}

/// The token classes that may start an expression.
pub fn expr_start_kinds() -> (r: Vec<TokKind>)
    ensures
        r@ == expr_starts(),
{
    let mut r = Vec::new();
    r.push(TokKind::Minus);
    r.push(TokKind::LParent);
    r.push(TokKind::ConstPi);
    r.push(TokKind::Id);
    r.push(TokKind::Real);
    r.push(TokKind::Int);
    r.push(TokKind::Sin);
    r.push(TokKind::Cos);
    r.push(TokKind::Tan);
    r.push(TokKind::Exp);
    r.push(TokKind::Ln);
    r.push(TokKind::Sqrt);
    assert(r@ =~= expr_starts());
    r
}

/// The token classes that may start a gate operation.
pub fn gateop_start_kinds() -> (r: Vec<TokKind>)
    ensures
        r@ == gateop_starts(),
{
    let mut r = Vec::new();
    r.push(TokKind::RBrace);
    r.push(TokKind::Barrier);
    r.push(TokKind::U);
    r.push(TokKind::CX);
    r.push(TokKind::Id);
    assert(r@ =~= gateop_starts());
    r
}

/// The token classes that may start a statement.
pub fn statement_start_kinds() -> (r: Vec<TokKind>)
    ensures
        r@ == statement_starts(),
{
    let mut r = Vec::new();
    r.push(TokKind::QReg);
    r.push(TokKind::CReg);
    r.push(TokKind::DocStr);
    r.push(TokKind::Gate);
    r.push(TokKind::Opaque);
    r.push(TokKind::Include);
    r.push(TokKind::Barrier);
    r.push(TokKind::If);
    r.push(TokKind::Measure);
    r.push(TokKind::Reset);
    r.push(TokKind::U);
    r.push(TokKind::CX);
    r.push(TokKind::Id);
    assert(r@ =~= statement_starts());
    r
}

/// `ks` with `"["` added when `a` is a whole register.
pub fn arg_follow_kinds(a: &Argument, ks: Vec<TokKind>) -> (r: Vec<TokKind>)
    ensures
        r@ == arg_follow(a@, ks@),
{
    let mut r = ks;
    match a {
        Argument::Id(_) => {
            r.push(TokKind::LBracket);
        },
        Argument::Item(_, _) => {},
    }
    r
}

/// The token classes that may follow the list of arguments `args`.
pub fn args_follow_kinds(args: &Vec<Argument>) -> (r: Vec<TokKind>)
    ensures
        r@ == args_follow(args_view(args@)),
{
    let ks = two_kinds(TokKind::Comma, TokKind::Semi);
    if args.len() == 0 {
        ks
    } else {
        let r = arg_follow_kinds(&args[args.len() - 1], ks);
        assert(args_view(args@).last() == args@[args@.len() - 1]@);
        r
    }
}

} // verus!

verus! {

impl Tokens {
    /// `arg := id | id "[" int "]"`
    pub fn arg(&self, i: usize) -> (r: Result<(Argument, usize), ParseError>)
        requires
            i <= self.tv().len(),
        ensures
            res_view(r, |a: Argument| a@) == p_arg(self.tv(), i as int),
            advanced(r, self.tv(), i as int),
            r matches Err(e) ==> error_from_tokens(self.tv(), e@),
    {
        if !self.is_at(i, TokKind::Id) {
            return Err(self.unexpected_at(i, one_kind(TokKind::Id)));
        }
        let name = self.text_at(i);
        if !self.is_at(i + 1, TokKind::LBracket) {
            return Ok((Argument::Id(name), i + 1));
        }
        if !self.is_at(i + 2, TokKind::Int) {
            return Err(self.unexpected_at(i + 2, one_kind(TokKind::Int)));
        }
        let digits = self.text_at(i + 2);
        match read_decimal(&digits, usize::MAX as u64) {
            None => Err(ParseError::InvalidToken { location: self.start_at(i + 2) }),
            Some(n) => {
                if !self.is_at(i + 3, TokKind::RBracket) {
                    Err(self.unexpected_at(i + 3, one_kind(TokKind::RBracket)))
                } else {
                    Ok((Argument::Item(name, n as usize), i + 4))
                }
            },
        }
    }

    /// `args := arg ("," arg)*`
    pub fn args(&self, i: usize) -> (r: Result<(Vec<Argument>, usize), ParseError>)
        requires
            i <= self.tv().len(),
        ensures
            res_view(r, |v: Vec<Argument>| args_view(v@)) == p_args(self.tv(), i as int),
            advanced(r, self.tv(), i as int),
            r matches Err(e) ==> error_from_tokens(self.tv(), e@),
    {
        let (first, mut j) = match self.arg(i) {
            Err(e) => return Err(e),
            Ok(x) => x,
        };
        let mut acc: Vec<Argument> = Vec::new();
        acc.push(first);
        assert(args_view(acc@) =~= seq![first@]);
        loop
            invariant
                i < j <= self.tv().len(),
                self.tv()[j - 1] is Ok,
                p_args_rest(self.tv(), args_view(acc@), j as int) == p_args(self.tv(), i as int),
            decreases self.tv().len() - j,
        {
            if !self.is_at(j, TokKind::Comma) {
                return Ok((acc, j));
            }
            match self.arg(j + 1) {
                Err(e) => {
                    return Err(e);
                },
                Ok((a, k)) => {
                    let ghost prev = args_view(acc@);
                    acc.push(a);
                    assert(args_view(acc@) =~= prev.push(a@));
                    j = k;
                },
            }
        }
    }

    /// `ids := id ("," id)*`
    pub fn ids(&self, i: usize) -> (r: Result<(Vec<String>, usize), ParseError>)
        requires
            i <= self.tv().len(),
        ensures
            res_view(r, |v: Vec<String>| strings_view(v@)) == p_ids(self.tv(), i as int),
            advanced(r, self.tv(), i as int),
            r matches Err(e) ==> error_from_tokens(self.tv(), e@),
    {
        if !self.is_at(i, TokKind::Id) {
            return Err(self.unexpected_at(i, one_kind(TokKind::Id)));
        }
        let mut acc: Vec<String> = Vec::new();
        acc.push(self.text_at(i));
        assert(strings_view(acc@) =~= seq![tok_at(self.tv(), i as int).1.repr]);
        let mut j = i + 1;
        loop
            invariant
                i < j <= self.tv().len(),
                self.tv()[j - 1] is Ok,
                p_ids_rest(self.tv(), strings_view(acc@), j as int) == p_ids(self.tv(), i as int),
            decreases self.tv().len() - j,
        {
            if !self.is_at(j, TokKind::Comma) {
                return Ok((acc, j));
            }
            if !self.is_at(j + 1, TokKind::Id) {
                return Err(self.unexpected_at(j + 1, one_kind(TokKind::Id)));
            }
            let ghost prev = strings_view(acc@);
            let name = self.text_at(j + 1);
            acc.push(name);
            assert(strings_view(acc@) =~= prev.push(tok_at(self.tv(), j + 1).1.repr));
            j = j + 2;
        }
    }
}

} // verus!

verus! {

/// The function named by token class `k`.
fn func_code(k: TokKind) -> (r: Option<Funccode>)
    ensures
        r == func_of(k),
{
    match k {
        TokKind::Sin => Some(Funccode::Sin),
        TokKind::Cos => Some(Funccode::Cos),
        TokKind::Tan => Some(Funccode::Tan),
        TokKind::Exp => Some(Funccode::Exp),
        TokKind::Ln => Some(Funccode::Ln),
        TokKind::Sqrt => Some(Funccode::Sqrt),
        _ => None,
    }
}

impl Tokens {
    /// `atom := "pi" | id | real | int | "(" expr ")" | func "(" expr ")"`
    pub fn atom(&self, i: usize) -> (r: Result<(Expression, usize), ParseError>)
        requires
            i <= self.tv().len(),
        ensures
            res_view(r, |e: Expression| e@) == p_atom(self.tv(), i as int),
            advanced(r, self.tv(), i as int),
            r matches Err(e) ==> error_from_tokens(self.tv(), e@),
        decreases self.tv().len() - i, 0nat,
    {
        if self.is_at(i, TokKind::ConstPi) {
            return Ok((Expression::Pi, i + 1));
        }
        if self.is_at(i, TokKind::Id) {
            return Ok((Expression::Id(self.text_at(i)), i + 1));
        }
        if self.is_at(i, TokKind::Real) {
            return Ok((Expression::Real(self.text_at(i)), i + 1));
        }
        if self.is_at(i, TokKind::Int) {
            let digits = self.text_at(i);
            return match read_decimal(&digits, u64::MAX) {
                None => Err(ParseError::InvalidToken { location: self.start_at(i) }),
                Some(v) => Ok((Expression::Int(v), i + 1)),
            };
        }
        if self.is_at(i, TokKind::LParent) {
            return match self.expr(i + 1) {
                Err(e) => Err(e),
                Ok((e, j)) => {
                    if self.is_at(j, TokKind::RParent) {
                        Ok((e, j + 1))
                    } else {
                        Err(self.unexpected_at(j, one_kind(TokKind::RParent)))
                    }
                },
            };
        }
        let f = match self.kind_at(i) {
            Some(k) => func_code(k),
            None => None,
        };
        match f {
            None => Err(self.unexpected_at(i, expr_start_kinds())),
            Some(f) => {
                if !self.is_at(i + 1, TokKind::LParent) {
                    return Err(self.unexpected_at(i + 1, one_kind(TokKind::LParent)));
                }
                match self.expr(i + 2) {
                    Err(e) => Err(e),
                    Ok((e, j)) => {
                        if self.is_at(j, TokKind::RParent) {
                            Ok((Expression::Function(f, Box::new(e)), j + 1))
                        } else {
                            Err(self.unexpected_at(j, one_kind(TokKind::RParent)))
                        }
                    },
                }
            },
        }
    }

    /// `power := atom ("^" unary)?`
    pub fn power(&self, i: usize) -> (r: Result<(Expression, usize), ParseError>)
        requires
            i <= self.tv().len(),
        ensures
            res_view(r, |e: Expression| e@) == p_power(self.tv(), i as int),
            advanced(r, self.tv(), i as int),
            r matches Err(e) ==> error_from_tokens(self.tv(), e@),
        decreases self.tv().len() - i, 1nat,
    {
        match self.atom(i) {
            Err(e) => Err(e),
            Ok((a, j)) => {
                if self.is_at(j, TokKind::Pow) {
                    match self.unary(j + 1) {
                        Err(e) => Err(e),
                        Ok((b, k)) => Ok((Expression::Op(Opcode::Pow, Box::new(a), Box::new(b)), k)),
                    }
                } else {
                    Ok((a, j))
                }
            },
        }
    }

    /// `unary := "-" unary | power`
    pub fn unary(&self, i: usize) -> (r: Result<(Expression, usize), ParseError>)
        requires
            i <= self.tv().len(),
        ensures
            res_view(r, |e: Expression| e@) == p_unary(self.tv(), i as int),
            advanced(r, self.tv(), i as int),
            r matches Err(e) ==> error_from_tokens(self.tv(), e@),
        decreases self.tv().len() - i, 2nat,
    {
        if self.is_at(i, TokKind::Minus) {
            match self.unary(i + 1) {
                Err(e) => Err(e),
                Ok((e, j)) => Ok((Expression::Minus(Box::new(e)), j)),
            }
        } else {
            self.power(i)
        }
    }

    /// `term := unary (("*" | "/") unary)*`
    pub fn term(&self, i: usize) -> (r: Result<(Expression, usize), ParseError>)
        requires
            i <= self.tv().len(),
        ensures
            res_view(r, |e: Expression| e@) == p_term(self.tv(), i as int),
            advanced(r, self.tv(), i as int),
            r matches Err(e) ==> error_from_tokens(self.tv(), e@),
        decreases self.tv().len() - i, 4nat,
    {
        let (mut acc, mut j) = match self.unary(i) {
            Err(e) => return Err(e),
            Ok(x) => x,
        };
        loop
            invariant
                i < j <= self.tv().len(),
                self.tv()[j - 1] is Ok,
                p_term_rest(self.tv(), acc@, j as int) == p_term(self.tv(), i as int),
            decreases self.tv().len() - j,
        {
            let is_mul = self.is_at(j, TokKind::Mult);
            if !is_mul && !self.is_at(j, TokKind::Div) {
                return Ok((acc, j));
            }
            let op = if is_mul {
                Opcode::Mul
            } else {
                Opcode::Div
            };
            match self.unary(j + 1) {
                Err(e) => {
                    return Err(e);
                },
                Ok((u, k)) => {
                    acc = Expression::Op(op, Box::new(acc), Box::new(u));
                    j = k;
                },
            }
        }
    }

    /// `expr := term (("+" | "-") term)*`
    pub fn expr(&self, i: usize) -> (r: Result<(Expression, usize), ParseError>)
        requires
            i <= self.tv().len(),
        ensures
            res_view(r, |e: Expression| e@) == p_expr(self.tv(), i as int),
            advanced(r, self.tv(), i as int),
            r matches Err(e) ==> error_from_tokens(self.tv(), e@),
        decreases self.tv().len() - i, 6nat,
    {
        let (mut acc, mut j) = match self.term(i) {
            Err(e) => return Err(e),
            Ok(x) => x,
        };
        loop
            invariant
                i < j <= self.tv().len(),
                self.tv()[j - 1] is Ok,
                p_expr_rest(self.tv(), acc@, j as int) == p_expr(self.tv(), i as int),
            decreases self.tv().len() - j,
        {
            let is_add = self.is_at(j, TokKind::Add);
            if !is_add && !self.is_at(j, TokKind::Minus) {
                return Ok((acc, j));
            }
            let op = if is_add {
                Opcode::Add
            } else {
                Opcode::Sub
            };
            match self.term(j + 1) {
                Err(e) => {
                    return Err(e);
                },
                Ok((t, k)) => {
                    acc = Expression::Op(op, Box::new(acc), Box::new(t));
                    j = k;
                },
            }
        }
    }

    /// `exprs := expr ("," expr)*`
    pub fn exprs(&self, i: usize) -> (r: Result<(Vec<Expression>, usize), ParseError>)
        requires
            i <= self.tv().len(),
        ensures
            res_view(r, |v: Vec<Expression>| exprs_view(v@)) == p_exprs(self.tv(), i as int),
            advanced(r, self.tv(), i as int),
            r matches Err(e) ==> error_from_tokens(self.tv(), e@),
    {
        let (first, mut j) = match self.expr(i) {
            Err(e) => return Err(e),
            Ok(x) => x,
        };
        let mut acc: Vec<Expression> = Vec::new();
        acc.push(first);
        assert(exprs_view(acc@) =~= seq![first@]);
        loop
            invariant
                i < j <= self.tv().len(),
                self.tv()[j - 1] is Ok,
                p_exprs_rest(self.tv(), exprs_view(acc@), j as int) == p_exprs(self.tv(), i as int),
            decreases self.tv().len() - j,
        {
            if !self.is_at(j, TokKind::Comma) {
                return Ok((acc, j));
            }
            match self.expr(j + 1) {
                Err(e) => {
                    return Err(e);
                },
                Ok((a, k)) => {
                    let ghost prev = exprs_view(acc@);
                    acc.push(a);
                    assert(exprs_view(acc@) =~= prev.push(a@));
                    j = k;
                },
            }
        }
    }
}

} // verus!

verus! {

impl Tokens {
    /// `"U" "(" expr "," expr "," expr ")" arg ";"`, the keyword being at `i`.
    #[verifier::rlimit(40)]
    pub fn u(&self, i: usize) -> (r: Result<(UnitaryOperation, usize), ParseError>)
        requires
            i < self.tv().len(),
        ensures
            res_view(r, |u: UnitaryOperation| u@) == p_u(self.tv(), i as int),
            advanced(r, self.tv(), i as int),
            r matches Err(e) ==> error_from_tokens(self.tv(), e@),
    {
        let _n = self.len();
        if !self.is_at(i + 1, TokKind::LParent) {
            return Err(self.unexpected_at(i + 1, one_kind(TokKind::LParent)));
        }
        let (e1, j1) = match self.expr(i + 2) {
            Err(e) => return Err(e),
            Ok(x) => x,
        };
        if !self.is_at(j1, TokKind::Comma) {
            return Err(self.unexpected_at(j1, one_kind(TokKind::Comma)));
        }
        let (e2, j2) = match self.expr(j1 + 1) {
            Err(e) => return Err(e),
            Ok(x) => x,
        };
        if !self.is_at(j2, TokKind::Comma) {
            return Err(self.unexpected_at(j2, one_kind(TokKind::Comma)));
        }
        let (e3, j3) = match self.expr(j2 + 1) {
            Err(e) => return Err(e),
            Ok(x) => x,
        };
        if !self.is_at(j3, TokKind::RParent) {
            return Err(self.unexpected_at(j3, one_kind(TokKind::RParent)));
        }
        let (a, j4) = match self.arg(j3 + 1) {
            Err(e) => return Err(e),
            Ok(x) => x,
        };
        if !self.is_at(j4, TokKind::Semi) {
            return Err(self.unexpected_at(j4, arg_follow_kinds(&a, one_kind(TokKind::Semi))));
        }
        let ghost reals = seq![e1@, e2@, e3@];
        let ghost av = a@;
        let mut es: Vec<Expression> = Vec::new();
        es.push(e1);
        es.push(e2);
        es.push(e3);
        let mut args: Vec<Argument> = Vec::new();
        args.push(a);
        assert(exprs_view(es@) =~= reals);
        assert(args_view(args@) =~= seq![av]);
        Ok((UnitaryOperation("U".to_owned(), es, args), j4 + 1))
    }

    /// `"CX" arg "," arg ";"`, the keyword being at `i`.
    pub fn cx(&self, i: usize) -> (r: Result<(UnitaryOperation, usize), ParseError>)
        requires
            i < self.tv().len(),
        ensures
            res_view(r, |u: UnitaryOperation| u@) == p_cx(self.tv(), i as int),
            advanced(r, self.tv(), i as int),
            r matches Err(e) ==> error_from_tokens(self.tv(), e@),
    {
        let _n = self.len();
        let (a1, j1) = match self.arg(i + 1) {
            Err(e) => return Err(e),
            Ok(x) => x,
        };
        if !self.is_at(j1, TokKind::Comma) {
            return Err(self.unexpected_at(j1, arg_follow_kinds(&a1, one_kind(TokKind::Comma))));
        }
        let (a2, j2) = match self.arg(j1 + 1) {
            Err(e) => return Err(e),
            Ok(x) => x,
        };
        if !self.is_at(j2, TokKind::Semi) {
            return Err(self.unexpected_at(j2, arg_follow_kinds(&a2, one_kind(TokKind::Semi))));
        }
        let ghost v = seq![a1@, a2@];
        let mut args: Vec<Argument> = Vec::new();
        args.push(a1);
        args.push(a2);
        assert(args_view(args@) =~= v);
        let es: Vec<Expression> = Vec::new();
        assert(exprs_view(es@) =~= Seq::<crate::grammar::ast::ExpressionV>::empty());
        Ok((UnitaryOperation("CX".to_owned(), es, args), j2 + 1))
    }

    /// The optional real parameters of a gate call: `("(" exprs? ")")?`.
    pub fn call_params(&self, i: usize) -> (r: Result<(Vec<Expression>, usize), ParseError>)
        requires
            i <= self.tv().len(),
        ensures
            res_view(r, |v: Vec<Expression>| exprs_view(v@)) == p_call_params(self.tv(), i as int),
            r matches Ok((_, j)) ==> i <= j <= self.tv().len() && (j > i ==> self.tv()[j - 1] is Ok),
            r matches Err(e) ==> error_from_tokens(self.tv(), e@),
    {
        let empty: Vec<Expression> = Vec::new();
        assert(exprs_view(empty@) =~= Seq::<crate::grammar::ast::ExpressionV>::empty());
        if !self.is_at(i, TokKind::LParent) {
            return Ok((empty, i));
        }
        if self.is_at(i + 1, TokKind::RParent) {
            return Ok((empty, i + 2));
        }
        match self.exprs(i + 1) {
            Err(e) => Err(e),
            Ok((es, j)) => {
                if self.is_at(j, TokKind::RParent) {
                    Ok((es, j + 1))
                } else {
                    Err(self.unexpected_at(j, two_kinds(TokKind::Comma, TokKind::RParent)))
                }
            },
        }
    }

    /// `id ("(" exprs? ")")? args ";"`, the name being at `i`.
    pub fn call(&self, i: usize) -> (r: Result<(UnitaryOperation, usize), ParseError>)
        requires
            i < self.tv().len(),
            self.tv()[i as int] is Ok,
        ensures
            res_view(r, |u: UnitaryOperation| u@) == p_call(self.tv(), i as int),
            advanced(r, self.tv(), i as int),
            r matches Err(e) ==> error_from_tokens(self.tv(), e@),
    {
        let _n = self.len();
        let (reals, j) = match self.call_params(i + 1) {
            Err(e) => return Err(e),
            Ok(x) => x,
        };
        let (args, k) = match self.args(j) {
            Err(e) => return Err(e),
            Ok(x) => x,
        };
        if !self.is_at(k, TokKind::Semi) {
            return Err(self.unexpected_at(k, args_follow_kinds(&args)));
        }
        Ok((UnitaryOperation(self.text_at(i), reals, args), k + 1))
    }

    /// `uop := U-call | CX-call | gate call`
    pub fn uop(&self, i: usize) -> (r: Result<(UnitaryOperation, usize), ParseError>)
        requires
            i <= self.tv().len(),
        ensures
            res_view(r, |u: UnitaryOperation| u@) == p_uop(self.tv(), i as int),
            advanced(r, self.tv(), i as int),
            r matches Err(e) ==> error_from_tokens(self.tv(), e@),
    {
        if self.is_at(i, TokKind::U) {
            self.u(i)
        } else if self.is_at(i, TokKind::CX) {
            self.cx(i)
        } else if self.is_at(i, TokKind::Id) {
            self.call(i)
        } else {
            Err(self.unexpected_at(i, three_kinds(TokKind::U, TokKind::CX, TokKind::Id)))
        }
    }

    /// `qop := uop | "measure" arg "->" arg ";" | "reset" arg ";"`
    pub fn qop(&self, i: usize) -> (r: Result<(QuantumOperation, usize), ParseError>)
        requires
            i <= self.tv().len(),
        ensures
            res_view(r, |q: QuantumOperation| q@) == p_qop(self.tv(), i as int),
            advanced(r, self.tv(), i as int),
            r matches Err(e) ==> error_from_tokens(self.tv(), e@),
    {
        if self.is_at(i, TokKind::Measure) {
            let (a, j) = match self.arg(i + 1) {
                Err(e) => return Err(e),
                Ok(x) => x,
            };
            if !self.is_at(j, TokKind::Arrow) {
                return Err(self.unexpected_at(j, arg_follow_kinds(&a, one_kind(TokKind::Arrow))));
            }
            let (b, k) = match self.arg(j + 1) {
                Err(e) => return Err(e),
                Ok(x) => x,
            };
            if !self.is_at(k, TokKind::Semi) {
                return Err(self.unexpected_at(k, arg_follow_kinds(&b, one_kind(TokKind::Semi))));
            }
            Ok((QuantumOperation::Measure(a, b), k + 1))
        } else if self.is_at(i, TokKind::Reset) {
            let (a, j) = match self.arg(i + 1) {
                Err(e) => return Err(e),
                Ok(x) => x,
            };
            if !self.is_at(j, TokKind::Semi) {
                return Err(self.unexpected_at(j, arg_follow_kinds(&a, one_kind(TokKind::Semi))));
            }
            Ok((QuantumOperation::Reset(a), j + 1))
        } else {
            match self.uop(i) {
                Err(e) => Err(e),
                Ok((u, j)) => Ok((QuantumOperation::Unitary(u), j)),
            }
        }
    }

    /// `gateop := uop | "barrier" args ";"`
    pub fn gateop(&self, i: usize) -> (r: Result<(GateOperation, usize), ParseError>)
        requires
            i <= self.tv().len(),
        ensures
            res_view(r, |g: GateOperation| g@) == p_gateop(self.tv(), i as int),
            advanced(r, self.tv(), i as int),
            r matches Err(e) ==> error_from_tokens(self.tv(), e@),
    {
        if self.is_at(i, TokKind::Barrier) {
            let (args, j) = match self.args(i + 1) {
                Err(e) => return Err(e),
                Ok(x) => x,
            };
            if !self.is_at(j, TokKind::Semi) {
                return Err(self.unexpected_at(j, args_follow_kinds(&args)));
            }
            Ok((GateOperation::Barrier(BarrierPragma(args)), j + 1))
        } else {
            match self.uop(i) {
                Err(e) => Err(e),
                Ok((u, j)) => Ok((GateOperation::Unitary(u), j)),
            }
        }
    }

    /// A gate body after its `"{"`: `gateop* "}"`.
    #[verifier::rlimit(30)]
    pub fn gate_body(&self, i: usize) -> (r: Result<(Vec<GateOperation>, usize), ParseError>)
        requires
            i <= self.tv().len(),
        ensures
            res_view(r, |v: Vec<GateOperation>| gate_ops_view(v@)) == p_gate_body(
                self.tv(),
                Seq::empty(),
                i as int,
            ),
            advanced(r, self.tv(), i as int),
            r matches Err(e) ==> error_from_tokens(self.tv(), e@),
    {
        let mut acc: Vec<GateOperation> = Vec::new();
        let mut j = i;
        assert(gate_ops_view(acc@) =~= Seq::<crate::grammar::ast::GateOperationV>::empty());
        loop
            invariant
                i <= j <= self.tv().len(),
                j > i ==> self.tv()[j - 1] is Ok,
                p_gate_body(self.tv(), gate_ops_view(acc@), j as int) == p_gate_body(
                    self.tv(),
                    Seq::empty(),
                    i as int,
                ),
            decreases self.tv().len() - j,
        {
            if self.is_at(j, TokKind::RBrace) {
                return Ok((acc, j + 1));
            }
            if !(self.is_at(j, TokKind::Barrier) || self.is_at(j, TokKind::U) || self.is_at(
                j,
                TokKind::CX,
            ) || self.is_at(j, TokKind::Id)) {
                return Err(self.unexpected_at(j, gateop_start_kinds()));
            }
            match self.gateop(j) {
                Err(e) => {
                    return Err(e);
                },
                Ok((g, k)) => {
                    let ghost prev = gate_ops_view(acc@);
                    acc.push(g);
                    assert(gate_ops_view(acc@) =~= prev.push(g@));
                    j = k;
                },
            }
        }
    }

    /// The formal real parameters of a gate declaration: `("(" ids? ")")?`.
    pub fn formal_params(&self, i: usize) -> (r: Result<(Vec<String>, usize), ParseError>)
        requires
            i <= self.tv().len(),
        ensures
            res_view(r, |v: Vec<String>| strings_view(v@)) == p_formal_params(self.tv(), i as int),
            r matches Ok((_, j)) ==> i <= j <= self.tv().len() && (j > i ==> self.tv()[j - 1] is Ok),
            r matches Err(e) ==> error_from_tokens(self.tv(), e@),
    {
        let empty: Vec<String> = Vec::new();
        assert(strings_view(empty@) =~= Seq::<Seq<char>>::empty());
        if !self.is_at(i, TokKind::LParent) {
            return Ok((empty, i));
        }
        if self.is_at(i + 1, TokKind::RParent) {
            return Ok((empty, i + 2));
        }
        match self.ids(i + 1) {
            Err(e) => Err(e),
            Ok((ids, j)) => {
                if self.is_at(j, TokKind::RParent) {
                    Ok((ids, j + 1))
                } else {
                    Err(self.unexpected_at(j, two_kinds(TokKind::Comma, TokKind::RParent)))
                }
            },
        }
    }

    /// The head of a gate declaration after its keyword at `i`.
    pub fn gate_head(&self, i: usize) -> (r: Result<((String, Vec<String>, Vec<String>), usize), ParseError>)
        requires
            i < self.tv().len(),
        ensures
            res_view(
                r,
                |h: (String, Vec<String>, Vec<String>)|
                    (h.0@, strings_view(h.1@), strings_view(h.2@)),
            ) == p_gate_head(self.tv(), i as int),
            advanced(r, self.tv(), i as int),
            r matches Err(e) ==> error_from_tokens(self.tv(), e@),
    {
        let _n = self.len();
        if !self.is_at(i + 1, TokKind::Id) {
            return Err(self.unexpected_at(i + 1, one_kind(TokKind::Id)));
        }
        let (params, j) = match self.formal_params(i + 2) {
            Err(e) => return Err(e),
            Ok(x) => x,
        };
        let (args, k) = match self.ids(j) {
            Err(e) => return Err(e),
            Ok(x) => x,
        };
        Ok(((self.text_at(i + 1), params, args), k))
    }

    /// A gate or opaque gate declaration, its keyword being at `i`.
    pub fn gate_decl(&self, i: usize) -> (r: Result<(Statement, usize), ParseError>)
        requires
            i < self.tv().len(),
        ensures
            res_view(r, |s: Statement| s@) == p_gate_decl(self.tv(), i as int),
            advanced(r, self.tv(), i as int),
            r matches Err(e) ==> error_from_tokens(self.tv(), e@),
    {
        let ((name, params, args), j) = match self.gate_head(i) {
            Err(e) => return Err(e),
            Ok(x) => x,
        };
        if self.is_at(i, TokKind::Gate) {
            if !self.is_at(j, TokKind::LBrace) {
                return Err(self.unexpected_at(j, two_kinds(TokKind::Comma, TokKind::LBrace)));
            }
            match self.gate_body(j + 1) {
                Err(e) => Err(e),
                Ok((body, k)) => Ok((Statement::GateDecl(name, params, args, body), k)),
            }
        } else {
            if !self.is_at(j, TokKind::Semi) {
                return Err(self.unexpected_at(j, two_kinds(TokKind::Comma, TokKind::Semi)));
            }
            Ok((Statement::OpaqueGateDecl(name, params, args), j + 1))
        }
    }

    /// `("qreg" | "creg") id "[" int "]" ";"`, the keyword being at `i`.
    pub fn reg_decl(&self, i: usize) -> (r: Result<(Statement, usize), ParseError>)
        requires
            i < self.tv().len(),
        ensures
            res_view(r, |s: Statement| s@) == p_reg_decl(self.tv(), i as int),
            advanced(r, self.tv(), i as int),
            r matches Err(e) ==> error_from_tokens(self.tv(), e@),
    {
        let _n = self.len();
        if !self.is_at(i + 1, TokKind::Id) {
            return Err(self.unexpected_at(i + 1, one_kind(TokKind::Id)));
        }
        if !self.is_at(i + 2, TokKind::LBracket) {
            return Err(self.unexpected_at(i + 2, one_kind(TokKind::LBracket)));
        }
        if !self.is_at(i + 3, TokKind::Int) {
            return Err(self.unexpected_at(i + 3, one_kind(TokKind::Int)));
        }
        let digits = self.text_at(i + 3);
        let n = match read_decimal(&digits, usize::MAX as u64) {
            None => return Err(ParseError::InvalidToken { location: self.start_at(i + 3) }),
            Some(n) => n as usize,
        };
        if !self.is_at(i + 4, TokKind::RBracket) {
            return Err(self.unexpected_at(i + 4, one_kind(TokKind::RBracket)));
        }
        if !self.is_at(i + 5, TokKind::Semi) {
            return Err(self.unexpected_at(i + 5, one_kind(TokKind::Semi)));
        }
        let name = self.text_at(i + 1);
        if self.is_at(i, TokKind::QReg) {
            Ok((Statement::QRegDecl(name, n), i + 6))
        } else {
            Ok((Statement::CRegDecl(name, n), i + 6))
        }
    }

    /// `"if" "(" id "==" int ")" qop`, the keyword being at `i`.
    pub fn conditional(&self, i: usize) -> (r: Result<(Statement, usize), ParseError>)
        requires
            i < self.tv().len(),
        ensures
            res_view(r, |s: Statement| s@) == p_conditional(self.tv(), i as int),
            advanced(r, self.tv(), i as int),
            r matches Err(e) ==> error_from_tokens(self.tv(), e@),
    {
        let _n = self.len();
        if !self.is_at(i + 1, TokKind::LParent) {
            return Err(self.unexpected_at(i + 1, one_kind(TokKind::LParent)));
        }
        if !self.is_at(i + 2, TokKind::Id) {
            return Err(self.unexpected_at(i + 2, one_kind(TokKind::Id)));
        }
        if !self.is_at(i + 3, TokKind::Equal) {
            return Err(self.unexpected_at(i + 3, one_kind(TokKind::Equal)));
        }
        if !self.is_at(i + 4, TokKind::Int) {
            return Err(self.unexpected_at(i + 4, one_kind(TokKind::Int)));
        }
        let digits = self.text_at(i + 4);
        let v = match read_decimal(&digits, u64::MAX) {
            None => return Err(ParseError::InvalidToken { location: self.start_at(i + 4) }),
            Some(v) => v,
        };
        if !self.is_at(i + 5, TokKind::RParent) {
            return Err(self.unexpected_at(i + 5, one_kind(TokKind::RParent)));
        }
        match self.qop(i + 6) {
            Err(e) => Err(e),
            Ok((q, j)) => Ok((Statement::Conditional(Argument::Id(self.text_at(i + 2)), v, q), j)),
        }
    }
}

} // verus!

verus! {

/// The value of the outcome of a complete parse, its value taken through
/// `f`.
pub open spec fn result_view<T, V>(r: Result<T, ParseError>, f: spec_fn(T) -> V) -> Result<V, ParseErrorV> {
    match r {
        Ok(v) => Ok(f(v)),
        Err(e) => Err(e@),
    }
}

impl Tokens {
    /// A statement without its boundaries, starting at `i`.
    pub fn statement_node(&self, i: usize) -> (r: Result<(Statement, usize), ParseError>)
        requires
            i <= self.tv().len(),
        ensures
            res_view(r, |s: Statement| s@) == p_statement_node(self.tv(), i as int),
            advanced(r, self.tv(), i as int),
            r matches Err(e) ==> error_from_tokens(self.tv(), e@),
    {
        if self.is_at(i, TokKind::QReg) || self.is_at(i, TokKind::CReg) {
            self.reg_decl(i)
        } else if self.is_at(i, TokKind::DocStr) {
            if self.is_at(i + 1, TokKind::Gate) || self.is_at(i + 1, TokKind::Opaque) {
                self.gate_decl(i + 1)
            } else {
                Err(self.unexpected_at(i + 1, two_kinds(TokKind::Gate, TokKind::Opaque)))
            }
        } else if self.is_at(i, TokKind::Gate) || self.is_at(i, TokKind::Opaque) {
            self.gate_decl(i)
        } else if self.is_at(i, TokKind::Include) {
            if !self.is_at(i + 1, TokKind::Str) {
                Err(self.unexpected_at(i + 1, one_kind(TokKind::Str)))
            } else if !self.is_at(i + 2, TokKind::Semi) {
                Err(self.unexpected_at(i + 2, one_kind(TokKind::Semi)))
            } else {
                Ok((Statement::Include(self.text_at(i + 1)), i + 3))
            }
        } else if self.is_at(i, TokKind::Barrier) {
            let (args, j) = match self.args(i + 1) {
                Err(e) => return Err(e),
                Ok(x) => x,
            };
            if !self.is_at(j, TokKind::Semi) {
                return Err(self.unexpected_at(j, args_follow_kinds(&args)));
            }
            Ok((Statement::Barrier(BarrierPragma(args)), j + 1))
        } else if self.is_at(i, TokKind::If) {
            self.conditional(i)
        } else if self.is_at(i, TokKind::Measure) || self.is_at(i, TokKind::Reset) || self.is_at(
            i,
            TokKind::U,
        ) || self.is_at(i, TokKind::CX) || self.is_at(i, TokKind::Id) {
            match self.qop(i) {
                Err(e) => Err(e),
                Ok((q, j)) => Ok((Statement::QuantumOperation(q), j)),
            }
        } else {
            Err(self.unexpected_at(i, statement_start_kinds()))
        }
    }

    /// A statement starting at `i` with its boundaries.
    pub fn statement(&self, i: usize) -> (r: Result<(Span<Statement>, usize), ParseError>)
        requires
            i <= self.tv().len(),
        ensures
            res_view(r, |s: Span<Statement>| span_view(s)) == p_statement(self.tv(), i as int),
            r matches Ok((s, _)) ==> starts_token(self.tv(), span_view(s).start) && ends_token(
                self.tv(),
                span_view(s).end,
            ),
            advanced(r, self.tv(), i as int),
            r matches Err(e) ==> error_from_tokens(self.tv(), e@),
    {
        let first = if self.is_at(i, TokKind::DocStr) {
            i + 1
        } else {
            i
        };
        match self.statement_node(i) {
            Err(e) => Err(e),
            Ok((node, j)) => {
                let start = self.start_at(first);
                let end = self.end_at(j - 1);
                Ok((Span { boundaries: (start, end), node: Box::new(node) }, j))
            },
        }
    }

    /// The statements from `i` to the end of the input.
    pub fn body(&self, i: usize) -> (r: Result<(Vec<Span<Statement>>, usize), ParseError>)
        requires
            i <= self.tv().len(),
        ensures
            res_view(r, |v: Vec<Span<Statement>>| spans_view(v@)) == p_body(
                self.tv(),
                Seq::empty(),
                i as int,
            ),
            r matches Err(e) ==> error_from_tokens(self.tv(), e@),
            r matches Ok((v, _)) ==> spans_from_tokens(self.tv(), spans_view(v@)),
    {
        let mut acc: Vec<Span<Statement>> = Vec::new();
        let mut j = i;
        assert(spans_view(acc@) =~= Seq::<SpannedV>::empty());
        loop
            invariant
                i <= j <= self.tv().len(),
                p_body(self.tv(), spans_view(acc@), j as int) == p_body(
                    self.tv(),
                    Seq::empty(),
                    i as int,
                ),
                spans_from_tokens(self.tv(), spans_view(acc@)),
            decreases self.tv().len() - j,
        {
            if j >= self.len() {
                return Ok((acc, j));
            }
            match self.statement(j) {
                Err(e) => {
                    return Err(e);
                },
                Ok((s, k)) => {
                    let ghost prev = spans_view(acc@);
                    let ghost sv = span_view(s);
                    acc.push(s);
                    assert(spans_view(acc@) =~= prev.push(sv));
                    j = k;
                },
            }
        }
    }

    /// `program := "OPENQASM" version ";" statement*`
    pub fn program(&self) -> (r: Result<OpenQasmProgram, ParseError>)
        ensures
            result_view(r, |p: OpenQasmProgram| p@) == p_program(self.tv()),
            r matches Ok(p) ==> spans_from_tokens(self.tv(), p@.program),
            r matches Err(e) ==> error_from_tokens(self.tv(), e@),
    {
        if !self.is_at(0, TokKind::QASMHeader) {
            return Err(self.unexpected_at(0, one_kind(TokKind::QASMHeader)));
        }
        if !self.is_at(1, TokKind::Version) {
            return Err(self.unexpected_at(1, one_kind(TokKind::Version)));
        }
        if !self.is_at(2, TokKind::Semi) {
            return Err(self.unexpected_at(2, one_kind(TokKind::Semi)));
        }
        match self.body(3) {
            Err(e) => Err(e),
            Ok((body, _)) => Ok(OpenQasmProgram { version: self.text_at(1), program: body }),
        }
    }

    /// `library := gate-declaration*`
    pub fn library(&self) -> (r: Result<OpenQasmLibrary, ParseError>)
        ensures
            result_view(r, |l: OpenQasmLibrary| l@) == p_library(self.tv()),
            r matches Err(e) ==> error_from_tokens(self.tv(), e@),
    {
        let mut acc: Vec<Statement> = Vec::new();
        let mut j: usize = 0;
        assert(statements_view(acc@) =~= Seq::<crate::grammar::ast::StatementV>::empty());
        loop
            invariant
                j <= self.tv().len(),
                p_library_decls(self.tv(), statements_view(acc@), j as int) == p_library(self.tv()),
            decreases self.tv().len() - j,
        {
            if j >= self.len() {
                return Ok(OpenQasmLibrary { definitions: acc });
            }
            if !(self.is_at(j, TokKind::DocStr) || self.is_at(j, TokKind::Gate) || self.is_at(
                j,
                TokKind::Opaque,
            )) {
                return Err(
                    self.unexpected_at(
                        j,
                        three_kinds(TokKind::DocStr, TokKind::Gate, TokKind::Opaque),
                    ),
                );
            }
            match self.statement_node(j) {
                Err(e) => {
                    return Err(e);
                },
                Ok((s, k)) => {
                    let ghost prev = statements_view(acc@);
                    acc.push(s);
                    assert(statements_view(acc@) =~= prev.push(s@));
                    j = k;
                },
            }
        }
    }

    /// The error for a complete phrase followed by more input at `j`, if any.
    pub fn rest_error(&self, j: usize) -> (r: Option<ParseError>)
        ensures
            r is None <==> j >= self.tv().len(),
            r matches Some(e) ==> e@ == (match self.tv()[j as int] {
                Ok(t) => ParseErrorV::ExtraToken(t),
                Err(l) => ParseErrorV::User(l),
            }),
            r matches Some(e) ==> error_from_tokens(self.tv(), e@),
    {
        if j < self.items.len() {
            match &self.items[j] {
                Ok(t) => Some(ParseError::ExtraToken { token: (t.0, t.1.copy(), t.2) }),
                Err(e) => Some(ParseError::User { error: LexicalError { location: e.location } }),
            }
        } else {
            None
        }
    }
}

} // verus!
