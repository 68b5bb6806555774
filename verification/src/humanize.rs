//! Human readable descriptions of errors, pointing at the source code.
use vstd::prelude::*;

use crate::error::{QasmSimError, QasmSimErrorV, SyntaxV};
use crate::grammar::ast::strings_view;
use crate::grammar::lexer::tok_display;
use crate::semantics::qasm_type_name;
use crate::text::{chars_of, decimal, string_of_range, string_push, string_push_str, usize_to_string};

verus! {

/// What an error report says: a message, the line of source code with its
/// number, where the error is in the line and, optionally, some help.
#[derive(Debug, Clone, PartialEq, Eq)]
pub struct HumanDescription {
    /// The message.
    pub msg: String,
    /// The number of the line.
    pub lineno: usize,
    /// Where in the line the error starts.
    pub startpos: usize,
    /// Where in the line the error ends, if known.
    pub endpos: Option<usize>,
    /// The line of source code.
    pub linesrc: String,
    /// Some help, if any.
    pub help: Option<String>,
}

/// The value of a [`HumanDescription`].
pub struct HumanDescriptionV {
    pub msg: Seq<char>,
    pub lineno: usize,
    pub startpos: usize,
    pub endpos: Option<usize>,
    pub linesrc: Seq<char>,
    pub help: Option<Seq<char>>,
}

impl View for HumanDescription {
    type V = HumanDescriptionV;

    open spec fn view(&self) -> HumanDescriptionV {
        HumanDescriptionV {
            msg: self.msg@,
            lineno: self.lineno,
            startpos: self.startpos,
            endpos: self.endpos,
            linesrc: self.linesrc@,
            help: match self.help {
                Some(h) => Some(h@),
                None => None,
            },
        }
    }
}

/// The characters with the Unicode property `White_Space`.
pub open spec fn is_white_space(c: char) -> bool {
    ||| c == ' '
    ||| ('\t' <= c && c <= '\r')
    ||| c == '\u{85}'
    ||| c == '\u{a0}'
    ||| c == '\u{1680}'
    ||| ('\u{2000}' <= c && c <= '\u{200a}')
    ||| c == '\u{2028}'
    ||| c == '\u{2029}'
    ||| c == '\u{202f}'
    ||| c == '\u{205f}'
    ||| c == '\u{3000}'
}

/// `s` without its trailing white space.
pub open spec fn trim_end(s: Seq<char>) -> Seq<char>
    decreases s.len(),
{
    if s.len() > 0 && is_white_space(s.last()) {
        trim_end(s.drop_last())
    } else {
        s
    }
}

/// `n` times character `c`.
pub open spec fn repeat(c: char, n: nat) -> Seq<char> {
    Seq::new(n, |i: int| c)
}

/// The number of a line followed by a space.
pub open spec fn lineno_text(d: HumanDescriptionV) -> Seq<char> {
    decimal(d.lineno as nat).push(' ')
}

/// The first line of a report: the message.
pub open spec fn message_line(d: HumanDescriptionV) -> Seq<char> {
    "error: "@ + d.msg + "\n"@
}

/// The second line of a report: a margin as wide as the line number.
pub open spec fn margin_line(d: HumanDescriptionV) -> Seq<char> {
    repeat(' ', lineno_text(d).len()) + "|\n"@
}

/// The third line of a report: the line of source code, with its number
/// and without trailing white space.
pub open spec fn source_line(d: HumanDescriptionV) -> Seq<char> {
    lineno_text(d) + "| "@ + trim_end(d.linesrc) + "\n"@
}

/// The fourth line of a report: a mark under the error and the help, or
/// the message again.
pub open spec fn mark_line(d: HumanDescriptionV) -> Seq<char> {
    let help = match d.help {
        Some(h) => h,
        None => d.msg,
    };
    let width: nat = match d.endpos {
        Some(e) => (e - d.startpos) as nat,
        None => 1,
    };
    repeat(' ', lineno_text(d).len()) + "| "@ + repeat(' ', d.startpos as nat) + repeat('^', width)
        + " help: "@ + help + "\n"@
}

/// The report of description `d`: the message, the line with its number
/// and, below it, a mark under the error followed by the help, or by the
/// message again.
pub open spec fn humanized(d: HumanDescriptionV) -> Seq<char> {
    message_line(d) + margin_line(d) + source_line(d) + mark_line(d)
}

/// Description `d` marks a part of its line that does not end before it
/// starts.
pub open spec fn description_ok(d: HumanDescriptionV) -> bool {
    d.endpos matches Some(e) ==> e >= d.startpos
}

/// The items of `s` separated by `sep`.
pub open spec fn join(s: Seq<Seq<char>>, sep: Seq<char>) -> Seq<char>
    decreases s.len(),
{
    if s.len() == 0 {
        Seq::empty()
    } else if s.len() == 1 {
        s[0]
    } else {
        join(s.drop_last(), sep) + sep + s.last()
    }
}

/// The choices `choices` in words: `a`, `a, or b`, `a, b, or c`.
pub open spec fn list_of_choices_of(choices: Seq<Seq<char>>) -> Option<Seq<char>> {
    if choices.len() == 0 {
        None
    } else if choices.len() == 1 {
        Some(choices[0])
    } else {
        Some(join(choices.drop_last(), ", "@) + ", or "@ + choices.last())
    }
}

/// `expected` followed by the choices.
pub open spec fn expectation_of(choices: Seq<Seq<char>>) -> Seq<char> {
    "expected "@ + list_of_choices_of(choices).unwrap()
}

/// A suggestion to add one of the choices; `one of` goes before a choice
/// that is a single character.
pub open spec fn hint_of(choices: Seq<Seq<char>>) -> Seq<char> {
    let c = list_of_choices_of(choices).unwrap();
    "consider adding "@ + (if c.len() == 1 {
        "one of "@
    } else {
        ""@
    }) + c
}

/// The decimal representations of `sizes`.
pub open spec fn decimals(sizes: Seq<usize>) -> Seq<Seq<char>> {
    sizes.map_values(|n: usize| decimal(n as nat))
}

/// A description at the start of `source`, line `lineno`.
pub open spec fn line_description(msg: Seq<char>, lineno: usize, source: Seq<char>, help: Option<Seq<char>>) -> HumanDescriptionV {
    HumanDescriptionV { msg, lineno, startpos: 0, endpos: None, linesrc: source, help }
}

/// What the report of error `e` says; nothing for an unknown error.
pub open spec fn human_description_of(e: QasmSimErrorV) -> Option<HumanDescriptionV> {
    match e {
        QasmSimErrorV::UnknownError(_) => None,
        QasmSimErrorV::InvalidToken(s) => Some(
            HumanDescriptionV {
                msg: "invalid token"@,
                lineno: s.lineno,
                startpos: s.startpos,
                endpos: s.endpos,
                linesrc: s.source,
                help: None,
            },
        ),
        QasmSimErrorV::UnexpectedEOF(s) => Some(
            HumanDescriptionV {
                msg: expectation_of(s.expected) + ", found EOF"@,
                lineno: s.lineno,
                startpos: s.startpos,
                endpos: s.endpos,
                linesrc: s.source,
                help: Some(hint_of(s.expected) + " here"@),
            },
        ),
        QasmSimErrorV::UnexpectedToken(s) => {
            let token = tok_display(s.token.unwrap());
            let e = s.endpos.unwrap();
            let endpos = if e < s.source.len() {
                e
            } else {
                s.source.len() as usize
            };
            Some(
                HumanDescriptionV {
                    msg: if s.expected.len() > 0 {
                        expectation_of(s.expected) + ", found \""@ + token + "\""@
                    } else {
                        "unexpected \""@ + token + "\" found"@
                    },
                    lineno: s.lineno,
                    startpos: s.startpos,
                    endpos: Some(endpos),
                    linesrc: s.source,
                    help: if s.expected.len() > 0 {
                        Some(hint_of(s.expected) + " before this"@)
                    } else {
                        None
                    },
                },
            )
        },
        QasmSimErrorV::RedefinitionError { source, symbol_name, lineno, previous_lineno } => Some(
            line_description(
                "cannot declare symbol `"@ + symbol_name + "` twice"@,
                lineno,
                source,
                Some("first declaration happens in line "@ + decimal(previous_lineno as nat)),
            ),
        ),
        QasmSimErrorV::IndexOutOfBounds { source, lineno, symbol_name, index, size } => Some(
            line_description(
                "index out of bounds"@,
                lineno,
                source,
                Some(
                    "indices of register `"@ + symbol_name + "` range from 0 to "@ + decimal(
                        (size - 1) as nat,
                    ) + " but the index is "@ + decimal(index as nat),
                ),
            ),
        ),
        QasmSimErrorV::SymbolNotFound { source, lineno, symbol_name, expected } => Some(
            line_description(
                "cannot find the "@ + qasm_type_name(expected) + " `"@ + symbol_name
                    + "` in this scope"@,
                lineno,
                source,
                None,
            ),
        ),
        QasmSimErrorV::TypeMismatch { source, lineno, symbol_name, expected } => Some(
            line_description(
                "mismatched types for symbol `"@ + symbol_name + "`: expected \""@ + qasm_type_name(
                    expected,
                ) + "\""@,
                lineno,
                source,
                None,
            ),
        ),
        QasmSimErrorV::RegisterSizeMismatch { source, lineno, symbol_name, sizes } => Some(
            line_description(
                if symbol_name == "measure"@ {
                    "cannot apply a measurement between registers of different sizes"@
                } else {
                    "cannot apply gate `"@ + symbol_name + "` to registers of differen size"@
                },
                lineno,
                source,
                Some(
                    "expected registers of same size, found registers of sizes "@ + join(
                        decimals(sizes),
                        ", "@,
                    ),
                ),
            ),
        ),
        QasmSimErrorV::WrongNumberOfParameters {
            source,
            lineno,
            symbol_name,
            are_registers,
            given,
            expected,
        } => {
            let qualifier = if are_registers {
                "quantum registers"@
            } else {
                "real parameters"@
            };
            Some(
                line_description(
                    "wrong number of "@ + qualifier + " passed to gate `"@ + symbol_name + "`"@,
                    lineno,
                    source,
                    Some(
                        "expected "@ + decimal(expected as nat) + " "@ + qualifier + ", given "@
                            + decimal(given as nat),
                    ),
                ),
            )
        },
        QasmSimErrorV::UndefinedGate { source, lineno, symbol_name } => Some(
            line_description(
                "cannot find gate `"@ + symbol_name + "` in this scope"@,
                lineno,
                source,
                None,
            ),
        ),
        QasmSimErrorV::LibraryNotFound { source, lineno, libpath } => Some(
            line_description("cannot find library `"@ + libpath + "`"@, lineno, source, None),
        ),
    }
}

/// The description of error `e` is defined: a syntax error at the end of
/// the source has a list of expected tokens; an unexpected token is known,
/// with where it ends; a register out of bounds is not empty.
pub open spec fn description_defined(e: QasmSimErrorV) -> bool {
    match e {
        QasmSimErrorV::UnexpectedEOF(s) => s.expected.len() > 0,
        QasmSimErrorV::UnexpectedToken(s) => s.token is Some && s.endpos is Some,
        QasmSimErrorV::IndexOutOfBounds { size, .. } => size >= 1,
        _ => true,
    }
}

/// Error `e` can be reported: its description is defined, and the part of
/// the line that the report marks does not end before it starts.
pub open spec fn describable(e: QasmSimErrorV) -> bool {
    &&& description_defined(e)
    &&& match e {
        QasmSimErrorV::InvalidToken(s) => s.endpos matches Some(x) ==> x >= s.startpos,
        QasmSimErrorV::UnexpectedEOF(s) => s.endpos matches Some(x) ==> x >= s.startpos,
        QasmSimErrorV::UnexpectedToken(s) => s.startpos <= s.endpos.unwrap() && s.startpos
            <= s.source.len(),
        _ => true,
    }
}

/// The text of error `e`: its message if unknown, its report otherwise.
pub open spec fn error_text(e: QasmSimErrorV) -> Seq<char> {
    match e {
        QasmSimErrorV::UnknownError(m) => m,
        _ => humanized(human_description_of(e).unwrap()),
    }
}

} // verus!

verus! {

/// Whether `c` has the Unicode property `White_Space`.
fn is_white_space_char(c: char) -> (b: bool)
    ensures
        b == is_white_space(c),
{
    c == ' ' || ('\t' <= c && c <= '\r') || c == '\u{85}' || c == '\u{a0}' || c == '\u{1680}' || (
    '\u{2000}' <= c && c <= '\u{200a}') || c == '\u{2028}' || c == '\u{2029}' || c == '\u{202f}'
        || c == '\u{205f}' || c == '\u{3000}'
}

/// `s` without its trailing white space.
pub fn trim_end_of(s: &String) -> (r: String)
    ensures
        r@ == trim_end(s@),
{
    let chars = chars_of(s.as_str());
    let mut k = chars.len();
    assert(chars@.take(k as int) =~= chars@);
    while k > 0 && is_white_space_char(chars[k - 1])
        invariant
            k <= chars@.len(),
            trim_end(chars@.take(k as int)) == trim_end(s@),
            chars@ == s@,
        decreases k,
    {
        assert(chars@.take(k as int).drop_last() =~= chars@.take(k - 1));
        assert(chars@.take(k as int).last() == chars@[k - 1]);
        k -= 1;
    }
    if k > 0 {
        assert(chars@.take(k as int).last() == chars@[k - 1]);
    }
    string_of_range(&chars, 0, k)
}

/// Appends `n` times `c` to `s`.
fn push_repeat(s: &mut String, c: char, n: usize)
    ensures
        final(s)@ == old(s)@ + repeat(c, n as nat),
{
    let mut i: usize = 0;
    while i < n
        invariant
            i <= n,
            s@ == old(s)@ + repeat(c, i as nat),
        decreases n - i,
    {
        string_push(s, c);
        assert(repeat(c, (i + 1) as nat) =~= repeat(c, i as nat).push(c));
        assert(s@ =~= old(s)@ + repeat(c, (i + 1) as nat));
        i += 1;
    }
}

/// Appends `t` to `s`.
fn push_string(s: &mut String, t: &String)
    ensures
        final(s)@ == old(s)@ + t@,
{
    string_push_str(s, t.as_str());
}

/// The items of `items` separated by `sep`.
fn join_strings(items: &Vec<String>, sep: &str) -> (r: String)
    ensures
        r@ == join(strings_view(items@), sep@),
{
    let ghost sv = strings_view(items@);
    let mut r = String::new();
    if items.len() == 0 {
        assert(sv =~= Seq::<Seq<char>>::empty());
        return r;
    }
    push_string(&mut r, &items[0]);
    assert(sv.take(1) =~= seq![sv[0]]);
    assert(r@ =~= join(sv.take(1), sep@));
    let mut i: usize = 1;
    while i < items.len()
        invariant
            sv == strings_view(items@),
            1 <= i <= items@.len(),
            r@ == join(sv.take(i as int), sep@),
        decreases items@.len() - i,
    {
        string_push_str(&mut r, sep);
        push_string(&mut r, &items[i]);
        assert(sv.take(i + 1).drop_last() =~= sv.take(i as int));
        assert(sv.take(i + 1).last() == items@[i as int]@);
        assert(r@ =~= join(sv.take(i + 1), sep@));
        i += 1;
    }
    assert(sv.take(i as int) =~= sv);
    r
}

/// The choices `choices` in words: `a`, `a, or b`, `a, b, or c`; nothing
/// when there is no choice.
pub fn list_of_choices(choices: &Vec<String>) -> (r: Option<String>)
    ensures
        match list_of_choices_of(strings_view(choices@)) {
            Some(c) => r matches Some(x) && x@ == c,
            None => r is None,
        },
{
    let len = choices.len();
    if len == 0 {
        None
    } else if len == 1 {
        Some(choices[0].clone())
    } else {
        let mut except_last: Vec<String> = Vec::new();
        let mut i: usize = 0;
        while i < len - 1
            invariant
                len == choices@.len(),
                i <= len - 1,
                strings_view(except_last@) == strings_view(choices@).take(i as int),
            decreases len - 1 - i,
        {
            let ghost prev = strings_view(except_last@);
            let c = choices[i].clone();
            let ghost cv = c@;
            assert(cv == strings_view(choices@)[i as int]);
            except_last.push(c);
            assert(strings_view(except_last@) =~= prev.push(cv));
            assert(strings_view(choices@).take(i + 1) =~= strings_view(choices@).take(i as int).push(cv));
            i += 1;
        }
        assert(strings_view(choices@).take(len - 1) =~= strings_view(choices@).drop_last());
        let mut r = join_strings(&except_last, ", ");
        string_push_str(&mut r, ", or ");
        push_string(&mut r, &choices[len - 1]);
        Some(r)
    }
}

/// `expected` followed by the choices.
pub fn expectation(expected: &Vec<String>) -> (r: String)
    requires
        expected@.len() > 0,
    ensures
        r@ == expectation_of(strings_view(expected@)),
{
    let choices = match list_of_choices(expected) {
        Some(c) => c,
        None => String::new(),
    };
    let mut r = "expected ".to_owned();
    push_string(&mut r, &choices);
    r
}

/// A suggestion to add one of the expected choices.
pub fn hint(expected: &Vec<String>) -> (r: String)
    requires
        expected@.len() > 0,
    ensures
        r@ == hint_of(strings_view(expected@)),
{
    let choices = match list_of_choices(expected) {
        Some(c) => c,
        None => String::new(),
    };
    let mut r = "consider adding ".to_owned();
    let n = chars_of(choices.as_str()).len();
    if n == 1 {
        string_push_str(&mut r, "one of ");
    } else {
        string_push_str(&mut r, "");
    }
    push_string(&mut r, &choices);
    r
}

/// Appends the report of `description` to `buffer`.
pub fn humanize(buffer: &mut String, description: &HumanDescription)
    requires
        description_ok(description@),
    ensures
        final(buffer)@ == old(buffer)@ + humanized(description@),
{
    let ghost d = description@;
    let mut lineno_str = usize_to_string(description.lineno);
    string_push(&mut lineno_str, ' ');
    assert(lineno_str@ == lineno_text(d));
    let lineno_len = chars_of(lineno_str.as_str()).len();
    let mut first = "error: ".to_owned();
    push_string(&mut first, &description.msg);
    string_push_str(&mut first, "\n");
    assert(first@ =~= message_line(d));
    let mut second = String::new();
    push_repeat(&mut second, ' ', lineno_len);
    string_push_str(&mut second, "|\n");
    assert(second@ =~= margin_line(d));
    let mut third = lineno_str.clone();
    string_push_str(&mut third, "| ");
    let trimmed = trim_end_of(&description.linesrc);
    push_string(&mut third, &trimmed);
    string_push_str(&mut third, "\n");
    assert(third@ =~= source_line(d));
    let fourth = mark_text(description, lineno_len);
    push_string(buffer, &first);
    push_string(buffer, &second);
    push_string(buffer, &third);
    push_string(buffer, &fourth);
    assert(buffer@ =~= old(buffer)@ + humanized(d));
}

/// The fourth line of the report of `description`.
fn mark_text(description: &HumanDescription, lineno_len: usize) -> (r: String)
    requires
        description_ok(description@),
        lineno_len == lineno_text(description@).len(),
    ensures
        r@ == mark_line(description@),
{
    let ghost d = description@;
    let help_str = match &description.help {
        Some(h) => h.clone(),
        None => description.msg.clone(),
    };
    let indicator_width = match description.endpos {
        Some(pos) => pos - description.startpos,
        None => 1,
    };
    let mut r = String::new();
    push_repeat(&mut r, ' ', lineno_len);
    string_push_str(&mut r, "| ");
    push_repeat(&mut r, ' ', description.startpos);
    push_repeat(&mut r, '^', indicator_width);
    string_push_str(&mut r, " help: ");
    push_string(&mut r, &help_str);
    string_push_str(&mut r, "\n");
    assert(r@ =~= mark_line(d));
    r
}

/// The decimal representations of `sizes`.
fn decimal_strings(sizes: &Vec<usize>) -> (r: Vec<String>)
    ensures
        strings_view(r@) == decimals(sizes@),
{
    let mut r: Vec<String> = Vec::new();
    let mut i: usize = 0;
    while i < sizes.len()
        invariant
            i <= sizes@.len(),
            strings_view(r@) == decimals(sizes@).take(i as int),
        decreases sizes@.len() - i,
    {
        let t = usize_to_string(sizes[i]);
        let ghost prev = strings_view(r@);
        let ghost tv = t@;
        r.push(t);
        assert(strings_view(r@) =~= prev.push(tv));
        assert(decimals(sizes@).take(i + 1) =~= decimals(sizes@).take(i as int).push(tv));
        i += 1;
    }
    assert(decimals(sizes@).take(i as int) =~= decimals(sizes@));
    r
}

/// A description at the start of line `source`.
fn at_line(msg: String, lineno: usize, source: &String, help: Option<String>) -> (r: HumanDescription)
    ensures
        r@ == line_description(
            msg@,
            lineno,
            source@,
            match help {
                Some(h) => Some(h@),
                None => None,
            },
        ),
{
    HumanDescription { msg, lineno, startpos: 0, endpos: None, linesrc: source.clone(), help }
}

/// What the report of `error` says; nothing for an unknown error.
pub fn human_description(error: &QasmSimError) -> (r: Option<HumanDescription>)
    requires
        description_defined(error@),
    ensures
        match human_description_of(error@) {
            Some(d) => r matches Some(x) && x@ == d,
            None => r is None,
        },
{
    match error {
        QasmSimError::UnknownError(_) => None,
        QasmSimError::InvalidToken { source, lineno, startpos, endpos, .. } => Some(
            HumanDescription {
                msg: "invalid token".to_owned(),
                lineno: *lineno,
                startpos: *startpos,
                endpos: *endpos,
                linesrc: source.clone(),
                help: None,
            },
        ),
        QasmSimError::UnexpectedEOF { source, lineno, startpos, endpos, expected, .. } => {
            let mut msg = expectation(expected);
            string_push_str(&mut msg, ", found EOF");
            let mut help = hint(expected);
            string_push_str(&mut help, " here");
            Some(
                HumanDescription {
                    msg,
                    lineno: *lineno,
                    startpos: *startpos,
                    endpos: *endpos,
                    linesrc: source.clone(),
                    help: Some(help),
                },
            )
        },
        QasmSimError::UnexpectedToken { source, lineno, startpos, endpos, token, expected } => {
            let token_text = match token {
                Some(t) => t.display(),
                None => String::new(),
            };
            let e = match endpos {
                Some(e) => *e,
                None => 0,
            };
            let len = chars_of(source.as_str()).len();
            let end = if e < len {
                e
            } else {
                len
            };
            let mut msg = String::new();
            let mut help = None;
            if expected.len() > 0 {
                msg = expectation(expected);
                string_push_str(&mut msg, ", found \"");
                push_string(&mut msg, &token_text);
                string_push_str(&mut msg, "\"");
                let mut h = hint(expected);
                string_push_str(&mut h, " before this");
                help = Some(h);
            } else {
                string_push_str(&mut msg, "unexpected \"");
                push_string(&mut msg, &token_text);
                string_push_str(&mut msg, "\" found");
            }
            Some(
                HumanDescription {
                    msg,
                    lineno: *lineno,
                    startpos: *startpos,
                    endpos: Some(end),
                    linesrc: source.clone(),
                    help,
                },
            )
        },
        QasmSimError::RedefinitionError { source, symbol_name, lineno, previous_lineno } => {
            let mut msg = "cannot declare symbol `".to_owned();
            push_string(&mut msg, symbol_name);
            string_push_str(&mut msg, "` twice");
            let mut help = "first declaration happens in line ".to_owned();
            push_string(&mut help, &usize_to_string(*previous_lineno));
            Some(at_line(msg, *lineno, source, Some(help)))
        },
        QasmSimError::IndexOutOfBounds { source, lineno, symbol_name, index, size } => {
            let mut help = "indices of register `".to_owned();
            push_string(&mut help, symbol_name);
            string_push_str(&mut help, "` range from 0 to ");
            push_string(&mut help, &usize_to_string(*size - 1));
            string_push_str(&mut help, " but the index is ");
            push_string(&mut help, &usize_to_string(*index));
            Some(at_line("index out of bounds".to_owned(), *lineno, source, Some(help)))
        },
        QasmSimError::SymbolNotFound { source, lineno, symbol_name, expected } => {
            let mut msg = "cannot find the ".to_owned();
            push_string(&mut msg, &expected.display());
            string_push_str(&mut msg, " `");
            push_string(&mut msg, symbol_name);
            string_push_str(&mut msg, "` in this scope");
            Some(at_line(msg, *lineno, source, None))
        },
        QasmSimError::TypeMismatch { source, lineno, symbol_name, expected } => {
            let mut msg = "mismatched types for symbol `".to_owned();
            push_string(&mut msg, symbol_name);
            string_push_str(&mut msg, "`: expected \"");
            push_string(&mut msg, &expected.display());
            string_push_str(&mut msg, "\"");
            Some(at_line(msg, *lineno, source, None))
        },
        QasmSimError::RegisterSizeMismatch { source, lineno, symbol_name, sizes } => {
            let measure = "measure".to_owned();
            let msg = if *symbol_name == measure {
                "cannot apply a measurement between registers of different sizes".to_owned()
            } else {
                let mut m = "cannot apply gate `".to_owned();
                push_string(&mut m, symbol_name);
                string_push_str(&mut m, "` to registers of differen size");
                m
            };
            let mut help = "expected registers of same size, found registers of sizes ".to_owned();
            push_string(&mut help, &join_strings(&decimal_strings(sizes), ", "));
            Some(at_line(msg, *lineno, source, Some(help)))
        },
        QasmSimError::WrongNumberOfParameters {
            source,
            lineno,
            symbol_name,
            are_registers,
            given,
            expected,
        } => {
            let qualifier = if *are_registers {
                "quantum registers".to_owned()
            } else {
                "real parameters".to_owned()
            };
            let mut msg = "wrong number of ".to_owned();
            push_string(&mut msg, &qualifier);
            string_push_str(&mut msg, " passed to gate `");
            push_string(&mut msg, symbol_name);
            string_push_str(&mut msg, "`");
            let mut help = "expected ".to_owned();
            push_string(&mut help, &usize_to_string(*expected));
            string_push_str(&mut help, " ");
            push_string(&mut help, &qualifier);
            string_push_str(&mut help, ", given ");
            push_string(&mut help, &usize_to_string(*given));
            Some(at_line(msg, *lineno, source, Some(help)))
        },
        QasmSimError::UndefinedGate { source, lineno, symbol_name } => {
            let mut msg = "cannot find gate `".to_owned();
            push_string(&mut msg, symbol_name);
            string_push_str(&mut msg, "` in this scope");
            Some(at_line(msg, *lineno, source, None))
        },
        QasmSimError::LibraryNotFound { source, lineno, libpath } => {
            let mut msg = "cannot find library `".to_owned();
            push_string(&mut msg, libpath);
            string_push_str(&mut msg, "`");
            Some(at_line(msg, *lineno, source, None))
        },
    }
}

/// What is described of a describable error marks a part of its line that
/// does not end before it starts.
proof fn lemma_description_ok(e: QasmSimErrorV)
    requires
        describable(e),
        !(e is UnknownError),
    ensures
        human_description_of(e) is Some,
        description_ok(human_description_of(e).unwrap()),
{
}

/// Appends the text of `error` to `buffer`: its message if it is unknown,
/// its report otherwise.
pub fn humanize_error(buffer: &mut String, error: &QasmSimError)
    requires
        describable(error@),
    ensures
        final(buffer)@ == old(buffer)@ + error_text(error@),
{
    match error {
        QasmSimError::UnknownError(msg) => {
            push_string(buffer, msg);
        },
        _ => {
            proof {
                lemma_description_ok(error@);
            }
            match human_description(error) {
                Some(description) => humanize(buffer, &description),
                None => {},
            }
        },
    }
}

impl QasmSimError {
    /// The text of this error: its message if it is unknown, its report
    /// otherwise.
    pub fn display(&self) -> (r: String)
        requires
            describable(self@),
        ensures
            r@ == error_text(self@),
    {
        let mut buffer = String::new();
        humanize_error(&mut buffer, self);
        assert(buffer@ =~= error_text(self@));
        buffer
    }

    /// Whether this error can be reported.
    pub fn is_describable(&self) -> (b: bool)
        ensures
            b == describable(self@),
    {
        match self {
            QasmSimError::InvalidToken { startpos, endpos, .. } => match endpos {
                Some(x) => *x >= *startpos,
                None => true,
            },
            QasmSimError::UnexpectedEOF { startpos, endpos, expected, .. } => {
                assert(strings_view(expected@).len() == expected@.len());
                expected.len() > 0 && match endpos {
                    Some(x) => *x >= *startpos,
                    None => true,
                }
            },
            QasmSimError::UnexpectedToken { source, startpos, endpos, token, .. } => {
                let len = chars_of(source.as_str()).len();
                token.is_some() && match endpos {
                    Some(x) => *startpos <= *x && *startpos <= len,
                    None => false,
                }
            },
            QasmSimError::IndexOutOfBounds { size, .. } => *size >= 1,
            _ => true,
        }
    }
}

} // verus!
