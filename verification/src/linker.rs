//! Combining programs with the libraries they include.
use vstd::prelude::*;

use crate::grammar::ast::{OpenQasmProgram, ProgramV, Span, SpannedV, Statement, StatementV, span_view, spans_view, statements_view};
use crate::grammar::lexer::{Location, tokenize};
use crate::grammar::parser::{library, p_library};
use crate::grammar::rules::result_view;
use crate::table::{find, first_index, keys_of, keys_unique, lookup, names};
use crate::text::string_push_str;

verus! {

/// Represent a failure during linkage.
#[non_exhaustive]
#[derive(Debug, Clone, PartialEq, Eq, Hash)]
pub enum LinkerError {
    /// The `include` directive at `location` failed while importing `libpath`.
    LibraryNotFound {
        /// Location of the `include` directive.
        location: Location,
        /// Library path passed to the `include` directive.
        libpath: String,
    },
}

/// The value of a [`LinkerError`].
pub enum LinkerErrorV {
    LibraryNotFound { location: usize, libpath: Seq<char> },
}

impl View for LinkerError {
    type V = LinkerErrorV;

    open spec fn view(&self) -> LinkerErrorV {
        match self {
            LinkerError::LibraryNotFound { location, libpath } => LinkerErrorV::LibraryNotFound {
                location: location.0,
                libpath: libpath@,
            },
        }
    }
}

/// The text of linker error `e`: ``Library `PATH` not found``.
pub open spec fn linker_error_text(e: LinkerErrorV) -> Seq<char> {
    match e {
        LinkerErrorV::LibraryNotFound { libpath, .. } => "Library `"@ + libpath + "` not found"@,
    }
}

impl LinkerError {
    /// Human readable form of the error: ``Library `PATH` not found``.
    pub fn display(&self) -> (r: String)
        ensures
            r@ == linker_error_text(self@),
    {
        match self {
            LinkerError::LibraryNotFound { libpath, .. } => {
                let mut r = String::new();
                string_push_str(&mut r, "Library `");
                string_push_str(&mut r, libpath.as_str());
                string_push_str(&mut r, "` not found");
                r
            },
        }
    }
}

/// Combines the syntax trees of a program and of the libraries it includes,
/// looking libraries up among embedded sources by their paths. Its value is
/// the list of embedded `(path, source)` pairs in order; the constructors
/// take no path twice (see `paths_unique`).
#[derive(Debug, Clone)]
pub struct Linker {
    embedded: Vec<(String, String)>,
}

impl View for Linker {
    type V = Seq<(Seq<char>, Seq<char>)>;

    closed spec fn view(&self) -> Seq<(Seq<char>, Seq<char>)> {
        self.embedded@.map_values(|e: (String, String)| (e.0@, e.1@))
    }
}

/// The statements of library source `src`, which must parse.
#[verifier::opaque]
pub open spec fn library_statements(src: Seq<char>) -> Seq<StatementV> {
    match p_library(tokenize(src)) {
        Ok(l) => l,
        Err(_) => Seq::empty(),
    }
}

/// Statements `stmts`, each with the boundaries `start` and `end`.
pub open spec fn spread(stmts: Seq<StatementV>, start: int, end: int) -> Seq<SpannedV> {
    stmts.map_values(|s: StatementV| SpannedV { start, end, node: s })
}

/// The library that statement `s` includes parses, if `s` is an `include`
/// of a library that is found.
pub open spec fn head_ok(embedded: Seq<(Seq<char>, Seq<char>)>, s: SpannedV) -> bool {
    match s.node {
        StatementV::Include(path) => match lookup(embedded, path) {
            Some(src) => p_library(tokenize(src)) is Ok,
            None => true,
        },
        _ => true,
    }
}

/// What statement `s` becomes once linked: the declarations of the library
/// it includes, with its boundaries, or itself.
pub open spec fn link_head(embedded: Seq<(Seq<char>, Seq<char>)>, s: SpannedV) -> Result<Seq<SpannedV>, LinkerErrorV> {
    match s.node {
        StatementV::Include(path) => match lookup(embedded, path) {
            None => Err(LinkerErrorV::LibraryNotFound { location: s.start as usize, libpath: path }),
            Some(src) => Ok(spread(library_statements(src), s.start, s.end)),
        },
        _ => Ok(seq![s]),
    }
}

/// Every library that `stmts` include, up to the first that is missing,
/// parses.
#[verifier::opaque]
pub open spec fn link_ok(embedded: Seq<(Seq<char>, Seq<char>)>, stmts: Seq<SpannedV>) -> bool
    decreases stmts.len(),
{
    stmts.len() == 0 || (head_ok(embedded, stmts[0]) && (link_head(embedded, stmts[0]) is Ok
        ==> link_ok(embedded, stmts.skip(1))))
}

/// `stmts` with each `include` replaced by the declarations of the library,
/// which take the boundaries of the `include`; an error at the first
/// library that is missing.
#[verifier::opaque]
pub open spec fn link_statements(
    embedded: Seq<(Seq<char>, Seq<char>)>,
    stmts: Seq<SpannedV>,
) -> Result<Seq<SpannedV>, LinkerErrorV>
    decreases stmts.len(),
{
    if stmts.len() == 0 {
        Ok(Seq::empty())
    } else {
        match link_head(embedded, stmts[0]) {
            Err(e) => Err(e),
            Ok(h) => match link_statements(embedded, stmts.skip(1)) {
                Ok(rest) => Ok(h + rest),
                Err(e) => Err(e),
            },
        }
    }
}

/// Linking a nonempty list of statements: its head, then the rest.
proof fn lemma_link_cons(embedded: Seq<(Seq<char>, Seq<char>)>, stmts: Seq<SpannedV>)
    requires
        stmts.len() > 0,
    ensures
        link_ok(embedded, stmts) == (head_ok(embedded, stmts[0]) && (link_head(embedded, stmts[0]) is Ok
            ==> link_ok(embedded, stmts.skip(1)))),
        link_statements(embedded, stmts) == (match link_head(embedded, stmts[0]) {
            Err(e) => Err(e),
            Ok(h) => match link_statements(embedded, stmts.skip(1)) {
                Ok(rest) => Ok(h + rest),
                Err(e) => Err(e),
            },
        }),
{
    reveal(link_ok);
    reveal(link_statements);
}

/// Linking no statement.
proof fn lemma_link_empty(embedded: Seq<(Seq<char>, Seq<char>)>)
    ensures
        link_statements(embedded, Seq::empty()) == Ok::<Seq<SpannedV>, LinkerErrorV>(Seq::empty()),
{
    reveal(link_statements);
}

/// `o` in front of the statements of `r`, if any.
pub open spec fn prepend(o: Seq<SpannedV>, r: Result<Seq<SpannedV>, LinkerErrorV>) -> Result<Seq<SpannedV>, LinkerErrorV> {
    match r {
        Ok(x) => Ok(o + x),
        Err(e) => Err(e),
    }
}

proof fn lemma_prepend_assoc(a: Seq<SpannedV>, b: Seq<SpannedV>, r: Result<Seq<SpannedV>, LinkerErrorV>)
    ensures
        prepend(a + b, r) == prepend(a, prepend(b, r)),
{
    match r {
        Ok(x) => {
            assert((a + b) + x =~= a + (b + x));
        },
        Err(e) => {},
    }
}

/// Program `p` with its includes linked.
pub open spec fn link_program(embedded: Seq<(Seq<char>, Seq<char>)>, p: ProgramV) -> Result<ProgramV, LinkerErrorV> {
    match link_statements(embedded, p.program) {
        Ok(stmts) => Ok(ProgramV { version: p.version, program: stmts }),
        Err(e) => Err(e),
    }
}

/// Appends `defs` to `out`, each with `boundaries`.
fn push_spread(out: &mut Vec<Span<Statement>>, defs: Vec<Statement>, boundaries: (Location, Location))
    ensures
        spans_view(final(out)@) == spans_view(old(out)@) + spread(
            statements_view(defs@),
            boundaries.0.0 as int,
            boundaries.1.0 as int,
        ),
{
    let ghost start = boundaries.0.0 as int;
    let ghost end = boundaries.1.0 as int;
    let ghost all = statements_view(defs@);
    let ghost out0 = spans_view(out@);
    let mut definitions = defs;
    while definitions.len() > 0
        invariant
            spans_view(out@) + spread(statements_view(definitions@), start, end) == out0 + spread(
                all,
                start,
                end,
            ),
            start == boundaries.0.0 as int,
            end == boundaries.1.0 as int,
        decreases definitions@.len(),
    {
        let ghost dv = statements_view(definitions@);
        let one = definitions.remove(0);
        let ghost ov = spans_view(out@);
        out.push(Span { boundaries, node: Box::new(one) });
        assert(statements_view(definitions@) =~= dv.skip(1));
        assert(spans_view(out@) =~= ov.push(SpannedV { start, end, node: dv[0] }));
        assert(spread(dv, start, end) =~= seq![SpannedV { start, end, node: dv[0] }] + spread(
            dv.skip(1),
            start,
            end,
        ));
        assert(spans_view(out@) + spread(statements_view(definitions@), start, end) =~= ov + spread(
            dv,
            start,
            end,
        ));
    }
    assert(spread(statements_view(definitions@), start, end) =~= Seq::<SpannedV>::empty());
    assert(spans_view(out@) =~= out0 + spread(all, start, end));
}

impl Linker {
    /// No path is embedded twice.
    pub open spec fn paths_unique(&self) -> bool {
        keys_unique(names(self@))
    }

    /// Create a new linker with no embedded sources.
    pub fn new() -> (r: Self)
        ensures
            r@ == Seq::<(Seq<char>, Seq<char>)>::empty(),
            r.paths_unique(),
    {
        let r = Linker { embedded: Vec::new() };
        assert(r@ =~= Seq::<(Seq<char>, Seq<char>)>::empty());
        assert(names(r@) =~= Seq::<Seq<char>>::empty());
        r
    }

    /// Create a new linker relating paths with embedded sources, each path
    /// with one source.
    pub fn with_embedded(embedded: Vec<(String, String)>) -> (r: Self)
        requires
            keys_unique(keys_of(embedded@)),
        ensures
            r@ == embedded@.map_values(|e: (String, String)| (e.0@, e.1@)),
            r.paths_unique(),
    {
        let r = Linker { embedded };
        assert(names(r@) =~= keys_of(r.embedded@));
        r
    }

    /// The source embedded under `libpath`, if any.
    pub fn sources(&self, libpath: &String) -> (r: Option<&String>)
        ensures
            match r {
                Some(s) => lookup(self@, libpath@) == Some(s@),
                None => lookup(self@, libpath@) is None,
            },
    {
        assert(names(self@) =~= keys_of(self.embedded@));
        match find(&self.embedded, libpath) {
            Some(i) => Some(&self.embedded[i].1),
            None => None,
        }
    }

    /// Whether every library that `tree` includes, up to the first that is
    /// missing, parses: the condition for linking `tree`.
    pub fn can_link(&self, tree: &OpenQasmProgram) -> (b: bool)
        ensures
            b == link_ok(self@, tree@.program),
    {
        let ghost stmts = tree@.program;
        let mut k: usize = 0;
        assert(stmts.skip(0) =~= stmts);
        while k < tree.program.len()
            invariant
                stmts == tree@.program,
                stmts.len() == tree.program@.len(),
                k <= stmts.len(),
                link_ok(self@, stmts.skip(k as int)) == link_ok(self@, stmts),
            decreases stmts.len() - k,
        {
            proof {
                lemma_link_cons(self@, stmts.skip(k as int));
                assert(stmts.skip(k as int).skip(1) =~= stmts.skip(k + 1));
                assert(stmts.skip(k as int)[0] == stmts[k as int]);
            }
            match &*tree.program[k].node {
                Statement::Include(libpath) => {
                    match self.sources(libpath) {
                        None => {
                            return true;
                        },
                        Some(source) => {
                            match library(source.as_str()) {
                                Ok(_) => {},
                                Err(_) => {
                                    return false;
                                },
                            }
                        },
                    }
                },
                _ => {},
            }
            k += 1;
        }
        proof {
            reveal(link_ok);
            assert(stmts.skip(k as int).len() == 0);
        }
        true
    }

    /// Links statement `span`: appends to `out` what it becomes.
    fn link_one(&self, span: Span<Statement>, out: &mut Vec<Span<Statement>>) -> (r: Result<(), LinkerError>)
        requires
            head_ok(self@, span_view(span)),
        ensures
            match link_head(self@, span_view(span)) {
                Ok(h) => r is Ok && spans_view(final(out)@) == spans_view(old(out)@) + h,
                Err(e) => r matches Err(x) && x@ == e,
            },
    {
        let ghost sv = span_view(span);
        let boundaries = span.boundaries;
        let node = *span.node;
        match node {
            Statement::Include(libpath) => {
                let source = match self.sources(&libpath) {
                    None => {
                        return Err(LinkerError::LibraryNotFound { location: boundaries.0, libpath });
                    },
                    Some(s) => s,
                };
                let lib = match library(source.as_str()) {
                    Ok(l) => l,
                    Err(_) => {
                        return Err(LinkerError::LibraryNotFound { location: boundaries.0, libpath });
                    },
                };
                assert(statements_view(lib.definitions@) == library_statements(source@)) by {
                    reveal(library_statements);
                }
                push_spread(out, lib.definitions, boundaries);
                Ok(())
            },
            other => {
                let ghost ov = spans_view(out@);
                let s2 = Span { boundaries, node: Box::new(other) };
                assert(span_view(s2) == sv);
                out.push(s2);
                assert(spans_view(out@) =~= ov + seq![sv]);
                Ok(())
            },
        }
    }

    #[verifier::rlimit(80)]
    /// Look into `tree` for `include` statements, parse the referred
    /// libraries, and integrate their declarations into `tree`.
    pub fn link(&self, tree: OpenQasmProgram) -> (r: Result<OpenQasmProgram, LinkerError>)
        requires
            link_ok(self@, tree@.program),
        ensures
            match link_program(self@, tree@) {
                Ok(p) => r matches Ok(x) && x@ == p,
                Err(e) => r matches Err(x) && x@ == e,
            },
    {
        let ghost tv = tree@;
        let version = tree.version;
        let mut rest = tree.program;
        let ghost all = spans_view(rest@);
        let mut out: Vec<Span<Statement>> = Vec::new();
        assert(spans_view(out@) =~= Seq::<SpannedV>::empty());
        assert(prepend(spans_view(out@), link_statements(self@, all)) == link_statements(self@, all)) by {
            match link_statements(self@, all) {
                Ok(r) => {
                    assert(Seq::<SpannedV>::empty() + r =~= r);
                },
                Err(e) => {},
            }
        }
        while rest.len() > 0
            invariant
                all == tv.program,
                tv == tree@,
                link_ok(self@, spans_view(rest@)),
                link_statements(self@, all) == prepend(spans_view(out@), link_statements(self@, spans_view(rest@))),
            decreases rest@.len(),
        {
            let ghost before = spans_view(rest@);
            let ghost old_out = spans_view(out@);
            proof {
                lemma_link_cons(self@, before);
            }
            let span = rest.remove(0);
            assert(before[0] == span_view(span));
            assert(before.skip(1) =~= spans_view(rest@));
            match self.link_one(span, &mut out) {
                Err(e) => {
                    return Err(e);
                },
                Ok(()) => {},
            }
            proof {
                lemma_prepend_assoc(old_out, link_head(self@, before[0])->Ok_0, link_statements(self@, spans_view(rest@)));
            }
        }
        assert(spans_view(rest@) =~= Seq::<SpannedV>::empty());
        proof {
            lemma_link_empty(self@);
        }
        assert(spans_view(out@) + Seq::<SpannedV>::empty() =~= spans_view(out@));
        Ok(OpenQasmProgram { version, program: out })
    }
}

/// Every statement of `ss` starts within the first `n` characters.
pub open spec fn starts_within(ss: Seq<SpannedV>, n: int) -> bool {
    forall|k: int| 0 <= k < ss.len() ==> 0 <= #[trigger] ss[k].start <= n
}

proof fn lemma_starts_concat(a: Seq<SpannedV>, b: Seq<SpannedV>, n: int)
    requires
        starts_within(a, n),
        starts_within(b, n),
    ensures
        starts_within(a + b, n),
{
    assert forall|k: int| 0 <= k < (a + b).len() implies 0 <= #[trigger] (a + b)[k].start <= n by {
        if k < a.len() {
            assert((a + b)[k] == a[k]);
        } else {
            assert((a + b)[k] == b[k - a.len()]);
        }
    }
}

/// Linking keeps the statements within the source: the declarations of a
/// library take the boundaries of the `include`, and a missing library is
/// reported where its `include` starts.
pub proof fn lemma_link_starts(embedded: Seq<(Seq<char>, Seq<char>)>, stmts: Seq<SpannedV>, n: int)
    requires
        starts_within(stmts, n),
        n <= usize::MAX,
    ensures
        match link_statements(embedded, stmts) {
            Ok(out) => starts_within(out, n),
            Err(LinkerErrorV::LibraryNotFound { location, .. }) => 0 <= location <= n,
        },
    decreases stmts.len(),
{
    if stmts.len() == 0 {
        lemma_link_empty(embedded);
        assert(stmts =~= Seq::<SpannedV>::empty());
    } else {
        lemma_link_cons(embedded, stmts);
        let rest = stmts.skip(1);
        assert(starts_within(rest, n)) by {
            assert forall|k: int| 0 <= k < rest.len() implies 0 <= #[trigger] rest[k].start <= n by {
                assert(rest[k] == stmts[k + 1]);
            }
        }
        lemma_link_starts(embedded, rest, n);
        assert(0 <= stmts[0].start <= n);
        let head = link_head(embedded, stmts[0]);
        if head is Err {
            assert(head == Err::<Seq<SpannedV>, LinkerErrorV>(LinkerErrorV::LibraryNotFound {
                location: stmts[0].start as usize,
                libpath: stmts[0].node->Include_0,
            }));
            assert(link_statements(embedded, stmts) == head);
        }
        if head is Ok {
            let h = head->Ok_0;
            assert(starts_within(h, n)) by {
                assert forall|k: int| 0 <= k < h.len() implies 0 <= #[trigger] h[k].start <= n by {
                    assert(h[k].start == stmts[0].start);
                }
            }
            if link_statements(embedded, rest) is Ok {
                lemma_starts_concat(h, link_statements(embedded, rest)->Ok_0, n);
                assert(link_statements(embedded, stmts) == Ok::<Seq<SpannedV>, LinkerErrorV>(h + link_statements(embedded, rest)->Ok_0));
            } else {
                assert(link_statements(embedded, stmts) == link_statements(embedded, rest));
            }
        }
    }
}


/// No statement of `stmts` is an `include`.
pub open spec fn includes_nothing(stmts: Seq<SpannedV>) -> bool {
    forall|k: int| 0 <= k < stmts.len() ==> !(#[trigger] stmts[k].node is Include)
}

/// Statements that include nothing can be linked and stay as they are.
proof fn lemma_link_statements_without_includes(embedded: Seq<(Seq<char>, Seq<char>)>, stmts: Seq<SpannedV>)
    requires
        includes_nothing(stmts),
    ensures
        link_ok(embedded, stmts),
        link_statements(embedded, stmts) == Ok::<Seq<SpannedV>, LinkerErrorV>(stmts),
    decreases stmts.len(),
{
    if stmts.len() == 0 {
        lemma_link_empty(embedded);
        reveal(link_ok);
        assert(stmts =~= Seq::<SpannedV>::empty());
    } else {
        lemma_link_cons(embedded, stmts);
        let rest = stmts.skip(1);
        assert(includes_nothing(rest)) by {
            assert forall|k: int| 0 <= k < rest.len() implies !(#[trigger] rest[k].node is Include) by {
                assert(rest[k] == stmts[k + 1]);
            }
        }
        assert(!(stmts[0].node is Include));
        lemma_link_statements_without_includes(embedded, rest);
        assert(seq![stmts[0]] + rest =~= stmts);
    }
}

/// Linking a program that includes nothing, with any embedded libraries,
/// succeeds and gives the program back unchanged.
pub proof fn lemma_link_without_includes(embedded: Seq<(Seq<char>, Seq<char>)>, p: ProgramV)
    requires
        includes_nothing(p.program),
    ensures
        link_ok(embedded, p.program),
        link_program(embedded, p) == Ok::<ProgramV, LinkerErrorV>(p),
{
    lemma_link_statements_without_includes(embedded, p.program);
}

} // verus!
