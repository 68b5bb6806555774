//! Summaries of classical memories and histograms as rows of text cells,
//! ready to be printed as a table or as CSV records.
use vstd::prelude::*;

use crate::grammar::ast::strings_view;
use crate::interpreter::computation::{Histogram, HistogramV, histogram_view, memory_view};
use crate::text::{digits, digits_of, string_push_str};

verus! {

/// Which columns a summary shows besides the name of the register.
#[derive(Debug, Clone, Copy, PartialEq, Eq, Structural)]
pub struct Columns {
    /// The value in decimal.
    pub integer: bool,
    /// The value in hexadecimal, after `0x`.
    pub hexadecimal: bool,
    /// The value in binary, after `0b`.
    pub binary: bool,
    /// How many times the value was seen.
    pub count: bool,
}

/// The columns asked for: the decimal one is shown unless the binary or the
/// hexadecimal one is asked for without it.
pub open spec fn columns_of(binary: bool, hexadecimal: bool, integer: bool, omit_count: bool) -> Columns {
    Columns {
        integer: if binary || hexadecimal {
            integer
        } else {
            true
        },
        hexadecimal,
        binary,
        count: !omit_count,
    }
}

/// A cell when `shown`, no cell otherwise.
pub open spec fn cell_if(shown: bool, cell: Seq<char>) -> Seq<Seq<char>> {
    if shown {
        seq![cell]
    } else {
        Seq::empty()
    }
}

/// The titles of the columns `c`.
pub open spec fn title_row(c: Columns) -> Seq<Seq<char>> {
    seq!["Name"@] + cell_if(c.integer, "Int value"@) + cell_if(c.hexadecimal, "Hex value"@)
        + cell_if(c.binary, "Bin value"@) + cell_if(c.count, "Count"@)
}

/// The cells of value `v`, seen `count` times, in columns `c`.
pub open spec fn value_cells(c: Columns, v: u64, count: usize) -> Seq<Seq<char>> {
    cell_if(c.integer, digits(v as nat, 10)) + cell_if(c.hexadecimal, "0x"@ + digits(v as nat, 16))
        + cell_if(c.binary, "0b"@ + digits(v as nat, 2)) + cell_if(c.count, digits(count as nat, 10))
}

/// The rows of register `name` with counts `counts`: one per value, the
/// name in the first one only unless `repeat_names`.
pub open spec fn register_rows(c: Columns, name: Seq<char>, counts: Seq<(u64, usize)>, repeat_names: bool) -> Seq<
    Seq<Seq<char>>,
> {
    Seq::new(
        counts.len(),
        |i: int|
            seq![
                if i == 0 || repeat_names {
                    name
                } else {
                    Seq::empty()
                },
            ] + value_cells(c, counts[i].0, counts[i].1),
    )
}

/// The rows of every register of histogram `h`, in order.
pub open spec fn summary_rows(c: Columns, h: HistogramV, repeat_names: bool) -> Seq<Seq<Seq<char>>>
    decreases h.len(),
{
    if h.len() == 0 {
        Seq::empty()
    } else {
        summary_rows(c, h.drop_last(), repeat_names) + register_rows(c, h.last().0, h.last().1, repeat_names)
    }
}

/// The value of a list of rows of cells.
pub open spec fn rows_view(rows: Seq<Vec<String>>) -> Seq<Seq<Seq<char>>> {
    rows.map_values(|r: Vec<String>| strings_view(r@))
}

/// A histogram that counts each value of memory `m` once.
pub open spec fn memory_histogram(m: Seq<(Seq<char>, u64)>) -> HistogramV {
    m.map_values(|e: (Seq<char>, u64)| (e.0, seq![(e.1, 1usize)]))
}

/// The columns asked for by the flags `binary`, `hexadecimal`, `integer`
/// and `omit_count`.
pub fn columns(binary: bool, hexadecimal: bool, integer: bool, omit_count: bool) -> (c: Columns)
    ensures
        c == columns_of(binary, hexadecimal, integer, omit_count),
{
    Columns {
        integer: if binary || hexadecimal {
            integer
        } else {
            true
        },
        hexadecimal,
        binary,
        count: !omit_count,
    }
}

/// Appends `cell` to `row` when `shown`.
fn push_cell_if(row: &mut Vec<String>, shown: bool, cell: String)
    ensures
        strings_view(final(row)@) == strings_view(old(row)@) + cell_if(shown, cell@),
{
    let ghost before = strings_view(row@);
    if shown {
        row.push(cell);
        assert(strings_view(row@) =~= before + seq![cell@]);
    } else {
        assert(strings_view(row@) =~= before + Seq::<Seq<char>>::empty());
    }
}

/// `prefix` followed by `s`.
fn prefixed(prefix: &str, s: String) -> (r: String)
    ensures
        r@ == prefix@ + s@,
{
    let mut r = String::new();
    string_push_str(&mut r, prefix);
    string_push_str(&mut r, s.as_str());
    r
}

/// The titles of the columns `c`.
fn title_cells(c: Columns) -> (r: Vec<String>)
    ensures
        strings_view(r@) == title_row(c),
{
    let mut r: Vec<String> = Vec::new();
    r.push("Name".to_owned());
    assert(strings_view(r@) =~= seq!["Name"@]);
    push_cell_if(&mut r, c.integer, "Int value".to_owned());
    push_cell_if(&mut r, c.hexadecimal, "Hex value".to_owned());
    push_cell_if(&mut r, c.binary, "Bin value".to_owned());
    push_cell_if(&mut r, c.count, "Count".to_owned());
    r
}

/// The row of value `v`, seen `count` times, with `name` in its first
/// cell.
fn value_row(c: Columns, name: String, v: u64, count: usize) -> (r: Vec<String>)
    ensures
        strings_view(r@) == seq![name@] + value_cells(c, v, count),
{
    let mut r: Vec<String> = Vec::new();
    let ghost nv = name@;
    r.push(name);
    assert(strings_view(r@) =~= seq![nv]);
    if c.integer {
        push_cell_if(&mut r, true, digits_of(v, 10));
    } else {
        push_cell_if(&mut r, false, String::new());
    }
    if c.hexadecimal {
        push_cell_if(&mut r, true, prefixed("0x", digits_of(v, 16)));
    } else {
        push_cell_if(&mut r, false, String::new());
    }
    if c.binary {
        push_cell_if(&mut r, true, prefixed("0b", digits_of(v, 2)));
    } else {
        push_cell_if(&mut r, false, String::new());
    }
    if c.count {
        push_cell_if(&mut r, true, digits_of(count as u64, 10));
    } else {
        push_cell_if(&mut r, false, String::new());
    }
    assert(strings_view(r@) =~= seq![nv] + value_cells(c, v, count));
    r
}

/// The rows summarising `histogram` in the columns asked for by `binary`,
/// `hexadecimal`, `integer` and `omit_count`: first the titles, then one
/// row per value of each register, in order, with the name of the register
/// in the first row of its values only, unless `repeat_names`.
pub fn memory_summary(
    histogram: &Histogram,
    binary: bool,
    hexadecimal: bool,
    integer: bool,
    omit_count: bool,
    repeat_names: bool,
) -> (rows: Vec<Vec<String>>)
    ensures
        rows_view(rows@) == seq![title_row(columns_of(binary, hexadecimal, integer, omit_count))]
            + summary_rows(
            columns_of(binary, hexadecimal, integer, omit_count),
            histogram_view(histogram@),
            repeat_names,
        ),
{
    let c = columns(binary, hexadecimal, integer, omit_count);
    let ghost h = histogram_view(histogram@);
    let mut rows: Vec<Vec<String>> = Vec::new();
    rows.push(title_cells(c));
    assert(rows_view(rows@) =~= seq![title_row(c)]);
    let mut k: usize = 0;
    while k < histogram.len()
        invariant
            k <= histogram@.len(),
            h == histogram_view(histogram@),
            h.len() == histogram@.len(),
            rows_view(rows@) == seq![title_row(c)] + summary_rows(c, h.take(k as int), repeat_names),
        decreases histogram@.len() - k,
    {
        let name = &histogram[k].0;
        let counts = &histogram[k].1;
        let ghost base = rows_view(rows@);
        let ghost regrows = register_rows(c, name@, counts@, repeat_names);
        assert(h[k as int] == (name@, counts@));
        let mut j: usize = 0;
        while j < counts.len()
            invariant
                j <= counts@.len(),
                rows_view(rows@) == base + regrows.take(j as int),
                regrows == register_rows(c, name@, counts@, repeat_names),
            decreases counts@.len() - j,
        {
            let cell = if j == 0 || repeat_names {
                name.clone()
            } else {
                String::new()
            };
            let row = value_row(c, cell, counts[j].0, counts[j].1);
            let ghost rv = strings_view(row@);
            let ghost prev = rows_view(rows@);
            rows.push(row);
            assert(rows_view(rows@) =~= prev.push(rv));
            assert(rv == regrows[j as int]);
            assert(regrows.take(j + 1) =~= regrows.take(j as int).push(regrows[j as int]));
            j += 1;
        }
        assert(regrows.take(j as int) =~= regrows);
        assert(h.take(k + 1).drop_last() =~= h.take(k as int));
        assert(h.take(k + 1).last() == h[k as int]);
        assert(rows_view(rows@) =~= seq![title_row(c)] + summary_rows(c, h.take(k + 1), repeat_names));
        k += 1;
    }
    assert(h.take(k as int) =~= h);
    rows
}

/// A histogram that counts each value of `memory` once, to summarise a
/// single run.
pub fn memory_as_histogram(memory: &Vec<(String, u64)>) -> (r: Histogram)
    ensures
        histogram_view(r@) == memory_histogram(memory_view(memory@)),
{
    let mut r: Histogram = Vec::new();
    let mut k: usize = 0;
    while k < memory.len()
        invariant
            k <= memory@.len(),
            histogram_view(r@) == memory_histogram(memory_view(memory@)).take(k as int),
        decreases memory@.len() - k,
    {
        let mut counts: Vec<(u64, usize)> = Vec::new();
        counts.push((memory[k].1, 1));
        let ghost prev = histogram_view(r@);
        let ghost entry = (memory@[k as int].0@, seq![(memory@[k as int].1, 1usize)]);
        r.push((memory[k].0.clone(), counts));
        assert(histogram_view(r@) =~= prev.push(entry));
        assert(memory_histogram(memory_view(memory@)).take(k + 1) =~= memory_histogram(
            memory_view(memory@),
        ).take(k as int).push(entry));
        k += 1;
    }
    assert(memory_histogram(memory_view(memory@)).take(k as int) =~= memory_histogram(
        memory_view(memory@),
    ));
    r
}

/// Which parts of a report of results are printed.
#[derive(Debug, Clone, Copy, PartialEq, Eq, Structural)]
pub struct Sections {
    /// The histogram of several shots, in place of the memory of one run.
    pub histogram: bool,
    /// The state vector or the probabilities.
    pub state: bool,
    /// The times spent.
    pub times: bool,
    /// A heading before each part.
    pub headings: bool,
}

/// The parts of a report: the histogram when shots were asked for, the
/// memory otherwise; the state only for a single run where the state vector
/// or the probabilities are asked for; the times when asked for; headings
/// when verbose.
pub fn sections(with_shots: bool, statevector: bool, probabilities: bool, times: bool, verbose: u64) -> (s: Sections)
    ensures
        s.histogram == with_shots,
        s.state == ((statevector || probabilities) && !with_shots),
        s.times == times,
        s.headings == (verbose > 0),
{
    Sections {
        histogram: with_shots,
        state: (statevector || probabilities) && !with_shots,
        times,
        headings: verbose > 0,
    }
}

/// The titles of the state table: the base, then the real and imaginary
/// parts of the amplitude when `statevector`, then the probability when
/// `probabilities`.
pub fn state_titles(statevector: bool, probabilities: bool) -> (r: Vec<String>)
    ensures
        strings_view(r@) == seq!["Base"@] + cell_if(statevector, "Real"@) + cell_if(
            statevector,
            "Imaginary"@,
        ) + cell_if(probabilities, "Probability"@),
{
    let mut r: Vec<String> = Vec::new();
    r.push("Base".to_owned());
    assert(strings_view(r@) =~= seq!["Base"@]);
    push_cell_if(&mut r, statevector, "Real".to_owned());
    push_cell_if(&mut r, statevector, "Imaginary".to_owned());
    push_cell_if(&mut r, probabilities, "Probability".to_owned());
    r
}

/// The columns asked for by the output flags: the decimal one exactly when
/// it is asked for or when neither the binary nor the hexadecimal one is;
/// the hexadecimal and binary ones when asked for; the count unless it is
/// left out.
pub proof fn lemma_columns(binary: bool, hexadecimal: bool, integer: bool, omit_count: bool)
    ensures
        columns_of(binary, hexadecimal, integer, omit_count).integer == (integer || (!binary
            && !hexadecimal)),
        columns_of(binary, hexadecimal, integer, omit_count).hexadecimal == hexadecimal,
        columns_of(binary, hexadecimal, integer, omit_count).binary == binary,
        columns_of(binary, hexadecimal, integer, omit_count).count == !omit_count,
{
}

} // verus!
