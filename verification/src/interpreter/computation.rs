//! Histograms of the classical outcomes of several simulations.
use vstd::prelude::*;

use crate::table::{find, first_index, keys_of, lemma_first_index, lemma_first_index_push, lookup, names};

verus! {

/// For each classical register, the values it took with how many times it
/// took each, by increasing value.
pub type Histogram = Vec<(String, Vec<(u64, usize)>)>;

/// The value of a list of counts.
pub type CountsV = Seq<(u64, usize)>;

/// `l` with one more occurrence of `v`: its count grows by one, or it is
/// inserted with count one before the first greater value.
pub open spec fn add_value(l: CountsV, v: u64) -> CountsV
    decreases l.len(),
{
    if l.len() == 0 {
        seq![(v, 1usize)]
    } else if l[0].0 == v {
        l.update(0, (v, (l[0].1 + 1) as usize))
    } else if v < l[0].0 {
        seq![(v, 1usize)] + l
    } else {
        seq![l[0]] + add_value(l.skip(1), v)
    }
}

/// The values of `l` increase strictly.
pub open spec fn sorted_values(l: CountsV) -> bool {
    forall|i: int, j: int| 0 <= i < j < l.len() ==> l[i].0 < l[j].0
}

/// How many times `l` counts `x`.
pub open spec fn count_of(l: CountsV, x: u64) -> nat
    decreases l.len(),
{
    if l.len() == 0 {
        0
    } else if l[0].0 == x {
        l[0].1 as nat
    } else {
        count_of(l.skip(1), x)
    }
}

/// Every count of `l` can grow by one.
pub open spec fn counts_below_max(l: CountsV) -> bool {
    forall|i: int| 0 <= i < l.len() ==> #[trigger] l[i].1 < usize::MAX
}

/// Every count of `l` can grow by `n` and one more.
pub open spec fn counts_room(l: CountsV, n: int) -> bool {
    forall|i: int| 0 <= i < l.len() ==> #[trigger] l[i].1 + n < usize::MAX
}

/// The value of a histogram.
pub type HistogramV = Seq<(Seq<char>, CountsV)>;

/// `h` with one more occurrence of value `v` for register `k`.
pub open spec fn hist_add(h: HistogramV, k: Seq<char>, v: u64) -> HistogramV {
    match first_index(names(h), k) {
        Some(i) => h.update(i, (k, add_value(h[i].1, v))),
        None => h.push((k, seq![(v, 1usize)])),
    }
}

/// `h` with the values of `memory` counted once each, in order.
pub open spec fn hist_update(h: HistogramV, memory: Seq<(Seq<char>, u64)>) -> HistogramV
    decreases memory.len(),
{
    if memory.len() == 0 {
        h
    } else {
        hist_update(hist_add(h, memory[0].0, memory[0].1), memory.skip(1))
    }
}

/// Every count of `l` is at least one.
pub open spec fn counts_positive(l: CountsV) -> bool {
    forall|i: int| 0 <= i < l.len() ==> #[trigger] l[i].1 >= 1
}

/// The histogram is well formed: one entry per register, values in
/// increasing order, each counted at least once.
pub open spec fn hist_wf(h: HistogramV) -> bool {
    &&& forall|i: int, j: int| 0 <= i < j < h.len() ==> h[i].0 != h[j].0
    &&& forall|i: int| 0 <= i < h.len() ==> sorted_values(#[trigger] h[i].1)
    &&& forall|i: int| 0 <= i < h.len() ==> counts_positive(#[trigger] h[i].1)
}

/// Every count of `h` can grow by `n` and one more.
pub open spec fn hist_room(h: HistogramV, n: int) -> bool {
    forall|i: int| 0 <= i < h.len() ==> counts_room(#[trigger] h[i].1, n)
}

/// The value of an executable histogram.
pub open spec fn histogram_view(h: Seq<(String, Vec<(u64, usize)>)>) -> HistogramV {
    h.map_values(|e: (String, Vec<(u64, usize)>)| (e.0@, e.1@))
}

/// The value of a classical memory.
pub open spec fn memory_view(m: Seq<(String, u64)>) -> Seq<(Seq<char>, u64)> {
    m.map_values(|e: (String, u64)| (e.0@, e.1))
}

/// Collects the outcomes of several simulations into a histogram.
#[derive(Debug, Clone, PartialEq, Eq)]
pub struct HistogramBuilder {
    histogram: Histogram,
}

impl View for HistogramBuilder {
    type V = HistogramV;

    closed spec fn view(&self) -> HistogramV {
        histogram_view(self.histogram@)
    }
}

/// Where `v` is in sorted `l`: `Ok` with its position, or `Err` with the
/// position of the first greater value.
fn search_value(l: &Vec<(u64, usize)>, v: u64) -> (r: Result<usize, usize>)
    requires
        sorted_values(l@),
    ensures
        match r {
            Ok(i) => i < l@.len() && l@[i as int].0 == v,
            Err(p) => p <= l@.len() && (forall|j: int| 0 <= j < p ==> l@[j].0 < v) && (forall|j: int|
                p <= j < l@.len() ==> l@[j].0 > v),
        },
{
    let mut lo: usize = 0;
    let mut hi: usize = l.len();
    while lo < hi
        invariant
            sorted_values(l@),
            lo <= hi <= l@.len(),
            forall|j: int| 0 <= j < lo ==> l@[j].0 < v,
            forall|j: int| hi <= j < l@.len() ==> l@[j].0 > v,
        decreases hi - lo,
    {
        let mid = lo + (hi - lo) / 2;
        let m = l[mid].0;
        if m == v {
            return Ok(mid);
        } else if m < v {
            lo = mid + 1;
        } else {
            hi = mid;
        }
    }
    Err(lo)
}

/// Adding to a sorted list where the value is found.
proof fn lemma_add_found(l: CountsV, v: u64, i: int)
    requires
        sorted_values(l),
        0 <= i < l.len(),
        l[i].0 == v,
    ensures
        add_value(l, v) == l.update(i, (v, (l[i].1 + 1) as usize)),
    decreases l.len(),
{
    if l[0].0 != v {
        assert(l[0].0 < v);
        lemma_add_found(l.skip(1), v, i - 1);
        assert(seq![l[0]] + l.skip(1).update(i - 1, (v, (l[i].1 + 1) as usize)) =~= l.update(
            i,
            (v, (l[i].1 + 1) as usize),
        ));
    }
}

/// Adding to a sorted list where the value is not found.
proof fn lemma_add_missing(l: CountsV, v: u64, p: int)
    requires
        sorted_values(l),
        0 <= p <= l.len(),
        forall|j: int| 0 <= j < p ==> l[j].0 < v,
        forall|j: int| p <= j < l.len() ==> l[j].0 > v,
    ensures
        add_value(l, v) == l.insert(p, (v, 1usize)),
    decreases l.len(),
{
    if l.len() == 0 {
        assert(l.insert(p, (v, 1usize)) =~= seq![(v, 1usize)]);
    } else if p == 0 {
        assert(l.insert(p, (v, 1usize)) =~= seq![(v, 1usize)] + l);
    } else {
        lemma_add_missing(l.skip(1), v, p - 1);
        assert(seq![l[0]] + l.skip(1).insert(p - 1, (v, 1usize)) =~= l.insert(p, (v, 1usize)));
    }
}

/// `x` is one of the values of `l`.
pub open spec fn has_value(l: CountsV, x: u64) -> bool {
    exists|j: int| 0 <= j < l.len() && l[j].0 == x
}

/// Adding a value keeps the values sorted.
pub proof fn lemma_add_value_sorted(l: CountsV, v: u64)
    requires
        sorted_values(l),
    ensures
        sorted_values(add_value(l, v)),
        forall|i: int|
            0 <= i < add_value(l, v).len() ==> (#[trigger] add_value(l, v)[i]).0 == v || has_value(
                l,
                add_value(l, v)[i].0,
            ),
    decreases l.len(),
{
    let r = add_value(l, v);
    if l.len() > 0 && l[0].0 != v && !(v < l[0].0) {
        let t = l.skip(1);
        lemma_add_value_sorted(t, v);
        let rt = add_value(t, v);
        assert forall|i: int| 0 <= i < rt.len() implies l[0].0 < #[trigger] rt[i].0 by {
            if rt[i].0 != v {
                let j = choose|j: int| 0 <= j < t.len() && t[j].0 == rt[i].0;
                assert(l[j + 1].0 == rt[i].0);
            }
        }
        assert forall|i: int, j: int| 0 <= i < j < r.len() implies r[i].0 < r[j].0 by {
            assert(r[j] == rt[j - 1]);
            if i > 0 {
                assert(r[i] == rt[i - 1]);
            }
        }
        assert forall|i: int| 0 <= i < r.len() implies (#[trigger] r[i]).0 == v || has_value(
            l,
            r[i].0,
        ) by {
            if i > 0 {
                assert(r[i] == rt[i - 1]);
                if r[i].0 != v {
                    let j = choose|j: int| 0 <= j < t.len() && t[j].0 == rt[i - 1].0;
                    assert(l[j + 1].0 == r[i].0);
                }
            }
        }
    } else if l.len() > 0 && v < l[0].0 {
        assert forall|i: int, j: int| 0 <= i < j < r.len() implies r[i].0 < r[j].0 by {
            if i > 0 {
                assert(l[i - 1].0 < l[j - 1].0);
            } else if j > 1 {
                assert(l[0].0 < l[j - 1].0);
            }
        }
        assert forall|i: int| 0 <= i < r.len() implies (#[trigger] r[i]).0 == v || has_value(
            l,
            r[i].0,
        ) by {
            if i > 0 {
                assert(l[i - 1] == r[i]);
            }
        }
    } else if l.len() > 0 {
        assert forall|i: int| 0 <= i < r.len() implies (#[trigger] r[i]).0 == v || has_value(
            l,
            r[i].0,
        ) by {
            assert(l[i].0 == r[i].0);
        }
    }
}

/// Adding `v` adds one to its count and leaves the other counts alone.
pub proof fn lemma_add_value_count(l: CountsV, v: u64, x: u64)
    requires
        sorted_values(l),
        counts_below_max(l),
    ensures
        count_of(add_value(l, v), x) == count_of(l, x) + (if x == v {
            1nat
        } else {
            0nat
        }),
    decreases l.len(),
{
    let r = add_value(l, v);
    if l.len() == 0 {
        assert(r.skip(1) =~= Seq::<(u64, usize)>::empty());
        assert(count_of(r.skip(1), x) == 0);
        assert(count_of(l, x) == 0);
    } else if l[0].0 == v {
        assert(r.skip(1) =~= l.skip(1));
        assert(r[0] == (v, (l[0].1 + 1) as usize));
        if x == v {
            assert(count_of(r, x) == r[0].1);
            assert(count_of(l, x) == l[0].1);
        } else {
            assert(count_of(r, x) == count_of(r.skip(1), x));
            assert(count_of(l, x) == count_of(l.skip(1), x));
        }
    } else if v < l[0].0 {
        assert(r.skip(1) =~= l);
        assert(r[0] == (v, 1usize));
        if x == v {
            lemma_count_absent(l, v);
            assert(count_of(r, x) == 1);
        } else {
            assert(count_of(r, x) == count_of(r.skip(1), x));
        }
    } else {
        let t = l.skip(1);
        assert(sorted_values(t)) by {
            assert forall|i: int, j: int| 0 <= i < j < t.len() implies t[i].0 < t[j].0 by {
                assert(l[i + 1].0 < l[j + 1].0);
            }
        }
        assert(counts_below_max(t)) by {
            assert forall|i: int| 0 <= i < t.len() implies #[trigger] t[i].1 < usize::MAX by {
                assert(t[i] == l[i + 1]);
            }
        }
        lemma_add_value_count(t, v, x);
        assert(r.skip(1) =~= add_value(t, v));
        assert(r[0] == l[0]);
        if x == l[0].0 {
            assert(count_of(r, x) == l[0].1);
            assert(count_of(l, x) == l[0].1);
        } else {
            assert(count_of(r, x) == count_of(r.skip(1), x));
            assert(count_of(l, x) == count_of(t, x));
        }
    }
}

/// A value below the first of a sorted list is not counted.
proof fn lemma_count_absent(l: CountsV, v: u64)
    requires
        sorted_values(l),
        l.len() > 0 ==> v < l[0].0,
    ensures
        count_of(l, v) == 0,
    decreases l.len(),
{
    if l.len() > 1 {
        assert(l[0].0 < l[1].0);
        assert(sorted_values(l.skip(1))) by {
            assert forall|i: int, j: int| 0 <= i < j < l.skip(1).len() implies l.skip(1)[i].0 < l.skip(
                1,
            )[j].0 by {
                assert(l[i + 1].0 < l[j + 1].0);
            }
        }
        assert(l.skip(1)[0] == l[1]);
        lemma_count_absent(l.skip(1), v);
        assert(count_of(l, v) == count_of(l.skip(1), v));
    } else if l.len() == 1 {
        assert(l.skip(1) =~= Seq::<(u64, usize)>::empty());
        assert(count_of(l.skip(1), v) == 0);
        assert(count_of(l, v) == count_of(l.skip(1), v));
    }
}

/// The values of `l` with their counts, one more for `v`.
fn add_value_exec(l: &mut Vec<(u64, usize)>, v: u64)
    requires
        sorted_values(old(l)@),
        counts_below_max(old(l)@),
    ensures
        final(l)@ == add_value(old(l)@, v),
{
    match search_value(l, v) {
        Ok(i) => {
            proof {
                lemma_add_found(l@, v, i as int);
            }
            let c = l[i].1;
            l.set(i, (v, c + 1));
        },
        Err(p) => {
            proof {
                lemma_add_missing(l@, v, p as int);
            }
            l.insert(p, (v, 1));
        },
    }
}

impl HistogramBuilder {
    /// Creates a builder with an empty histogram.
    pub fn new() -> (r: Self)
        ensures
            r@ == Seq::<(Seq<char>, CountsV)>::empty(),
            r.wf(),
    {
        let r = HistogramBuilder { histogram: Vec::new() };
        assert(r@ =~= Seq::<(Seq<char>, CountsV)>::empty());
        r
    }

    /// The histogram is well formed.
    pub open spec fn wf(&self) -> bool {
        hist_wf(self@)
    }

    /// Counts value `v` of register `k` once more.
    fn add(&mut self, k: &String, v: u64)
        requires
            hist_wf(old(self)@),
            hist_room(old(self)@, 0),
        ensures
            final(self)@ == hist_add(old(self)@, k@, v),
    {
        let ghost h = self@;
        assert(names(h) =~= keys_of(self.histogram@));
        match find(&self.histogram, k) {
            Some(i) => {
                let mut entry: (String, Vec<(u64, usize)>) = (String::new(), Vec::new());
                let ghost before = self.histogram@;
                entry = self.histogram.remove(i);
                assert(entry == before[i as int]);
                assert(sorted_values(entry.1@) && counts_below_max(entry.1@)) by {
                    assert(h[i as int].1 == entry.1@);
                    assert(counts_room(h[i as int].1, 0));
                }
                add_value_exec(&mut entry.1, v);
                let ghost ev = (k@, entry.1@);
                self.histogram.insert(i, entry);
                assert(self.histogram@ =~= before.update(i as int, self.histogram@[i as int]));
                assert(self@ =~= h.update(i as int, ev));
            },
            None => {
                let mut counts: Vec<(u64, usize)> = Vec::new();
                counts.push((v, 1));
                let ghost prev = self.histogram@;
                self.histogram.push((k.clone(), counts));
                assert(self@ =~= h.push((k@, seq![(v, 1usize)])));
            },
        }
    }

    /// Whether every count can grow by `n` and one more.
    pub fn has_room(&self, n: usize) -> (b: bool)
        ensures
            b == hist_room(self@, n as int),
    {
        let mut i: usize = 0;
        while i < self.histogram.len()
            invariant
                i <= self.histogram@.len(),
                self@.len() == self.histogram@.len(),
                forall|a: int| 0 <= a < i ==> counts_room(#[trigger] self@[a].1, n as int),
            decreases self.histogram@.len() - i,
        {
            let counts = &self.histogram[i].1;
            assert(counts@ == self@[i as int].1);
            let mut j: usize = 0;
            while j < counts.len()
                invariant
                    i < self@.len(),
                    j <= counts@.len(),
                    counts@ == self@[i as int].1,
                    forall|c: int| 0 <= c < j ==> #[trigger] counts@[c].1 + n < usize::MAX,
                decreases counts@.len() - j,
            {
                if counts[j].1 >= usize::MAX - n {
                    assert(!counts_room(self@[i as int].1, n as int));
                    return false;
                }
                j += 1;
            }
            assert(counts_room(self@[i as int].1, n as int));
            i += 1;
        }
        true
    }

    /// Counts the value of each register of `memory` once more.
    pub fn update(&mut self, memory: &Vec<(String, u64)>)
        requires
            old(self).wf(),
            hist_room(old(self)@, memory@.len() as int),
            memory@.len() < usize::MAX,
        ensures
            final(self).wf(),
            final(self)@ == hist_update(old(self)@, memory_view(memory@)),
    {
        let ghost target = hist_update(self@, memory_view(memory@));
        let mut k: usize = 0;
        assert(memory_view(memory@).skip(0) =~= memory_view(memory@));
        while k < memory.len()
            invariant
                k <= memory@.len(),
                hist_wf(self@),
                hist_update(self@, memory_view(memory@).skip(k as int)) == target,
                hist_room(self@, memory@.len() - k),
                memory@.len() < usize::MAX,
            decreases memory@.len() - k,
        {
            let ghost mv = memory_view(memory@);
            assert(mv.skip(k as int)[0] == (memory@[k as int].0@, memory@[k as int].1));
            assert(mv.skip(k as int).skip(1) =~= mv.skip(k + 1));
            let ghost before = self@;
            self.add(&memory[k].0, memory[k].1);
            proof {
                lemma_hist_room_zero(before, memory@.len() - k);
                lemma_hist_add_wf(before, memory@[k as int].0@, memory@[k as int].1);
                lemma_hist_add_room(before, memory@[k as int].0@, memory@[k as int].1, memory@.len() - k - 1);
            }
            k += 1;
        }
        assert(memory_view(memory@).skip(k as int) =~= Seq::<(Seq<char>, u64)>::empty());
    }

    /// The histogram collected so far.
    pub fn histogram(self) -> (r: Histogram)
        ensures
            histogram_view(r@) == self@,
    {
        self.histogram
    }
}

/// Adding a value uses one of the room of the counts.
proof fn lemma_add_value_room(l: CountsV, v: u64, n: int)
    requires
        counts_room(l, n + 1),
        0 <= n,
        n + 1 < usize::MAX,
    ensures
        counts_room(add_value(l, v), n),
    decreases l.len(),
{
    if l.len() > 0 && l[0].0 != v && !(v < l[0].0) {
        let t = l.skip(1);
        assert(counts_room(t, n + 1)) by {
            assert forall|i: int| 0 <= i < t.len() implies #[trigger] t[i].1 + n + 1 < usize::MAX by {
                assert(t[i] == l[i + 1]);
            }
        }
        lemma_add_value_room(t, v, n);
        let r = add_value(l, v);
        assert forall|i: int| 0 <= i < r.len() implies #[trigger] r[i].1 + n < usize::MAX by {
            if i > 0 {
                assert(r[i] == add_value(t, v)[i - 1]);
            }
        }
    } else if l.len() > 0 && v < l[0].0 {
        let r = add_value(l, v);
        assert forall|i: int| 0 <= i < r.len() implies #[trigger] r[i].1 + n < usize::MAX by {
            if i > 0 {
                assert(r[i] == l[i - 1]);
            }
        }
    } else if l.len() > 0 {
        let r = add_value(l, v);
        assert forall|i: int| 0 <= i < r.len() implies #[trigger] r[i].1 + n < usize::MAX by {
            assert(l[i].1 + n + 1 < usize::MAX);
        }
    }
}

/// Counting a value uses one of the room of the histogram.
proof fn lemma_hist_add_room(h: HistogramV, k: Seq<char>, v: u64, n: int)
    requires
        hist_room(h, n + 1),
        0 <= n,
        n + 1 < usize::MAX,
    ensures
        hist_room(hist_add(h, k, v), n),
{
    lemma_first_index(names(h), k);
    let h2 = hist_add(h, k, v);
    match first_index(names(h), k) {
        Some(i) => {
            lemma_add_value_room(h[i].1, v, n);
            assert forall|a: int| 0 <= a < h2.len() implies counts_room(#[trigger] h2[a].1, n) by {
                if a != i {
                    assert(counts_room(h[a].1, n + 1));
                }
            }
        },
        None => {
            assert forall|a: int| 0 <= a < h2.len() implies counts_room(#[trigger] h2[a].1, n) by {
                if a < h.len() {
                    assert(counts_room(h[a].1, n + 1));
                }
            }
        },
    }
}

/// Adding a value keeps every count at least one.
proof fn lemma_add_value_positive(l: CountsV, v: u64)
    requires
        counts_positive(l),
        counts_below_max(l),
    ensures
        counts_positive(add_value(l, v)),
    decreases l.len(),
{
    if l.len() > 0 && l[0].0 != v && !(v < l[0].0) {
        let t = l.skip(1);
        assert forall|i: int| 0 <= i < t.len() implies #[trigger] t[i].1 >= 1 && t[i].1 < usize::MAX by {
            assert(t[i] == l[i + 1]);
        }
        lemma_add_value_positive(t, v);
        let r = add_value(l, v);
        assert forall|i: int| 0 <= i < r.len() implies #[trigger] r[i].1 >= 1 by {
            if i > 0 {
                assert(r[i] == add_value(t, v)[i - 1]);
            }
        }
    } else if l.len() > 0 && v < l[0].0 {
        let r = add_value(l, v);
        assert forall|i: int| 0 <= i < r.len() implies #[trigger] r[i].1 >= 1 by {
            if i > 0 {
                assert(r[i] == l[i - 1]);
            }
        }
    }
}

/// Room for `n` more counts is room for none.
proof fn lemma_hist_room_zero(h: HistogramV, n: int)
    requires
        hist_room(h, n),
        n >= 0,
    ensures
        hist_room(h, 0),
{
    assert forall|i: int| 0 <= i < h.len() implies counts_room(#[trigger] h[i].1, 0) by {
        assert(counts_room(h[i].1, n));
        assert forall|j: int| 0 <= j < h[i].1.len() implies #[trigger] h[i].1[j].1 + 0 < usize::MAX by {
            assert(h[i].1[j].1 + n < usize::MAX);
        }
    }
}

/// Counting a value keeps a histogram well formed.
pub proof fn lemma_hist_add_wf(h: HistogramV, k: Seq<char>, v: u64)
    requires
        hist_wf(h),
        hist_room(h, 0),
    ensures
        hist_wf(hist_add(h, k, v)),
{
    lemma_first_index(names(h), k);
    match first_index(names(h), k) {
        Some(i) => {
            lemma_add_value_sorted(h[i].1, v);
            assert(counts_below_max(h[i].1)) by {
                assert(counts_room(h[i].1, 0));
            }
            lemma_add_value_positive(h[i].1, v);
            let h2 = hist_add(h, k, v);
            assert forall|a: int, b: int| 0 <= a < b < h2.len() implies h2[a].0 != h2[b].0 by {
                assert(names(h)[i] == k);
            }
        },
        None => {
            let h2 = hist_add(h, k, v);
            assert forall|a: int, b: int| 0 <= a < b < h2.len() implies h2[a].0 != h2[b].0 by {
                if b == h.len() {
                    assert(names(h)[a] != k);
                }
            }
            assert(sorted_values(seq![(v, 1usize)]));
        },
    }
}


/// How many times histogram `h` counts value `x` for register `k`.
pub open spec fn hist_count(h: HistogramV, k: Seq<char>, x: u64) -> nat {
    match lookup(h, k) {
        Some(l) => count_of(l, x),
        None => 0,
    }
}

/// Counting value `v` for register `k` adds one to that count and leaves
/// every other count of every register alone.
pub proof fn lemma_hist_add_count(h: HistogramV, k: Seq<char>, v: u64, k2: Seq<char>, x: u64)
    requires
        hist_wf(h),
        hist_room(h, 0),
    ensures
        hist_count(hist_add(h, k, v), k2, x) == hist_count(h, k2, x) + (if k2 == k && x == v {
            1nat
        } else {
            0nat
        }),
{
    let h2 = hist_add(h, k, v);
    lemma_first_index(names(h), k);
    lemma_first_index(names(h), k2);
    match first_index(names(h), k) {
        Some(i) => {
            assert(names(h2) =~= names(h).update(i, k)) by {
                assert(names(h)[i] == k);
            }
            assert(names(h2) =~= names(h));
            assert(counts_below_max(h[i].1)) by {
                assert(counts_room(h[i].1, 0));
            }
            lemma_add_value_count(h[i].1, v, x);
        },
        None => {
            assert(names(h2) =~= names(h).push(k));
            lemma_first_index_push(names(h), k, k2);
            if k2 == k {
                assert(count_of(seq![(v, 1usize)], x) == (if x == v {
                    1nat
                } else {
                    0nat
                })) by {
                    reveal_with_fuel(count_of, 2);
                    assert(seq![(v, 1usize)].skip(1) =~= Seq::<(u64, usize)>::empty());
                }
            }
        },
    }
}

/// How many entries of `memory` hold value `x` for register `k`.
pub open spec fn occurrences(memory: Seq<(Seq<char>, u64)>, k: Seq<char>, x: u64) -> nat
    decreases memory.len(),
{
    if memory.len() == 0 {
        0
    } else {
        (if memory[0] == (k, x) {
            1nat
        } else {
            0nat
        }) + occurrences(memory.skip(1), k, x)
    }
}

/// Counting the values of a memory adds to the count of each value of each
/// register the number of times the memory holds that value for that
/// register.
pub proof fn lemma_hist_update_count(h: HistogramV, memory: Seq<(Seq<char>, u64)>, k: Seq<char>, x: u64)
    requires
        hist_wf(h),
        hist_room(h, memory.len() as int),
        memory.len() < usize::MAX,
    ensures
        hist_count(hist_update(h, memory), k, x) == hist_count(h, k, x) + occurrences(memory, k, x),
    decreases memory.len(),
{
    if memory.len() > 0 {
        let (k0, v0) = memory[0];
        assert(hist_room(h, 0)) by {
            assert forall|i: int| 0 <= i < h.len() implies counts_room(#[trigger] h[i].1, 0) by {
                assert(counts_room(h[i].1, memory.len() as int));
                assert forall|j: int| 0 <= j < h[i].1.len() implies #[trigger] h[i].1[j].1 + 0 < usize::MAX by {
                    assert(h[i].1[j].1 + memory.len() < usize::MAX);
                }
            }
        }
        lemma_hist_add_count(h, k0, v0, k, x);
        lemma_hist_add_wf(h, k0, v0);
        lemma_hist_add_room(h, k0, v0, memory.len() - 1);
        lemma_hist_update_count(hist_add(h, k0, v0), memory.skip(1), k, x);
    }
}

/// The counts of register `k` in histogram `h`, none if it has none.
pub open spec fn counts_of_register(h: HistogramV, k: Seq<char>) -> CountsV {
    match lookup(h, k) {
        Some(l) => l,
        None => Seq::empty(),
    }
}

/// Counting value `v` for register `k` gives `k` its counts with `v` added,
/// and leaves the counts of every other register as they were.
pub proof fn lemma_hist_add_entry(h: HistogramV, k: Seq<char>, v: u64, k2: Seq<char>)
    ensures
        lookup(hist_add(h, k, v), k2) == if k2 == k {
            Some(add_value(counts_of_register(h, k), v))
        } else {
            lookup(h, k2)
        },
{
    let h2 = hist_add(h, k, v);
    lemma_first_index(names(h), k);
    lemma_first_index(names(h), k2);
    match first_index(names(h), k) {
        Some(i) => {
            assert(names(h)[i] == k);
            assert(names(h2) =~= names(h));
        },
        None => {
            assert(names(h2) =~= names(h).push(k));
            lemma_first_index_push(names(h), k, k2);
            assert(add_value(Seq::<(u64, usize)>::empty(), v) == seq![(v, 1usize)]);
        },
    }
}

/// Counting the values of a memory leaves alone the counts of every
/// register that the memory does not hold, and keeps every register that
/// the histogram had.
pub proof fn lemma_hist_update_untouched(h: HistogramV, memory: Seq<(Seq<char>, u64)>, k: Seq<char>)
    ensures
        (forall|j: int| 0 <= j < memory.len() ==> #[trigger] memory[j].0 != k) ==> lookup(
            hist_update(h, memory),
            k,
        ) == lookup(h, k),
        lookup(h, k) is Some ==> lookup(hist_update(h, memory), k) is Some,
    decreases memory.len(),
{
    if memory.len() > 0 {
        let (k0, v0) = memory[0];
        lemma_hist_add_entry(h, k0, v0, k);
        lemma_hist_update_untouched(hist_add(h, k0, v0), memory.skip(1), k);
        if forall|j: int| 0 <= j < memory.len() ==> #[trigger] memory[j].0 != k {
            assert(memory[0].0 != k);
            assert forall|j: int| 0 <= j < memory.skip(1).len() implies #[trigger] memory.skip(1)[j].0 != k by {
                assert(memory.skip(1)[j] == memory[j + 1]);
            }
        }
    }
}

} // verus!
