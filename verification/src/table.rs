//! Tables keyed by names, kept as lists of entries in insertion order.
use vstd::prelude::*;

verus! {

/// The position of the first of `keys` equal to `k`.
pub open spec fn first_index(keys: Seq<Seq<char>>, k: Seq<char>) -> Option<int>
    decreases keys.len(),
{
    if keys.len() == 0 {
        None
    } else {
        match first_index(keys.drop_last(), k) {
            Some(i) => Some(i),
            None => if keys.last() == k {
                Some(keys.len() - 1)
            } else {
                None
            },
        }
    }
}

/// No two of `keys` are equal.
pub open spec fn keys_unique(keys: Seq<Seq<char>>) -> bool {
    forall|i: int, j: int| 0 <= i < j < keys.len() ==> keys[i] != keys[j]
}

/// The names of a table of values.
pub open spec fn names<X>(s: Seq<(Seq<char>, X)>) -> Seq<Seq<char>> {
    s.map_values(|e: (Seq<char>, X)| e.0)
}

/// The value held under `k` in a table of values.
pub open spec fn lookup<X>(s: Seq<(Seq<char>, X)>, k: Seq<char>) -> Option<X> {
    match first_index(names(s), k) {
        Some(i) => Some(s[i].1),
        None => None,
    }
}

/// Table `s` with entry `k` set to `v`: replaced where `k` is present, added
/// at the end otherwise.
pub open spec fn assoc_insert<X>(s: Seq<(Seq<char>, X)>, k: Seq<char>, v: X) -> Seq<(Seq<char>, X)> {
    match first_index(names(s), k) {
        Some(i) => s.update(i, (k, v)),
        None => s.push((k, v)),
    }
}

/// The names of the entries of an executable table.
pub open spec fn keys_of<V>(s: Seq<(String, V)>) -> Seq<Seq<char>> {
    s.map_values(|e: (String, V)| e.0@)
}

/// `first_index` finds the first occurrence, and only where there is one.
pub proof fn lemma_first_index(keys: Seq<Seq<char>>, k: Seq<char>)
    ensures
        match first_index(keys, k) {
            Some(i) => 0 <= i < keys.len() && keys[i] == k && forall|j: int|
                0 <= j < i ==> keys[j] != k,
            None => forall|j: int| 0 <= j < keys.len() ==> keys[j] != k,
        },
    decreases keys.len(),
{
    if keys.len() > 0 {
        lemma_first_index(keys.drop_last(), k);
        assert forall|j: int| 0 <= j < keys.len() - 1 implies keys.drop_last()[j] == keys[j] by {}
    }
}

/// Finding in a table with one more key.
pub proof fn lemma_first_index_push(keys: Seq<Seq<char>>, x: Seq<char>, k: Seq<char>)
    ensures
        first_index(keys.push(x), k) == (match first_index(keys, k) {
            Some(i) => Some(i),
            None => if x == k {
                Some(keys.len() as int)
            } else {
                None
            },
        }),
{
    assert(keys.push(x).drop_last() =~= keys);
}

/// A key that occurs in `keys` is found.
pub proof fn lemma_first_index_found(keys: Seq<Seq<char>>, i: int)
    requires
        0 <= i < keys.len(),
    ensures
        first_index(keys, keys[i]) is Some,
{
    lemma_first_index(keys, keys[i]);
}

/// The position of the entry named `k` in table `v`.
pub fn find<V>(v: &Vec<(String, V)>, k: &String) -> (r: Option<usize>)
    ensures
        match r {
            Some(i) => first_index(keys_of(v@), k@) == Some(i as int) && i < v@.len() && v@[i as int].0@
                == k@,
            None => first_index(keys_of(v@), k@) is None,
        },
{
    proof {
        lemma_first_index(keys_of(v@), k@);
    }
    let mut i: usize = 0;
    while i < v.len()
        invariant
            i <= v@.len(),
            first_index(keys_of(v@).take(i as int), k@) is None,
        decreases v@.len() - i,
    {
        proof {
            lemma_first_index_push(keys_of(v@).take(i as int), v@[i as int].0@, k@);
            assert(keys_of(v@).take(i as int).push(v@[i as int].0@) =~= keys_of(v@).take(i + 1));
        }
        if v[i].0 == *k {
            proof {
                lemma_first_index_prefix(keys_of(v@), i + 1, k@);
            }
            return Some(i);
        }
        i += 1;
    }
    assert(keys_of(v@).take(i as int) =~= keys_of(v@));
    None
}

/// A key found in a prefix is found at the same place in the whole.
pub proof fn lemma_first_index_prefix(keys: Seq<Seq<char>>, n: int, k: Seq<char>)
    requires
        0 <= n <= keys.len(),
        first_index(keys.take(n), k) is Some,
    ensures
        first_index(keys, k) == first_index(keys.take(n), k),
    decreases keys.len() - n,
{
    if n < keys.len() {
        lemma_first_index_push(keys.take(n), keys[n], k);
        assert(keys.take(n).push(keys[n]) =~= keys.take(n + 1));
        lemma_first_index_prefix(keys, n + 1, k);
    } else {
        assert(keys.take(n) =~= keys);
    }
}

} // verus!
