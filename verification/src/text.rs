//! Character-level helpers for building and reading strings.
use vstd::prelude::*;

verus! {

/// Collects the characters of `s` in order.
pub fn chars_of(s: &str) -> (r: Vec<char>)
    ensures
        r@ == s@,
{
    let mut r: Vec<char> = Vec::new();
    for c in it: s.chars()
        invariant
            r@ == it.seq().take(it.index() as int),
            it.seq() == s@,
    {
        r.push(c);
    }
    r
}

} // verus!

verus! {

/// Appends `c` to `s`.
///
/// Wraps `String::push`, which std documents as appending the character to
/// the end of the string.
#[verifier::external_body]
pub(crate) fn string_push(s: &mut String, c: char)
    ensures
        final(s)@ == old(s)@.push(c),
{
    s.push(c)
}

/// Appends all of `t` to `s`.
///
/// Wraps `String::push_str`, which std documents as appending the string
/// slice to the end of the string.
#[verifier::external_body]
pub(crate) fn string_push_str(s: &mut String, t: &str)
    ensures
        final(s)@ == old(s)@ + t@,
{
    s.push_str(t)
}

/// Appends the characters `src[from..to]` to `s`.
pub fn push_chars(s: &mut String, src: &Vec<char>, from: usize, to: usize)
    requires
        from <= to <= src@.len(),
    ensures
        final(s)@ == old(s)@ + src@.subrange(from as int, to as int),
{
    let mut i = from;
    while i < to
        invariant
            from <= i <= to <= src@.len(),
            s@ == old(s)@ + src@.subrange(from as int, i as int),
        decreases to - i,
    {
        string_push(s, src[i]);
        i += 1;
        assert(s@ =~= old(s)@ + src@.subrange(from as int, i as int));
    }
}

/// Builds a string holding the characters `src[from..to]`.
pub fn string_of_range(src: &Vec<char>, from: usize, to: usize) -> (r: String)
    requires
        from <= to <= src@.len(),
    ensures
        r@ == src@.subrange(from as int, to as int),
{
    let mut r = String::new();
    push_chars(&mut r, src, from, to);
    assert(r@ =~= src@.subrange(from as int, to as int));
    r
}

/// Builds a string holding all the characters of `src`.
pub fn string_of_chars(src: &Vec<char>) -> (r: String)
    ensures
        r@ == src@,
{
    let r = string_of_range(src, 0, src.len());
    assert(src@.subrange(0, src@.len() as int) =~= src@);
    r
}

/// The digit character for `d`: `0` to `9`, then `a` to `f` for ten to
/// fifteen.
pub open spec fn digit_char(d: nat) -> char {
    if d == 0 { '0' }
    else if d == 1 { '1' }
    else if d == 2 { '2' }
    else if d == 3 { '3' }
    else if d == 4 { '4' }
    else if d == 5 { '5' }
    else if d == 6 { '6' }
    else if d == 7 { '7' }
    else if d == 8 { '8' }
    else if d == 9 { '9' }
    else if d == 10 { 'a' }
    else if d == 11 { 'b' }
    else if d == 12 { 'c' }
    else if d == 13 { 'd' }
    else if d == 14 { 'e' }
    else { 'f' }
}

/// The decimal representation of `n`, without sign or leading zeros.
pub open spec fn decimal(n: nat) -> Seq<char>
    decreases n,
{
    if n < 10 {
        seq![digit_char(n)]
    } else {
        decimal(n / 10).push(digit_char(n % 10))
    }
}

/// The representation of `n` in base `base`, from two to sixteen, with
/// lowercase digits and without sign or leading zeros.
pub open spec fn digits(n: nat, base: nat) -> Seq<char>
    decreases n,
{
    if base < 2 || n < base {
        seq![digit_char(n)]
    } else {
        proof {
            assert(n / base < n) by (nonlinear_arith)
                requires
                    base >= 2,
                    n >= base,
            ;
        }
        digits(n / base, base).push(digit_char(n % base))
    }
}

/// The decimal representation is the representation in base ten.
pub proof fn lemma_decimal_digits(n: nat)
    ensures
        decimal(n) == digits(n, 10),
    decreases n,
{
    if n >= 10 {
        lemma_decimal_digits(n / 10);
    }
}

/// The character of digit `d`, below sixteen.
fn digit_char_of(d: u64) -> (c: char)
    requires
        d < 16,
    ensures
        c == digit_char(d as nat),
{
    if d == 0 { '0' }
    else if d == 1 { '1' }
    else if d == 2 { '2' }
    else if d == 3 { '3' }
    else if d == 4 { '4' }
    else if d == 5 { '5' }
    else if d == 6 { '6' }
    else if d == 7 { '7' }
    else if d == 8 { '8' }
    else if d == 9 { '9' }
    else if d == 10 { 'a' }
    else if d == 11 { 'b' }
    else if d == 12 { 'c' }
    else if d == 13 { 'd' }
    else if d == 14 { 'e' }
    else { 'f' }
}

/// The representation of `n` in base `base`.
pub fn digits_of(n: u64, base: u64) -> (r: String)
    requires
        2 <= base <= 16,
    ensures
        r@ == digits(n as nat, base as nat),
{
    let mut m = n;
    let mut low: Vec<char> = Vec::new();
    while m >= base
        invariant
            2 <= base <= 16,
            digits(n as nat, base as nat) == digits(m as nat, base as nat) + low@.reverse(),
        decreases m,
    {
        let d = m % base;
        let c = digit_char_of(d);
        let ghost before = low@;
        low.push(c);
        assert(low@.reverse() =~= seq![c] + before.reverse());
        assert(m / base < m) by (nonlinear_arith)
            requires
                base >= 2,
                m >= base,
        ;
        assert(digits(m as nat, base as nat) == digits((m / base) as nat, base as nat).push(c));
        assert(digits((m / base) as nat, base as nat).push(c) + before.reverse() =~= digits(
            (m / base) as nat,
            base as nat,
        ) + low@.reverse());
        m = m / base;
    }
    let mut r = String::new();
    string_push(&mut r, digit_char_of(m));
    assert(digits(m as nat, base as nat) == seq![digit_char(m as nat)]);
    let mut i = low.len();
    while i > 0
        invariant
            i <= low@.len(),
            r@ == seq![digit_char(m as nat)] + low@.reverse().take(low@.len() - i),
        decreases i,
    {
        i -= 1;
        let ghost before = r@;
        string_push(&mut r, low[i]);
        assert(low@.reverse()[low@.len() - i - 1] == low@[i as int]);
        assert(low@.reverse().take(low@.len() - i) =~= low@.reverse().take(low@.len() - i - 1).push(
            low@[i as int],
        ));
        assert(r@ =~= seq![digit_char(m as nat)] + low@.reverse().take(low@.len() - i));
    }
    assert(low@.reverse().take(low@.len() as int) =~= low@.reverse());
    r
}

/// The decimal representation of `n`.
pub fn u64_to_string(n: u64) -> (r: String)
    ensures
        r@ == decimal(n as nat),
{
    proof {
        lemma_decimal_digits(n as nat);
    }
    digits_of(n, 10)
}

/// The decimal representation of `n`.
pub fn usize_to_string(n: usize) -> (r: String)
    ensures
        r@ == decimal(n as nat),
{
    u64_to_string(n as u64)
}

} // verus!
