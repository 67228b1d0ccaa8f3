//! The textual syntax of a decimal floating-point literal, as the standard
//! library's `f64` parser accepts it:
//!
//! ```text
//! Float    ::= Sign? ( 'inf' | 'infinity' | 'nan' | Number )
//! Number   ::= ( Digit+ | Digit+ '.' Digit* | Digit* '.' Digit+ ) Exp?
//! Exp      ::= 'e' Sign? Digit+
//! Sign     ::= [+-]
//! Digit    ::= [0-9]
//! ```
//!
//! Letters are matched without regard to case. Out-of-range magnitudes still
//! parse (to an infinity or zero), so the syntax alone decides success.
use vstd::prelude::*;

verus! {

pub open spec fn is_digit(c: char) -> bool {
    '0' <= c && c <= '9'
}

pub open spec fn all_digits(s: Seq<char>) -> bool {
    forall|i: int| 0 <= i < s.len() ==> is_digit(#[trigger] s[i])
}

/// One or more decimal digits.
pub open spec fn digits1(s: Seq<char>) -> bool {
    s.len() > 0 && all_digits(s)
}

pub open spec fn is_sign(c: char) -> bool {
    c == '+' || c == '-'
}

/// `s` without one leading sign, if it has one.
pub open spec fn unsigned_part(s: Seq<char>) -> Seq<char> {
    if s.len() > 0 && is_sign(s[0]) {
        s.skip(1)
    } else {
        s
    }
}

/// Digits with at most one decimal point, and at least one digit.
pub open spec fn mantissa(m: Seq<char>) -> bool {
    digits1(m) || (exists|k: int|
        0 <= k < m.len() && m[k] == '.' && all_digits(#[trigger] m.take(k)) && all_digits(
            m.skip(k + 1),
        ) && m.len() >= 2)
}

/// `e` or `E`, an optional sign, and one or more digits.
pub open spec fn exponent(t: Seq<char>) -> bool {
    t.len() > 0 && (t[0] == 'e' || t[0] == 'E') && digits1(unsigned_part(t.skip(1)))
}

/// A mantissa followed by an optional exponent.
pub open spec fn decimal(s: Seq<char>) -> bool {
    exists|e: int|
        0 <= e <= s.len() && mantissa(#[trigger] s.take(e)) && (e == s.len() || exponent(
            s.skip(e),
        ))
}

/// `s` spells the word whose lower-case form is `lo` and upper-case form is
/// `up`, each letter in either case.
pub open spec fn word_ci(s: Seq<char>, lo: Seq<char>, up: Seq<char>) -> bool {
    s.len() == lo.len() && s.len() == up.len() && forall|i: int|
        0 <= i < s.len() ==> #[trigger] s[i] == lo[i] || s[i] == up[i]
}

pub open spec fn special_value(s: Seq<char>) -> bool {
    word_ci(s, seq!['i', 'n', 'f'], seq!['I', 'N', 'F']) || word_ci(
        s,
        seq!['i', 'n', 'f', 'i', 'n', 'i', 't', 'y'],
        seq!['I', 'N', 'F', 'I', 'N', 'I', 'T', 'Y'],
    ) || word_ci(s, seq!['n', 'a', 'n'], seq!['N', 'A', 'N'])
}

/// `s` is accepted as a 64-bit floating-point number.
pub open spec fn float_literal(s: Seq<char>) -> bool {
    special_value(unsigned_part(s)) || decimal(unsigned_part(s))
}

/// The characters of `s`, in order.
pub fn chars_of(s: &str) -> (r: Vec<char>)
    ensures
        r@ == s@,
{
    let mut out: Vec<char> = Vec::new();
    for c in it: s.chars()
        invariant
            out@ == it.seq().take(it.index() as int),
    {
        out.push(c);
    }
    out
}

fn is_digit_char(c: char) -> (r: bool)
    ensures
        r == is_digit(c),
{
    '0' <= c && c <= '9'
}

/// The end of the run of digits that starts at `lo`.
fn digit_run_end(cs: &Vec<char>, lo: usize, hi: usize) -> (e: usize)
    requires
        lo <= hi <= cs.len(),
    ensures
        lo <= e <= hi,
        all_digits(cs@.subrange(lo as int, e as int)),
        e < hi ==> !is_digit(cs@[e as int]),
{
    let mut e: usize = lo;
    while e < hi && is_digit_char(cs[e])
        invariant
            lo <= e <= hi <= cs.len(),
            all_digits(cs@.subrange(lo as int, e as int)),
        decreases hi - e,
    {
        assert(cs@.subrange(lo as int, e + 1) == cs@.subrange(lo as int, e as int).push(cs@[e as int]));
        e += 1;
    }
    e
}

/// The end of the run of digits and decimal points that starts at `lo`.
fn number_run_end(cs: &Vec<char>, lo: usize, hi: usize) -> (e: usize)
    requires
        lo <= hi <= cs.len(),
    ensures
        lo <= e <= hi,
        forall|i: int| lo <= i < e ==> is_digit(#[trigger] cs@[i]) || cs@[i] == '.',
        e < hi ==> !is_digit(cs@[e as int]) && cs@[e as int] != '.',
{
    let mut e: usize = lo;
    while e < hi && (is_digit_char(cs[e]) || cs[e] == '.')
        invariant
            lo <= e <= hi <= cs.len(),
            forall|i: int| lo <= i < e ==> is_digit(#[trigger] cs@[i]) || cs@[i] == '.',
        decreases hi - e,
    {
        e += 1;
    }
    e
}


proof fn lemma_mantissa_chars(m: Seq<char>)
    requires
        mantissa(m),
    ensures
        forall|i: int| 0 <= i < m.len() ==> is_digit(#[trigger] m[i]) || m[i] == '.',
{
    if !digits1(m) {
        let k = choose|k: int|
            0 <= k < m.len() && m[k] == '.' && all_digits(#[trigger] m.take(k)) && all_digits(
                m.skip(k + 1),
            ) && m.len() >= 2;
        assert forall|i: int| 0 <= i < m.len() implies is_digit(#[trigger] m[i]) || m[i] == '.' by {
            if i < k {
                assert(m.take(k)[i] == m[i]);
            } else if i > k {
                assert(m.skip(k + 1)[i - k - 1] == m[i]);
            }
        }
    }
}

/// Whether `cs[lo..hi]`, made of digits and decimal points, is a mantissa.
fn is_mantissa(cs: &Vec<char>, lo: usize, hi: usize) -> (r: bool)
    requires
        lo <= hi <= cs.len(),
        forall|i: int| lo <= i < hi ==> is_digit(#[trigger] cs@[i]) || cs@[i] == '.',
    ensures
        r == mantissa(cs@.subrange(lo as int, hi as int)),
{
    let ghost m = cs@.subrange(lo as int, hi as int);
    let a = digit_run_end(cs, lo, hi);
    if a == hi {
        assert(m == cs@.subrange(lo as int, a as int));
        hi > lo
    } else {
        let ghost ka = a - lo;
        assert(m[ka] == cs@[a as int]);
        assert(m[ka] == '.');
        assert(!digits1(m));
        let b = digit_run_end(cs, a + 1, hi);
        let r = b == hi && hi - lo >= 2;
        assert(m.take(ka) == cs@.subrange(lo as int, a as int));
        if r {
            assert(m.skip(ka + 1) == cs@.subrange(a + 1, hi as int));
        } else {
            assert forall|k: int|
                0 <= k < m.len() && m[k] == '.' && all_digits(#[trigger] m.take(k)) && all_digits(
                    m.skip(k + 1),
                ) implies m.len() < 2 by {
                if k < ka {
                    assert(cs@.subrange(lo as int, a as int)[k] == m[k]);
                } else if k > ka {
                    assert(m.take(k)[ka] == m[ka]);
                } else {
                    if b < hi {
                        assert(m.skip(k + 1)[b - a - 1] == cs@[b as int]);
                    }
                }
            }
        }
        r
    }
}

/// Whether `cs[lo..hi]` is an exponent.
fn is_exponent(cs: &Vec<char>, lo: usize, hi: usize) -> (r: bool)
    requires
        lo <= hi <= cs.len(),
    ensures
        r == exponent(cs@.subrange(lo as int, hi as int)),
{
    let ghost t = cs@.subrange(lo as int, hi as int);
    if lo == hi || (cs[lo] != 'e' && cs[lo] != 'E') {
        return false;
    }
    let mut k: usize = lo + 1;
    assert(t.skip(1) == cs@.subrange(k as int, hi as int));
    if k < hi && (cs[k] == '+' || cs[k] == '-') {
        k = k + 1;
    }
    assert(unsigned_part(t.skip(1)) == cs@.subrange(k as int, hi as int));
    let d = digit_run_end(cs, k, hi);
    if d < hi {
        assert(cs@.subrange(k as int, hi as int)[d - k] == cs@[d as int]);
    } else {
        assert(cs@.subrange(k as int, hi as int) == cs@.subrange(k as int, d as int));
    }
    d == hi && hi > k
}

/// Whether `cs[lo..hi]` spells the word with the letters of `low` and `up`.
fn word_matches(cs: &Vec<char>, lo: usize, hi: usize, low: &Vec<char>, up: &Vec<char>) -> (r: bool)
    requires
        lo <= hi <= cs.len(),
    ensures
        r == word_ci(cs@.subrange(lo as int, hi as int), low@, up@),
{
    let ghost t = cs@.subrange(lo as int, hi as int);
    if hi - lo != low.len() || hi - lo != up.len() {
        return false;
    }
    let mut i: usize = 0;
    while i < low.len()
        invariant
            lo <= hi <= cs.len(),
            hi - lo == low.len(),
            hi - lo == up.len(),
            i <= low.len(),
            t == cs@.subrange(lo as int, hi as int),
            forall|j: int| 0 <= j < i ==> #[trigger] t[j] == low@[j] || t[j] == up@[j],
        decreases low.len() - i,
    {
        let c = cs[lo + i];
        assert(t[i as int] == c);
        if !(c == low[i] || c == up[i]) {
            return false;
        }
        i += 1;
    }
    true
}

/// Whether `s` parses as a 64-bit floating-point number.
pub fn is_float_literal(s: &str) -> (r: bool)
    ensures
        r == float_literal(s@),
{
    let cs = chars_of(s);
    let n = cs.len();
    let start: usize = if n > 0 && (cs[0] == '+' || cs[0] == '-') {
        1
    } else {
        0
    };
    let ghost u = unsigned_part(s@);
    assert(u == cs@.subrange(start as int, n as int));
    if word_matches(&cs, start, n, &vec!['i', 'n', 'f'], &vec!['I', 'N', 'F']) || word_matches(
        &cs,
        start,
        n,
        &vec!['i', 'n', 'f', 'i', 'n', 'i', 't', 'y'],
        &vec!['I', 'N', 'F', 'I', 'N', 'I', 'T', 'Y'],
    ) || word_matches(&cs, start, n, &vec!['n', 'a', 'n'], &vec!['N', 'A', 'N']) {
        return true;
    }
    let p = number_run_end(&cs, start, n);
    let ghost q = p - start;
    assert(u.take(q) == cs@.subrange(start as int, p as int));
    assert(u.skip(q) == cs@.subrange(p as int, n as int));
    let r = is_mantissa(&cs, start, p) && (p == n || is_exponent(&cs, p, n));
    if !r {
        assert forall|e: int|
            0 <= e <= u.len() && mantissa(#[trigger] u.take(e)) implies !(e == u.len() || exponent(
                u.skip(e),
            )) by {
            lemma_mantissa_chars(u.take(e));
            if e < q {
                assert(u.take(e) != u.take(q) || e == q);
                assert(u.skip(e)[0] == cs@[start + e]);
            } else if e > q {
                assert(u.take(e)[q] == cs@[p as int]);
            }
        }
    }
    r
}
} // verus!
