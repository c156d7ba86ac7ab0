//! Text handling on spans: a span `[lo, hi)` names the characters `s[lo..hi]` of a
//! text `s`. Searching, trimming and number parsing all keep to the rules of Rust's
//! string methods (`starts_with`, `find`, `trim`, `trim_end_matches`) and of its
//! integer parsing (`str::parse`).
use vstd::prelude::*;

verus! {

/// Unicode `White_Space` characters, as recognised by `char::is_whitespace`.
pub open spec fn is_ws(c: char) -> bool {
    ||| '\u{9}' <= c <= '\u{d}'
    ||| c == ' '
    ||| c == '\u{85}'
    ||| c == '\u{a0}'
    ||| c == '\u{1680}'
    ||| '\u{2000}' <= c <= '\u{200a}'
    ||| c == '\u{2028}'
    ||| c == '\u{2029}'
    ||| c == '\u{202f}'
    ||| c == '\u{205f}'
    ||| c == '\u{3000}'
}

pub fn is_whitespace(c: char) -> (res: bool)
    ensures
        res == is_ws(c),
{
    ('\u{9}' <= c && c <= '\u{d}') || c == ' ' || c == '\u{85}' || c == '\u{a0}' || c == '\u{1680}'
        || ('\u{2000}' <= c && c <= '\u{200a}') || c == '\u{2028}' || c == '\u{2029}' || c == '\u{202f}'
        || c == '\u{205f}' || c == '\u{3000}'
}

/// A span of `s`: `lo <= hi <= s.len()`.
pub open spec fn valid_span(s: Seq<char>, lo: int, hi: int) -> bool {
    0 <= lo <= hi <= s.len()
}

/// Whether `s[lo..hi]` starts with `p`.
pub open spec fn span_starts_with(s: Seq<char>, lo: int, hi: int, p: Seq<char>) -> bool {
    hi - lo >= p.len() && s.subrange(lo, lo + p.len()) == p
}

/// Whether `s[lo..hi]` ends with `p`.
pub open spec fn span_ends_with(s: Seq<char>, lo: int, hi: int, p: Seq<char>) -> bool {
    hi - lo >= p.len() && s.subrange(hi - p.len(), hi) == p
}

/// Whether `s[lo..hi]` is exactly `p`.
pub open spec fn span_is(s: Seq<char>, lo: int, hi: int, p: Seq<char>) -> bool {
    s.subrange(lo, hi) == p
}

/// The first position `i >= from` at which `p` occurs inside `s[..hi]`.
pub open spec fn find_in(s: Seq<char>, from: int, hi: int, p: Seq<char>) -> Option<int>
    decreases hi - from,
{
    if from + p.len() > hi {
        None
    } else if p.len() == 0 || s.subrange(from, from + p.len()) == p {
        Some(from)
    } else {
        find_in(s, from + 1, hi, p)
    }
}

/// Start of `s[lo..hi]` after leading whitespace is removed.
pub open spec fn trim_lo(s: Seq<char>, lo: int, hi: int) -> int
    decreases hi - lo,
{
    if lo < hi && is_ws(s[lo]) {
        trim_lo(s, lo + 1, hi)
    } else {
        lo
    }
}

/// End of `s[lo..hi]` after trailing whitespace is removed.
pub open spec fn trim_hi(s: Seq<char>, lo: int, hi: int) -> int
    decreases hi - lo,
{
    if lo < hi && is_ws(s[hi - 1]) {
        trim_hi(s, lo, hi - 1)
    } else {
        hi
    }
}

/// End of `s[lo..hi]` after every trailing copy of the non-empty `p` is removed.
pub open spec fn strip_suffixes(s: Seq<char>, lo: int, hi: int, p: Seq<char>) -> int
    decreases hi - lo,
{
    if p.len() > 0 && span_ends_with(s, lo, hi, p) {
        strip_suffixes(s, lo, hi - p.len(), p)
    } else {
        hi
    }
}

/// Whether `s[lo..hi]` starts with `p`.
pub fn starts_with(s: &Vec<char>, lo: usize, hi: usize, p: &Vec<char>) -> (res: bool)
    requires
        valid_span(s@, lo as int, hi as int),
    ensures
        res == span_starts_with(s@, lo as int, hi as int, p@),
{
    if hi - lo < p.len() {
        return false;
    }
    let n = p.len();
    for i in 0..n
        invariant
            n == p@.len(),
            valid_span(s@, lo as int, hi as int),
            hi - lo >= n,
            forall|j: int| 0 <= j < i ==> s@[lo + j] == p@[j],
    {
        if s[lo + i] != p[i] {
            assert(s@.subrange(lo as int, lo + n)[i as int] != p@[i as int]);
            return false;
        }
    }
    assert(s@.subrange(lo as int, lo + n) =~= p@);
    true
}

/// Whether `s[lo..hi]` ends with `p`.
pub fn ends_with(s: &Vec<char>, lo: usize, hi: usize, p: &Vec<char>) -> (res: bool)
    requires
        valid_span(s@, lo as int, hi as int),
    ensures
        res == span_ends_with(s@, lo as int, hi as int, p@),
{
    if hi - lo < p.len() {
        return false;
    }
    let start = hi - p.len();
    let r = starts_with(s, start, hi, p);
    assert(s@.subrange(start as int, start + p@.len()) == s@.subrange(hi - p@.len(), hi as int));
    r
}

/// Whether `s[lo..hi]` is exactly `p`.
pub fn is_exactly(s: &Vec<char>, lo: usize, hi: usize, p: &Vec<char>) -> (res: bool)
    requires
        valid_span(s@, lo as int, hi as int),
    ensures
        res == span_is(s@, lo as int, hi as int, p@),
{
    if hi - lo != p.len() {
        assert(s@.subrange(lo as int, hi as int).len() != p@.len());
        return false;
    }
    let r = starts_with(s, lo, hi, p);
    assert(s@.subrange(lo as int, lo + p@.len()) == s@.subrange(lo as int, hi as int));
    r
}

/// The first position at or after `from` where `p` occurs inside `s[..hi]`.
pub fn find(s: &Vec<char>, from: usize, hi: usize, p: &Vec<char>) -> (res: Option<usize>)
    requires
        valid_span(s@, from as int, hi as int),
    ensures
        res == (match find_in(s@, from as int, hi as int, p@) {
            Some(i) => Some(i as usize),
            None => None::<usize>,
        }),
        res matches Some(i) ==> from <= i && i + p@.len() <= hi,
{
    if p.len() == 0 {
        return Some(from);
    }
    let mut i = from;
    while i <= hi && hi - i >= p.len()
        invariant
            p@.len() > 0,
            valid_span(s@, from as int, hi as int),
            from <= i,
            find_in(s@, from as int, hi as int, p@) == find_in(s@, i as int, hi as int, p@),
        decreases hi - i,
    {
        if starts_with(s, i, hi, p) {
            return Some(i);
        }
        i = i + 1;
    }
    None
}

/// The span left after removing whitespace from both ends of `s[lo..hi]`.
pub fn trim(s: &Vec<char>, lo: usize, hi: usize) -> (res: (usize, usize))
    requires
        valid_span(s@, lo as int, hi as int),
    ensures
        res.0 == trim_lo(s@, lo as int, hi as int),
        res.1 == trim_hi(s@, res.0 as int, hi as int),
        lo <= res.0 <= res.1 <= hi,
{
    let mut a = lo;
    while a < hi && is_whitespace(s[a])
        invariant
            lo <= a <= hi,
            hi <= s@.len(),
            trim_lo(s@, lo as int, hi as int) == trim_lo(s@, a as int, hi as int),
        decreases hi - a,
    {
        a = a + 1;
    }
    let mut b = hi;
    while a < b && is_whitespace(s[b - 1])
        invariant
            a <= b <= hi,
            hi <= s@.len(),
            trim_hi(s@, a as int, hi as int) == trim_hi(s@, a as int, b as int),
        decreases b - a,
    {
        b = b - 1;
    }
    (a, b)
}

/// The end of `s[lo..hi]` after every trailing copy of `p` is removed.
pub fn strip_all_suffixes(s: &Vec<char>, lo: usize, hi: usize, p: &Vec<char>) -> (res: usize)
    requires
        valid_span(s@, lo as int, hi as int),
    ensures
        res == strip_suffixes(s@, lo as int, hi as int, p@),
        lo <= res <= hi,
{
    let mut b = hi;
    while p.len() > 0 && ends_with(s, lo, b, p)
        invariant
            lo <= b <= hi,
            hi <= s@.len(),
            strip_suffixes(s@, lo as int, hi as int, p@) == strip_suffixes(s@, lo as int, b as int, p@),
        decreases b - lo,
    {
        b = b - p.len();
    }
    b
}

/// Whether `c` is one of the decimal digits `0`-`9`.
pub open spec fn is_digit(c: char) -> bool {
    '0' <= c <= '9'
}

/// The value of the decimal digit `c`.
pub open spec fn digit_value(c: char) -> int {
    c as int - '0' as int
}

/// Whether every character of `t` is a decimal digit.
pub open spec fn all_digits(t: Seq<char>) -> bool {
    forall|i: int| 0 <= i < t.len() ==> is_digit(#[trigger] t[i])
}

/// The number written by the decimal digits `t`.
pub open spec fn digits_value(t: Seq<char>) -> int
    decreases t.len(),
{
    if t.len() == 0 {
        0
    } else {
        digits_value(t.drop_last()) * 10 + digit_value(t.last())
    }
}

/// What `str::parse` gives for an unsigned integer type whose largest value is
/// `max`: an optional `+` followed by at least one decimal digit, within range.
pub open spec fn parse_unsigned(t: Seq<char>, max: int) -> Option<int> {
    if t.len() == 0 {
        None
    } else {
        let d = if t[0] == '+' { t.drop_first() } else { t };
        if d.len() > 0 && all_digits(d) && digits_value(d) <= max {
            Some(digits_value(d))
        } else {
            None
        }
    }
}

/// What `str::parse::<i8>` gives: an optional sign followed by at least one
/// decimal digit, within `-128..=127`.
pub open spec fn parse_i8_text(t: Seq<char>) -> Option<int> {
    if t.len() > 0 && t[0] == '-' {
        let d = t.drop_first();
        if d.len() > 0 && all_digits(d) && digits_value(d) <= 128 {
            Some(-digits_value(d))
        } else {
            None
        }
    } else {
        parse_unsigned(t, 127)
    }
}

proof fn lemma_digits_value_nonneg(t: Seq<char>)
    requires
        all_digits(t),
    ensures
        digits_value(t) >= 0,
    decreases t.len(),
{
    if t.len() > 0 {
        assert(all_digits(t.drop_last())) by {
            assert forall|i: int| 0 <= i < t.drop_last().len() implies is_digit(#[trigger] t.drop_last()[i]) by {
                assert(t.drop_last()[i] == t[i]);
            }
        }
        lemma_digits_value_nonneg(t.drop_last());
        assert(is_digit(t[t.len() - 1]));
    }
}

/// A longer run of digits is worth at least as much as its prefix.
proof fn lemma_digits_value_prefix(t: Seq<char>, i: int)
    requires
        0 <= i <= t.len(),
        all_digits(t),
    ensures
        digits_value(t.take(i)) <= digits_value(t),
    decreases t.len() - i,
{
    if i < t.len() {
        lemma_digits_value_prefix(t, i + 1);
        assert(t.take(i + 1).drop_last() =~= t.take(i));
        assert(all_digits(t.take(i))) by {
            assert forall|j: int| 0 <= j < t.take(i).len() implies is_digit(#[trigger] t.take(i)[j]) by {
                assert(t.take(i)[j] == t[j]);
            }
        }
        lemma_digits_value_nonneg(t.take(i));
        assert(is_digit(t[i]));
    } else {
        assert(t.take(i) =~= t);
    }
}

/// The value of the digits `s[lo..hi]` when they are all digits and the value is at
/// most `max`.
pub fn parse_digits(s: &Vec<char>, lo: usize, hi: usize, max: u64) -> (res: Option<u64>)
    requires
        valid_span(s@, lo as int, hi as int),
    ensures
        res == (if all_digits(s@.subrange(lo as int, hi as int))
            && digits_value(s@.subrange(lo as int, hi as int)) <= max {
            Some(digits_value(s@.subrange(lo as int, hi as int)) as u64)
        } else {
            None::<u64>
        }),
        res matches Some(v) ==> v <= max && v == digits_value(s@.subrange(lo as int, hi as int)),
{
    let ghost t = s@.subrange(lo as int, hi as int);
    let mut value: u64 = 0;
    let mut i = lo;
    while i < hi
        invariant
            valid_span(s@, lo as int, hi as int),
            t == s@.subrange(lo as int, hi as int),
            lo <= i <= hi,
            all_digits(t.take(i - lo)),
            value == digits_value(t.take(i - lo)),
            value <= max,
        decreases hi - i,
    {
        let c = s[i];
        assert(t[i - lo] == c);
        if !('0' <= c && c <= '9') {
            assert(!all_digits(t)) by {
                assert(!is_digit(t[i - lo]));
            }
            return None;
        }
        let d = (c as u32 - '0' as u32) as u64;
        assert(t.take(i - lo + 1).drop_last() =~= t.take(i - lo));
        assert(all_digits(t.take(i - lo + 1))) by {
            assert forall|j: int| 0 <= j < t.take(i - lo + 1).len() implies is_digit(#[trigger] t.take(i - lo + 1)[j]) by {
                if j < i - lo {
                    assert(t.take(i - lo + 1)[j] == t.take(i - lo)[j]);
                }
            }
        }
        if d > max || value > (max - d) / 10 {
            proof {
                if d <= max {
                    assert(value * 10 + d > max) by (nonlinear_arith)
                        requires
                            value > (max - d) / 10,
                            d <= max,
                    ;
                }
                if all_digits(t) {
                    lemma_digits_value_prefix(t, i - lo + 1);
                }
            }
            return None;
        }
        assert(value * 10 + d <= max) by (nonlinear_arith)
            requires
                value <= (max - d) / 10,
                d <= max,
        ;
        value = value * 10 + d;
        i = i + 1;
    }
    assert(t.take(hi - lo) =~= t);
    Some(value)
}

/// `s[lo..hi]` parsed as an unsigned number of at most `max`, as `str::parse` does.
pub fn parse_unsigned_span(s: &Vec<char>, lo: usize, hi: usize, max: u64) -> (res: Option<u64>)
    requires
        valid_span(s@, lo as int, hi as int),
    ensures
        res == (match parse_unsigned(s@.subrange(lo as int, hi as int), max as int) {
            Some(v) => Some(v as u64),
            None => None::<u64>,
        }),
        res matches Some(v) ==> v <= max,
        parse_unsigned(s@.subrange(lo as int, hi as int), max as int) matches Some(v) ==> 0 <= v <= max,
{
    let ghost t = s@.subrange(lo as int, hi as int);
    if lo == hi {
        return None;
    }
    proof {
        let d = if t[0] == '+' { t.drop_first() } else { t };
        if all_digits(d) {
            lemma_digits_value_nonneg(d);
        }
    }
    let start = if s[lo] == '+' { lo + 1 } else { lo };
    assert(t[0] == s@[lo as int]);
    assert(s@.subrange(start as int, hi as int) =~= if t[0] == '+' { t.drop_first() } else { t });
    if start == hi {
        return None;
    }
    parse_digits(s, start, hi, max)
}

/// `s[lo..hi]` parsed as a `u64`.
pub fn parse_u64_span(s: &Vec<char>, lo: usize, hi: usize) -> (res: Option<u64>)
    requires
        valid_span(s@, lo as int, hi as int),
    ensures
        res == (match parse_unsigned(s@.subrange(lo as int, hi as int), u64::MAX as int) {
            Some(v) => Some(v as u64),
            None => None::<u64>,
        }),
{
    parse_unsigned_span(s, lo, hi, u64::MAX)
}

/// `s[lo..hi]` parsed as a `u8`.
pub fn parse_u8_span(s: &Vec<char>, lo: usize, hi: usize) -> (res: Option<u8>)
    requires
        valid_span(s@, lo as int, hi as int),
    ensures
        res == (match parse_unsigned(s@.subrange(lo as int, hi as int), u8::MAX as int) {
            Some(v) => Some(v as u8),
            None => None::<u8>,
        }),
{
    match parse_unsigned_span(s, lo, hi, 255) {
        Some(v) => Some(v as u8),
        None => None,
    }
}

/// `s[lo..hi]` parsed as an `i8`.
pub fn parse_i8_span(s: &Vec<char>, lo: usize, hi: usize) -> (res: Option<i8>)
    requires
        valid_span(s@, lo as int, hi as int),
    ensures
        res == (match parse_i8_text(s@.subrange(lo as int, hi as int)) {
            Some(v) => Some(v as i8),
            None => None::<i8>,
        }),
{
    let ghost t = s@.subrange(lo as int, hi as int);
    if lo < hi && s[lo] == '-' {
        assert(t[0] == s@[lo as int]);
        assert(s@.subrange(lo + 1, hi as int) =~= t.drop_first());
        proof {
            if all_digits(t.drop_first()) {
                lemma_digits_value_nonneg(t.drop_first());
            }
        }
        if lo + 1 == hi {
            return None;
        }
        match parse_digits(s, lo + 1, hi, 128) {
            Some(v) => {
                assert(v <= 128);
                let r: i8 = if v == 128 { -128i8 } else { -(v as i8) };
                Some(r)
            },
            None => None,
        }
    } else {
        if lo < hi {
            assert(t[0] == s@[lo as int]);
        }
        match parse_unsigned_span(s, lo, hi, 127) {
            Some(v) => Some(v as i8),
            None => None,
        }
    }
}


/// A parsed unsigned number lies between 0 and the type's largest value.
pub proof fn lemma_parse_unsigned_bound(t: Seq<char>, max: int)
    ensures
        parse_unsigned(t, max) matches Some(n) ==> 0 <= n <= max,
{
    if t.len() > 0 {
        let d = if t[0] == '+' { t.drop_first() } else { t };
        if d.len() > 0 && all_digits(d) {
            lemma_digits_value_nonneg(d);
        }
    }
}

/// A parsed `i8` lies in `-128..=127`.
pub proof fn lemma_parse_i8_text_bound(t: Seq<char>)
    ensures
        parse_i8_text(t) matches Some(n) ==> -128 <= n <= 127,
{
    if t.len() > 0 && t[0] == '-' {
        let d = t.drop_first();
        if d.len() > 0 && all_digits(d) {
            lemma_digits_value_nonneg(d);
        }
    } else {
        lemma_parse_unsigned_bound(t, 127);
    }
}


/// `find_in` finds the first occurrence: where it lands, `p` occurs within the
/// bounds, and it occurs nowhere before; when it finds nothing, `p` occurs nowhere
/// in `s[from..hi]`.
pub proof fn lemma_find_in_first(s: Seq<char>, from: int, hi: int, p: Seq<char>)
    requires
        0 <= from,
        hi <= s.len(),
    ensures
        find_in(s, from, hi, p) matches Some(i) ==> from <= i && i + p.len() <= hi
            && s.subrange(i, i + p.len()) == p
            && forall|k: int| from <= k < i ==> #[trigger] s.subrange(k, k + p.len()) != p,
        find_in(s, from, hi, p) is None ==> forall|k: int| from <= k && k + p.len() <= hi
            ==> #[trigger] s.subrange(k, k + p.len()) != p,
    decreases hi - from,
{
    if from + p.len() > hi {
    } else if p.len() == 0 {
        assert(s.subrange(from, from) =~= p);
    } else if s.subrange(from, from + p.len()) == p {
    } else {
        lemma_find_in_first(s, from + 1, hi, p);
    }
}

/// Trimming removes exactly the whitespace at the ends: every character removed is
/// whitespace, and the first and last characters kept are not.
pub proof fn lemma_trim_exact(s: Seq<char>, lo: int, hi: int)
    requires
        valid_span(s, lo, hi),
    ensures
        lo <= trim_lo(s, lo, hi) <= hi,
        forall|k: int| lo <= k < trim_lo(s, lo, hi) ==> is_ws(#[trigger] s[k]),
        trim_lo(s, lo, hi) < hi ==> !is_ws(s[trim_lo(s, lo, hi)]),
        lo <= trim_hi(s, lo, hi) <= hi,
        forall|k: int| trim_hi(s, lo, hi) <= k < hi ==> is_ws(#[trigger] s[k]),
        lo < trim_hi(s, lo, hi) ==> !is_ws(s[trim_hi(s, lo, hi) - 1]),
    decreases hi - lo,
{
    if lo < hi && is_ws(s[lo]) {
        lemma_trim_exact(s, lo + 1, hi);
    }
    lemma_trim_hi_exact(s, lo, hi);
}

proof fn lemma_trim_hi_exact(s: Seq<char>, lo: int, hi: int)
    requires
        valid_span(s, lo, hi),
    ensures
        lo <= trim_hi(s, lo, hi) <= hi,
        forall|k: int| trim_hi(s, lo, hi) <= k < hi ==> is_ws(#[trigger] s[k]),
        lo < trim_hi(s, lo, hi) ==> !is_ws(s[trim_hi(s, lo, hi) - 1]),
    decreases hi - lo,
{
    if lo < hi && is_ws(s[hi - 1]) {
        lemma_trim_hi_exact(s, lo, hi - 1);
    }
}

/// Stripping removes whole trailing copies of `p` and stops only where the rest no
/// longer ends with `p`: what is removed is a run of copies of `p`.
pub proof fn lemma_strip_suffixes_exact(s: Seq<char>, lo: int, hi: int, p: Seq<char>)
    requires
        valid_span(s, lo, hi),
        p.len() > 0,
    ensures
        lo <= strip_suffixes(s, lo, hi, p) <= hi,
        (hi - strip_suffixes(s, lo, hi, p)) % (p.len() as int) == 0,
        forall|k: int| 0 <= k < hi - strip_suffixes(s, lo, hi, p) ==>
            #[trigger] s[strip_suffixes(s, lo, hi, p) + k] == p[k % (p.len() as int)],
        !span_ends_with(s, lo, strip_suffixes(s, lo, hi, p), p),
    decreases hi - lo,
{
    let n = p.len() as int;
    if span_ends_with(s, lo, hi, p) {
        lemma_strip_suffixes_exact(s, lo, hi - n, p);
        let r = strip_suffixes(s, lo, hi, p);
        assert(r == strip_suffixes(s, lo, hi - n, p));
        let m = hi - n - r;
        assert((m + n) % n == 0) by (nonlinear_arith) requires m % n == 0, n > 0;
        assert forall|k: int| 0 <= k < hi - r implies #[trigger] s[r + k] == p[k % n] by {
            if k >= m {
                assert(s.subrange(hi - n, hi)[k - m] == s[r + k]);
                vstd::arithmetic::div_mod::lemma_fundamental_div_mod(m, n);
                vstd::arithmetic::div_mod::lemma_mod_multiples_vanish(m / n, k - m, n);
                assert(k == n * (m / n) + (k - m));
                assert((k - m) % n == k - m) by (nonlinear_arith) requires 0 <= k - m < n;
            }
        }
    } else {
        assert(0int % n == 0) by (nonlinear_arith) requires n > 0;
    }
}

} // verus!
