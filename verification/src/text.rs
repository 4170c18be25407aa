//! Character-level text operations with exact specifications.
//!
//! Text is handled as a sequence of `char`s; a piece of a larger text is
//! given by the half-open range `lo..hi` of char positions.
use vstd::prelude::*;

verus! {

// ---------------------------------------------------------------------------
// Specifications
// ---------------------------------------------------------------------------

/// Unicode `White_Space`, the set that `char::is_whitespace` tests.
pub open spec fn is_ws(c: char) -> bool {
    let u = c as u32;
    ||| 9 <= u <= 13
    ||| u == 32
    ||| u == 0x85
    ||| u == 0xA0
    ||| u == 0x1680
    ||| 0x2000 <= u <= 0x200A
    ||| u == 0x2028
    ||| u == 0x2029
    ||| u == 0x202F
    ||| u == 0x205F
    ||| u == 0x3000
}

/// `s` without its leading whitespace.
pub open spec fn trim_start(s: Seq<char>) -> Seq<char>
    decreases s.len(),
{
    if s.len() > 0 && is_ws(s[0]) {
        trim_start(s.drop_first())
    } else {
        s
    }
}

/// `s` without its trailing whitespace.
pub open spec fn trim_end(s: Seq<char>) -> Seq<char>
    decreases s.len(),
{
    if s.len() > 0 && is_ws(s.last()) {
        trim_end(s.drop_last())
    } else {
        s
    }
}

/// `s` without leading and trailing whitespace (`str::trim`).
pub open spec fn trim(s: Seq<char>) -> Seq<char> {
    trim_end(trim_start(s))
}

pub open spec fn starts_with(s: Seq<char>, p: Seq<char>) -> bool {
    p.len() <= s.len() && s.subrange(0, p.len() as int) == p
}

pub open spec fn ends_with(s: Seq<char>, p: Seq<char>) -> bool {
    p.len() <= s.len() && s.subrange(s.len() - p.len(), s.len() as int) == p
}

/// `str::trim_start_matches` with a text pattern: every leading copy of `p` removed.
pub open spec fn trim_start_matches(s: Seq<char>, p: Seq<char>) -> Seq<char>
    decreases s.len(),
{
    if p.len() > 0 && starts_with(s, p) {
        trim_start_matches(s.skip(p.len() as int), p)
    } else {
        s
    }
}

/// `str::trim_end_matches` with a text pattern: every trailing copy of `p` removed.
pub open spec fn trim_end_matches(s: Seq<char>, p: Seq<char>) -> Seq<char>
    decreases s.len(),
{
    if p.len() > 0 && ends_with(s, p) {
        trim_end_matches(s.take(s.len() - p.len()), p)
    } else {
        s
    }
}

/// `p` occurs in `s` starting at position `i`.
pub open spec fn occurs_at(s: Seq<char>, p: Seq<char>, i: int) -> bool {
    0 <= i && i + p.len() <= s.len() && s.subrange(i, i + p.len()) == p
}

/// The first position at or after `i` where `p` occurs in `s`.
pub open spec fn find_from(s: Seq<char>, p: Seq<char>, i: int) -> Option<int>
    decreases s.len() + 1 - i,
{
    if i < 0 || i + p.len() > s.len() {
        None
    } else if occurs_at(s, p, i) {
        Some(i)
    } else {
        find_from(s, p, i + 1)
    }
}

/// The first position where `p` occurs in `s` (`str::find`).
pub open spec fn find(s: Seq<char>, p: Seq<char>) -> Option<int> {
    find_from(s, p, 0)
}

/// `s` contains `p` (`str::contains`).
pub open spec fn contains(s: Seq<char>, p: Seq<char>) -> bool {
    find(s, p) is Some
}

/// The last position of `c` in `s` (`str::rfind` with a char).
pub open spec fn rfind_char(s: Seq<char>, c: char) -> Option<int>
    decreases s.len(),
{
    if s.len() == 0 {
        None
    } else if s.last() == c {
        Some(s.len() - 1)
    } else {
        rfind_char(s.drop_last(), c)
    }
}

/// The first position of `c` in `s` (`str::find` with a char).
pub open spec fn find_char(s: Seq<char>, c: char) -> Option<int> {
    find(s, seq![c])
}


/// `t` with one trailing carriage return removed.
pub open spec fn strip_cr(t: Seq<char>) -> Seq<char> {
    if t.len() > 0 && t.last() == '\r' {
        t.drop_last()
    } else {
        t
    }
}

/// The lines of `s` as `str::lines` yields them: split at `\n`, a `\r`
/// just before the `\n` dropped, and no empty line after a final `\n`.
pub open spec fn lines(s: Seq<char>) -> Seq<Seq<char>>
    decreases s.len(),
{
    if s.len() == 0 {
        seq![]
    } else {
        match find_char(s, '\n') {
            Some(i) => {
                proof {
                    lemma_find_from_bounds(s, seq!['\n'], 0);
                }
                seq![strip_cr(s.take(i))] + lines(s.skip(i + 1))
            },
            None => seq![s],
        }
    }
}

/// Number of leading chars of `t` that are not whitespace.
pub open spec fn word_len(t: Seq<char>) -> nat
    decreases t.len(),
{
    if t.len() == 0 || is_ws(t[0]) {
        0
    } else {
        1 + word_len(t.drop_first())
    }
}

/// The whitespace-separated words of `s` (`str::split_whitespace`).
pub open spec fn words(s: Seq<char>) -> Seq<Seq<char>>
    decreases s.len(),
{
    let t = trim_start(s);
    proof {
        lemma_trim_start_len(s);
        lemma_word_len_bound(t);
    }
    if t.len() == 0 {
        seq![]
    } else {
        seq![t.take(word_len(t) as int)] + words(t.skip(word_len(t) as int))
    }
}

pub proof fn lemma_find_from_bounds(s: Seq<char>, p: Seq<char>, i: int)
    ensures
        find_from(s, p, i) matches Some(k) ==> i <= k && k + p.len() <= s.len() && occurs_at(
            s,
            p,
            k,
        ),
    decreases s.len() + 1 - i,
{
    if i < 0 || i + p.len() > s.len() {
    } else if occurs_at(s, p, i) {
    } else {
        lemma_find_from_bounds(s, p, i + 1);
    }
}

pub proof fn lemma_trim_start_len(s: Seq<char>)
    ensures
        trim_start(s).len() <= s.len(),
        trim_start(s).len() > 0 ==> !is_ws(trim_start(s)[0]),
    decreases s.len(),
{
    if s.len() > 0 && is_ws(s[0]) {
        lemma_trim_start_len(s.drop_first());
    }
}

pub proof fn lemma_word_len_bound(t: Seq<char>)
    ensures
        word_len(t) <= t.len(),
        t.len() > 0 && !is_ws(t[0]) ==> word_len(t) > 0,
    decreases t.len(),
{
    if t.len() > 0 && !is_ws(t[0]) {
        lemma_word_len_bound(t.drop_first());
    }
}

/// An ASCII decimal digit.
pub open spec fn is_digit(c: char) -> bool {
    '0' <= c <= '9'
}

pub open spec fn all_digits(s: Seq<char>) -> bool {
    forall|i: int| 0 <= i < s.len() ==> is_digit(#[trigger] s[i])
}

/// The number that a string of decimal digits denotes.
pub open spec fn digits_value(s: Seq<char>) -> nat
    decreases s.len(),
{
    if s.len() == 0 {
        0
    } else {
        digits_value(s.drop_last()) * 10 + ((s.last() as int) - 48) as nat
    }
}

/// What `str::parse` gives for an integer type with range `min..=max`
/// (`signed` tells whether a leading `-` is accepted).
pub open spec fn parse_int(s: Seq<char>, signed: bool, min: int, max: int) -> Option<int> {
    if s.len() == 1 && (s[0] == '+' || s[0] == '-') {
        None
    } else {
        let neg = signed && s.len() > 0 && s[0] == '-';
        let body = if s.len() > 0 && (s[0] == '+' || neg) {
            s.drop_first()
        } else {
            s
        };
        if body.len() == 0 || !all_digits(body) {
            None
        } else {
            let v: int = if neg {
                -(digits_value(body) as int)
            } else {
                digits_value(body) as int
            };
            if min <= v <= max {
                Some(v)
            } else {
                None
            }
        }
    }
}

/// The char of decimal digit `d`.
pub open spec fn digit_char(d: int) -> char {
    (d + 48) as char
}

/// Decimal text of `n`, as `Display` writes it.
pub open spec fn decimal(n: nat) -> Seq<char>
    decreases n,
{
    if n < 10 {
        seq![digit_char(n as int)]
    } else {
        decimal(n / 10).push(digit_char((n % 10) as int))
    }
}

/// Decimal text of a signed number, with a leading `-` when negative.
pub open spec fn signed_decimal(n: int) -> Seq<char> {
    if n < 0 {
        seq!['-'] + decimal((-n) as nat)
    } else {
        decimal(n as nat)
    }
}

// ---------------------------------------------------------------------------
// Conversions between `str` and char sequences
// ---------------------------------------------------------------------------

/// The characters of `s`, one per element.
pub fn chars_of(s: &str) -> (v: Vec<char>)
    ensures
        v@ == s@,
{
    let n = s.unicode_len();
    let mut v: Vec<char> = Vec::new();
    let mut i: usize = 0;
    while i < n
        invariant
            n == s@.len(),
            i <= n,
            v@ == s@.subrange(0, i as int),
        decreases n - i,
    {
        v.push(s.get_char(i));
        i = i + 1;
    }
    v
}

/// The text of `s` between char positions `a` and `b`.
pub fn substring(s: &str, a: usize, b: usize) -> (r: String)
    requires
        a <= b <= s@.len(),
    ensures
        r@ == s@.subrange(a as int, b as int),
{
    String::from_str(s.substring_char(a, b))
}

// ---------------------------------------------------------------------------
// Operations on a range `lo..hi` of a char slice
// ---------------------------------------------------------------------------

pub fn is_whitespace(c: char) -> (r: bool)
    ensures
        r == is_ws(c),
{
    let u = c as u32;
    (9 <= u && u <= 13) || u == 32 || u == 0x85 || u == 0xA0 || u == 0x1680 || (0x2000 <= u && u
        <= 0x200A) || u == 0x2028 || u == 0x2029 || u == 0x202F || u == 0x205F || u == 0x3000
}

/// Start of the range once leading whitespace is removed.
pub fn trim_start_at(v: &[char], lo: usize, hi: usize) -> (a: usize)
    requires
        lo <= hi <= v@.len(),
    ensures
        lo <= a <= hi,
        v@.subrange(a as int, hi as int) == trim_start(v@.subrange(lo as int, hi as int)),
{
    let mut i = lo;
    while i < hi && is_whitespace(v[i])
        invariant
            lo <= i <= hi <= v@.len(),
            trim_start(v@.subrange(i as int, hi as int)) == trim_start(
                v@.subrange(lo as int, hi as int),
            ),
        decreases hi - i,
    {
        assert(v@.subrange(i as int, hi as int).drop_first() =~= v@.subrange(
            i + 1,
            hi as int,
        ));
        i = i + 1;
    }
    i
}

/// End of the range once trailing whitespace is removed.
pub fn trim_end_at(v: &[char], lo: usize, hi: usize) -> (b: usize)
    requires
        lo <= hi <= v@.len(),
    ensures
        lo <= b <= hi,
        v@.subrange(lo as int, b as int) == trim_end(v@.subrange(lo as int, hi as int)),
{
    let mut j = hi;
    while j > lo && is_whitespace(v[j - 1])
        invariant
            lo <= j <= hi <= v@.len(),
            trim_end(v@.subrange(lo as int, j as int)) == trim_end(
                v@.subrange(lo as int, hi as int),
            ),
        decreases j - lo,
    {
        assert(v@.subrange(lo as int, j as int).drop_last() =~= v@.subrange(
            lo as int,
            j - 1,
        ));
        j = j - 1;
    }
    j
}

/// The range with surrounding whitespace removed (`str::trim`).
pub fn trim_at(v: &[char], lo: usize, hi: usize) -> (r: (usize, usize))
    requires
        lo <= hi <= v@.len(),
    ensures
        lo <= r.0 <= r.1 <= hi,
        v@.subrange(r.0 as int, r.1 as int) == trim(v@.subrange(lo as int, hi as int)),
{
    let a = trim_start_at(v, lo, hi);
    let b = trim_end_at(v, a, hi);
    (a, b)
}

/// The range equals `p`.
pub fn eq_at(v: &[char], lo: usize, hi: usize, p: &[char]) -> (r: bool)
    requires
        lo <= hi <= v@.len(),
    ensures
        r == (v@.subrange(lo as int, hi as int) == p@),
{
    if hi - lo != p.len() {
        return false;
    }
    let mut k: usize = 0;
    while k < p.len()
        invariant
            lo <= hi <= v@.len(),
            hi - lo == p@.len(),
            k <= p@.len(),
            forall|t: int| 0 <= t < k ==> v@[lo + t] == p@[t],
        decreases p@.len() - k,
    {
        if v[lo + k] != p[k] {
            assert(v@.subrange(lo as int, hi as int)[k as int] != p@[k as int]);
            return false;
        }
        k = k + 1;
    }
    assert(v@.subrange(lo as int, hi as int) =~= p@);
    true
}

/// `p` occurs in the slice at absolute position `i`.
pub fn matches_at(v: &[char], i: usize, hi: usize, p: &[char]) -> (r: bool)
    requires
        i <= hi <= v@.len(),
    ensures
        r == (i + p@.len() <= hi && v@.subrange(i as int, i + p@.len()) == p@),
{
    if hi - i < p.len() {
        return false;
    }
    eq_at(v, i, i + p.len(), p)
}

/// The range starts with `p`.
pub fn starts_with_at(v: &[char], lo: usize, hi: usize, p: &[char]) -> (r: bool)
    requires
        lo <= hi <= v@.len(),
    ensures
        r == starts_with(v@.subrange(lo as int, hi as int), p@),
{
    let r = matches_at(v, lo, hi, p);
    assert(r ==> v@.subrange(lo as int, hi as int).subrange(0, p@.len() as int) =~= v@.subrange(
        lo as int,
        lo + p@.len(),
    ));
    assert(p@.len() <= hi - lo ==> v@.subrange(lo as int, hi as int).subrange(0, p@.len() as int)
        =~= v@.subrange(lo as int, lo + p@.len()));
    r
}

/// The range ends with `p`.
pub fn ends_with_at(v: &[char], lo: usize, hi: usize, p: &[char]) -> (r: bool)
    requires
        lo <= hi <= v@.len(),
    ensures
        r == ends_with(v@.subrange(lo as int, hi as int), p@),
{
    if hi - lo < p.len() {
        return false;
    }
    let r = eq_at(v, hi - p.len(), hi, p);
    let ghost s = v@.subrange(lo as int, hi as int);
    assert(s.subrange(s.len() - p@.len(), s.len() as int) =~= v@.subrange(
        hi - p@.len(),
        hi as int,
    ));
    r
}

/// Start of the range once every leading copy of `p` is removed.
pub fn trim_start_matches_at(v: &[char], lo: usize, hi: usize, p: &[char]) -> (a: usize)
    requires
        lo <= hi <= v@.len(),
    ensures
        lo <= a <= hi,
        v@.subrange(a as int, hi as int) == trim_start_matches(
            v@.subrange(lo as int, hi as int),
            p@,
        ),
{
    if p.len() == 0 {
        return lo;
    }
    let mut i = lo;
    while starts_with_at(v, i, hi, p)
        invariant
            lo <= i <= hi <= v@.len(),
            p@.len() > 0,
            trim_start_matches(v@.subrange(i as int, hi as int), p@) == trim_start_matches(
                v@.subrange(lo as int, hi as int),
                p@,
            ),
        decreases hi - i,
    {
        assert(v@.subrange(i as int, hi as int).skip(p@.len() as int) =~= v@.subrange(
            i + p@.len(),
            hi as int,
        ));
        i = i + p.len();
    }
    i
}

/// End of the range once every trailing copy of `p` is removed.
pub fn trim_end_matches_at(v: &[char], lo: usize, hi: usize, p: &[char]) -> (b: usize)
    requires
        lo <= hi <= v@.len(),
    ensures
        lo <= b <= hi,
        v@.subrange(lo as int, b as int) == trim_end_matches(
            v@.subrange(lo as int, hi as int),
            p@,
        ),
{
    if p.len() == 0 {
        return hi;
    }
    let mut j = hi;
    while ends_with_at(v, lo, j, p)
        invariant
            lo <= j <= hi <= v@.len(),
            p@.len() > 0,
            trim_end_matches(v@.subrange(lo as int, j as int), p@) == trim_end_matches(
                v@.subrange(lo as int, hi as int),
                p@,
            ),
        decreases j - lo,
    {
        let ghost s = v@.subrange(lo as int, j as int);
        assert(s.take(s.len() - p@.len()) =~= v@.subrange(lo as int, j - p@.len()));
        j = j - p.len();
    }
    j
}

/// Absolute position of the first occurrence of `p` in the range.
pub fn find_at(v: &[char], lo: usize, hi: usize, p: &[char]) -> (r: Option<usize>)
    requires
        lo <= hi <= v@.len(),
    ensures
        match r {
            Some(i) => lo <= i && find(v@.subrange(lo as int, hi as int), p@) == Some(i - lo),
            None => find(v@.subrange(lo as int, hi as int), p@) is None,
        },
{
    let ghost s = v@.subrange(lo as int, hi as int);
    let mut i = lo;
    while i < hi && !matches_at(v, i, hi, p)
        invariant
            lo <= i <= hi <= v@.len(),
            s == v@.subrange(lo as int, hi as int),
            find(s, p@) == find_from(s, p@, i - lo),
        decreases hi - i,
    {
        assert(!occurs_at(s, p@, i - lo)) by {
            if i + p@.len() <= hi {
                assert(s.subrange(i - lo, i - lo + p@.len()) =~= v@.subrange(
                    i as int,
                    i + p@.len(),
                ));
            }
        }
        i = i + 1;
    }
    if i < hi {
        assert(s.subrange(i - lo, i - lo + p@.len()) =~= v@.subrange(i as int, i + p@.len()));
        Some(i)
    } else if p.len() == 0 {
        assert(occurs_at(s, p@, i - lo)) by {
            assert(s.subrange(i - lo, i - lo) =~= p@);
        }
        Some(i)
    } else {
        None
    }
}

/// Absolute position of the last `c` in the range.
pub fn rfind_char_at(v: &[char], lo: usize, hi: usize, c: char) -> (r: Option<usize>)
    requires
        lo <= hi <= v@.len(),
    ensures
        match r {
            Some(i) => lo <= i < hi && rfind_char(v@.subrange(lo as int, hi as int), c) == Some(
                i - lo,
            ),
            None => rfind_char(v@.subrange(lo as int, hi as int), c) is None,
        },
{
    let mut j = hi;
    while j > lo && v[j - 1] != c
        invariant
            lo <= j <= hi <= v@.len(),
            rfind_char(v@.subrange(lo as int, j as int), c) == rfind_char(
                v@.subrange(lo as int, hi as int),
                c,
            ),
        decreases j - lo,
    {
        assert(v@.subrange(lo as int, j as int).drop_last() =~= v@.subrange(lo as int, j - 1));
        j = j - 1;
    }
    if j > lo {
        Some(j - 1)
    } else {
        None
    }
}


/// The ranges of the lines of `v`, as `str::lines` yields them.
pub fn line_ranges(v: &[char]) -> (r: Vec<(usize, usize)>)
    ensures
        r@.len() == lines(v@).len(),
        r@.len() <= v@.len(),
        forall|k: int|
            0 <= k < r@.len() ==> (#[trigger] r@[k]).0 <= r@[k].1 <= v@.len() && v@.subrange(
                r@[k].0 as int,
                r@[k].1 as int,
            ) == lines(v@)[k],
{
    let n = v.len();
    let nl = ['\n'];
    let mut r: Vec<(usize, usize)> = Vec::new();
    let mut pos: usize = 0;
    let ghost mut done: Seq<Seq<char>> = seq![];
    assert(v@.subrange(0, n as int) =~= v@);
    while pos < n
        invariant
            n == v@.len(),
            pos <= n,
            nl@ == seq!['\n'],
            lines(v@) == done + lines(v@.subrange(pos as int, n as int)),
            r@.len() == done.len(),
            r@.len() <= pos,
            forall|k: int|
                0 <= k < r@.len() ==> (#[trigger] r@[k]).0 <= r@[k].1 <= v@.len() && v@.subrange(
                    r@[k].0 as int,
                    r@[k].1 as int,
                ) == done[k],
        decreases n - pos,
    {
        let ghost s = v@.subrange(pos as int, n as int);
        match find_at(v, pos, n, &nl) {
            Some(i) => {
                proof {
                    lemma_find_from_bounds(s, seq!['\n'], 0);
                }
                let mut e = i;
                if e > pos && v[e - 1] == '\r' {
                    e = e - 1;
                }
                assert(v@.subrange(pos as int, e as int) =~= strip_cr(s.take(i - pos)));
                assert(s.skip(i - pos + 1) =~= v@.subrange(i + 1, n as int));
                proof {
                    done = done.push(v@.subrange(pos as int, e as int));
                }
                r.push((pos, e));
                assert(lines(v@) =~= done + lines(v@.subrange(i + 1, n as int)));
                pos = i + 1;
            },
            None => {
                proof {
                    done = done.push(s);
                }
                r.push((pos, n));
                assert(lines(v@.subrange(n as int, n as int)) =~= Seq::<Seq<char>>::empty());
                assert(lines(v@) =~= done + lines(v@.subrange(n as int, n as int)));
                pos = n;
            },
        }
    }
    assert(lines(v@.subrange(n as int, n as int)) =~= Seq::<Seq<char>>::empty());
    assert(done + lines(v@.subrange(n as int, n as int)) =~= done);
    assert(forall|k: int| 0 <= k < r@.len() ==> lines(v@)[k] == done[k]);
    r
}

/// The ranges of the whitespace-separated words of the range `lo..hi`.
pub fn word_ranges(v: &[char], lo: usize, hi: usize) -> (r: Vec<(usize, usize)>)
    requires
        lo <= hi <= v@.len(),
    ensures
        r@.len() == words(v@.subrange(lo as int, hi as int)).len(),
        forall|k: int|
            0 <= k < r@.len() ==> lo <= (#[trigger] r@[k]).0 < r@[k].1 <= hi && v@.subrange(
                r@[k].0 as int,
                r@[k].1 as int,
            ) == words(v@.subrange(lo as int, hi as int))[k],
{
    let mut r: Vec<(usize, usize)> = Vec::new();
    let mut pos: usize = lo;
    let ghost mut done: Seq<Seq<char>> = seq![];
    loop
        invariant
            lo <= pos <= hi <= v@.len(),
            words(v@.subrange(lo as int, hi as int)) == done + words(
                v@.subrange(pos as int, hi as int),
            ),
            r@.len() == done.len(),
            forall|k: int|
                0 <= k < r@.len() ==> lo <= (#[trigger] r@[k]).0 < r@[k].1 <= hi && v@.subrange(
                    r@[k].0 as int,
                    r@[k].1 as int,
                ) == done[k],
        decreases hi - pos,
    {
        let ghost s = v@.subrange(pos as int, hi as int);
        let a = trim_start_at(v, pos, hi);
        proof {
            lemma_trim_start_len(s);
        }
        if a == hi {
            assert(words(s) =~= Seq::<Seq<char>>::empty());
            assert(done + words(s) =~= done);
            assert(forall|k: int| 0 <= k < r@.len() ==> words(v@.subrange(lo as int, hi as int))[k] == done[k]);
            return r;
        }
        let mut b = a;
        while b < hi && !is_whitespace(v[b])
            invariant
                a <= b <= hi <= v@.len(),
                word_len(v@.subrange(a as int, hi as int)) == (b - a) + word_len(
                    v@.subrange(b as int, hi as int),
                ),
            decreases hi - b,
        {
            assert(v@.subrange(b as int, hi as int).drop_first() =~= v@.subrange(
                b + 1,
                hi as int,
            ));
            b = b + 1;
        }
        let ghost t = v@.subrange(a as int, hi as int);
        assert(word_len(t) == b - a);
        proof {
            lemma_word_len_bound(t);
        }
        assert(t.take(b - a) =~= v@.subrange(a as int, b as int));
        assert(t.skip(b - a) =~= v@.subrange(b as int, hi as int));
        proof {
            done = done.push(v@.subrange(a as int, b as int));
        }
        r.push((a, b));
        assert(words(v@.subrange(lo as int, hi as int)) =~= done + words(
            v@.subrange(b as int, hi as int),
        ));
        pos = b;
    }
}

/// A longer run of digits denotes at least as much as its prefix.
pub proof fn lemma_digits_prefix(s: Seq<char>, i: int)
    requires
        all_digits(s),
        0 <= i <= s.len(),
    ensures
        digits_value(s.take(i)) <= digits_value(s),
    decreases s.len(),
{
    if i < s.len() {
        let t = s.drop_last();
        assert forall|j: int| 0 <= j < t.len() implies is_digit(#[trigger] t[j]) by {
            assert(t[j] == s[j]);
        }
        lemma_digits_prefix(t, i);
        assert(t.take(i) =~= s.take(i));
        assert(is_digit(s[s.len() - 1]));
    } else {
        assert(s.take(i) =~= s);
    }
}

/// The number written in `v[lo..hi]` when that is a non-empty run of
/// decimal digits denoting at most `limit`; `None` otherwise.
pub fn digits_at(v: &[char], lo: usize, hi: usize, limit: u128) -> (r: Option<u128>)
    requires
        lo <= hi <= v@.len(),
    ensures
        ({
            let s = v@.subrange(lo as int, hi as int);
            match r {
                Some(n) => s.len() > 0 && all_digits(s) && n == digits_value(s) && n <= limit,
                None => !(s.len() > 0 && all_digits(s) && digits_value(s) <= limit),
            }
        }),
{
    let ghost s = v@.subrange(lo as int, hi as int);
    if lo == hi {
        return None;
    }
    let mut acc: u128 = 0;
    let mut i = lo;
    assert(s.take(0) =~= Seq::<char>::empty());
    while i < hi
        invariant
            lo <= i <= hi <= v@.len(),
            s == v@.subrange(lo as int, hi as int),
            all_digits(s.take(i - lo)),
            acc == digits_value(s.take(i - lo)),
            acc <= limit,
        decreases hi - i,
    {
        let c = v[i];
        assert(s[i - lo] == c);
        if !('0' <= c && c <= '9') {
            return None;
        }
        let d: u128 = ((c as u32) - 48) as u128;
        let ghost k: int = i - lo;
        assert(s.take(k + 1).drop_last() =~= s.take(k));
        assert(s.take(k + 1).last() == c);
        assert(all_digits(s.take(k + 1))) by {
            assert forall|j: int| 0 <= j < k + 1 implies is_digit(#[trigger] s.take(k + 1)[j]) by {
                if j < k {
                    assert(s.take(k + 1)[j] == s.take(k)[j]);
                }
            }
        }
        assert(digits_value(s.take(k + 1)) == acc * 10 + d);
        let next = match acc.checked_mul(10) {
            Some(m) => m.checked_add(d),
            None => None,
        };
        match next {
            Some(n) if n <= limit => {
                acc = n;
            },
            _ => {
                proof {
                    if all_digits(s) {
                        lemma_digits_prefix(s, k + 1);
                    }
                }
                return None;
            },
        }
        i = i + 1;
    }
    assert(s.take(hi - lo) =~= s);
    Some(acc)
}

/// `str::parse` of `v[lo..hi]` for an unsigned type whose largest value is `max`.
pub fn parse_unsigned_at(v: &[char], lo: usize, hi: usize, max: u128) -> (r: Option<u128>)
    requires
        lo <= hi <= v@.len(),
    ensures
        ({
            let p = parse_int(v@.subrange(lo as int, hi as int), false, 0, max as int);
            match r {
                Some(n) => p == Some(n as int),
                None => p is None,
            }
        }),
{
    let ghost s = v@.subrange(lo as int, hi as int);
    if hi - lo == 1 && (v[lo] == '+' || v[lo] == '-') {
        assert(s[0] == v@[lo as int]);
        return None;
    }
    if lo < hi && v[lo] == '+' {
        assert(s[0] == v@[lo as int]);
        assert(s.drop_first() =~= v@.subrange(lo + 1, hi as int));
        digits_at(v, lo + 1, hi, max)
    } else {
        if lo < hi {
            assert(s[0] == v@[lo as int]);
        }
        digits_at(v, lo, hi, max)
    }
}

/// `str::parse` of `v[lo..hi]` for a signed type with range `min..=max`.
pub fn parse_signed_at(v: &[char], lo: usize, hi: usize, min: i128, max: i128) -> (r: Option<i128>)
    requires
        lo <= hi <= v@.len(),
        i64::MIN <= min <= 0 <= max <= i64::MAX,
    ensures
        ({
            let p = parse_int(v@.subrange(lo as int, hi as int), true, min as int, max as int);
            match r {
                Some(n) => p == Some(n as int),
                None => p is None,
            }
        }),
{
    let ghost s = v@.subrange(lo as int, hi as int);
    if hi - lo == 1 && (v[lo] == '+' || v[lo] == '-') {
        assert(s[0] == v@[lo as int]);
        return None;
    }
    if lo < hi && v[lo] == '-' {
        assert(s[0] == v@[lo as int]);
        assert(s.drop_first() =~= v@.subrange(lo + 1, hi as int));
        let bound: u128 = (-min) as u128;
        match digits_at(v, lo + 1, hi, bound) {
            Some(m) => Some(-(m as i128)),
            None => None,
        }
    } else {
        let start = if lo < hi && v[lo] == '+' {
            assert(s[0] == v@[lo as int]);
            assert(s.drop_first() =~= v@.subrange(lo + 1, hi as int));
            lo + 1
        } else {
            if lo < hi {
                assert(s[0] == v@[lo as int]);
            }
            assert(s =~= v@.subrange(lo as int, hi as int));
            lo
        };
        match digits_at(v, start, hi, max as u128) {
            Some(m) => Some(m as i128),
            None => None,
        }
    }
}

/// The decimal text of `n` is a non-empty run of digits denoting `n`.
pub proof fn lemma_decimal_digits(n: nat)
    ensures
        decimal(n).len() >= 1,
        all_digits(decimal(n)),
        digits_value(decimal(n)) == n,
    decreases n,
{
    if n < 10 {
        assert(decimal(n) =~= seq![digit_char(n as int)]);
        assert(decimal(n).drop_last() =~= Seq::<char>::empty());
        assert((digit_char(n as int) as int) == n + 48);
        assert(digits_value(decimal(n)) == digits_value(decimal(n).drop_last()) * 10 + ((decimal(n).last() as int) - 48) as nat);
    } else {
        lemma_decimal_digits(n / 10);
        let d = decimal(n);
        assert(d == decimal(n / 10).push(digit_char((n % 10) as int)));
        assert(d.drop_last() =~= decimal(n / 10));
        assert(d.last() == digit_char((n % 10) as int));
        assert((digit_char((n % 10) as int) as int) == (n % 10) + 48);
        assert(digits_value(d) == digits_value(decimal(n / 10)) * 10 + ((d.last() as int) - 48) as nat);
        assert((n / 10) * 10 + n % 10 == n);
        assert forall|i: int| 0 <= i < d.len() implies is_digit(#[trigger] d[i]) by {
            if i < d.len() - 1 {
                assert(d[i] == decimal(n / 10)[i]);
            }
        }
    }
}

/// A run of digits followed by `p` loses exactly `p` to
/// `trim_end_matches`, when `p` does not start with a digit or a minus sign
/// and `d` holds only digits after an optional leading minus.
pub proof fn lemma_trim_suffix(d: Seq<char>, p: Seq<char>)
    requires
        d.len() >= 1,
        forall|i: int| 0 <= i < d.len() ==> is_digit(#[trigger] d[i]) || (i == 0 && d[i] == '-'),
        p.len() >= 1,
        !is_digit(p[0]),
        p[0] != '-',
    ensures
        ends_with(d + p, p),
        trim_end_matches(d + p, p) == d,
{
    let s = d + p;
    assert(s.subrange(s.len() - p.len(), s.len() as int) =~= p);
    assert(s.take(s.len() - p.len()) =~= d);
    if ends_with(d, p) {
        assert(d.subrange(d.len() - p.len(), d.len() as int)[0] == p[0]);
        assert(d[d.len() - p.len()] == p[0]);
    }
    assert(!ends_with(d, p));
    assert(trim_end_matches(d, p) == d);
    assert(trim_end_matches(s, p) == trim_end_matches(s.take(s.len() - p.len()), p));
}

/// `s` does not end with `p` when they differ at position `k` of `p`.
pub proof fn lemma_not_ends_with(s: Seq<char>, p: Seq<char>, k: int)
    requires
        0 <= k < p.len(),
        p.len() <= s.len() ==> s[s.len() - p.len() + k] != p[k],
    ensures
        !ends_with(s, p),
{
    if ends_with(s, p) {
        assert(s.subrange(s.len() - p.len(), s.len() as int)[k] == p[k]);
    }
}

proof fn lemma_decimal_step(q: nat, tail: Seq<char>)
    requires
        q >= 10,
    ensures
        decimal(q) + tail == decimal(q / 10) + (seq![digit_char((q % 10) as int)] + tail),
{
    assert(decimal(q) == decimal(q / 10).push(digit_char((q % 10) as int)));
    assert(decimal(q) + tail =~= decimal(q / 10) + (seq![digit_char((q % 10) as int)] + tail));
}

/// Decimal text of `n`.
pub fn u128_text(n: u128) -> (r: String)
    ensures
        r@ == decimal(n as nat),
{
    let mut q = n;
    let mut ds: Vec<u8> = Vec::new();
    let ghost mut tail: Seq<char> = seq![];
    while q >= 10
        invariant
            decimal(n as nat) == decimal(q as nat) + tail,
            ds@.len() == tail.len(),
            forall|k: int| 0 <= k < ds@.len() ==> ds@[k] < 10 && tail[tail.len() - 1 - k] == digit_char(#[trigger] ds@[k] as int),
        decreases q,
    {
        proof {
            lemma_decimal_step(q as nat, tail);
            tail = seq![digit_char((q % 10) as int)] + tail;
        }
        ds.push((q % 10) as u8);
        q = q / 10;
    }
    proof {
        tail = seq![digit_char(q as int)] + tail;
    }
    ds.push(q as u8);
    assert(decimal(n as nat) =~= tail);
    let digits = "0123456789";
    proof {
        reveal_strlit("0123456789");
    }
    let mut r = String::new();
    let mut k = ds.len();
    while k > 0
        invariant
            k <= ds@.len(),
            ds@.len() == tail.len(),
            digits@ == "0123456789"@,
            digits@.len() == 10,
            forall|j: int| 0 <= j < ds@.len() ==> ds@[j] < 10 && tail[tail.len() - 1 - j] == digit_char(#[trigger] ds@[j] as int),
            r@ == tail.subrange(0, tail.len() - k),
        decreases k,
    {
        k = k - 1;
        let d = ds[k] as usize;
        proof {
            reveal_strlit("0123456789");
        }
        assert(digits@[d as int] == digit_char(d as int));
        r.append(digits.substring_char(d, d + 1));
        assert(r@ =~= tail.subrange(0, tail.len() - k));
    }
    assert(tail.subrange(0, tail.len() as int) =~= tail);
    r
}

/// Decimal text of a signed `n`, with a leading `-` when negative.
pub fn i128_text(n: i128) -> (r: String)
    ensures
        r@ == signed_decimal(n as int),
{
    if n < 0 {
        let m: u128 = ((-(n + 1)) as u128) + 1;
        let mut r = String::from_str("-");
        proof {
            reveal_strlit("-");
        }
        r.append(u128_text(m).as_str());
        r
    } else {
        u128_text(n as u128)
    }
}

} // verus!
