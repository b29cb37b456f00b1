//! Character-level building blocks shared by the rest of the library:
//! conversions between `&str`/`String` and character vectors, comparison,
//! whitespace trimming, line splitting and decimal numerals.
use vstd::prelude::*;

verus! {

broadcast use vstd::string::group_string_axioms;

/// The characters of `s`, in order.
pub fn chars_of(s: &str) -> (r: Vec<char>)
    ensures
        r@ == s@,
{
    let mut r: Vec<char> = Vec::new();
    for c in it: s.chars()
        invariant
            r@ == it.seq().take(it.index() as int),
    {
        r.push(c);
    }
    r
}

/// Appends one character to a `String` (`String::push`).
#[verifier::external_body]
fn push_char(s: &mut String, c: char)
    ensures
        final(s)@ == old(s)@.push(c),
{
    s.push(c);
}

/// The string made of the characters of `v`, in order.
pub fn string_of(v: &[char]) -> (r: String)
    ensures
        r@ == v@,
{
    let mut r = String::new();
    let n = v.len();
    for i in 0..n
        invariant
            n == v@.len(),
            r@ == v@.take(i as int),
    {
        push_char(&mut r, v[i]);
        assert(v@.take(i + 1) =~= v@.take(i as int).push(v@[i as int]));
    }
    assert(v@.take(n as int) =~= v@);
    r
}

/// Appends the characters of `v` to `s`.
pub fn push_chars(s: &mut String, v: &[char])
    ensures
        final(s)@ == old(s)@ + v@,
{
    let n = v.len();
    let ghost s0 = s@;
    for i in 0..n
        invariant
            n == v@.len(),
            s@ == s0 + v@.take(i as int),
    {
        push_char(s, v[i]);
        assert(v@.take(i + 1) =~= v@.take(i as int).push(v@[i as int]));
    }
    assert(v@.take(n as int) =~= v@);
}

/// Appends the characters of `t` to `s`.
pub fn push_str(s: &mut String, t: &str)
    ensures
        final(s)@ == old(s)@ + t@,
{
    let v = chars_of(t);
    push_chars(s, v.as_slice());
}

/// Whether two character sequences are equal.
pub fn chars_eq(a: &[char], b: &[char]) -> (r: bool)
    ensures
        r == (a@ == b@),
{
    if a.len() != b.len() {
        return false;
    }
    let n = a.len();
    for i in 0..n
        invariant
            n == a@.len(),
            n == b@.len(),
            forall|j: int| 0 <= j < i ==> a@[j] == b@[j],
    {
        if a[i] != b[i] {
            return false;
        }
    }
    assert(a@ =~= b@);
    true
}

/// Whether two strings hold the same characters.
pub fn str_eq(a: &str, b: &str) -> (r: bool)
    ensures
        r == (a@ == b@),
{
    let va = chars_of(a);
    let vb = chars_of(b);
    chars_eq(va.as_slice(), vb.as_slice())
}

/// Unicode `White_Space` (PropList.txt): the characters that
/// `char::is_whitespace`, `str::trim` and `str::trim_end` treat as whitespace.
pub open spec fn is_white_space(c: char) -> bool {
    let u = c as u32;
    ||| 0x09 <= u <= 0x0d
    ||| u == 0x20
    ||| u == 0x85
    ||| u == 0xa0
    ||| u == 0x1680
    ||| 0x2000 <= u <= 0x200a
    ||| u == 0x2028
    ||| u == 0x2029
    ||| u == 0x202f
    ||| u == 0x205f
    ||| u == 0x3000
}

/// Whether `c` has the Unicode `White_Space` property, the test that
/// `char::is_whitespace` makes.
pub fn char_is_whitespace(c: char) -> (b: bool)
    ensures
        b == is_white_space(c),
{
    let u = c as u32;
    (0x09 <= u && u <= 0x0d) || u == 0x20 || u == 0x85 || u == 0xa0 || u == 0x1680 || (0x2000 <= u
        && u <= 0x200a) || u == 0x2028 || u == 0x2029 || u == 0x202f || u == 0x205f || u == 0x3000
}

/// Whether every character of `s` is whitespace.
pub open spec fn all_white_space(s: Seq<char>) -> bool {
    forall|i: int| 0 <= i < s.len() ==> is_white_space(#[trigger] s[i])
}

/// `s` without its trailing whitespace.
pub open spec fn trim_end(s: Seq<char>) -> Seq<char>
    decreases s.len(),
{
    if s.len() > 0 && is_white_space(s.last()) {
        trim_end(s.drop_last())
    } else {
        s
    }
}

/// `s` without its leading whitespace.
pub open spec fn trim_start(s: Seq<char>) -> Seq<char>
    decreases s.len(),
{
    if s.len() > 0 && is_white_space(s[0]) {
        trim_start(s.drop_first())
    } else {
        s
    }
}

/// `s` without leading and trailing whitespace (`str::trim`).
pub open spec fn trim(s: Seq<char>) -> Seq<char> {
    trim_start(trim_end(s))
}


/// Length of `v` once its trailing whitespace is removed.
pub fn trim_end_len(v: &[char]) -> (r: usize)
    ensures
        r <= v@.len(),
        v@.take(r as int) == trim_end(v@),
{
    let mut e = v.len();
    assert(v@.take(e as int) =~= v@);
    while e > 0 && char_is_whitespace(v[e - 1])
        invariant
            e <= v@.len(),
            trim_end(v@.take(e as int)) == trim_end(v@),
        decreases e,
    {
        assert(v@.take(e as int).drop_last() =~= v@.take(e - 1));
        e = e - 1;
    }
    e
}

/// Bounds of `v` once leading and trailing whitespace are removed.
pub fn trim_bounds(v: &[char]) -> (r: (usize, usize))
    ensures
        r.0 <= r.1 <= v@.len(),
        v@.subrange(r.0 as int, r.1 as int) == trim(v@),
{
    let e = trim_end_len(v);
    let mut b: usize = 0;
    assert(v@.subrange(0, e as int) =~= v@.take(e as int));
    while b < e && char_is_whitespace(v[b])
        invariant
            b <= e <= v@.len(),
            trim_start(v@.subrange(b as int, e as int)) == trim(v@),
        decreases e - b,
    {
        assert(v@.subrange(b as int, e as int).drop_first() =~= v@.subrange(b + 1, e as int));
        b = b + 1;
    }
    (b, e)
}


/// Bounds, within `v[lo..hi]`, of that range once its trailing whitespace is removed.
pub fn trim_end_in(v: &[char], lo: usize, hi: usize) -> (r: usize)
    requires
        lo <= hi <= v@.len(),
    ensures
        lo <= r <= hi,
        v@.subrange(lo as int, r as int) == trim_end(v@.subrange(lo as int, hi as int)),
{
    let mut e = hi;
    while e > lo && char_is_whitespace(v[e - 1])
        invariant
            lo <= e <= hi <= v@.len(),
            trim_end(v@.subrange(lo as int, e as int)) == trim_end(v@.subrange(lo as int, hi as int)),
        decreases e,
    {
        assert(v@.subrange(lo as int, e as int).drop_last() =~= v@.subrange(lo as int, e - 1));
        e = e - 1;
    }
    e
}

/// Bounds, within `v[lo..hi]`, of that range once leading and trailing
/// whitespace are removed.
pub fn trim_in(v: &[char], lo: usize, hi: usize) -> (r: (usize, usize))
    requires
        lo <= hi <= v@.len(),
    ensures
        lo <= r.0 <= r.1 <= hi,
        v@.subrange(r.0 as int, r.1 as int) == trim(v@.subrange(lo as int, hi as int)),
{
    let e = trim_end_in(v, lo, hi);
    let mut b: usize = lo;
    while b < e && char_is_whitespace(v[b])
        invariant
            lo <= b <= e <= hi <= v@.len(),
            trim_start(v@.subrange(b as int, e as int)) == trim(v@.subrange(lo as int, hi as int)),
        decreases e - b,
    {
        assert(v@.subrange(b as int, e as int).drop_first() =~= v@.subrange(b + 1, e as int));
        b = b + 1;
    }
    (b, e)
}

/// Whether `v[lo..hi]` holds exactly the characters of `w`.
pub fn range_eq(v: &[char], lo: usize, hi: usize, w: &[char]) -> (r: bool)
    requires
        lo <= hi <= v@.len(),
    ensures
        r == (v@.subrange(lo as int, hi as int) == w@),
{
    if hi - lo != w.len() {
        return false;
    }
    let n = w.len();
    for i in 0..n
        invariant
            n == w@.len(),
            hi - lo == n,
            lo <= hi <= v@.len(),
            forall|j: int| 0 <= j < i ==> v@[lo + j] == w@[j],
    {
        if v[lo + i] != w[i] {
            return false;
        }
    }
    assert(v@.subrange(lo as int, hi as int) =~= w@);
    true
}

/// Appends `v[lo..hi]` to `out`.
pub fn extend_range(out: &mut Vec<char>, v: &[char], lo: usize, hi: usize)
    requires
        lo <= hi <= v@.len(),
    ensures
        final(out)@ == old(out)@ + v@.subrange(lo as int, hi as int),
{
    let ghost o0 = out@;
    let mut i = lo;
    while i < hi
        invariant
            lo <= i <= hi <= v@.len(),
            out@ == o0 + v@.subrange(lo as int, i as int),
        decreases hi - i,
    {
        out.push(v[i]);
        assert(v@.subrange(lo as int, i + 1) =~= v@.subrange(lo as int, i as int).push(v@[i as int]));
        i = i + 1;
    }
}

/// Appends all of `v` to `out`.
pub fn extend_all(out: &mut Vec<char>, v: &[char])
    ensures
        final(out)@ == old(out)@ + v@,
{
    extend_range(out, v, 0, v.len());
    assert(v@.subrange(0, v@.len() as int) =~= v@);
}


pub proof fn lemma_trim_end_ws_suffix(x: Seq<char>, w: Seq<char>)
    requires
        all_white_space(w),
    ensures
        trim_end(x + w) == trim_end(x),
    decreases w.len(),
{
    if w.len() > 0 {
        assert((x + w).drop_last() =~= x + w.drop_last());
        assert((x + w).last() == w.last());
        lemma_trim_end_ws_suffix(x, w.drop_last());
    } else {
        assert(x + w =~= x);
    }
}

pub proof fn lemma_trim_start_ws_prefix(w: Seq<char>, y: Seq<char>)
    requires
        all_white_space(w),
    ensures
        trim_start(w + y) == trim_start(y),
    decreases w.len(),
{
    if w.len() > 0 {
        assert((w + y).drop_first() =~= w.drop_first() + y);
        assert((w + y)[0] == w[0]);
        lemma_trim_start_ws_prefix(w.drop_first(), y);
    } else {
        assert(w + y =~= y);
    }
}

pub proof fn lemma_trim_end_empty_all_ws(s: Seq<char>)
    ensures
        trim_end(s).len() == 0 <==> all_white_space(s),
    decreases s.len(),
{
    if s.len() > 0 {
        if is_white_space(s.last()) {
            lemma_trim_end_empty_all_ws(s.drop_last());
            if all_white_space(s.drop_last()) {
                assert forall|i: int| 0 <= i < s.len() implies is_white_space(#[trigger] s[i]) by {
                    if i < s.len() - 1 {
                        assert(s[i] == s.drop_last()[i]);
                    }
                }
            }
            if all_white_space(s) {
                assert forall|i: int| 0 <= i < s.drop_last().len() implies is_white_space(
                    #[trigger] s.drop_last()[i],
                ) by {
                    assert(s.drop_last()[i] == s[i]);
                }
            }
        }
    }
}

pub proof fn lemma_trim_end_concat(x: Seq<char>, y: Seq<char>)
    requires
        trim_end(y).len() > 0,
    ensures
        trim_end(x + y) == x + trim_end(y),
    decreases y.len(),
{
    if y.len() > 0 && is_white_space(y.last()) {
        assert((x + y).drop_last() =~= x + y.drop_last());
        assert((x + y).last() == y.last());
        lemma_trim_end_concat(x, y.drop_last());
    } else {
        assert(y.len() > 0);
        assert((x + y).last() == y.last());
    }
}

/// Trimming ignores whitespace added around the text.
pub proof fn lemma_trim_ws_around(w1: Seq<char>, a: Seq<char>, w2: Seq<char>)
    requires
        all_white_space(w1),
        all_white_space(w2),
    ensures
        trim(w1 + a + w2) == trim(a),
{
    lemma_trim_end_ws_suffix(w1 + a, w2);
    lemma_trim_end_empty_all_ws(a);
    if trim_end(a).len() > 0 {
        lemma_trim_end_concat(w1, a);
        lemma_trim_start_ws_prefix(w1, trim_end(a));
    } else {
        assert(all_white_space(w1 + a)) by {
            assert forall|i: int| 0 <= i < (w1 + a).len() implies is_white_space(#[trigger] (w1 + a)[i]) by {
                if i < w1.len() {
                    assert((w1 + a)[i] == w1[i]);
                } else {
                    assert((w1 + a)[i] == a[i - w1.len()]);
                }
            }
        }
        lemma_trim_end_empty_all_ws(w1 + a);
    }
}

/// `trim_end(s)` is a prefix of `s` followed only by whitespace, and ends
/// with a non-whitespace character when not empty.
pub proof fn lemma_trim_end_shape(s: Seq<char>)
    ensures
        trim_end(s).len() <= s.len(),
        trim_end(s) == s.take(trim_end(s).len() as int),
        all_white_space(s.skip(trim_end(s).len() as int)),
        trim_end(s).len() > 0 ==> !is_white_space(trim_end(s).last()),
    decreases s.len(),
{
    if s.len() > 0 && is_white_space(s.last()) {
        lemma_trim_end_shape(s.drop_last());
        let k = trim_end(s).len() as int;
        assert(s.drop_last().take(k) =~= s.take(k));
        assert forall|i: int| 0 <= i < s.skip(k).len() implies is_white_space(#[trigger] s.skip(k)[i]) by {
            if k + i < s.len() - 1 {
                assert(s.skip(k)[i] == s.drop_last().skip(k)[i]);
            }
        }
    } else {
        assert(s.take(s.len() as int) =~= s);
    }
}

/// `trim_start(s)` is a suffix of `s` preceded only by whitespace, and starts
/// with a non-whitespace character when not empty.
pub proof fn lemma_trim_start_shape(s: Seq<char>)
    ensures
        trim_start(s).len() <= s.len(),
        trim_start(s) == s.skip(s.len() - trim_start(s).len()),
        all_white_space(s.take(s.len() - trim_start(s).len())),
        trim_start(s).len() > 0 ==> !is_white_space(trim_start(s)[0]),
    decreases s.len(),
{
    if s.len() > 0 && is_white_space(s[0]) {
        lemma_trim_start_shape(s.drop_first());
        let k = s.len() - trim_start(s).len();
        assert(s.drop_first().skip(k - 1) =~= s.skip(k));
        assert forall|i: int| 0 <= i < s.take(k).len() implies is_white_space(#[trigger] s.take(k)[i]) by {
            if i > 0 {
                assert(s.take(k)[i] == s.drop_first().take(k - 1)[i - 1]);
            }
        }
    } else {
        assert(s.skip(0) =~= s);
    }
}

/// `trim(s)` is `s[b..e]` with only whitespace outside, and starts and ends with
/// a non-whitespace character when not empty.
pub proof fn lemma_trim_shape(s: Seq<char>) -> (r: (int, int))
    ensures
        0 <= r.0 <= r.1 <= s.len(),
        trim(s) == s.subrange(r.0, r.1),
        all_white_space(s.take(r.0)),
        all_white_space(s.skip(r.1)),
        r.0 < r.1 ==> !is_white_space(s[r.0]) && !is_white_space(s[r.1 - 1]),
{
    lemma_trim_end_shape(s);
    let t = trim_end(s);
    let e = t.len() as int;
    lemma_trim_start_shape(t);
    let b = e - trim_start(t).len();
    assert(t.skip(b) =~= s.subrange(b, e));
    assert(t.take(b) =~= s.take(b));
    if b < e {
        assert(trim_start(t)[0] == s[b]);
        assert(t.last() == s[e - 1]);
        assert(trim_start(t).last() == t.last());
    }
    (b, e)
}

/// Text that starts and ends with non-whitespace characters is its own trim.
pub proof fn lemma_trim_noop(s: Seq<char>)
    requires
        s.len() > 0 ==> !is_white_space(s[0]) && !is_white_space(s.last()),
    ensures
        trim(s) == s,
{
}


/// The ASCII digit for `d` (`d < 10`).
pub open spec fn digit_char(d: nat) -> char {
    (48 + d) as char
}

/// The decimal numeral of `n`, without leading zeros.
pub open spec fn decimal(n: nat) -> Seq<char>
    decreases n,
{
    if n < 10 {
        seq![digit_char(n)]
    } else {
        decimal(n / 10).push(digit_char(n % 10))
    }
}

/// The decimal numeral of `n`, with a leading `'-'` when negative.
pub open spec fn signed_decimal(n: int) -> Seq<char> {
    if n < 0 {
        seq!['-'] + decimal((-n) as nat)
    } else {
        decimal(n as nat)
    }
}

/// Appends the decimal numeral of `n` to `out`.
pub fn push_decimal(out: &mut Vec<char>, n: u64)
    ensures
        final(out)@ == old(out)@ + decimal(n as nat),
    decreases n,
{
    let ghost o0 = out@;
    if n >= 10 {
        push_decimal(out, n / 10);
    }
    let d: u8 = (n % 10) as u8;
    let c: char = (48u8 + d) as char;
    assert(c == digit_char((n % 10) as nat));
    out.push(c);
    assert(out@ =~= o0 + decimal(n as nat));
}

/// Appends the decimal numeral of `n` to `out`, with a `'-'` when negative.
pub fn push_signed_decimal(out: &mut Vec<char>, n: i64)
    ensures
        final(out)@ == old(out)@ + signed_decimal(n as int),
{
    let ghost o0 = out@;
    if n < 0 {
        out.push('-');
        let m: u64 = if n == i64::MIN { 9223372036854775808u64 } else { (-n) as u64 };
        assert(m == -(n as int));
        push_decimal(out, m);
        assert(out@ =~= o0 + signed_decimal(n as int));
    } else {
        push_decimal(out, n as u64);
    }
}

/// Index of the first `c` at or after `pos` in `s`, or `s.len()` when there is none.
pub open spec fn next_index_of(s: Seq<char>, pos: int, c: char) -> int
    decreases s.len() - pos,
{
    if pos < 0 || pos >= s.len() {
        s.len() as int
    } else if s[pos] == c {
        pos
    } else {
        next_index_of(s, pos + 1, c)
    }
}

pub proof fn lemma_next_index_of(s: Seq<char>, pos: int, c: char)
    requires
        0 <= pos <= s.len(),
    ensures
        pos <= next_index_of(s, pos, c) <= s.len(),
        next_index_of(s, pos, c) < s.len() ==> s[next_index_of(s, pos, c)] == c,
        forall|k: int| pos <= k < next_index_of(s, pos, c) ==> s[k] != c,
    decreases s.len() - pos,
{
    if pos < s.len() && s[pos] != c {
        lemma_next_index_of(s, pos + 1, c);
    }
}

/// The pieces of `s[pos..]` between occurrences of `sep` (`str::split` with a
/// character): always at least one piece, empty pieces kept.
pub open spec fn split_from(s: Seq<char>, pos: int, sep: char) -> Seq<Seq<char>>
    decreases s.len() + 1 - pos,
{
    if pos < 0 || pos > s.len() {
        Seq::empty()
    } else {
        let e = next_index_of(s, pos, sep);
        if e >= s.len() {
            seq![s.subrange(pos, s.len() as int)]
        } else {
            proof {
                lemma_next_index_of(s, pos, sep);
            }
            seq![s.subrange(pos, e)] + split_from(s, e + 1, sep)
        }
    }
}

/// The pieces of `s` between occurrences of `sep` (`str::split`).
pub open spec fn split_on(s: Seq<char>, sep: char) -> Seq<Seq<char>> {
    split_from(s, 0, sep)
}

/// Bounds of the pieces of `v` between occurrences of `sep`.
pub fn split_ranges(v: &[char], sep: char) -> (r: Vec<(usize, usize)>)
    ensures
        r@.len() == split_on(v@, sep).len(),
        forall|i: int|
            #![trigger r@[i]]
            #![trigger split_on(v@, sep)[i]]
            0 <= i < r@.len() ==> {
                &&& r@[i].0 <= r@[i].1 <= v@.len()
                &&& v@.subrange(r@[i].0 as int, r@[i].1 as int) == split_on(v@, sep)[i]
            },
{
    let n = v.len();
    let mut out: Vec<(usize, usize)> = Vec::new();
    let mut pos: usize = 0;
    let mut done = false;
    while !done
        invariant
            n == v@.len(),
            pos <= n,
            !done ==> split_on(v@, sep).len() == out@.len() + split_from(v@, pos as int, sep).len(),
            !done ==> forall|i: int|
                0 <= i < split_from(v@, pos as int, sep).len() ==> split_on(v@, sep)[out@.len() + i]
                    == #[trigger] split_from(v@, pos as int, sep)[i],
            done ==> split_on(v@, sep).len() == out@.len(),
            forall|i: int|
                #![trigger out@[i]]
                #![trigger split_on(v@, sep)[i]]
                0 <= i < out@.len() ==> {
                    &&& out@[i].0 <= out@[i].1 <= v@.len()
                    &&& v@.subrange(out@[i].0 as int, out@[i].1 as int) == split_on(v@, sep)[i]
                },
        decreases n + 1 - pos + (if done { 0int } else { 1int }),
    {
        let mut e = pos;
        while e < n && v[e] != sep
            invariant
                pos <= e <= n,
                n == v@.len(),
                next_index_of(v@, e as int, sep) == next_index_of(v@, pos as int, sep),
            decreases n - e,
        {
            e = e + 1;
        }
        let ghost rest = split_from(v@, pos as int, sep);
        let ghost k = out@.len();
        let ghost old_out = out@;
        assert(next_index_of(v@, pos as int, sep) == e);
        assert(rest[0] == v@.subrange(pos as int, e as int));
        out.push((pos, e));
        assert(split_on(v@, sep)[k as int] == rest[0]);
        assert(out@[k as int] == (pos, e));
        if e >= n {
            done = true;
        } else {
            let ghost rest2 = split_from(v@, e + 1, sep);
            assert forall|i: int| 0 <= i < rest2.len() implies split_on(v@, sep)[out@.len() + i]
                == #[trigger] rest2[i] by {
                assert(rest[i + 1] == rest2[i]);
            }
            pos = e + 1;
        }
    }
    out
}


/// Whether `pat` occurs in `s`.
pub open spec fn contains_text(s: Seq<char>, pat: Seq<char>) -> bool {
    exists|i: int| 0 <= i && i + pat.len() <= s.len() && #[trigger] s.subrange(i, i + pat.len()) == pat
}

/// Whether `pat` occurs in `s` (`str::contains`).
pub fn str_contains(s: &str, pat: &str) -> (r: bool)
    ensures
        r == contains_text(s@, pat@),
{
    let v = chars_of(s);
    let w = chars_of(pat);
    let n = v.len();
    let m = w.len();
    if m > n {
        return false;
    }
    let last = n - m;
    let mut i: usize = 0;
    while i <= last
        invariant
            n == v@.len(),
            m == w@.len(),
            v@ == s@,
            w@ == pat@,
            last == n - m,
            i <= last + 1,
            forall|j: int| 0 <= j < i ==> #[trigger] v@.subrange(j, j + m) != w@,
        decreases last + 1 - i,
    {
        if range_eq(v.as_slice(), i, i + m, w.as_slice()) {
            assert(v@.subrange(i as int, i + m) == w@);
            return true;
        }
        if i == last {
            assert forall|j: int| 0 <= j && j + pat@.len() <= s@.len() implies #[trigger] s@.subrange(j, j + pat@.len()) != pat@ by {
                assert(j <= i);
            }
            return false;
        }
        i = i + 1;
    }
    false
}

} // verus!
