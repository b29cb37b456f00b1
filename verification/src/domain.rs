//! Validation of bare domain names (no scheme, no path) entered for
//! domain-sourced hosts entries.
use vstd::prelude::*;
use crate::ipv4::{is_ascii_digit, octet_value, parse_ipv4_chars, parse_ipv4_text};
use crate::text::{
    all_white_space, chars_of, extend_range, is_white_space, lemma_next_index_of,
    lemma_trim_ws_around, next_index_of, split_from, split_on, split_ranges, trim, trim_bounds,
    trim_end, trim_start,
};

verus! {

broadcast use vstd::string::group_string_axioms;

/// Whether `c` is an ASCII letter or digit.
pub open spec fn is_ascii_alphanumeric(c: char) -> bool {
    ('0' <= c && c <= '9') || ('a' <= c && c <= 'z') || ('A' <= c && c <= 'Z')
}

/// Whether `l` is a valid domain label: 1 to 63 characters, ASCII letters,
/// digits and hyphens, not starting or ending with a hyphen.
pub open spec fn valid_label(l: Seq<char>) -> bool {
    &&& 1 <= l.len() <= 63
    &&& l[0] != '-'
    &&& l.last() != '-'
    &&& forall|i: int| 0 <= i < l.len() ==> is_ascii_alphanumeric(#[trigger] l[i]) || l[i] == '-'
}

/// Whether already trimmed text is a valid domain name: at most 253
/// characters, at least two labels separated by `'.'`, every label valid,
/// a top-level label of at least two characters, and not an IPv4 address.
/// The 253 limit is on UTF-8 bytes in DNS terms; every character of a valid
/// name is ASCII (`law_valid_domain_is_ascii`), so counting characters is the same.
pub open spec fn valid_domain_text(t: Seq<char>) -> bool {
    let labels = split_on(t, '.');
    &&& t.len() <= 253
    &&& labels.len() >= 2
    &&& forall|i: int| 0 <= i < labels.len() ==> valid_label(#[trigger] labels[i])
    &&& labels.last().len() >= 2
    &&& parse_ipv4_text(t) is None
}

/// Whether `v[lo..hi]` is a valid domain label.
fn label_ok(v: &[char], lo: usize, hi: usize) -> (r: bool)
    requires
        lo <= hi <= v@.len(),
    ensures
        r == valid_label(v@.subrange(lo as int, hi as int)),
{
    let ghost l = v@.subrange(lo as int, hi as int);
    if hi - lo < 1 || hi - lo > 63 {
        return false;
    }
    if v[lo] == '-' || v[hi - 1] == '-' {
        return false;
    }
    let mut i = lo;
    while i < hi
        invariant
            lo <= i <= hi <= v@.len(),
            l == v@.subrange(lo as int, hi as int),
            forall|j: int| 0 <= j < i - lo ==> is_ascii_alphanumeric(#[trigger] l[j]) || l[j] == '-',
        decreases hi - i,
    {
        let c = v[i];
        if !(('0' <= c && c <= '9') || ('a' <= c && c <= 'z') || ('A' <= c && c <= 'Z') || c == '-') {
            assert(l[i - lo] == c);
            return false;
        }
        i = i + 1;
    }
    true
}

/// Validate a bare domain name (no scheme, no path). Surrounding whitespace is
/// ignored; a trailing dot, a port, a path, an IP address, or labels outside
/// `[A-Za-z0-9-]` are rejected.
pub fn is_valid_domain(s: &str) -> (r: bool)
    ensures
        r == valid_domain_text(trim(s@)),
{
    let v = chars_of(s);
    let (b, e) = trim_bounds(v.as_slice());
    let mut t: Vec<char> = Vec::new();
    extend_range(&mut t, v.as_slice(), b, e);
    if t.len() > 253 {
        return false;
    }
    let labels = split_ranges(t.as_slice(), '.');
    let ghost ls = split_on(t@, '.');
    if labels.len() < 2 {
        return false;
    }
    let n = labels.len();
    for i in 0..n
        invariant
            n == labels@.len(),
            n == ls.len(),
            ls == split_on(t@, '.'),
            t@ == trim(s@),
            forall|k: int|
                #![trigger labels@[k]]
                #![trigger ls[k]]
                0 <= k < labels@.len() ==> {
                    &&& labels@[k].0 <= labels@[k].1 <= t@.len()
                    &&& t@.subrange(labels@[k].0 as int, labels@[k].1 as int) == ls[k]
                },
            forall|k: int| 0 <= k < i ==> valid_label(#[trigger] ls[k]),
    {
        let (lo, hi) = labels[i];
        assert(labels@[i as int] == (lo, hi));
        if !label_ok(t.as_slice(), lo, hi) {
            assert(!valid_label(ls[i as int]));
            return false;
        }
    }
    let (lo, hi) = labels[n - 1];
    assert(labels@[n - 1] == (lo, hi));
    if hi - lo < 2 {
        return false;
    }
    parse_ipv4_chars(t.as_slice()).is_none()
}


/// Validation ignores whitespace around the name.
pub proof fn law_domain_ignores_surrounding_whitespace(w1: Seq<char>, s: Seq<char>, w2: Seq<char>)
    requires
        all_white_space(w1),
        all_white_space(w2),
    ensures
        valid_domain_text(trim(w1 + s + w2)) == valid_domain_text(trim(s)),
{
    lemma_trim_ws_around(w1, s, w2);
}

proof fn lemma_split_chars(s: Seq<char>, pos: int)
    requires
        0 <= pos <= s.len(),
        forall|k: int, j: int|
            0 <= k < split_from(s, pos, '.').len() && 0 <= j < split_from(s, pos, '.')[k].len()
                ==> is_ascii_alphanumeric(#[trigger] split_from(s, pos, '.')[k][j])
                || split_from(s, pos, '.')[k][j] == '-',
    ensures
        forall|i: int| pos <= i < s.len() ==> is_ascii_alphanumeric(#[trigger] s[i]) || s[i] == '-' || s[i] == '.',
    decreases s.len() + 1 - pos,
{
    lemma_next_index_of(s, pos, '.');
    let e = next_index_of(s, pos, '.');
    let ps = split_from(s, pos, '.');
    assert forall|i: int| pos <= i < e implies is_ascii_alphanumeric(#[trigger] s[i]) || s[i] == '-' by {
        assert(ps[0][i - pos] == s[i]);
    }
    if e < s.len() {
        let rest = split_from(s, e + 1, '.');
        assert forall|k: int, j: int| 0 <= k < rest.len() && 0 <= j < rest[k].len() implies is_ascii_alphanumeric(
            #[trigger] rest[k][j],
        ) || rest[k][j] == '-' by {
            assert(rest[k] == ps[k + 1]);
        }
        lemma_split_chars(s, e + 1);
    }
}

/// A valid domain name is made of ASCII letters, digits, hyphens and dots
/// only, so its length in characters is also its length in UTF-8 bytes.
pub proof fn law_valid_domain_is_ascii(t: Seq<char>)
    requires
        valid_domain_text(t),
    ensures
        forall|i: int| 0 <= i < t.len() ==> is_ascii_alphanumeric(#[trigger] t[i]) || t[i] == '-' || t[i] == '.',
{
    let ls = split_on(t, '.');
    assert forall|k: int, j: int| 0 <= k < ls.len() && 0 <= j < ls[k].len() implies is_ascii_alphanumeric(
        #[trigger] ls[k][j],
    ) || ls[k][j] == '-' by {
        assert(valid_label(ls[k]));
    }
    lemma_split_chars(t, 0);
}


/// `c` with an ASCII upper-case letter turned into its lower-case letter.
pub open spec fn ascii_lower_char(c: char) -> char {
    if 'A' <= c && c <= 'Z' {
        ((c as u32) + 32) as char
    } else {
        c
    }
}

/// `s` with its ASCII upper-case letters turned into lower case.
pub open spec fn ascii_lowercase(s: Seq<char>) -> Seq<char> {
    s.map_values(|c: char| ascii_lower_char(c))
}

proof fn lemma_lower_char(c: char)
    ensures
        (ascii_lower_char(c) == '.') == (c == '.'),
        (ascii_lower_char(c) == '-') == (c == '-'),
        is_ascii_alphanumeric(ascii_lower_char(c)) == is_ascii_alphanumeric(c),
        is_ascii_digit(c) ==> ascii_lower_char(c) == c,
        is_ascii_digit(ascii_lower_char(c)) == is_ascii_digit(c),
        is_white_space(ascii_lower_char(c)) == is_white_space(c),
{
    if 'A' <= c && c <= 'Z' {
        let u = (c as u32) + 32;
        assert(97 <= u <= 122);
        let d = u as char;
        assert(d as u32 == u);
        assert('a' <= d && d <= 'z');
    }
}

proof fn lemma_lower_sub(s: Seq<char>, b: int, e: int)
    requires
        0 <= b <= e <= s.len(),
    ensures
        ascii_lowercase(s).subrange(b, e) == ascii_lowercase(s.subrange(b, e)),
{
    assert(ascii_lowercase(s).subrange(b, e) =~= ascii_lowercase(s.subrange(b, e)));
}

proof fn lemma_lower_next_dot(s: Seq<char>, pos: int)
    requires
        0 <= pos <= s.len(),
    ensures
        next_index_of(ascii_lowercase(s), pos, '.') == next_index_of(s, pos, '.'),
    decreases s.len() - pos,
{
    if pos < s.len() {
        lemma_lower_char(s[pos]);
        assert(ascii_lowercase(s)[pos] == ascii_lower_char(s[pos]));
        lemma_lower_next_dot(s, pos + 1);
    }
}

proof fn lemma_lower_split(s: Seq<char>, pos: int)
    requires
        0 <= pos <= s.len(),
    ensures
        split_from(ascii_lowercase(s), pos, '.').len() == split_from(s, pos, '.').len(),
        forall|i: int|
            0 <= i < split_from(s, pos, '.').len() ==> #[trigger] split_from(ascii_lowercase(s), pos, '.')[i]
                == ascii_lowercase(split_from(s, pos, '.')[i]),
    decreases s.len() + 1 - pos,
{
    let l = ascii_lowercase(s);
    lemma_lower_next_dot(s, pos);
    lemma_next_index_of(s, pos, '.');
    let e = next_index_of(s, pos, '.');
    if e < s.len() {
        lemma_lower_split(s, e + 1);
        lemma_lower_sub(s, pos, e);
        let a = split_from(s, pos, '.');
        let b = split_from(l, pos, '.');
        assert forall|i: int| 0 <= i < a.len() implies #[trigger] b[i] == ascii_lowercase(a[i]) by {
            if i > 0 {
                assert(a[i] == split_from(s, e + 1, '.')[i - 1]);
                assert(b[i] == split_from(l, e + 1, '.')[i - 1]);
            }
        }
    } else {
        lemma_lower_sub(s, pos, s.len() as int);
    }
}

proof fn lemma_lower_label(t: Seq<char>)
    ensures
        valid_label(ascii_lowercase(t)) == valid_label(t),
{
    let l = ascii_lowercase(t);
    assert forall|i: int| 0 <= i < t.len() implies (is_ascii_alphanumeric(#[trigger] l[i]) || l[i] == '-')
        == (is_ascii_alphanumeric(t[i]) || t[i] == '-') by {
        lemma_lower_char(t[i]);
    }
    if t.len() > 0 {
        lemma_lower_char(t[0]);
        lemma_lower_char(t.last());
        assert(l[0] == ascii_lower_char(t[0]));
        assert(l.last() == ascii_lower_char(t.last()));
    }
    if valid_label(t) {
        assert forall|i: int| 0 <= i < l.len() implies is_ascii_alphanumeric(#[trigger] l[i]) || l[i] == '-' by {
            assert(is_ascii_alphanumeric(t[i]) || t[i] == '-');
        }
    }
    if valid_label(l) {
        assert forall|i: int| 0 <= i < t.len() implies is_ascii_alphanumeric(#[trigger] t[i]) || t[i] == '-' by {
            assert(is_ascii_alphanumeric(l[i]) || l[i] == '-');
        }
    }
}

proof fn lemma_lower_octet(t: Seq<char>)
    ensures
        octet_value(ascii_lowercase(t)) == octet_value(t),
{
    let l = ascii_lowercase(t);
    if forall|i: int| 0 <= i < t.len() ==> is_ascii_digit(#[trigger] t[i]) {
        assert(l =~= t) by {
            assert forall|i: int| 0 <= i < t.len() implies l[i] == t[i] by {
                lemma_lower_char(t[i]);
            }
        }
    } else {
        let k = choose|i: int| 0 <= i < t.len() && !is_ascii_digit(#[trigger] t[i]);
        lemma_lower_char(t[k]);
        assert(!is_ascii_digit(l[k]));
    }
}

proof fn lemma_lower_ipv4(t: Seq<char>)
    ensures
        parse_ipv4_text(ascii_lowercase(t)) == parse_ipv4_text(t),
{
    lemma_lower_split(t, 0);
    let a = split_on(t, '.');
    let b = split_on(ascii_lowercase(t), '.');
    if a.len() == 4 {
        assert(b[0] == ascii_lowercase(a[0]));
        assert(b[1] == ascii_lowercase(a[1]));
        assert(b[2] == ascii_lowercase(a[2]));
        assert(b[3] == ascii_lowercase(a[3]));
        lemma_lower_octet(a[0]);
        lemma_lower_octet(a[1]);
        lemma_lower_octet(a[2]);
        lemma_lower_octet(a[3]);
    }
}

proof fn lemma_lower_trim_end(s: Seq<char>)
    ensures
        trim_end(ascii_lowercase(s)) == ascii_lowercase(trim_end(s)),
    decreases s.len(),
{
    let l = ascii_lowercase(s);
    if s.len() > 0 {
        lemma_lower_char(s.last());
        assert(l.last() == ascii_lower_char(s.last()));
        assert(l.drop_last() =~= ascii_lowercase(s.drop_last()));
        lemma_lower_trim_end(s.drop_last());
    } else {
        assert(l =~= s);
    }
}

proof fn lemma_lower_trim_start(s: Seq<char>)
    ensures
        trim_start(ascii_lowercase(s)) == ascii_lowercase(trim_start(s)),
    decreases s.len(),
{
    let l = ascii_lowercase(s);
    if s.len() > 0 {
        lemma_lower_char(s[0]);
        assert(l[0] == ascii_lower_char(s[0]));
        assert(l.drop_first() =~= ascii_lowercase(s.drop_first()));
        lemma_lower_trim_start(s.drop_first());
    } else {
        assert(l =~= s);
    }
}

/// Domain validation ignores ASCII letter case: a name is valid exactly when
/// its lower-case spelling is (`GitHub.com` is valid because `github.com` is).
pub proof fn law_domain_validity_ignores_letter_case(s: Seq<char>)
    ensures
        valid_domain_text(trim(ascii_lowercase(s))) == valid_domain_text(trim(s)),
{
    lemma_lower_trim_end(s);
    lemma_lower_trim_start(trim_end(s));
    let t = trim(s);
    let l = ascii_lowercase(t);
    assert(trim(ascii_lowercase(s)) == l);
    lemma_lower_split(t, 0);
    lemma_lower_ipv4(t);
    let a = split_on(t, '.');
    let b = split_on(l, '.');
    assert forall|i: int| 0 <= i < a.len() implies valid_label(#[trigger] b[i]) == valid_label(a[i]) by {
        lemma_lower_label(a[i]);
    }
    if a.len() >= 2 {
        assert(b.last() == ascii_lowercase(a.last()));
    }
    if valid_domain_text(t) {
        assert forall|i: int| 0 <= i < b.len() implies valid_label(#[trigger] b[i]) by {
            assert(valid_label(a[i]));
        }
    }
    if valid_domain_text(l) {
        assert forall|i: int| 0 <= i < a.len() implies valid_label(#[trigger] a[i]) by {
            assert(valid_label(b[i]));
        }
    }
}

} // verus!
