//! Line-ending conversion: hosts text is handled with `'\n'` line endings in
//! memory and written with the platform's native line endings.
use vstd::prelude::*;
use crate::text::{chars_of, string_of};

verus! {

broadcast use vstd::string::group_string_axioms;

/// `s` with every `"\r\n"` and then every remaining `'\r'` replaced by `'\n'`.
pub open spec fn normalize_eol(s: Seq<char>) -> Seq<char>
    decreases s.len(),
{
    if s.len() == 0 {
        s
    } else if s[0] == '\r' {
        if s.len() > 1 && s[1] == '\n' {
            seq!['\n'] + normalize_eol(s.skip(2))
        } else {
            seq!['\n'] + normalize_eol(s.skip(1))
        }
    } else {
        seq![s[0]] + normalize_eol(s.skip(1))
    }
}

/// `s` with every `'\n'` replaced by `"\r\n"`.
pub open spec fn crlf_eol(s: Seq<char>) -> Seq<char>
    decreases s.len(),
{
    if s.len() == 0 {
        s
    } else if s[0] == '\n' {
        seq!['\r', '\n'] + crlf_eol(s.skip(1))
    } else {
        seq![s[0]] + crlf_eol(s.skip(1))
    }
}

/// Whether `s` holds no carriage return.
pub open spec fn no_cr(s: Seq<char>) -> bool {
    forall|i: int| 0 <= i < s.len() ==> #[trigger] s[i] != '\r'
}

/// The text written to disk for `s`: `s` itself, or `s` with `"\r\n"` line
/// endings when the platform uses them.
pub open spec fn native_eol(s: Seq<char>, crlf: bool) -> Seq<char> {
    if crlf { crlf_eol(s) } else { s }
}

/// Normalize line endings to `'\n'`: `"\r\n"` becomes `'\n'`, and so does a
/// lone `'\r'`.
pub fn normalize_line_endings(s: &str) -> (r: String)
    ensures
        r@ == normalize_eol(s@),
{
    let v = chars_of(s);
    let n = v.len();
    let mut out: Vec<char> = Vec::new();
    let mut i: usize = 0;
    assert(v@.skip(0) =~= v@);
    assert(out@ + normalize_eol(v@) =~= normalize_eol(v@));
    while i < n
        invariant
            n == v@.len(),
            i <= n,
            out@ + normalize_eol(v@.skip(i as int)) == normalize_eol(v@),
        decreases n - i,
    {
        let ghost rest = v@.skip(i as int);
        if v[i] == '\r' {
            out.push('\n');
            if i + 1 < n && v[i + 1] == '\n' {
                assert(rest.skip(2) =~= v@.skip(i + 2));
                i = i + 2;
            } else {
                assert(rest.skip(1) =~= v@.skip(i + 1));
                i = i + 1;
            }
        } else {
            out.push(v[i]);
            assert(rest.skip(1) =~= v@.skip(i + 1));
            i = i + 1;
        }
        assert(out@ + normalize_eol(v@.skip(i as int)) =~= normalize_eol(v@));
    }
    assert(v@.skip(n as int) =~= Seq::<char>::empty());
    assert(out@ + Seq::<char>::empty() =~= out@);
    string_of(out.as_slice())
}

/// Convert `'\n'` line endings to the platform's native ones for the file on
/// disk: `"\r\n"` when `crlf` is set (Windows), unchanged otherwise.
pub fn restore_line_endings(s: &str, crlf: bool) -> (r: String)
    ensures
        r@ == native_eol(s@, crlf),
{
    let v = chars_of(s);
    if !crlf {
        return string_of(v.as_slice());
    }
    let n = v.len();
    let mut out: Vec<char> = Vec::new();
    assert(v@.skip(0) =~= v@);
    assert(out@ + crlf_eol(v@) =~= crlf_eol(v@));
    for i in 0..n
        invariant
            n == v@.len(),
            out@ + crlf_eol(v@.skip(i as int)) == crlf_eol(v@),
    {
        let ghost rest = v@.skip(i as int);
        assert(rest.skip(1) =~= v@.skip(i + 1));
        if v[i] == '\n' {
            out.push('\r');
            out.push('\n');
        } else {
            out.push(v[i]);
        }
        assert(out@ + crlf_eol(v@.skip(i + 1)) =~= crlf_eol(v@));
    }
    assert(v@.skip(n as int) =~= Seq::<char>::empty());
    assert(out@ + Seq::<char>::empty() =~= out@);
    string_of(out.as_slice())
}

/// Normalized text holds no carriage return.
pub proof fn law_normalized_has_no_cr(s: Seq<char>)
    ensures
        no_cr(normalize_eol(s)),
    decreases s.len(),
{
    if s.len() > 0 {
        let rest = if s[0] == '\r' && s.len() > 1 && s[1] == '\n' { s.skip(2) } else { s.skip(1) };
        law_normalized_has_no_cr(rest);
        let head = if s[0] == '\r' { seq!['\n'] } else { seq![s[0]] };
        assert(normalize_eol(s) == head + normalize_eol(rest));
        assert forall|i: int| 0 <= i < normalize_eol(s).len() implies #[trigger] normalize_eol(s)[i] != '\r' by {
            if i > 0 {
                assert(normalize_eol(s)[i] == normalize_eol(rest)[i - 1]);
            }
        }
    }
}

/// Text without carriage returns is already normalized.
pub proof fn law_normalize_keeps_lf_text(s: Seq<char>)
    requires
        no_cr(s),
    ensures
        normalize_eol(s) == s,
    decreases s.len(),
{
    if s.len() > 0 {
        assert(s[0] != '\r');
        assert(no_cr(s.skip(1))) by {
            assert forall|i: int| 0 <= i < s.skip(1).len() implies #[trigger] s.skip(1)[i] != '\r' by {
                assert(s.skip(1)[i] == s[i + 1]);
            }
        }
        law_normalize_keeps_lf_text(s.skip(1));
        assert(seq![s[0]] + s.skip(1) =~= s);
    }
}

/// Converting `'\n'` text to `"\r\n"` line endings and normalizing gives the
/// text back.
pub proof fn law_crlf_round_trip(s: Seq<char>)
    requires
        no_cr(s),
    ensures
        normalize_eol(crlf_eol(s)) == s,
    decreases s.len(),
{
    if s.len() > 0 {
        assert(no_cr(s.skip(1))) by {
            assert forall|i: int| 0 <= i < s.skip(1).len() implies #[trigger] s.skip(1)[i] != '\r' by {
                assert(s.skip(1)[i] == s[i + 1]);
            }
        }
        law_crlf_round_trip(s.skip(1));
        let c = crlf_eol(s);
        if s[0] == '\n' {
            assert(c[0] == '\r' && c[1] == '\n');
            assert(c.skip(2) =~= crlf_eol(s.skip(1)));
        } else {
            assert(s[0] != '\r');
            assert(c[0] == s[0]);
            assert(c.skip(1) =~= crlf_eol(s.skip(1)));
        }
        assert(seq![s[0]] + s.skip(1) =~= s);
    }
}

/// Text on disk read back and normalized is the `'\n'` text it was written from.
pub proof fn law_native_round_trip(s: Seq<char>, crlf: bool)
    requires
        no_cr(s),
    ensures
        normalize_eol(native_eol(s, crlf)) == s,
{
    if crlf {
        law_crlf_round_trip(s);
    } else {
        law_normalize_keeps_lf_text(s);
    }
}


/// Normalizing turns a carriage return followed by a line feed into one line
/// feed, a lone carriage return into a line feed, and keeps every other
/// character; and it works piece by piece, as long as a piece does not end in
/// the middle of a `"\r\n"` pair.
pub proof fn law_normalize_piecewise(a: Seq<char>, b: Seq<char>, c: char)
    ensures
        normalize_eol(seq!['\r', '\n']) == seq!['\n'],
        normalize_eol(seq!['\r']) == seq!['\n'],
        c != '\r' ==> normalize_eol(seq![c]) == seq![c],
        (a.len() == 0 || a.last() != '\r') ==> normalize_eol(a + b) == normalize_eol(a) + normalize_eol(b),
    decreases a.len(),
{
    let e = Seq::<char>::empty();
    assert(normalize_eol(e) == e);
    assert(seq!['\r', '\n'].skip(2) =~= e);
    assert(seq!['\r'].skip(1) =~= e);
    assert(seq![c].skip(1) =~= e);
    assert(normalize_eol(seq!['\r', '\n']) =~= seq!['\n'] + e);
    assert(normalize_eol(seq!['\r']) =~= seq!['\n'] + e);
    if c != '\r' {
        assert(normalize_eol(seq![c]) =~= seq![c] + e);
    }
    if a.len() == 0 {
        assert(a + b =~= b);
        assert(normalize_eol(a) + normalize_eol(b) =~= normalize_eol(b));
    } else if a.last() != '\r' {
        let ab = a + b;
        assert(ab[0] == a[0]);
        if a[0] == '\r' && a.len() > 1 && a[1] == '\n' {
            assert(ab[1] == a[1]);
            assert(ab.skip(2) =~= a.skip(2) + b);
            law_normalize_piecewise(a.skip(2), b, c);
            if a.len() > 2 {
                assert(a.skip(2).last() == a.last());
            }
            assert(normalize_eol(ab) =~= normalize_eol(a) + normalize_eol(b));
        } else {
            if a[0] == '\r' {
                assert(a.len() > 1);
                assert(ab[1] == a[1]);
            }
            assert(ab.skip(1) =~= a.skip(1) + b);
            law_normalize_piecewise(a.skip(1), b, c);
            if a.len() > 1 {
                assert(a.skip(1).last() == a.last());
            }
            assert(normalize_eol(ab) =~= normalize_eol(a) + normalize_eol(b));
        }
    }
}

/// Converting to `"\r\n"` line endings turns each line feed into a carriage
/// return and a line feed, keeps every other character, and works piece by piece.
pub proof fn law_crlf_piecewise(a: Seq<char>, b: Seq<char>, c: char)
    ensures
        crlf_eol(seq!['\n']) == seq!['\r', '\n'],
        c != '\n' ==> crlf_eol(seq![c]) == seq![c],
        crlf_eol(a + b) == crlf_eol(a) + crlf_eol(b),
    decreases a.len(),
{
    let e = Seq::<char>::empty();
    assert(crlf_eol(e) == e);
    assert(seq!['\n'].skip(1) =~= e);
    assert(seq![c].skip(1) =~= e);
    assert(crlf_eol(seq!['\n']) =~= seq!['\r', '\n'] + e);
    if c != '\n' {
        assert(crlf_eol(seq![c]) =~= seq![c] + e);
    }
    if a.len() == 0 {
        assert(a + b =~= b);
        assert(crlf_eol(a) + crlf_eol(b) =~= crlf_eol(b));
    } else {
        let ab = a + b;
        assert(ab[0] == a[0]);
        assert(ab.skip(1) =~= a.skip(1) + b);
        law_crlf_piecewise(a.skip(1), b, c);
        assert(crlf_eol(ab) =~= crlf_eol(a) + crlf_eol(b));
    }
}

} // verus!
