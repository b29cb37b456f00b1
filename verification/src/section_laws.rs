//! Laws of the managed-section rewrite. The central one: rewriting a hosts
//! text that this library produced only replaces the section, so the head and
//! the tail come back unchanged, and applying the same content twice gives the
//! same text as applying it once.
use vstd::prelude::*;
use crate::managed_section::{
    append_content, end_marker, find_marker_from, is_marker_text, join, layout, layout_parts,
    lemma_find_bounds, lemma_line_end, line_end, lines, lines_from, managed_body, managed_head,
    managed_tail, section_text, split_around, start_marker, strip_cr, strip_marker_text,
    has_marker_line, unmarked_lines,
};
use crate::line_endings::no_cr;
use crate::text::{
    all_white_space, is_white_space, lemma_trim_end_shape, lemma_trim_end_ws_suffix,
    lemma_trim_noop, lemma_trim_shape, lemma_trim_ws_around, trim, trim_end,
};

verus! {

broadcast use vstd::string::group_string_axioms;

/// Whether a line of `s` starts at `q`.
pub open spec fn is_line_start(s: Seq<char>, q: int) -> bool {
    0 <= q < s.len() && (q == 0 || s[q - 1] == '\n')
}

/// The line of `s` that starts at `q`, without its `'\n'`.
pub open spec fn line_at(s: Seq<char>, q: int) -> Seq<char> {
    s.subrange(q, line_end(s, q))
}

/// Whether no line of `s` trims to `m`.
pub open spec fn no_line_trimmed_to(s: Seq<char>, m: Seq<char>) -> bool {
    forall|q: int| #[trigger] is_line_start(s, q) ==> trim(line_at(s, q)) != m
}

pub proof fn lemma_line_end_at(s: Seq<char>, p: int, k: int)
    requires
        0 <= p <= k <= s.len(),
        forall|i: int| p <= i < k ==> s[i] != '\n',
        k == s.len() || s[k] == '\n',
    ensures
        line_end(s, p) == k,
    decreases k - p,
{
    if p < k {
        lemma_line_end_at(s, p + 1, k);
    }
}

/// The search for a marker line passes over lines that are not marker lines.
pub proof fn lemma_find_skip(text: Seq<char>, pos: int, lim: int, m: Seq<char>)
    requires
        0 <= pos <= lim <= text.len(),
        lim == pos || text[lim - 1] == '\n',
        forall|q: int|
            pos <= q < lim && (q == pos || text[q - 1] == '\n') ==> trim(
                #[trigger] line_at(text, q),
            ) != m,
    ensures
        find_marker_from(text, pos, m) == find_marker_from(text, lim, m),
    decreases lim - pos,
{
    if pos < lim {
        lemma_line_end(text, pos);
        let e = line_end(text, pos);
        assert(trim(line_at(text, pos)) != m);
        if e >= lim {
            assert(text[lim - 1] != '\n');
        }
        assert(e < lim);
        assert forall|q: int|
            e + 1 <= q < lim && (q == e + 1 || text[q - 1] == '\n') implies trim(
                #[trigger] line_at(text, q),
            ) != m by {
            if q != e + 1 {
                assert(text[q - 1] == '\n');
            }
        }
        lemma_find_skip(text, e + 1, lim, m);
    }
}

/// The search finds a marker line standing at `pos`.
pub proof fn lemma_find_at(text: Seq<char>, pos: int, m: Seq<char>)
    requires
        0 <= pos,
        m.len() > 0,
        pos + m.len() <= text.len(),
        text.subrange(pos, pos + m.len()) == m,
        forall|i: int| 0 <= i < m.len() ==> m[i] != '\n',
        pos + m.len() == text.len() || text[pos + m.len()] == '\n',
        trim(m) == m,
    ensures
        find_marker_from(text, pos, m) == Some((pos, pos + m.len())),
{
    assert forall|i: int| pos <= i < pos + m.len() implies text[i] != '\n' by {
        assert(text[i] == text.subrange(pos, pos + m.len())[i - pos]);
    }
    lemma_line_end_at(text, pos, pos + m.len());
}

/// Lines before the one the search returns (or all lines, when it returns
/// nothing) are not marker lines, and what it returns is a line start.
pub proof fn lemma_find_first(text: Seq<char>, pos: int, m: Seq<char>)
    requires
        0 <= pos,
    ensures
        forall|q: int|
            pos <= q < (match find_marker_from(text, pos, m) {
                Some((b, e)) => b,
                None => text.len() as int,
            }) && (q == pos || text[q - 1] == '\n') ==> trim(#[trigger] line_at(text, q)) != m,
        find_marker_from(text, pos, m) matches Some((b, e)) ==> (b == pos || text[b - 1] == '\n'),
    decreases text.len() - pos,
{
    if pos < text.len() {
        lemma_line_end(text, pos);
        let e = line_end(text, pos);
        if trim(text.subrange(pos, e)) != m && e < text.len() {
            lemma_find_first(text, e + 1, m);
            let lim = match find_marker_from(text, pos, m) {
                Some((b, e)) => b,
                None => text.len() as int,
            };
            assert forall|q: int|
                pos <= q < lim && (q == pos || text[q - 1] == '\n') implies trim(
                    #[trigger] line_at(text, q),
                ) != m by {
                if q != pos {
                    assert(text[q - 1] == '\n');
                    assert(q >= e + 1);
                }
            }
        }
    }
}


/// A prefix that ends at a line start keeps only lines that are not `m`-lines
/// when the text had none before that point.
pub proof fn lemma_no_marker_prefix(p: Seq<char>, sb: int, m: Seq<char>)
    requires
        0 <= sb <= p.len(),
        sb == 0 || p[sb - 1] == '\n',
        forall|q: int| 0 <= q < sb && (q == 0 || p[q - 1] == '\n') ==> trim(#[trigger] line_at(p, q)) != m,
    ensures
        no_line_trimmed_to(p.take(sb), m),
{
    let t = p.take(sb);
    assert forall|q: int| #[trigger] is_line_start(t, q) implies trim(line_at(t, q)) != m by {
        if q > 0 {
            assert(t[q - 1] == p[q - 1]);
        }
        lemma_line_end(p, q);
        let le = line_end(p, q);
        assert(le <= sb - 1);
        assert forall|i: int| q <= i < le implies t[i] != '\n' by {
            assert(t[i] == p[i]);
        }
        assert(t[le] == p[le]);
        lemma_line_end_at(t, q, le);
        assert(line_at(t, q) =~= line_at(p, q));
        assert(trim(line_at(p, q)) != m);
    }
}

/// Start of the line that holds position `p`.
pub open spec fn line_begin(s: Seq<char>, p: int) -> int
    decreases p,
{
    if p <= 0 {
        0
    } else if s[p - 1] == '\n' {
        p
    } else {
        line_begin(s, p - 1)
    }
}

pub proof fn lemma_line_begin(s: Seq<char>, p: int)
    requires
        0 <= p <= s.len(),
    ensures
        0 <= line_begin(s, p) <= p,
        line_begin(s, p) == 0 || s[line_begin(s, p) - 1] == '\n',
        forall|i: int| line_begin(s, p) <= i < p ==> s[i] != '\n',
    decreases p,
{
    if p > 0 && s[p - 1] != '\n' {
        lemma_line_begin(s, p - 1);
    }
}

/// Cutting whitespace off both ends of a text keeps it free of `m`-lines.
pub proof fn lemma_no_marker_sub(s: Seq<char>, b: int, e: int, m: Seq<char>)
    requires
        no_line_trimmed_to(s, m),
        0 <= b <= e <= s.len(),
        all_white_space(s.take(b)),
        all_white_space(s.skip(e)),
    ensures
        no_line_trimmed_to(s.subrange(b, e), m),
{
    let t = s.subrange(b, e);
    assert forall|q: int| #[trigger] is_line_start(t, q) implies trim(line_at(t, q)) != m by {
        let p = b + q;
        if q > 0 {
            assert(t[q - 1] == s[p - 1]);
        }
        lemma_line_begin(s, p);
        let q2 = if q > 0 { p } else { line_begin(s, p) };
        if q == 0 {
            assert(q2 == line_begin(s, p));
        }
        assert(is_line_start(s, q2));
        assert(forall|i: int| q2 <= i < p ==> s[i] != '\n');
        lemma_line_end(s, p);
        let le = line_end(s, p);
        lemma_line_end_at(s, q2, le);
        let stop = if le < e { le } else { e };
        assert forall|i: int| q <= i < stop - b implies t[i] != '\n' by {
            assert(t[i] == s[b + i]);
        }
        if le < e {
            assert(t[le - b] == s[le]);
        }
        lemma_line_end_at(t, q, stop - b);
        assert(line_at(t, q) =~= s.subrange(p, stop));
        let w1 = s.subrange(q2, p);
        let w2 = s.subrange(stop, le);
        assert(all_white_space(w1)) by {
            assert forall|i: int| 0 <= i < w1.len() implies is_white_space(#[trigger] w1[i]) by {
                if q == 0 {
                    assert(w1[i] == s.take(b)[q2 + i]);
                }
            }
        }
        assert(all_white_space(w2)) by {
            assert forall|i: int| 0 <= i < w2.len() implies is_white_space(#[trigger] w2[i]) by {
                assert(w2[i] == s.skip(e)[stop + i - e]);
            }
        }
        assert(line_at(s, q2) =~= w1 + s.subrange(p, stop) + w2);
        lemma_trim_ws_around(w1, s.subrange(p, stop), w2);
        assert(trim(line_at(s, q2)) != m);
    }
}


/// Facts about the two marker texts.
pub proof fn lemma_markers()
    ensures
        start_marker().len() > 0,
        end_marker().len() > 0,
        forall|i: int| 0 <= i < start_marker().len() ==> start_marker()[i] != '\n',
        forall|i: int| 0 <= i < end_marker().len() ==> end_marker()[i] != '\n',
        trim(start_marker()) == start_marker(),
        trim(end_marker()) == end_marker(),
        start_marker() != end_marker(),
{
    reveal_strlit("# --- SWITCHHOSTS_CONTENT_START ---");
    reveal_strlit("# --- SWITCHHOSTS_CONTENT_END ---");
    assert(start_marker().len() != end_marker().len());
}

/// Whether no line of `s` is a marker line.
pub open spec fn no_marker_lines(s: Seq<char>) -> bool {
    forall|q: int| #[trigger] is_line_start(s, q) ==> !is_marker_text(line_at(s, q))
}

/// Whether no element of `ls` holds a `'\n'`.
pub open spec fn single_lines(ls: Seq<Seq<char>>) -> bool {
    forall|i: int, j: int| 0 <= i < ls.len() && 0 <= j < ls[i].len() ==> #[trigger] ls[i][j] != '\n'
}

pub proof fn lemma_trim_strip_cr(x: Seq<char>)
    ensures
        trim(strip_cr(x)) == trim(x),
{
    if x.len() > 0 && x.last() == '\r' {
        let w = seq!['\r'];
        assert(x =~= Seq::<char>::empty() + x.drop_last() + w);
        assert(all_white_space(w)) by {
            assert(is_white_space(w[0]));
        }
        lemma_trim_ws_around(Seq::<char>::empty(), x.drop_last(), w);
    }
}

/// When no element of `lines_from(s, pos)` is a marker line, no line of `s`
/// from `pos` on is one.
pub proof fn lemma_lines_cover(s: Seq<char>, pos: int)
    requires
        0 <= pos,
        !has_marker_line(lines_from(s, pos)),
    ensures
        forall|q: int|
            pos <= q < s.len() && (q == pos || s[q - 1] == '\n') ==> !is_marker_text(
                #[trigger] line_at(s, q),
            ),
    decreases s.len() - pos,
{
    if pos < s.len() {
        lemma_line_end(s, pos);
        let e = line_end(s, pos);
        let ls = lines_from(s, pos);
        assert(!is_marker_text(ls[0]));
        if e >= s.len() {
            assert(ls[0] == line_at(s, pos));
            assert forall|q: int|
                pos <= q < s.len() && (q == pos || s[q - 1] == '\n') implies !is_marker_text(
                    #[trigger] line_at(s, q),
                ) by {
                if q != pos {
                    assert(s[q - 1] == '\n');
                }
            }
        } else {
            lemma_trim_strip_cr(line_at(s, pos));
            let rest = lines_from(s, e + 1);
            assert forall|i: int| 0 <= i < rest.len() implies !is_marker_text(#[trigger] rest[i]) by {
                assert(rest[i] == ls[i + 1]);
            }
            lemma_lines_cover(s, e + 1);
            assert forall|q: int|
                pos <= q < s.len() && (q == pos || s[q - 1] == '\n') implies !is_marker_text(
                    #[trigger] line_at(s, q),
                ) by {
                if q != pos {
                    assert(s[q - 1] == '\n');
                    assert(q >= e + 1);
                }
            }
        }
    }
}

pub proof fn lemma_lines_single(s: Seq<char>, pos: int)
    requires
        0 <= pos,
    ensures
        single_lines(lines_from(s, pos)),
    decreases s.len() - pos,
{
    if pos < s.len() {
        lemma_line_end(s, pos);
        let e = line_end(s, pos);
        let ls = lines_from(s, pos);
        if e < s.len() {
            lemma_lines_single(s, e + 1);
            let rest = lines_from(s, e + 1);
            assert forall|i: int, j: int| 0 <= i < ls.len() && 0 <= j < ls[i].len() implies #[trigger] ls[i][j]
                != '\n' by {
                if i == 0 {
                    assert(ls[0][j] == s[pos + j]);
                } else {
                    assert(ls[i] == rest[i - 1]);
                }
            }
        } else {
            assert forall|i: int, j: int| 0 <= i < ls.len() && 0 <= j < ls[i].len() implies #[trigger] ls[i][j]
                != '\n' by {
                assert(ls[0][j] == s[pos + j]);
            }
        }
    }
}

pub proof fn lemma_unmarked(ls: Seq<Seq<char>>)
    requires
        single_lines(ls),
    ensures
        single_lines(unmarked_lines(ls)),
        forall|i: int| 0 <= i < unmarked_lines(ls).len() ==> !is_marker_text(#[trigger] unmarked_lines(ls)[i]),
    decreases ls.len(),
{
    if ls.len() > 0 {
        let d = ls.drop_last();
        assert forall|i: int, j: int| 0 <= i < d.len() && 0 <= j < d[i].len() implies #[trigger] d[i][j]
            != '\n' by {
            assert(d[i] == ls[i]);
        }
        lemma_unmarked(d);
        let u = unmarked_lines(ls);
        let ud = unmarked_lines(d);
        if !is_marker_text(ls.last()) {
            assert forall|i: int, j: int| 0 <= i < u.len() && 0 <= j < u[i].len() implies #[trigger] u[i][j]
                != '\n' by {
                if i < ud.len() {
                    assert(u[i] == ud[i]);
                } else {
                    assert(u[i] == ls[ls.len() - 1]);
                }
            }
            assert forall|i: int| 0 <= i < u.len() implies !is_marker_text(#[trigger] u[i]) by {
                if i < ud.len() {
                    assert(u[i] == ud[i]);
                }
            }
        }
    }
}

/// Joining single lines that are not marker lines with `'\n'` gives a text
/// with no marker line.
pub proof fn lemma_join_no_marker(ls: Seq<Seq<char>>)
    requires
        single_lines(ls),
        forall|i: int| 0 <= i < ls.len() ==> !is_marker_text(#[trigger] ls[i]),
    ensures
        no_marker_lines(join(ls, seq!['\n'])),
    decreases ls.len(),
{
    lemma_markers();
    let s = join(ls, seq!['\n']);
    if ls.len() == 1 {
        assert forall|q: int| #[trigger] is_line_start(s, q) implies !is_marker_text(line_at(s, q)) by {
            assert(s == ls[0]);
            if q > 0 {
                assert(ls[0][q - 1] != '\n');
            }
            assert forall|i: int| 0 <= i < s.len() implies s[i] != '\n' by {
                assert(ls[0][i] != '\n');
            }
            lemma_line_end_at(s, 0, s.len() as int);
            assert(line_at(s, 0) =~= ls[0]);
        }
    } else if ls.len() > 1 {
        let d = ls.drop_last();
        let l = ls.last();
        assert forall|i: int, j: int| 0 <= i < d.len() && 0 <= j < d[i].len() implies #[trigger] d[i][j]
            != '\n' by {
            assert(d[i] == ls[i]);
        }
        assert forall|i: int| 0 <= i < d.len() implies !is_marker_text(#[trigger] d[i]) by {
            assert(d[i] == ls[i]);
        }
        lemma_join_no_marker(d);
        let jd = join(d, seq!['\n']);
        let n = jd.len() as int;
        assert(s =~= jd + seq!['\n'] + l);
        assert(!is_marker_text(l)) by {
            assert(l == ls[ls.len() - 1]);
        }
        assert forall|i: int| 0 <= i < l.len() implies l[i] != '\n' by {
            assert(ls[ls.len() - 1][i] != '\n');
        }
        assert forall|q: int| #[trigger] is_line_start(s, q) implies !is_marker_text(line_at(s, q)) by {
            if q < n {
                if q > 0 {
                    assert(jd[q - 1] == s[q - 1]);
                }
                assert(is_line_start(jd, q));
                lemma_line_end(jd, q);
                let le = line_end(jd, q);
                assert forall|i: int| q <= i < le implies s[i] != '\n' by {
                    assert(s[i] == jd[i]);
                }
                if le < n {
                    assert(s[le] == jd[le]);
                }
                lemma_line_end_at(s, q, le);
                assert(line_at(s, q) =~= line_at(jd, q));
            } else if q == n {
                lemma_line_end_at(s, q, q);
                assert(line_at(s, q) =~= Seq::<char>::empty());
                assert(trim(Seq::<char>::empty()) =~= Seq::<char>::empty());
            } else {
                assert(s[q - 1] == '\n');
                if q - 1 > n {
                    assert(s[q - 1] == l[q - 2 - n]);
                }
                assert(q == n + 1);
                assert forall|i: int| q <= i < s.len() implies s[i] != '\n' by {
                    assert(s[i] == l[i - n - 1]);
                }
                lemma_line_end_at(s, q, s.len() as int);
                assert(line_at(s, q) =~= l);
            }
        }
    } else {
        assert forall|q: int| #[trigger] is_line_start(s, q) implies !is_marker_text(line_at(s, q)) by {
        }
    }
}

/// Content with its marker lines stripped has no marker line left.
pub proof fn law_stripped_content_has_no_marker_line(c: Seq<char>)
    ensures
        no_marker_lines(strip_marker_text(c)),
{
    if !has_marker_line(lines(c)) {
        lemma_lines_cover(c, 0);
        assert forall|q: int| #[trigger] is_line_start(c, q) implies !is_marker_text(line_at(c, q)) by {
        }
    } else {
        lemma_lines_single(c, 0);
        lemma_unmarked(lines(c));
        lemma_join_no_marker(unmarked_lines(lines(c)));
    }
}


/// What the three blocks of a rewrite look like: the head has no start marker
/// line and ends with a non-whitespace character, the body has no end marker
/// line, and body and tail start and end with non-whitespace characters.
pub proof fn lemma_parts_shape(p: Seq<char>, c: Seq<char>)
    ensures
        no_line_trimmed_to(managed_head(p), start_marker()),
        managed_head(p).len() > 0 ==> !is_white_space(managed_head(p).last()),
        no_line_trimmed_to(managed_body(c), end_marker()),
        managed_body(c).len() > 0 ==> !is_white_space(managed_body(c)[0])
            && !is_white_space(managed_body(c).last()),
        managed_tail(p).len() > 0 ==> !is_white_space(managed_tail(p)[0])
            && !is_white_space(managed_tail(p).last()),
{
    // head
    lemma_find_first(p, 0, start_marker());
    let h = split_around(p).0;
    match find_marker_from(p, 0, start_marker()) {
        None => {
            assert forall|q: int| #[trigger] is_line_start(p, q) implies trim(line_at(p, q))
                != start_marker() by {
            }
        },
        Some((sb, se)) => {
            lemma_find_bounds(p, 0, start_marker());
            lemma_no_marker_prefix(p, sb, start_marker());
        },
    }
    assert(no_line_trimmed_to(h, start_marker()));
    lemma_trim_end_shape(h);
    let k = trim_end(h).len() as int;
    assert(h.take(0) =~= Seq::<char>::empty());
    assert(h.subrange(0, k) =~= h.take(k));
    lemma_no_marker_sub(h, 0, k, start_marker());
    // body
    let st = strip_marker_text(c);
    law_stripped_content_has_no_marker_line(c);
    assert forall|q: int| #[trigger] is_line_start(st, q) implies trim(line_at(st, q)) != end_marker() by {
        assert(!is_marker_text(line_at(st, q)));
    }
    let (b, e) = lemma_trim_shape(st);
    lemma_no_marker_sub(st, b, e, end_marker());
    if b < e {
        assert(managed_body(c)[0] == st[b]);
        assert(managed_body(c).last() == st[e - 1]);
    }
    // tail
    let t = split_around(p).1;
    let (tb, te) = lemma_trim_shape(t);
    if tb < te {
        assert(managed_tail(p)[0] == t[tb]);
        assert(managed_tail(p).last() == t[te - 1]);
    }
}


/// A line of `r` that starts inside an embedded copy of `w`, where `w` is
/// followed by a line break or the end of `r`, is the matching line of `w`.
pub proof fn lemma_embedded_line(r: Seq<char>, off: int, w: Seq<char>, q: int)
    requires
        0 <= off,
        off + w.len() <= r.len(),
        r.subrange(off, off + w.len()) == w,
        off + w.len() == r.len() || r[off + w.len()] == '\n',
        off <= q < off + w.len(),
        q == off || r[q - 1] == '\n',
    ensures
        is_line_start(w, q - off),
        line_at(r, q) == line_at(w, q - off),
{
    let k = q - off;
    if k > 0 {
        assert(w[k - 1] == r[q - 1]);
    }
    lemma_line_end(w, k);
    let le = line_end(w, k);
    assert forall|i: int| q <= i < off + le implies r[i] != '\n' by {
        assert(r[i] == w[i - off]);
    }
    if le < w.len() {
        assert(r[off + le] == w[le]);
    }
    lemma_line_end_at(r, q, off + le);
    assert(line_at(r, q) =~= line_at(w, k));
}

/// A line that begins with `'\n'` is empty and trims to no marker.
pub proof fn lemma_empty_line(r: Seq<char>, q: int)
    requires
        0 <= q < r.len(),
        r[q] == '\n',
    ensures
        line_at(r, q) == Seq::<char>::empty(),
        !is_marker_text(line_at(r, q)),
        trim(line_at(r, q)) != start_marker(),
        trim(line_at(r, q)) != end_marker(),
{
    lemma_markers();
    lemma_line_end_at(r, q, q);
    assert(line_at(r, q) =~= Seq::<char>::empty());
    assert(trim(Seq::<char>::empty()) =~= Seq::<char>::empty());
}

pub proof fn lemma_join_small(a: Seq<char>, b: Seq<char>, c: Seq<char>, sep: Seq<char>)
    ensures
        join(seq![a], sep) == a,
        join(seq![a, b], sep) == a + sep + b,
        join(seq![a, b, c], sep) == a + sep + b + sep + c,
{
    let s1 = seq![a];
    let s2 = seq![a, b];
    let s3 = seq![a, b, c];
    assert(join(s1, sep) == a);
    assert(s2.drop_last() =~= s1);
    assert(s2.last() == b);
    assert(join(s2, sep) == join(s1, sep) + sep + b);
    assert(s3.drop_last() =~= s2);
    assert(s3.last() == c);
    assert(join(s3, sep) == join(s2, sep) + sep + c);
}


/// The text before the section: the head and a blank line, or nothing.
pub open spec fn head_block(h: Seq<char>) -> Seq<char> {
    if h.len() > 0 { h + seq!['\n', '\n'] } else { Seq::empty() }
}

/// The text after the section: a blank line, the tail and a line break, or
/// just the final line break.
pub open spec fn tail_block(t: Seq<char>) -> Seq<char> {
    if t.len() > 0 { seq!['\n', '\n'] + t + seq!['\n'] } else { seq!['\n'] }
}

pub proof fn lemma_layout_text(h: Seq<char>, b: Seq<char>, t: Seq<char>)
    ensures
        b.len() == 0 && t.len() == 0 ==> layout(h, b, t) == head_block(h).take(h.len() as int).push('\n'),
        b.len() > 0 || t.len() > 0 ==> layout(h, b, t) == head_block(h) + section_text(b) + tail_block(t),
{
    let sep = seq!['\n', '\n'];
    let s = section_text(b);
    lemma_join_small(h, s, t, sep);
    lemma_join_small(s, t, t, sep);
    lemma_join_small(h, s, s, sep);
    let parts = layout_parts(h, b, t);
    if b.len() == 0 && t.len() == 0 {
        if h.len() > 0 {
            assert(parts =~= seq![h]);
            assert(head_block(h).take(h.len() as int) =~= h);
        } else {
            assert(parts =~= Seq::<Seq<char>>::empty());
            assert(head_block(h).take(h.len() as int) =~= Seq::<char>::empty());
        }
    } else {
        if h.len() > 0 && t.len() > 0 {
            assert(parts =~= seq![h, s, t]);
            assert(join(parts, sep).push('\n') =~= head_block(h) + s + tail_block(t));
        } else if h.len() > 0 {
            assert(parts =~= seq![h, s]);
            assert(join(parts, sep).push('\n') =~= head_block(h) + s + tail_block(t));
        } else if t.len() > 0 {
            assert(parts =~= seq![s, t]);
            assert(join(parts, sep).push('\n') =~= head_block(h) + s + tail_block(t));
        } else {
            assert(parts =~= seq![s]);
            assert(join(parts, sep).push('\n') =~= head_block(h) + s + tail_block(t));
        }
    }
}


/// The conditions under which a rebuilt hosts text splits back into the same
/// head and tail; `lemma_parts_shape` shows that every rewrite meets them.
pub open spec fn splittable_parts(h: Seq<char>, b: Seq<char>, t: Seq<char>) -> bool {
    &&& no_line_trimmed_to(h, start_marker())
    &&& h.len() > 0 ==> !is_white_space(h.last())
    &&& no_line_trimmed_to(b, end_marker())
    &&& b.len() > 0 ==> !is_white_space(b[0]) && !is_white_space(b.last())
    &&& t.len() > 0 ==> !is_white_space(t[0]) && !is_white_space(t.last())
}

proof fn lemma_trim_end_head_block(h: Seq<char>)
    requires
        h.len() > 0 ==> !is_white_space(h.last()),
    ensures
        trim_end(head_block(h)) == h,
        trim_end(h.push('\n')) == h,
{
    let nn = seq!['\n', '\n'];
    let n1 = seq!['\n'];
    assert(all_white_space(nn)) by {
        assert(is_white_space(nn[0]) && is_white_space(nn[1]));
    }
    assert(all_white_space(n1)) by {
        assert(is_white_space(n1[0]));
    }
    lemma_trim_end_ws_suffix(h, nn);
    lemma_trim_end_ws_suffix(h, n1);
    assert(h.push('\n') =~= h + n1);
    if h.len() == 0 {
        assert(head_block(h) =~= Seq::<char>::empty());
    }
}

proof fn lemma_trim_tail_block(t: Seq<char>)
    requires
        t.len() > 0 ==> !is_white_space(t[0]) && !is_white_space(t.last()),
    ensures
        trim(tail_block(t)) == t,
{
    let nn = seq!['\n', '\n'];
    let n1 = seq!['\n'];
    assert(all_white_space(nn)) by {
        assert(is_white_space(nn[0]) && is_white_space(nn[1]));
    }
    assert(all_white_space(n1)) by {
        assert(is_white_space(n1[0]));
    }
    lemma_trim_noop(t);
    if t.len() > 0 {
        lemma_trim_ws_around(nn, t, n1);
    } else {
        let e = Seq::<char>::empty();
        assert(n1 =~= e + e + n1);
        lemma_trim_ws_around(e, e, n1);
        lemma_trim_noop(e);
    }
}

/// A text with no section (no content and no tail) splits back into itself
/// as head and an empty tail.
proof fn lemma_split_bare(h: Seq<char>)
    requires
        no_line_trimmed_to(h, start_marker()),
        h.len() > 0 ==> !is_white_space(h.last()),
    ensures
        split_around(h.push('\n')) == (h.push('\n'), Seq::<char>::empty()),
{
    let r = h.push('\n');
    let n = h.len() as int;
    assert(r.subrange(0, n) =~= h);
    assert forall|q: int|
        0 <= q < r.len() && (q == 0 || r[q - 1] == '\n') implies trim(#[trigger] line_at(r, q))
        != start_marker() by {
        if q < n {
            lemma_embedded_line(r, 0, h, q);
        } else {
            lemma_empty_line(r, q);
        }
    }
    lemma_find_skip(r, 0, r.len() as int, start_marker());
}

/// A text with a section splits back into the head block and the tail block.
proof fn lemma_split_section(h: Seq<char>, b: Seq<char>, t: Seq<char>)
    requires
        splittable_parts(h, b, t),
    ensures
        split_around(head_block(h) + section_text(b) + tail_block(t)) == (head_block(h), tail_block(t)),
{
    lemma_markers();
    let nn = seq!['\n', '\n'];
    let st = start_marker();
    let en = end_marker();
    let x = head_block(h);
    let sec = section_text(b);
    let y = tail_block(t);
    let r = x + sec + y;
    let xl = x.len() as int;
    let se = xl + st.len();
    let pe = xl + sec.len() - en.len();
    // where things are
    assert(r.subrange(0, xl) =~= x);
    assert(r.subrange(xl, se) =~= st);
    assert(r[se] == '\n');
    assert(r[se + 1] == '\n');
    assert(r.subrange(pe, pe + en.len()) =~= en);
    assert(r[pe + en.len()] == '\n');
    assert(r[pe - 1] == '\n');
    // the start marker is the first start marker line
    assert forall|q: int|
        0 <= q < xl && (q == 0 || r[q - 1] == '\n') implies trim(#[trigger] line_at(r, q)) != st by {
        if q < h.len() {
            assert(r.subrange(0, h.len() as int) =~= h);
            assert(r[h.len() as int] == '\n');
            lemma_embedded_line(r, 0, h, q);
        } else if q == h.len() {
            assert(r[q - 1] == h.last());
        } else {
            assert(r[q] == '\n');
            lemma_empty_line(r, q);
        }
    }
    lemma_find_skip(r, 0, xl, st);
    lemma_find_at(r, xl, st);
    // the end marker is the first end marker line after it
    assert forall|q: int|
        se <= q < pe && (q == se || r[q - 1] == '\n') implies trim(#[trigger] line_at(r, q)) != en by {
        if q == se || q == se + 1 {
            lemma_empty_line(r, q);
        } else {
            assert(b.len() > 0);
            let bo = se + 2;
            let bl = b.len() as int;
            if q < bo + bl {
                assert(r.subrange(bo, bo + bl) =~= b);
                assert(r[bo + bl] == '\n');
                lemma_embedded_line(r, bo, b, q);
            } else if q == bo + bl {
                assert(r[q - 1] == b.last());
            } else {
                assert(q == bo + bl + 1);
                assert(r[q] == '\n');
                lemma_empty_line(r, q);
            }
        }
    }
    lemma_find_skip(r, se, pe, en);
    lemma_find_at(r, pe, en);
    assert(r.take(xl) =~= x);
    assert(r.skip(pe + en.len()) =~= y);
}

/// A rebuilt hosts text splits back into the head and the tail it was built from.
pub proof fn lemma_layout_split(h: Seq<char>, b: Seq<char>, t: Seq<char>)
    requires
        splittable_parts(h, b, t),
    ensures
        managed_head(layout(h, b, t)) == h,
        managed_tail(layout(h, b, t)) == t,
{
    lemma_layout_text(h, b, t);
    lemma_trim_end_head_block(h);
    lemma_trim_tail_block(t);
    if b.len() == 0 && t.len() == 0 {
        assert(head_block(h).take(h.len() as int) =~= h);
        lemma_split_bare(h);
        let e = Seq::<char>::empty();
        lemma_trim_noop(e);
    } else {
        lemma_split_section(h, b, t);
    }
}

/// Rewriting replaces the whole section: applying `c2` to the text that
/// applying `c1` to `p` produced gives the same text as applying `c2` to `p`.
/// The head and the tail of `p` survive every rewrite unchanged.
pub proof fn law_reapply_replaces_section(p: Seq<char>, c1: Seq<char>, c2: Seq<char>)
    ensures
        managed_head(append_content(p, c1)) == managed_head(p),
        managed_tail(append_content(p, c1)) == managed_tail(p),
        append_content(append_content(p, c1), c2) == append_content(p, c2),
{
    lemma_parts_shape(p, c1);
    lemma_layout_split(managed_head(p), managed_body(c1), managed_tail(p));
}

/// Applying the same content twice gives the same text as applying it once,
/// so a re-apply of unchanged content writes nothing new.
pub proof fn law_append_idempotent(p: Seq<char>, c: Seq<char>)
    ensures
        append_content(append_content(p, c), c) == append_content(p, c),
{
    law_reapply_replaces_section(p, c, c);
}


pub proof fn lemma_no_cr_concat(a: Seq<char>, b: Seq<char>)
    requires
        no_cr(a),
        no_cr(b),
    ensures
        no_cr(a + b),
{
    assert forall|i: int| 0 <= i < (a + b).len() implies #[trigger] (a + b)[i] != '\r' by {
        if i < a.len() {
            assert((a + b)[i] == a[i]);
        } else {
            assert((a + b)[i] == b[i - a.len()]);
        }
    }
}

pub proof fn lemma_no_cr_sub(s: Seq<char>, b: int, e: int)
    requires
        no_cr(s),
        0 <= b <= e <= s.len(),
    ensures
        no_cr(s.subrange(b, e)),
{
    assert forall|i: int| 0 <= i < s.subrange(b, e).len() implies #[trigger] s.subrange(b, e)[i] != '\r' by {
        assert(s.subrange(b, e)[i] == s[b + i]);
    }
}

/// Whether no element of `ls` holds a carriage return.
pub open spec fn all_no_cr(ls: Seq<Seq<char>>) -> bool {
    forall|i: int| 0 <= i < ls.len() ==> no_cr(#[trigger] ls[i])
}

proof fn lemma_lines_no_cr(s: Seq<char>, pos: int)
    requires
        0 <= pos,
        no_cr(s),
    ensures
        all_no_cr(lines_from(s, pos)),
    decreases s.len() - pos,
{
    if pos < s.len() {
        lemma_line_end(s, pos);
        let e = line_end(s, pos);
        let ls = lines_from(s, pos);
        lemma_no_cr_sub(s, pos, e);
        if e < s.len() {
            lemma_lines_no_cr(s, e + 1);
            let l = s.subrange(pos, e);
            if l.len() > 0 && l.last() == '\r' {
                lemma_no_cr_sub(l, 0, l.len() - 1);
                assert(l.subrange(0, l.len() - 1) =~= l.drop_last());
            }
            assert forall|i: int| 0 <= i < ls.len() implies no_cr(#[trigger] ls[i]) by {
                if i > 0 {
                    assert(ls[i] == lines_from(s, e + 1)[i - 1]);
                }
            }
        } else {
            lemma_no_cr_sub(s, pos, s.len() as int);
            assert forall|i: int| 0 <= i < ls.len() implies no_cr(#[trigger] ls[i]) by {
            }
        }
    }
}

proof fn lemma_unmarked_no_cr(ls: Seq<Seq<char>>)
    requires
        all_no_cr(ls),
    ensures
        all_no_cr(unmarked_lines(ls)),
    decreases ls.len(),
{
    if ls.len() > 0 {
        let d = ls.drop_last();
        assert forall|i: int| 0 <= i < d.len() implies no_cr(#[trigger] d[i]) by {
            assert(d[i] == ls[i]);
        }
        lemma_unmarked_no_cr(d);
        let u = unmarked_lines(ls);
        assert forall|i: int| 0 <= i < u.len() implies no_cr(#[trigger] u[i]) by {
            if i < unmarked_lines(d).len() {
                assert(u[i] == unmarked_lines(d)[i]);
            } else {
                assert(u[i] == ls[ls.len() - 1]);
            }
        }
    }
}

proof fn lemma_join_no_cr(ls: Seq<Seq<char>>, sep: Seq<char>)
    requires
        all_no_cr(ls),
        no_cr(sep),
    ensures
        no_cr(join(ls, sep)),
    decreases ls.len(),
{
    if ls.len() == 1 {
        assert(no_cr(ls[0]));
    } else if ls.len() > 1 {
        let d = ls.drop_last();
        assert forall|i: int| 0 <= i < d.len() implies no_cr(#[trigger] d[i]) by {
            assert(d[i] == ls[i]);
        }
        lemma_join_no_cr(d, sep);
        assert(no_cr(ls[ls.len() - 1]));
        lemma_no_cr_concat(join(d, sep), sep);
        lemma_no_cr_concat(join(d, sep) + sep, ls.last());
    }
}

/// Rewriting text without carriage returns gives text without carriage returns.
pub proof fn lemma_append_no_cr(p: Seq<char>, c: Seq<char>)
    requires
        no_cr(p),
        no_cr(c),
    ensures
        no_cr(append_content(p, c)),
{
    reveal_strlit("# --- SWITCHHOSTS_CONTENT_START ---");
    reveal_strlit("# --- SWITCHHOSTS_CONTENT_END ---");
    let st = start_marker();
    let en = end_marker();
    assert(no_cr(st));
    assert(no_cr(en));
    let nn = seq!['\n', '\n'];
    assert(no_cr(nn));
    assert(no_cr(seq!['\n']));
    // head and tail are pieces of p
    let (h, t) = split_around(p);
    lemma_find_bounds(p, 0, st);
    match find_marker_from(p, 0, st) {
        None => {},
        Some((sb, se)) => {
            lemma_find_bounds(p, se, en);
            lemma_no_cr_sub(p, 0, sb);
            assert(p.subrange(0, sb) =~= p.take(sb));
            match find_marker_from(p, se, en) {
                Some((eb, ee)) => {
                    lemma_no_cr_sub(p, ee, p.len() as int);
                    assert(p.subrange(ee, p.len() as int) =~= p.skip(ee));
                },
                None => {},
            }
        },
    }
    assert(no_cr(h));
    assert(no_cr(t));
    lemma_trim_end_shape(h);
    lemma_no_cr_sub(h, 0, trim_end(h).len() as int);
    assert(h.subrange(0, trim_end(h).len() as int) =~= h.take(trim_end(h).len() as int));
    let (tb, te) = lemma_trim_shape(t);
    lemma_no_cr_sub(t, tb, te);
    // body is a piece of the stripped content
    let sc = strip_marker_text(c);
    if has_marker_line(lines(c)) {
        lemma_lines_no_cr(c, 0);
        lemma_unmarked_no_cr(lines(c));
        lemma_join_no_cr(unmarked_lines(lines(c)), seq!['\n']);
    }
    assert(no_cr(sc));
    let (bb, be) = lemma_trim_shape(sc);
    lemma_no_cr_sub(sc, bb, be);
    let hh = managed_head(p);
    let bd = managed_body(c);
    let tt = managed_tail(p);
    // the section and the layout
    lemma_no_cr_concat(st, nn);
    lemma_no_cr_concat(st + nn, bd);
    lemma_no_cr_concat(st + nn + bd, nn);
    lemma_no_cr_concat(st + nn + bd + nn, en);
    lemma_no_cr_concat(st + nn, en);
    let sec = section_text(bd);
    assert(no_cr(sec));
    let parts = layout_parts(hh, bd, tt);
    assert(all_no_cr(parts)) by {
        assert forall|i: int| 0 <= i < parts.len() implies no_cr(#[trigger] parts[i]) by {
            let a: Seq<Seq<char>> = if hh.len() > 0 { seq![hh] } else { Seq::empty() };
            let b: Seq<Seq<char>> = if bd.len() > 0 || tt.len() > 0 { seq![sec] } else { Seq::empty() };
            let cc: Seq<Seq<char>> = if tt.len() > 0 { seq![tt] } else { Seq::empty() };
            assert(parts == a + b + cc);
            if i < a.len() {
                assert(parts[i] == a[i]);
            } else if i < a.len() + b.len() {
                assert(parts[i] == b[i - a.len()]);
            } else {
                assert(parts[i] == cc[i - a.len() - b.len()]);
            }
        }
    }
    lemma_join_no_cr(parts, nn);
    lemma_no_cr_concat(join(parts, nn), seq!['\n']);
    assert(join(parts, nn).push('\n') =~= join(parts, nn) + seq!['\n']);
}


/// Whether a line, once trimmed, is one of the two marker texts, spelled out.
pub open spec fn trims_to_a_marker(line: Seq<char>) -> bool {
    trim(line) == "# --- SWITCHHOSTS_CONTENT_START ---"@ || trim(line) == "# --- SWITCHHOSTS_CONTENT_END ---"@
}

proof fn lemma_lines_keep_plain(s: Seq<char>, pos: int)
    requires
        0 <= pos,
        forall|q: int|
            pos <= q < s.len() && (q == pos || s[q - 1] == '\n') ==> !trims_to_a_marker(
                #[trigger] line_at(s, q),
            ),
    ensures
        forall|i: int|
            0 <= i < lines_from(s, pos).len() ==> !trims_to_a_marker(#[trigger] lines_from(s, pos)[i]),
    decreases s.len() - pos,
{
    if pos < s.len() {
        lemma_line_end(s, pos);
        let e = line_end(s, pos);
        let ls = lines_from(s, pos);
        assert(!trims_to_a_marker(line_at(s, pos)));
        if e < s.len() {
            lemma_trim_strip_cr(line_at(s, pos));
            assert forall|q: int|
                e + 1 <= q < s.len() && (q == e + 1 || s[q - 1] == '\n') implies !trims_to_a_marker(
                    #[trigger] line_at(s, q),
                ) by {
                if q != e + 1 {
                    assert(s[q - 1] == '\n');
                }
            }
            lemma_lines_keep_plain(s, e + 1);
            assert forall|i: int| 0 <= i < ls.len() implies !trims_to_a_marker(#[trigger] ls[i]) by {
                if i > 0 {
                    assert(ls[i] == lines_from(s, e + 1)[i - 1]);
                }
            }
        } else {
            assert forall|i: int| 0 <= i < ls.len() implies !trims_to_a_marker(#[trigger] ls[i]) by {
                assert(ls[0] == line_at(s, pos));
            }
        }
    }
}

/// Only marker lines are dropped from new content: content in which no line
/// trims to one of the two marker texts goes into the section unchanged but
/// for trimming at both ends; comment lines and every other line stay.
pub proof fn law_content_without_marker_lines_is_kept(p: Seq<char>, c: Seq<char>)
    requires
        forall|q: int| #[trigger] is_line_start(c, q) ==> !trims_to_a_marker(line_at(c, q)),
    ensures
        strip_marker_text(c) == c,
        managed_body(c) == trim(c),
        append_content(p, c) == layout(managed_head(p), trim(c), managed_tail(p)),
{
    assert forall|q: int| 0 <= q < c.len() && (q == 0 || c[q - 1] == '\n') implies !trims_to_a_marker(
        #[trigger] line_at(c, q),
    ) by {
        assert(is_line_start(c, q));
    }
    lemma_lines_keep_plain(c, 0);
    let ls = lines(c);
    assert forall|i: int| 0 <= i < ls.len() implies !is_marker_text(#[trigger] ls[i]) by {
        assert(!trims_to_a_marker(ls[i]));
    }
}


/// After stripping, no line of the new content trims to either marker text,
/// so the content can never close or reopen the section early.
pub proof fn law_stripped_content_has_no_marker_text(c: Seq<char>)
    ensures
        forall|q: int|
            #[trigger] is_line_start(strip_marker_text(c), q) ==> !trims_to_a_marker(
                line_at(strip_marker_text(c), q),
            ),
{
    law_stripped_content_has_no_marker_line(c);
}

} // verus!
