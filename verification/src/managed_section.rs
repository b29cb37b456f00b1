//! The managed section of the system hosts file: the region between the
//! start and end marker lines that this application owns. Text before the
//! start marker (the head) and after the end marker (the tail) belongs to
//! the user or to other tools and is kept.
//!
//! All positions here are character indices into the text.
use vstd::prelude::*;
use crate::text::{
    chars_of, extend_all, extend_range, range_eq, string_of, trim, trim_end, trim_end_in, trim_in,
};

verus! {

broadcast use vstd::string::group_string_axioms;

/// Text of the line that opens the managed section.
pub open spec fn start_marker() -> Seq<char> {
    "# --- SWITCHHOSTS_CONTENT_START ---"@
}

/// Text of the line that closes the managed section.
pub open spec fn end_marker() -> Seq<char> {
    "# --- SWITCHHOSTS_CONTENT_END ---"@
}

/// The characters of the start marker.
pub fn start_marker_chars() -> (r: Vec<char>)
    ensures
        r@ == start_marker(),
{
    chars_of("# --- SWITCHHOSTS_CONTENT_START ---")
}

/// The characters of the end marker.
pub fn end_marker_chars() -> (r: Vec<char>)
    ensures
        r@ == end_marker(),
{
    chars_of("# --- SWITCHHOSTS_CONTENT_END ---")
}

/// Index of the first `'\n'` at or after `pos`, or `s.len()` when there is none:
/// the end of the line that starts at `pos`.
pub open spec fn line_end(s: Seq<char>, pos: int) -> int
    decreases s.len() - pos,
{
    if pos < 0 || pos >= s.len() {
        s.len() as int
    } else if s[pos] == '\n' {
        pos
    } else {
        line_end(s, pos + 1)
    }
}

pub proof fn lemma_line_end(s: Seq<char>, pos: int)
    requires
        0 <= pos <= s.len(),
    ensures
        pos <= line_end(s, pos) <= s.len(),
        line_end(s, pos) < s.len() ==> s[line_end(s, pos)] == '\n',
        forall|k: int| pos <= k < line_end(s, pos) ==> s[k] != '\n',
    decreases s.len() - pos,
{
    if pos < s.len() && s[pos] != '\n' {
        lemma_line_end(s, pos + 1);
    }
}

/// Whether a line counts as a section boundary: once trimmed it is exactly
/// one of the two markers. A marker quoted inside a longer line does not count.
pub open spec fn is_marker_text(line: Seq<char>) -> bool {
    trim(line) == start_marker() || trim(line) == end_marker()
}

/// The first line that starts at or after `pos` (treating `pos` as a line
/// start) whose trimmed text equals `marker`, as its start and its end
/// (the end excludes the `'\n'`).
pub open spec fn find_marker_from(text: Seq<char>, pos: int, marker: Seq<char>) -> Option<(int, int)>
    decreases text.len() - pos,
{
    if pos < 0 || pos >= text.len() {
        None
    } else {
        let e = line_end(text, pos);
        if trim(text.subrange(pos, e)) == marker {
            Some((pos, e))
        } else if e < text.len() {
            proof {
                lemma_line_end(text, pos);
            }
            find_marker_from(text, e + 1, marker)
        } else {
            None
        }
    }
}

/// The head (text before the start marker line) and the tail (text after the
/// end marker line that follows it) of a hosts file. Without a start marker the
/// whole text is head; without an end marker after the start marker the tail
/// is empty, so everything from the start marker on is owned by the section.
pub open spec fn split_around(text: Seq<char>) -> (Seq<char>, Seq<char>) {
    match find_marker_from(text, 0, start_marker()) {
        None => (text, Seq::empty()),
        Some((sb, se)) => match find_marker_from(text, se, end_marker()) {
            Some((eb, ee)) => (text.take(sb), text.skip(ee)),
            None => (text.take(sb), Seq::empty()),
        },
    }
}

/// `line` without a final carriage return.
pub open spec fn strip_cr(line: Seq<char>) -> Seq<char> {
    if line.len() > 0 && line.last() == '\r' {
        line.drop_last()
    } else {
        line
    }
}

/// The lines of `s[pos..]` as `str::lines` yields them: split at `'\n'`, a
/// `'\r'` just before a `'\n'` dropped, no empty line after a final `'\n'`.
pub open spec fn lines_from(s: Seq<char>, pos: int) -> Seq<Seq<char>>
    decreases s.len() - pos,
{
    if pos < 0 || pos >= s.len() {
        Seq::empty()
    } else {
        let e = line_end(s, pos);
        if e >= s.len() {
            seq![s.subrange(pos, s.len() as int)]
        } else {
            proof {
                lemma_line_end(s, pos);
            }
            seq![strip_cr(s.subrange(pos, e))] + lines_from(s, e + 1)
        }
    }
}

/// The lines of `s` (`str::lines`).
pub open spec fn lines(s: Seq<char>) -> Seq<Seq<char>> {
    lines_from(s, 0)
}

/// The elements of `parts` joined with `sep` between neighbours.
pub open spec fn join(parts: Seq<Seq<char>>, sep: Seq<char>) -> Seq<char>
    decreases parts.len(),
{
    if parts.len() == 0 {
        Seq::empty()
    } else if parts.len() == 1 {
        parts[0]
    } else {
        join(parts.drop_last(), sep) + sep + parts.last()
    }
}

/// Whether some line of `ls` is a marker line.
pub open spec fn has_marker_line(ls: Seq<Seq<char>>) -> bool {
    exists|i: int| 0 <= i < ls.len() && #[trigger] is_marker_text(ls[i])
}

/// The lines of `ls` that are not marker lines.
pub open spec fn unmarked_lines(ls: Seq<Seq<char>>) -> Seq<Seq<char>>
    decreases ls.len(),
{
    if ls.len() == 0 {
        ls
    } else if is_marker_text(ls.last()) {
        unmarked_lines(ls.drop_last())
    } else {
        unmarked_lines(ls.drop_last()).push(ls.last())
    }
}

/// `content` without the lines that are marker lines. Content with no marker
/// line is returned as it is; otherwise the remaining lines are joined with `'\n'`.
pub open spec fn strip_marker_text(content: Seq<char>) -> Seq<char> {
    if !has_marker_line(lines(content)) {
        content
    } else {
        join(unmarked_lines(lines(content)), seq!['\n'])
    }
}

/// Find the first line at or after `from` whose trimmed content equals
/// `marker`. Returns the line's start and end, the end excluding the `'\n'`.
pub fn find_marker_line(text: &[char], from: usize, marker: &[char]) -> (r: Option<(usize, usize)>)
    requires
        from <= text@.len(),
    ensures
        match r {
            None => find_marker_from(text@, from as int, marker@) is None,
            Some((b, e)) => find_marker_from(text@, from as int, marker@) == Some((b as int, e as int)),
        },
{
    let n = text.len();
    let mut pos = from;
    while pos < n
        invariant
            n == text@.len(),
            from <= pos <= n,
            find_marker_from(text@, from as int, marker@) == find_marker_from(text@, pos as int, marker@),
        decreases n - pos,
    {
        let mut e = pos;
        while e < n && text[e] != '\n'
            invariant
                pos <= e <= n,
                n == text@.len(),
                line_end(text@, e as int) == line_end(text@, pos as int),
            decreases n - e,
        {
            e = e + 1;
        }
        let (b, t) = trim_in(text, pos, e);
        if range_eq(text, b, t, marker) {
            return Some((pos, e));
        }
        if e >= n {
            return None;
        }
        pos = e + 1;
    }
    None
}


/// Split the previous hosts text around the managed section: returns `(h, t)`
/// such that the head is `text[..h]` and the tail is `text[t..]`.
///
/// The end marker is only searched for after the start marker, so a stray end
/// marker before the start stays in the head. With no end marker after the
/// start, the tail is empty.
pub fn split_around_managed_section(text: &[char]) -> (r: (usize, usize))
    ensures
        r.0 <= text@.len(),
        r.1 <= text@.len(),
        text@.take(r.0 as int) == split_around(text@).0,
        text@.skip(r.1 as int) == split_around(text@).1,
{
    let n = text.len();
    let start = start_marker_chars();
    let end = end_marker_chars();
    match find_marker_line(text, 0, start.as_slice()) {
        None => {
            assert(text@.take(n as int) =~= text@);
            assert(text@.skip(n as int) =~= Seq::<char>::empty());
            (n, n)
        },
        Some((sb, se)) => {
            proof {
                lemma_find_bounds(text@, 0, start_marker());
            }
            match find_marker_line(text, se, end.as_slice()) {
                Some((_eb, ee)) => {
                    proof {
                        lemma_find_bounds(text@, se as int, end_marker());
                    }
                    (sb, ee)
                },
                None => {
                    assert(text@.skip(n as int) =~= Seq::<char>::empty());
                    (sb, n)
                },
            }
        },
    }
}

pub proof fn lemma_find_bounds(text: Seq<char>, pos: int, marker: Seq<char>)
    requires
        0 <= pos,
    ensures
        find_marker_from(text, pos, marker) matches Some((b, e)) ==> {
            &&& pos <= b <= e <= text.len()
            &&& e == line_end(text, b)
            &&& b < text.len()
        },
    decreases text.len() - pos,
{
    if 0 <= pos < text.len() {
        lemma_line_end(text, pos);
        let e = line_end(text, pos);
        if trim(text.subrange(pos, e)) != marker && e < text.len() {
            lemma_find_bounds(text, e + 1, marker);
        }
    }
}

/// Whether the line `v[lo..hi]` is a marker line (its trimmed text is a marker).
pub fn is_marker_line(v: &[char], lo: usize, hi: usize, start: &[char], end: &[char]) -> (r: bool)
    requires
        lo <= hi <= v@.len(),
        start@ == start_marker(),
        end@ == end_marker(),
    ensures
        r == is_marker_text(v@.subrange(lo as int, hi as int)),
{
    let (b, e) = trim_in(v, lo, hi);
    range_eq(v, b, e, start) || range_eq(v, b, e, end)
}

/// The views of a vector of character vectors.
pub open spec fn views(v: Seq<Vec<char>>) -> Seq<Seq<char>> {
    v.map_values(|x: Vec<char>| x@)
}

/// The lines of `s`, as `str::lines` yields them.
pub fn split_lines(s: &[char]) -> (r: Vec<Vec<char>>)
    ensures
        views(r@) == lines(s@),
{
    let n = s.len();
    let mut out: Vec<Vec<char>> = Vec::new();
    let mut pos: usize = 0;
    while pos < n
        invariant
            n == s@.len(),
            pos <= n,
            lines(s@) == views(out@) + lines_from(s@, pos as int),
        decreases n - pos,
    {
        let mut e = pos;
        while e < n && s[e] != '\n'
            invariant
                pos <= e <= n,
                n == s@.len(),
                line_end(s@, e as int) == line_end(s@, pos as int),
            decreases n - e,
        {
            e = e + 1;
        }
        let ghost before = views(out@);
        let mut line: Vec<char> = Vec::new();
        if e >= n {
            extend_range(&mut line, s, pos, n);
            out.push(line);
            assert(views(out@) =~= before.push(s@.subrange(pos as int, n as int)));
            assert(lines_from(s@, n as int) =~= Seq::<Seq<char>>::empty());
            assert(lines(s@) =~= views(out@) + lines_from(s@, n as int));
            pos = n;
        } else {
            let stop = if e > pos && s[e - 1] == '\r' { e - 1 } else { e };
            extend_range(&mut line, s, pos, stop);
            assert(line@ == strip_cr(s@.subrange(pos as int, e as int))) by {
                if e > pos && s@[e - 1] == '\r' {
                    assert(s@.subrange(pos as int, e as int).drop_last() =~= s@.subrange(pos as int, e - 1));
                }
            }
            out.push(line);
            assert(views(out@) =~= before.push(strip_cr(s@.subrange(pos as int, e as int))));
            assert(lines(s@) =~= views(out@) + lines_from(s@, e + 1));
            pos = e + 1;
        }
    }
    assert(lines_from(s@, pos as int) =~= Seq::<Seq<char>>::empty());
    assert(lines(s@) =~= views(out@));
    out
}

/// The elements of `parts` joined with `sep` between neighbours.
pub fn join_with(parts: &Vec<Vec<char>>, sep: &[char]) -> (r: Vec<char>)
    ensures
        r@ == join(views(parts@), sep@),
{
    let mut out: Vec<char> = Vec::new();
    let n = parts.len();
    for i in 0..n
        invariant
            n == parts@.len(),
            out@ == join(views(parts@).take(i as int), sep@),
    {
        let ghost prev = views(parts@).take(i as int);
        assert(views(parts@).take(i + 1).drop_last() =~= prev);
        if i > 0 {
            extend_all(&mut out, sep);
        }
        extend_all(&mut out, parts[i].as_slice());
        assert(out@ =~= join(views(parts@).take(i + 1), sep@)) by {
            if i == 0 {
                assert(prev =~= Seq::<Seq<char>>::empty());
            }
        }
    }
    assert(views(parts@).take(n as int) =~= views(parts@));
    out
}


/// Drop the content lines that are marker lines: left in, such a line would end
/// the managed section early on the next rewrite. Lines that merely contain a
/// marker are kept. Content with no marker line is returned unchanged.
pub fn strip_marker_lines(content: &[char]) -> (r: Vec<char>)
    ensures
        r@ == strip_marker_text(content@),
{
    let start = start_marker_chars();
    let end = end_marker_chars();
    let ls = split_lines(content);
    let n = ls.len();
    let mut found = false;
    let mut i: usize = 0;
    while i < n && !found
        invariant
            n == ls@.len(),
            views(ls@) == lines(content@),
            start@ == start_marker(),
            end@ == end_marker(),
            i <= n,
            found ==> has_marker_line(lines(content@)),
            !found ==> forall|j: int| 0 <= j < i ==> !is_marker_text(#[trigger] views(ls@)[j]),
        decreases n - i + (if found { 0int } else { 1int }),
    {
        let line = &ls[i];
        assert(line@.subrange(0, line@.len() as int) =~= line@);
        if is_marker_line(line.as_slice(), 0, line.len(), start.as_slice(), end.as_slice()) {
            assert(views(ls@)[i as int] == line@);
            found = true;
        } else {
            i = i + 1;
        }
    }
    if !found {
        let mut out: Vec<char> = Vec::new();
        extend_all(&mut out, content);
        return out;
    }
    let mut kept: Vec<Vec<char>> = Vec::new();
    for k in 0..n
        invariant
            n == ls@.len(),
            views(ls@) == lines(content@),
            start@ == start_marker(),
            end@ == end_marker(),
            views(kept@) == unmarked_lines(views(ls@).take(k as int)),
    {
        let line = &ls[k];
        assert(line@.subrange(0, line@.len() as int) =~= line@);
        let ghost before = views(kept@);
        assert(views(ls@).take(k + 1).drop_last() =~= views(ls@).take(k as int));
        if !is_marker_line(line.as_slice(), 0, line.len(), start.as_slice(), end.as_slice()) {
            kept.push(ls[k].clone());
            assert(views(kept@) =~= before.push(line@));
        }
    }
    assert(views(ls@).take(n as int) =~= views(ls@));
    let nl = vec!['\n'];
    assert(nl@ =~= seq!['\n']);
    join_with(&kept, nl.as_slice())
}


/// The managed section holding `body`, wrapped in the two marker lines with one
/// blank line on each side. An empty body gives the bare anchor: the two
/// markers with one blank line between them.
pub open spec fn section_text(body: Seq<char>) -> Seq<char> {
    if body.len() > 0 {
        start_marker() + seq!['\n', '\n'] + body + seq!['\n', '\n'] + end_marker()
    } else {
        start_marker() + seq!['\n', '\n'] + end_marker()
    }
}

/// The blocks of a rebuilt hosts file, in order: the head when not empty, the
/// section when there is content or a tail to keep it before, the tail when
/// not empty.
pub open spec fn layout_parts(head: Seq<char>, body: Seq<char>, tail: Seq<char>) -> Seq<Seq<char>> {
    let a: Seq<Seq<char>> = if head.len() > 0 { seq![head] } else { Seq::empty() };
    let b: Seq<Seq<char>> = if body.len() > 0 || tail.len() > 0 {
        seq![section_text(body)]
    } else {
        Seq::empty()
    };
    let c: Seq<Seq<char>> = if tail.len() > 0 { seq![tail] } else { Seq::empty() };
    a + b + c
}

/// The blocks joined with one blank line between them, ending with `'\n'`.
pub open spec fn layout(head: Seq<char>, body: Seq<char>, tail: Seq<char>) -> Seq<char> {
    join(layout_parts(head, body, tail), seq!['\n', '\n']).push('\n')
}

/// The head of a hosts text, without its trailing whitespace.
pub open spec fn managed_head(previous: Seq<char>) -> Seq<char> {
    trim_end(split_around(previous).0)
}

/// The tail of a hosts text, trimmed at both ends.
pub open spec fn managed_tail(previous: Seq<char>) -> Seq<char> {
    trim(split_around(previous).1)
}

/// What goes inside the section for new content: the content without its
/// marker lines, trimmed at both ends.
pub open spec fn managed_body(content: Seq<char>) -> Seq<char> {
    trim(strip_marker_text(content))
}

/// The hosts text that appending `content` to `previous` produces.
pub open spec fn append_content(previous: Seq<char>, content: Seq<char>) -> Seq<char> {
    layout(managed_head(previous), managed_body(content), managed_tail(previous))
}

/// Rebuild the hosts file around the managed section: the head (everything
/// before the start marker, trimmed at its end), the new content wrapped in
/// the markers, and the tail (everything after the end marker, trimmed at both
/// ends), one blank line between blocks, one `'\n'` at the end. When the content
/// is empty but a tail exists, an empty start/end anchor is kept so that a later
/// non-empty apply puts the section back before the tail.
pub fn make_append_content(previous_lf: &str, new_content_lf: &str) -> (r: String)
    ensures
        r@ == append_content(previous_lf@, new_content_lf@),
{
    let p = chars_of(previous_lf);
    let c = chars_of(new_content_lf);
    let n = p.len();
    let (hb, ts) = split_around_managed_section(p.as_slice());
    assert(p@.take(hb as int) =~= p@.subrange(0, hb as int));
    assert(p@.skip(ts as int) =~= p@.subrange(ts as int, n as int));
    let he = trim_end_in(p.as_slice(), 0, hb);
    let (tb, te) = trim_in(p.as_slice(), ts, n);
    let stripped = strip_marker_lines(c.as_slice());
    let (bb, be) = trim_in(stripped.as_slice(), 0, stripped.len());
    assert(stripped@.subrange(0, stripped@.len() as int) =~= stripped@);
    let mut head: Vec<char> = Vec::new();
    extend_range(&mut head, p.as_slice(), 0, he);
    let mut tail: Vec<char> = Vec::new();
    extend_range(&mut tail, p.as_slice(), tb, te);
    let mut body: Vec<char> = Vec::new();
    extend_range(&mut body, stripped.as_slice(), bb, be);
    assert(head@ =~= managed_head(p@));
    assert(tail@ =~= managed_tail(p@));
    assert(body@ =~= managed_body(c@));
    let start = start_marker_chars();
    let end = end_marker_chars();
    let mut parts: Vec<Vec<char>> = Vec::new();
    let ghost hv = head@;
    let ghost bv = body@;
    let ghost tv = tail@;
    if head.len() > 0 {
        parts.push(head);
    }
    let ghost pa = views(parts@);
    assert(pa =~= (if hv.len() > 0 { seq![hv] } else { Seq::<Seq<char>>::empty() }));
    if body.len() > 0 || tail.len() > 0 {
        let mut section: Vec<char> = Vec::new();
        extend_all(&mut section, start.as_slice());
        section.push('\n');
        section.push('\n');
        if body.len() > 0 {
            extend_all(&mut section, body.as_slice());
            section.push('\n');
            section.push('\n');
        }
        extend_all(&mut section, end.as_slice());
        assert(section@ =~= section_text(bv));
        parts.push(section);
        assert(views(parts@) =~= pa.push(section_text(bv)));
    }
    let ghost pb = views(parts@);
    assert(pb =~= pa + (if bv.len() > 0 || tv.len() > 0 { seq![section_text(bv)] } else { Seq::<Seq<char>>::empty() }));
    if tail.len() > 0 {
        parts.push(tail);
        assert(views(parts@) =~= pb.push(tv));
    }
    assert(views(parts@) =~= layout_parts(hv, bv, tv));
    let sep = vec!['\n', '\n'];
    assert(sep@ =~= seq!['\n', '\n']);
    let mut out = join_with(&parts, sep.as_slice());
    out.push('\n');
    string_of(out.as_slice())
}

} // verus!
