//! Location of the system hosts file: `/etc/hosts`, or
//! `System32\drivers\etc\hosts` below the Windows directory.
use vstd::prelude::*;
use std::path::{Path, PathBuf};
use crate::text::{chars_of, push_str, string_of};

verus! {

broadcast use vstd::string::group_string_axioms;

#[verifier::external_type_specification]
#[verifier::external_body]
pub struct ExPathBuf(PathBuf);

#[verifier::external_type_specification]
#[verifier::external_body]
pub struct ExPath(Path);

/// The bytes of a path in its OS-string encoding (`OsStr::as_encoded_bytes`):
/// a superset of UTF-8, so text that came from a `str` is held as its UTF-8 bytes.
pub uninterp spec fn path_bytes(p: &Path) -> Seq<u8>;

/// The bytes of an owned path in its OS-string encoding, as for `path_bytes`.
pub uninterp spec fn path_buf_bytes(p: PathBuf) -> Seq<u8>;

/// Whether a byte is a path separator on some platform (`/`, or `\` on Windows).
pub open spec fn is_separator_byte(b: u8) -> bool {
    b == 0x2f || b == 0x5c
}

/// What `Path::join` puts between `base` and a plain relative component: at
/// most one separator byte; none after an empty path or one ending in `/`;
/// exactly one after a non-empty path that does not end in a separator and is
/// not a bare drive such as `D:`.
pub open spec fn join_separator(base: Seq<u8>, sep: Seq<u8>) -> bool {
    &&& sep.len() <= 1
    &&& sep.len() == 1 ==> is_separator_byte(sep[0])
    &&& (base.len() == 0 || base.last() == 0x2f) ==> sep.len() == 0
    &&& (base.len() > 0 && !is_separator_byte(base.last()) && !is_drive_designator_bytes(base))
        ==> sep.len() == 1
}

/// Whether a path starts like a verbatim prefix (`\\?\`): two separators, a
/// question mark and a separator.
pub open spec fn starts_verbatim(b: Seq<u8>) -> bool {
    &&& b.len() >= 4
    &&& is_separator_byte(b[0])
    &&& is_separator_byte(b[1])
    &&& b[2] == 0x3f
    &&& is_separator_byte(b[3])
}

/// Whether `joined` is `base`, at most one separator, then the UTF-8 bytes of `component`.
pub open spec fn joined_path(base: Seq<u8>, component: Seq<char>, joined: Seq<u8>) -> bool {
    exists|sep: Seq<u8>| join_separator(base, sep) && joined == base + sep + vstd::utf8::encode_utf8(component)
}

/// Whether a path does not start like a verbatim prefix and is not just the
/// three bytes before one (two separators and a question mark), which joining
/// would turn into a verbatim prefix.
pub open spec fn ordinary_path_start(b: Seq<u8>) -> bool {
    &&& !starts_verbatim(b)
    &&& !(b.len() == 3 && is_separator_byte(b[0]) && is_separator_byte(b[1]) && b[2] == 0x3f)
}

/// Whether a component is a plain name: not empty, ASCII letters and digits only.
pub open spec fn plain_component(c: Seq<char>) -> bool {
    c.len() > 0 && forall|i: int|
        0 <= i < c.len() ==> ('a' <= #[trigger] c[i] && c[i] <= 'z') || ('A' <= c[i] && c[i] <= 'Z')
            || ('0' <= c[i] && c[i] <= '9')
}

/// `Path::to_string_lossy`: a path whose bytes are valid UTF-8 gives that
/// text; any other path gives a text holding U+FFFD in place of what is not
/// valid Unicode.
#[verifier::external_body]
fn path_text_lossy(p: &Path) -> (r: String)
    ensures
        vstd::utf8::valid_utf8(path_bytes(p)) ==> r@ == vstd::utf8::decode_utf8(path_bytes(p)),
        !vstd::utf8::valid_utf8(path_bytes(p)) ==> r@.contains('\u{FFFD}'),
{
    p.to_string_lossy().into_owned()
}

/// `PathBuf::from` on a `String`: the path holds the string's UTF-8 bytes.
#[verifier::external_body]
fn path_from_text(s: String) -> (r: PathBuf)
    ensures
        path_buf_bytes(r) == vstd::utf8::encode_utf8(s@),
{
    PathBuf::from(s)
}

/// `Path::to_path_buf`: the owned path holds the same bytes.
#[verifier::external_body]
fn path_to_owned(p: &Path) -> (r: PathBuf)
    ensures
        path_buf_bytes(r) == path_bytes(p),
{
    p.to_path_buf()
}

/// `Path::join` with a plain relative component: the path, the separator
/// that `join_separator` describes, then the component. Not stated for paths
/// that start like a verbatim prefix: there `join` rebuilds the whole path.
#[verifier::external_body]
fn path_join(p: &PathBuf, segment: &str) -> (r: PathBuf)
    requires
        plain_component(segment@),
    ensures
        !starts_verbatim(path_buf_bytes(*p)) ==> joined_path(path_buf_bytes(*p), segment@, path_buf_bytes(r)),
{
    p.join(segment)
}

/// Whether a rendered directory is a bare drive designator such as `D:`:
/// two characters, an ASCII letter and a colon.
pub open spec fn is_drive_designator(rendered: Seq<char>) -> bool {
    &&& rendered.len() == 2
    &&& (('a' <= rendered[0] && rendered[0] <= 'z') || ('A' <= rendered[0] && rendered[0] <= 'Z'))
    &&& rendered[1] == ':'
}

/// The directory text to join below: a bare drive designator gets a trailing
/// backslash (`D:` is the current directory on drive D, `D:\` its root); any
/// other text is kept.
pub open spec fn drive_root_text(rendered: Seq<char>) -> Seq<char> {
    if is_drive_designator(rendered) { rendered.push('\\') } else { rendered }
}

/// The directory text to join below, for a rendered Windows directory.
pub fn windows_dir_text_for_join(rendered: &str) -> (r: Option<String>)
    ensures
        match r {
            Some(t) => is_drive_designator(rendered@) && t@ == drive_root_text(rendered@),
            None => !is_drive_designator(rendered@),
        },
{
    let v = chars_of(rendered);
    if v.len() == 2 && (('a' <= v[0] && v[0] <= 'z') || ('A' <= v[0] && v[0] <= 'Z')) && v[1] == ':' {
        let mut t = string_of(v.as_slice());
        push_str(&mut t, "\\");
        proof {
            reveal_strlit("\\");
        }
        Some(t)
    } else {
        None
    }
}

/// Whether path bytes are a bare drive designator such as `D:`: two bytes, an
/// ASCII letter and a colon.
pub open spec fn is_drive_designator_bytes(d: Seq<u8>) -> bool {
    &&& d.len() == 2
    &&& ((0x61 <= d[0] && d[0] <= 0x7a) || (0x41 <= d[0] && d[0] <= 0x5a))
    &&& d[1] == 0x3a
}

/// The bytes of the directory to join below: a bare drive designator gets a
/// trailing backslash, any other directory is kept.
pub open spec fn dir_bytes_for_join(d: Seq<u8>) -> Seq<u8> {
    if is_drive_designator_bytes(d) { d.push(0x5c) } else { d }
}

/// Whether `hosts` is `base`, the separator that joining it needs, then
/// `System32`, `drivers`, `etc` and `hosts` with one separator byte between
/// each of them.
pub open spec fn hosts_file_below(base: Seq<u8>, hosts: Seq<u8>) -> bool {
    exists|s1: Seq<u8>, x2: u8, x3: u8, x4: u8|
        #![trigger join_separator(base, s1), is_separator_byte(x2), is_separator_byte(x3), is_separator_byte(x4)]
        join_separator(base, s1) && is_separator_byte(x2) && is_separator_byte(x3) && is_separator_byte(x4)
            && hosts == base + s1 + vstd::utf8::encode_utf8("System32"@) + seq![x2]
            + vstd::utf8::encode_utf8("drivers"@) + seq![x3] + vstd::utf8::encode_utf8("etc"@) + seq![x4]
            + vstd::utf8::encode_utf8("hosts"@)
}

/// A valid UTF-8 directory renders as a drive designator exactly when its bytes
/// are one; such bytes are valid UTF-8 and gain their backslash byte for byte.
proof fn lemma_drive_text_bytes(d: Seq<u8>)
    ensures
        vstd::utf8::valid_utf8(d) ==> (is_drive_designator(vstd::utf8::decode_utf8(d))
            <==> is_drive_designator_bytes(d)),
        is_drive_designator_bytes(d) ==> vstd::utf8::valid_utf8(d),
        is_drive_designator_bytes(d) ==> vstd::utf8::encode_utf8(
            vstd::utf8::decode_utf8(d).push('\\'),
        ) == d.push(0x5c),
{
    broadcast use vstd::utf8::group_utf8_lib;

    if vstd::utf8::valid_utf8(d) {
        let t = vstd::utf8::decode_utf8(d);
        if is_drive_designator(t) {
            assert(vstd::utf8::is_ascii_chars(t));
            vstd::utf8::is_ascii_chars_encode_utf8(t);
            assert(vstd::utf8::encode_utf8(t) == d);
            assert(d[0] == t[0] as u8);
            assert(d[1] == t[1] as u8);
        }
    }
    if is_drive_designator_bytes(d) {
        let t = seq![d[0] as char, ':'];
        assert(vstd::utf8::is_ascii_chars(t));
        vstd::utf8::is_ascii_chars_encode_utf8(t);
        assert(vstd::utf8::encode_utf8(t) =~= d);
        assert(vstd::utf8::decode_utf8(d) == t);
        let t2 = t.push('\\');
        assert(vstd::utf8::is_ascii_chars(t2));
        vstd::utf8::is_ascii_chars_encode_utf8(t2);
        assert(vstd::utf8::encode_utf8(t2) =~= d.push(0x5c));
    }
}

/// Joining a plain component keeps a path's start ordinary.
proof fn lemma_join_keeps_ordinary(prev: Seq<u8>, c: Seq<char>, next: Seq<u8>)
    requires
        ordinary_path_start(prev),
        plain_component(c),
        joined_path(prev, c, next),
    ensures
        ordinary_path_start(next),
        next.len() >= c.len(),
        next.len() >= 1,
        !is_separator_byte(next.last()),
        c.len() >= 3 ==> !is_drive_designator_bytes(next),
{
    let sep = choose|sep: Seq<u8>| join_separator(prev, sep) && next == prev + sep + vstd::utf8::encode_utf8(c);
    let e = vstd::utf8::encode_utf8(c);
    assert(vstd::utf8::is_ascii_chars(c));
    vstd::utf8::is_ascii_chars_encode_utf8(c);
    assert(e[0] == c[0] as u8);
    assert(!is_separator_byte(e[0]));
    assert(e.last() == c.last() as u8);
    assert(next.last() == e.last());
    if prev.len() >= 4 {
        assert(next[0] == prev[0] && next[1] == prev[1] && next[2] == prev[2] && next[3] == prev[3]);
    } else if prev.len() == 3 {
        assert(next[0] == prev[0] && next[1] == prev[1] && next[2] == prev[2]);
    } else if prev.len() == 2 {
        if sep.len() == 0 {
            assert(next[2] == e[0]);
        } else {
            assert(next[2] == sep[0]);
        }
    } else if prev.len() == 1 {
        if sep.len() == 0 {
            assert(next[1] == e[0]);
        } else {
            assert(next[1] == sep[0]);
            assert(next[2] == e[0]);
        }
    } else if sep.len() == 0 {
        assert(next[0] == e[0]);
    } else {
        assert(next[1] == e[0]);
    }
}

proof fn lemma_plain_literals()
    ensures
        plain_component("System32"@),
        plain_component("drivers"@),
        plain_component("etc"@),
        plain_component("hosts"@),
        "System32"@.len() == 8,
        "drivers"@.len() == 7,
        "etc"@.len() == 3,
        "hosts"@.len() == 5,
{
    reveal_strlit("System32");
    reveal_strlit("drivers");
    reveal_strlit("etc");
    reveal_strlit("hosts");
}

/// The Windows directory made ready for joining: a bare drive designator gets
/// its root backslash, any other directory is kept.
pub fn normalized_windows_dir_for_join(windows_dir: &Path) -> (r: PathBuf)
    ensures
        path_buf_bytes(r) == dir_bytes_for_join(path_bytes(windows_dir)),
{
    let rendered = path_text_lossy(windows_dir);
    let ghost d = path_bytes(windows_dir);
    proof {
        lemma_drive_text_bytes(d);
        if is_drive_designator(rendered@) {
            assert(!rendered@.contains('\u{FFFD}'));
        }
    }
    match windows_dir_text_for_join(rendered.as_str()) {
        Some(t) => path_from_text(t),
        None => path_to_owned(windows_dir),
    }
}

/// The hosts file below a Windows directory: `System32\drivers\etc\hosts`.
pub fn windows_hosts_path_from_windows_dir(windows_dir: &Path) -> (r: PathBuf)
    ensures
        ordinary_path_start(path_bytes(windows_dir)) ==> hosts_file_below(
            dir_bytes_for_join(path_bytes(windows_dir)),
            path_buf_bytes(r),
        ),
{
    let base = normalized_windows_dir_for_join(windows_dir);
    proof {
        lemma_plain_literals();
    }
    let p1 = path_join(&base, "System32");
    let p2 = path_join(&p1, "drivers");
    let p3 = path_join(&p2, "etc");
    let r = path_join(&p3, "hosts");
    proof {
        let d = path_bytes(windows_dir);
        if ordinary_path_start(d) {
            let b = path_buf_bytes(base);
            let b1 = path_buf_bytes(p1);
            let b2 = path_buf_bytes(p2);
            let b3 = path_buf_bytes(p3);
            let b4 = path_buf_bytes(r);
            assert(ordinary_path_start(b));
            lemma_join_keeps_ordinary(b, "System32"@, b1);
            lemma_join_keeps_ordinary(b1, "drivers"@, b2);
            lemma_join_keeps_ordinary(b2, "etc"@, b3);
            let e1 = vstd::utf8::encode_utf8("System32"@);
            let e2 = vstd::utf8::encode_utf8("drivers"@);
            let e3 = vstd::utf8::encode_utf8("etc"@);
            let e4 = vstd::utf8::encode_utf8("hosts"@);
            let s1 = choose|sep: Seq<u8>| join_separator(b, sep) && b1 == b + sep + e1;
            let s2 = choose|sep: Seq<u8>| join_separator(b1, sep) && b2 == b1 + sep + e2;
            let s3 = choose|sep: Seq<u8>| join_separator(b2, sep) && b3 == b2 + sep + e3;
            let s4 = choose|sep: Seq<u8>| join_separator(b3, sep) && b4 == b3 + sep + e4;
            assert(s2.len() == 1 && s3.len() == 1 && s4.len() == 1);
            assert(s2 =~= seq![s2[0]]);
            assert(s3 =~= seq![s3[0]]);
            assert(s4 =~= seq![s4[0]]);
            assert(is_separator_byte(s2[0]) && is_separator_byte(s3[0]) && is_separator_byte(s4[0]));
            assert(join_separator(b, s1));
            assert(b4 =~= b + s1 + e1 + seq![s2[0]] + e2 + seq![s3[0]] + e3 + seq![s4[0]] + e4);
        }
    }
    r
}

/// What to do after asking Windows for its directory into a buffer.
#[derive(Debug, PartialEq, Eq, Structural)]
pub enum WindowsDirStep {
    /// The query failed (it reported a length of zero).
    Failed,
    /// The directory fills this many units of the buffer.
    Done(usize),
    /// The buffer was too small: grow it to this many units and ask again.
    Grow(usize),
}

/// Decide the next step of the Windows-directory query from the length the
/// system reported and the buffer's capacity: zero is a failure, a length that
/// fits is the answer, and a length that does not fit asks for a buffer one
/// unit longer than reported (room for the terminating zero).
pub fn windows_dir_query_step(reported: u32, capacity: usize) -> (r: WindowsDirStep)
    requires
        reported as int + 1 <= usize::MAX,
    ensures
        reported == 0 ==> r == WindowsDirStep::Failed,
        0 < reported && (reported as int) < capacity ==> r == WindowsDirStep::Done(reported as usize),
        0 < reported && (reported as int) >= capacity ==> r == WindowsDirStep::Grow((reported + 1) as usize),
{
    if reported == 0 {
        return WindowsDirStep::Failed;
    }
    let len = reported as usize;
    if len < capacity {
        WindowsDirStep::Done(len)
    } else {
        WindowsDirStep::Grow(len + 1)
    }
}

/// Where the system hosts file lives outside Windows.
pub const UNIX_SYSTEM_HOSTS_PATH: &'static str = "/etc/hosts";

/// The system hosts file: below `windows_dir` on Windows (where the caller
/// passes the system's Windows directory), `/etc/hosts` elsewhere.
pub fn system_hosts_path(windows_dir: Option<&Path>) -> (r: PathBuf)
    ensures
        match windows_dir {
            None => path_buf_bytes(r) == vstd::utf8::encode_utf8("/etc/hosts"@),
            Some(dir) => ordinary_path_start(path_bytes(dir)) ==> hosts_file_below(
                dir_bytes_for_join(path_bytes(dir)),
                path_buf_bytes(r),
            ),
        },
{
    match windows_dir {
        Some(dir) => windows_hosts_path_from_windows_dir(dir),
        None => path_from_text(UNIX_SYSTEM_HOSTS_PATH.to_owned()),
    }
}

} // verus!
