use std::path::Path;

use switchhosts::hosts_write::plan_system_hosts_write;
use switchhosts::line_endings::{normalize_line_endings, restore_line_endings};
use switchhosts::managed_section::make_append_content;
use switchhosts::hosts_path::{
    system_hosts_path, windows_dir_query_step, WindowsDirStep, windows_dir_text_for_join, windows_hosts_path_from_windows_dir,
};

const START: &str = "# --- SWITCHHOSTS_CONTENT_START ---";
const END: &str = "# --- SWITCHHOSTS_CONTENT_END ---";

#[test]
fn windows_hosts_path_uses_resolved_windows_directory() {
    let windows_dir = Path::new(r"D:\Windows");
    let path = windows_hosts_path_from_windows_dir(windows_dir);

    assert!(path.starts_with(windows_dir));
    assert!(path.ends_with(
        Path::new("System32")
            .join("drivers")
            .join("etc")
            .join("hosts")
    ));
}

#[test]
fn windows_hosts_path_normalizes_drive_root_windows_directory() {
    let path = windows_hosts_path_from_windows_dir(Path::new(r"D:"));
    let rendered = path.to_string_lossy();

    assert!(rendered.starts_with(r"D:\"));
    assert!(!rendered.starts_with(r"D:System32"));
    assert!(path.ends_with(
        Path::new("System32")
            .join("drivers")
            .join("etc")
            .join("hosts")
    ));
}

#[test]
fn system_hosts_path_per_platform() {
    assert_eq!(system_hosts_path(None), Path::new("/etc/hosts"));
    let dir = Path::new(r"C:\Windows");
    assert_eq!(system_hosts_path(Some(dir)), windows_hosts_path_from_windows_dir(dir));
}

#[test]
fn drive_designator_detection() {
    assert_eq!(windows_dir_text_for_join("D:"), Some(r"D:\".to_string()));
    assert_eq!(windows_dir_text_for_join("z:"), Some(r"z:\".to_string()));
    assert_eq!(windows_dir_text_for_join(r"C:\Windows"), None);
    assert_eq!(windows_dir_text_for_join("1:"), None);
    assert_eq!(windows_dir_text_for_join("D"), None);
    assert_eq!(windows_dir_text_for_join("é:"), None);
}

#[test]
fn append_into_file_without_markers() {
    let out = make_append_content("127.0.0.1 localhost\n", "1.1.1.1 a.com\n");
    assert_eq!(
        out,
        format!("127.0.0.1 localhost\n\n{START}\n\n1.1.1.1 a.com\n\n{END}\n")
    );
}

#[test]
fn append_into_empty_file() {
    assert_eq!(make_append_content("", "1.1.1.1 a.com"), format!("{START}\n\n1.1.1.1 a.com\n\n{END}\n"));
    assert_eq!(make_append_content("", ""), "\n");
    assert_eq!(make_append_content("  \n\n", "  \n"), "\n");
}

#[test]
fn append_replaces_section_and_keeps_tail() {
    let prev = format!("head line\n{START}\n\nold\n\n{END}\n\n# added by another tool\n9.9.9.9 x\n");
    let out = make_append_content(&prev, "new\n");
    assert_eq!(
        out,
        format!("head line\n\n{START}\n\nnew\n\n{END}\n\n# added by another tool\n9.9.9.9 x\n")
    );
}

#[test]
fn append_legacy_file_without_end_marker_owns_rest() {
    let prev = format!("head\n{START}\nold stuff\nmore old\n");
    let out = make_append_content(&prev, "new");
    assert_eq!(out, format!("head\n\n{START}\n\nnew\n\n{END}\n"));
}

#[test]
fn append_stray_end_before_start_stays_in_head() {
    let prev = format!("{END}\nhead\n{START}\nold\n{END}\ntail\n");
    let out = make_append_content(&prev, "new");
    assert_eq!(out, format!("{END}\nhead\n\n{START}\n\nnew\n\n{END}\n\ntail\n"));
}

#[test]
fn append_empty_content_keeps_anchor_before_tail() {
    let prev = format!("head\n{START}\nold\n{END}\ntail\n");
    let out = make_append_content(&prev, "   \n");
    assert_eq!(out, format!("head\n\n{START}\n\n{END}\n\ntail\n"));
    // a later non-empty apply puts the section back before the tail
    let again = make_append_content(&out, "new");
    assert_eq!(again, format!("head\n\n{START}\n\nnew\n\n{END}\n\ntail\n"));
    assert_eq!(again, make_append_content(&prev, "new"));
}

#[test]
fn append_drops_marker_lines_from_content_but_keeps_quoted_markers() {
    let content = format!("a\n  {END}  \r\nb # {START} quoted\r\n{START}\nc");
    let out = make_append_content("", &content);
    assert_eq!(out, format!("{START}\n\na\nb # {START} quoted\nc\n\n{END}\n"));
}

#[test]
fn append_marker_lines_only_count_on_their_own_line() {
    let prev = format!("x {START}\nhead\n");
    let out = make_append_content(&prev, "c");
    assert_eq!(out, format!("x {START}\nhead\n\n{START}\n\nc\n\n{END}\n"));
}

#[test]
fn append_is_idempotent() {
    let cases = [
        ("", ""),
        ("", "a"),
        ("head", ""),
        ("head  \n\n", " body \n"),
        ("h\n# --- SWITCHHOSTS_CONTENT_START ---\nx\n# --- SWITCHHOSTS_CONTENT_END ---\n t \n", ""),
        ("h\n# --- SWITCHHOSTS_CONTENT_START ---\nx\n", "y\n# --- SWITCHHOSTS_CONTENT_END ---\nz"),
        ("\t\n", "\n\n1 2\n\n"),
    ];
    for (prev, content) in cases {
        let once = make_append_content(prev, content);
        let twice = make_append_content(&once, content);
        assert_eq!(once, twice, "{prev:?} / {content:?}");
    }
}

#[test]
fn line_endings_normalize_and_restore() {
    assert_eq!(normalize_line_endings("a\r\nb\rc\n\r\r\n"), "a\nb\nc\n\n\n");
    assert_eq!(restore_line_endings("a\nb\n", true), "a\r\nb\r\n");
    assert_eq!(restore_line_endings("a\nb\n", false), "a\nb\n");
    let t = "x\n\ny";
    assert_eq!(normalize_line_endings(&restore_line_endings(t, true)), t);
}

#[test]
fn plan_replace_and_append_modes() {
    let plan = plan_system_hosts_write("1.1.1.1 a\r\n", "replace", "old\r\n", true);
    assert_eq!(plan.previous_content, "old\n");
    assert_eq!(plan.new_content, "1.1.1.1 a\n");
    assert_eq!(plan.disk_content, "1.1.1.1 a\r\n");

    let plan = plan_system_hosts_write("1.1.1.1 a\r\n", "append", "old\r\n", false);
    assert_eq!(plan.new_content, format!("old\n\n{START}\n\n1.1.1.1 a\n\n{END}\n"));
    assert_eq!(plan.disk_content, plan.new_content);

    assert!(!plan.unchanged);
    let outcome = plan.into_outcome();
    assert_eq!(outcome.previous_content, "old\n");
    assert!(!outcome.unchanged);
}

#[test]
fn plan_reapply_plans_same_bytes() {
    for crlf in [false, true] {
        for mode in ["append", "replace"] {
            let first = plan_system_hosts_write("a b\r\nc d", mode, "keep\r\nme\r\n", crlf);
            let second = plan_system_hosts_write("a b\r\nc d", mode, &first.disk_content, crlf);
            assert_eq!(first.disk_content, second.disk_content);
            assert_eq!(second.previous_content, first.new_content);
            assert!(second.unchanged);
            assert!(second.into_outcome().unchanged);
        }
    }
}

#[test]
fn plan_unchanged_compares_bytes_on_disk() {
    let plan = plan_system_hosts_write("a\n", "replace", "a\r\n", true);
    assert!(plan.unchanged);
    let plan = plan_system_hosts_write("a\n", "replace", "a\r\n", false);
    assert!(!plan.unchanged);
    let plan = plan_system_hosts_write("a\r\n", "replace", "a\n", false);
    assert!(plan.unchanged);
}

#[test]
fn windows_dir_query_steps() {
    assert_eq!(windows_dir_query_step(0, 260), WindowsDirStep::Failed);
    assert_eq!(windows_dir_query_step(10, 260), WindowsDirStep::Done(10));
    assert_eq!(windows_dir_query_step(260, 260), WindowsDirStep::Grow(261));
    assert_eq!(windows_dir_query_step(300, 260), WindowsDirStep::Grow(301));
    assert_eq!(windows_dir_query_step(300, 301), WindowsDirStep::Done(300));
}

#[test]
fn windows_hosts_path_layout_bytes() {
    let sep = std::path::MAIN_SEPARATOR;
    let path = windows_hosts_path_from_windows_dir(Path::new(r"D:\Windows"));
    assert_eq!(
        path.to_string_lossy(),
        format!(r"D:\Windows{sep}System32{sep}drivers{sep}etc{sep}hosts")
    );
}

#[test]
fn windows_hosts_path_below_unc_directory() {
    let sep = std::path::MAIN_SEPARATOR;
    let path = windows_hosts_path_from_windows_dir(Path::new(r"\\server\share"));
    assert_eq!(
        path.to_string_lossy(),
        format!(r"\\server\share{sep}System32{sep}drivers{sep}etc{sep}hosts")
    );
}
