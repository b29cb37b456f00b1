//! Planning a write of the system hosts file: which text it held, which text
//! it should hold, and which bytes go to disk.
use vstd::prelude::*;
use crate::line_endings::{
    law_native_round_trip, law_normalized_has_no_cr, native_eol, no_cr, normalize_eol,
    normalize_line_endings, restore_line_endings,
};
use crate::managed_section::{append_content, make_append_content};
use crate::section_laws::{lemma_append_no_cr, law_reapply_replaces_section};
use crate::text::str_eq;

verus! {

broadcast use vstd::string::group_string_axioms;

/// Result of applying content to the system hosts file.
pub struct ApplyOutcome {
    /// The file's text before the apply, with `'\n'` line endings.
    pub previous_content: String,
    /// The file's text after the apply, with `'\n'` line endings.
    pub new_content: String,
    /// True when the file was already up to date and no write happened.
    pub unchanged: bool,
}

/// What a write of the system hosts file should do.
pub struct HostsWritePlan {
    /// The file's current text, with `'\n'` line endings.
    pub previous_content: String,
    /// The text the file should hold, with `'\n'` line endings.
    pub new_content: String,
    /// That text with the platform's line endings, as it goes to disk.
    pub disk_content: String,
    /// True when the file already holds exactly these bytes, so the write is
    /// skipped (and no elevation prompt is raised for a no-op).
    pub unchanged: bool,
}

/// Whether a write mode names the append mode.
pub open spec fn is_append_mode(write_mode: Seq<char>) -> bool {
    write_mode == "append"@
}

/// The text, with `'\n'` line endings, that the hosts file holds after
/// applying `aggregated` in `write_mode` to a file that held `previous_raw`:
/// in append mode the managed section of the old text is rewritten, in any
/// other mode the content replaces the file.
pub open spec fn planned_content(aggregated: Seq<char>, write_mode: Seq<char>, previous_raw: Seq<char>) -> Seq<char> {
    if is_append_mode(write_mode) {
        append_content(normalize_eol(previous_raw), normalize_eol(aggregated))
    } else {
        normalize_eol(aggregated)
    }
}

/// Work out a write of the system hosts file: normalize line endings, splice
/// the content into the managed section in append mode, and convert to the
/// platform's line endings (`crlf`) for the bytes on disk.
pub fn plan_system_hosts_write(
    aggregated_content: &str,
    write_mode: &str,
    previous_raw: &str,
    crlf: bool,
) -> (r: HostsWritePlan)
    ensures
        r.previous_content@ == normalize_eol(previous_raw@),
        r.new_content@ == planned_content(aggregated_content@, write_mode@, previous_raw@),
        r.disk_content@ == native_eol(r.new_content@, crlf),
        r.unchanged == (r.disk_content@ == previous_raw@),
{
    let content_lf = normalize_line_endings(aggregated_content);
    let previous_lf = normalize_line_endings(previous_raw);
    let final_content_lf = if str_eq(write_mode, "append") {
        make_append_content(previous_lf.as_str(), content_lf.as_str())
    } else {
        content_lf
    };
    let disk_content = restore_line_endings(final_content_lf.as_str(), crlf);
    let unchanged = str_eq(disk_content.as_str(), previous_raw);
    HostsWritePlan {
        previous_content: previous_lf,
        new_content: final_content_lf,
        disk_content,
        unchanged,
    }
}

impl HostsWritePlan {
    /// The outcome of carrying out this plan: the write happened unless the
    /// file was already up to date.
    pub fn into_outcome(self) -> (r: ApplyOutcome)
        ensures
            r.previous_content@ == self.previous_content@,
            r.new_content@ == self.new_content@,
            r.unchanged == self.unchanged,
    {
        ApplyOutcome {
            previous_content: self.previous_content,
            new_content: self.new_content,
            unchanged: self.unchanged,
        }
    }
}

/// Planned text has `'\n'` line endings only.
pub proof fn lemma_planned_no_cr(aggregated: Seq<char>, write_mode: Seq<char>, previous_raw: Seq<char>)
    ensures
        no_cr(planned_content(aggregated, write_mode, previous_raw)),
{
    law_normalized_has_no_cr(aggregated);
    law_normalized_has_no_cr(previous_raw);
    if is_append_mode(write_mode) {
        lemma_append_no_cr(normalize_eol(previous_raw), normalize_eol(aggregated));
    }
}

/// Applying the same content again to the file that the first apply wrote
/// plans exactly the same text and the same bytes, so the second apply finds
/// the file up to date and writes nothing.
pub proof fn law_reapply_writes_same_bytes(
    aggregated: Seq<char>,
    write_mode: Seq<char>,
    previous_raw: Seq<char>,
    crlf: bool,
)
    ensures
        ({
            let first = planned_content(aggregated, write_mode, previous_raw);
            let disk = native_eol(first, crlf);
            &&& planned_content(aggregated, write_mode, disk) == first
            &&& native_eol(planned_content(aggregated, write_mode, disk), crlf) == disk
            &&& normalize_eol(disk) == first
        }),
{
    let first = planned_content(aggregated, write_mode, previous_raw);
    lemma_planned_no_cr(aggregated, write_mode, previous_raw);
    law_native_round_trip(first, crlf);
    if is_append_mode(write_mode) {
        law_reapply_replaces_section(normalize_eol(previous_raw), normalize_eol(aggregated), normalize_eol(aggregated));
    }
}


/// The managed-section rewrite happens exactly in the write mode `append`:
/// in every other mode the file gets the normalized content, whatever it held
/// before; in `append` mode the previous text's section is rewritten.
pub proof fn law_only_append_mode_keeps_the_file(
    aggregated: Seq<char>,
    write_mode: Seq<char>,
    previous_raw: Seq<char>,
)
    ensures
        write_mode != "append"@ ==> planned_content(aggregated, write_mode, previous_raw)
            == normalize_eol(aggregated),
        write_mode == "append"@ ==> planned_content(aggregated, write_mode, previous_raw)
            == append_content(normalize_eol(previous_raw), normalize_eol(aggregated)),
{
}

} // verus!
