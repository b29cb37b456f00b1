//! Verified core of the hosts-file manager: DNS-over-HTTPS provider
//! registry, domain validation, A-record extraction, hosts content
//! generation and the managed-section rewrite of the system hosts file.
use vstd::prelude::*;

pub mod text;
pub mod managed_section;
pub mod section_laws;
pub mod line_endings;
pub mod hosts_write;
pub mod hosts_path;
pub mod ipv4;
pub mod dns;
pub mod domain;
pub mod doh_answer;

verus! {
} // verus!
