# switchhosts

Verified core of a hosts-file manager, written in Verus.

- `src/dns.rs`, `src/doh_answer.rs`, `src/ipv4.rs`, `src/domain.rs`: the
  DNS-over-HTTPS provider registry and its errors, A-record extraction from a
  parsed DoH answer, dotted-decimal IPv4 text, domain-name validation, and the
  hosts content of a domain-sourced entry.
- `src/managed_section.rs`, `src/section_laws.rs`: the managed section of the
  system hosts file (between the start and end marker lines) and its rewrite,
  with the proof that a rewrite keeps head and tail and is idempotent.
- `src/line_endings.rs`, `src/hosts_write.rs`, `src/hosts_path.rs`: line-ending
  conversion, the plan of a write of the system hosts file, and the location
  of the hosts file below a Windows directory.
- `src/text.rs`: character-level helpers (trimming, splitting, decimal numerals).
- `app/`: file I/O, JSON decoding with serde, platform selection and error
  display around the library.
