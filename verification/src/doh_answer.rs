//! Turning a DNS-over-HTTPS JSON answer into IPv4 addresses, and those
//! addresses into the hosts content of a domain-sourced entry.
use vstd::prelude::*;
use crate::dns::{DnsError, DnsErrorView};
use crate::ipv4::{ipv4_text, parse_ipv4, parse_ipv4_text, push_ipv4, Ipv4Address};
use crate::text::{chars_of, extend_all, string_of};

verus! {

broadcast use vstd::string::group_string_axioms;

/// One entry of the `Answer` array of a Google-style JSON DoH response.
pub struct DohAnswer {
    /// The record type (`"type"`); 1 is an A record.
    pub rtype: u16,
    /// The record data (`"data"`); an address for A records.
    pub data: String,
}

/// A Google-style JSON DoH response: `Status` (0 when absent) and `Answer`
/// (empty when absent).
pub struct DohResponse {
    pub status: i64,
    pub answer: Vec<DohAnswer>,
}

/// The answers as plain values: record type and data text.
pub open spec fn answers_view(answers: Seq<DohAnswer>) -> Seq<(u16, Seq<char>)> {
    answers.map_values(|a: DohAnswer| (a.rtype, a.data@))
}

/// The addresses of the A records (type 1) among `answers`, in answer order;
/// records whose data is not a dotted-decimal address are skipped.
pub open spec fn a_records(answers: Seq<(u16, Seq<char>)>) -> Seq<Ipv4Address>
    decreases answers.len(),
{
    if answers.len() == 0 {
        Seq::empty()
    } else {
        let rest = a_records(answers.drop_last());
        let a = answers.last();
        if a.0 == 1 && parse_ipv4_text(a.1) is Some {
            rest.push(parse_ipv4_text(a.1)->0)
        } else {
            rest
        }
    }
}

/// The outcome of reading a DoH body: a parse failure (with its message)
/// is an error; a non-zero status is an error; no A record is an error;
/// otherwise the A-record addresses in answer order.
pub open spec fn a_records_outcome(parsed: Result<(i64, Seq<(u16, Seq<char>)>), Seq<char>>) -> Result<Seq<Ipv4Address>, DnsErrorView> {
    match parsed {
        Err(m) => Err(DnsErrorView::Parse(m)),
        Ok((status, answers)) => if status != 0 {
            Err(DnsErrorView::BadStatus(status))
        } else if a_records(answers).len() == 0 {
            Err(DnsErrorView::NoARecord)
        } else {
            Ok(a_records(answers))
        },
    }
}

/// A parsed body as plain values.
pub open spec fn parsed_view(parsed: Result<DohResponse, String>) -> Result<(i64, Seq<(u16, Seq<char>)>), Seq<char>> {
    match parsed {
        Ok(r) => Ok((r.status, answers_view(r.answer@))),
        Err(m) => Err(m@),
    }
}

/// An address list result as plain values.
pub open spec fn records_view(r: Result<Vec<Ipv4Address>, DnsError>) -> Result<Seq<Ipv4Address>, DnsErrorView> {
    match r {
        Ok(v) => Ok(v@),
        Err(e) => Err(e@),
    }
}

/// The IPv4 A records of a DoH response body once it has been parsed as
/// JSON (`Err` holds the parser's message for malformed JSON). `Status != 0`,
/// no A record, or malformed JSON are all errors: there is no silent fallback.
pub fn a_records_from_parse(parsed: Result<DohResponse, String>) -> (r: Result<Vec<Ipv4Address>, DnsError>)
    ensures
        records_view(r) == a_records_outcome(parsed_view(parsed)),
{
    let resp = match parsed {
        Err(m) => {
            return Err(DnsError::Parse(m));
        },
        Ok(resp) => resp,
    };
    if resp.status != 0 {
        return Err(DnsError::BadStatus(resp.status));
    }
    let ghost view = answers_view(resp.answer@);
    let mut ips: Vec<Ipv4Address> = Vec::new();
    let n = resp.answer.len();
    for i in 0..n
        invariant
            n == resp.answer@.len(),
            view == answers_view(resp.answer@),
            ips@ == a_records(view.take(i as int)),
    {
        let a = &resp.answer[i];
        assert(view.take(i + 1).drop_last() =~= view.take(i as int));
        assert(view.take(i + 1).last() == (a.rtype, a.data@));
        if a.rtype == 1 {
            match parse_ipv4(a.data.as_str()) {
                Some(ip) => {
                    ips.push(ip);
                },
                None => {},
            }
        }
    }
    assert(view.take(n as int) =~= view);
    if ips.len() == 0 {
        return Err(DnsError::NoARecord);
    }
    Ok(ips)
}

/// The alternate-address comment lines for `ips`, one per address.
pub open spec fn alternate_lines(ips: Seq<Ipv4Address>, domain: Seq<char>) -> Seq<char>
    decreases ips.len(),
{
    if ips.len() == 0 {
        Seq::empty()
    } else {
        alternate_lines(ips.drop_last(), domain) + "# "@ + ipv4_text(ips.last()) + " "@ + domain + "\n"@
    }
}

/// The hosts content of a domain-sourced entry: two comment lines naming the
/// domain and the resolver, the first address as the active line, and the
/// other addresses as commented alternates; every line ends with `'\n'`.
pub open spec fn domain_hosts_text(domain: Seq<char>, ips: Seq<Ipv4Address>, provider_label: Seq<char>, ts: Seq<char>) -> Seq<char> {
    "# Source: domain "@ + domain + "\n"@
        + "# Resolved via "@ + provider_label + " at "@ + ts + "\n"@
        + ipv4_text(ips[0]) + " "@ + domain + "\n"@
        + if ips.len() > 1 {
            "# Alternate addresses:\n"@ + alternate_lines(ips.skip(1), domain)
        } else {
            Seq::empty()
        }
}

/// Build the hosts content for a domain-sourced remote entry. The first
/// address is the active line; the rest are commented alternates. The whole
/// content is rebuilt on every refresh, never appended to.
pub fn build_domain_hosts_content(domain: &str, ips: &[Ipv4Address], provider_label: &str, ts: &str) -> (r: String)
    requires
        ips@.len() >= 1,
    ensures
        r@ == domain_hosts_text(domain@, ips@, provider_label@, ts@),
{
    let d = chars_of(domain);
    let mut out: Vec<char> = Vec::new();
    extend_all(&mut out, chars_of("# Source: domain ").as_slice());
    extend_all(&mut out, d.as_slice());
    extend_all(&mut out, chars_of("\n").as_slice());
    extend_all(&mut out, chars_of("# Resolved via ").as_slice());
    extend_all(&mut out, chars_of(provider_label).as_slice());
    extend_all(&mut out, chars_of(" at ").as_slice());
    extend_all(&mut out, chars_of(ts).as_slice());
    extend_all(&mut out, chars_of("\n").as_slice());
    push_ipv4(&mut out, ips[0]);
    extend_all(&mut out, chars_of(" ").as_slice());
    extend_all(&mut out, d.as_slice());
    extend_all(&mut out, chars_of("\n").as_slice());
    let ghost first = out@;
    assert(first =~= "# Source: domain "@ + domain@ + "\n"@ + "# Resolved via "@ + provider_label@ + " at "@ + ts@ + "\n"@ + ipv4_text(ips@[0]) + " "@ + domain@ + "\n"@);
    if ips.len() > 1 {
        extend_all(&mut out, chars_of("# Alternate addresses:\n").as_slice());
        let ghost rest = ips@.skip(1);
        let ghost header = out@;
        let n = ips.len();
        assert(rest.take(0) =~= Seq::<Ipv4Address>::empty());
        assert(header + alternate_lines(rest.take(0), domain@) =~= header);
        for i in 1..n
            invariant
                n == ips@.len(),
                n > 1,
                rest == ips@.skip(1),
                d@ == domain@,
                out@ == header + alternate_lines(rest.take(i - 1), domain@),
        {
            extend_all(&mut out, chars_of("# ").as_slice());
            push_ipv4(&mut out, ips[i]);
            extend_all(&mut out, chars_of(" ").as_slice());
            extend_all(&mut out, d.as_slice());
            extend_all(&mut out, chars_of("\n").as_slice());
            assert(rest.take(i as int).drop_last() =~= rest.take(i - 1));
            assert(rest.take(i as int).last() == ips@[i as int]);
            assert(out@ =~= header + alternate_lines(rest.take(i as int), domain@));
        }
        assert(rest.take(n - 1) =~= rest);
        assert(out@ =~= first + ("# Alternate addresses:\n"@ + alternate_lines(rest, domain@)));
    } else {
        assert(out@ =~= first + Seq::<char>::empty());
    }
    string_of(out.as_slice())
}


/// Every A record whose data is a dotted-decimal address contributes its
/// address, in order: one more such answer at the end adds its address at the
/// end; any other answer adds nothing.
pub proof fn law_each_a_record_counts(answers: Seq<(u16, Seq<char>)>, rtype: u16, data: Seq<char>)
    ensures
        rtype == 1 && parse_ipv4_text(data) is Some ==> a_records(answers.push((rtype, data)))
            == a_records(answers).push(parse_ipv4_text(data)->0),
        !(rtype == 1 && parse_ipv4_text(data) is Some) ==> a_records(answers.push((rtype, data)))
            == a_records(answers),
{
    assert(answers.push((rtype, data)).drop_last() =~= answers);
}

/// The A records of answers given one after the other are the records of the
/// first ones followed by those of the rest.
pub proof fn law_a_records_concat(a: Seq<(u16, Seq<char>)>, b: Seq<(u16, Seq<char>)>)
    ensures
        a_records(a + b) == a_records(a) + a_records(b),
    decreases b.len(),
{
    if b.len() == 0 {
        assert(a + b =~= a);
        assert(a_records(a) + a_records(b) =~= a_records(a));
    } else {
        law_a_records_concat(a, b.drop_last());
        assert((a + b).drop_last() =~= a + b.drop_last());
        assert((a + b).last() == b.last());
        let r = a_records(a + b.drop_last());
        let x = b.last();
        if x.0 == 1 && parse_ipv4_text(x.1) is Some {
            assert(a_records(a) + a_records(b) =~= (a_records(a) + a_records(b.drop_last())).push(
                parse_ipv4_text(x.1)->0,
            ));
        }
    }
}

/// An answer with status 0 reports all its A records: one more parsable A
/// record at the end adds its address at the end of the reported list.
pub proof fn law_a_records_outcome_grows(answers: Seq<(u16, Seq<char>)>, data: Seq<char>)
    requires
        parse_ipv4_text(data) is Some,
    ensures
        a_records_outcome(Ok((0, answers.push((1u16, data)))))
            == Ok::<Seq<Ipv4Address>, DnsErrorView>(a_records(answers).push(parse_ipv4_text(data)->0)),
{
    law_each_a_record_counts(answers, 1, data);
}

/// Each address after the first gets its own alternate line, in order: one
/// more address at the end adds the line `# <address> <domain>` at the end of
/// the content (after the `# Alternate addresses:` header when it is the
/// second address).
pub proof fn law_each_address_gets_a_line(
    domain: Seq<char>,
    ips: Seq<Ipv4Address>,
    ip: Ipv4Address,
    provider_label: Seq<char>,
    ts: Seq<char>,
)
    requires
        ips.len() >= 1,
    ensures
        domain_hosts_text(domain, ips.push(ip), provider_label, ts) == domain_hosts_text(
            domain,
            ips,
            provider_label,
            ts,
        ) + (if ips.len() == 1 { "# Alternate addresses:\n"@ } else { Seq::empty() }) + "# "@ + ipv4_text(ip)
            + " "@ + domain + "\n"@,
{
    let ips2 = ips.push(ip);
    assert(ips2[0] == ips[0]);
    assert(ips2.skip(1) =~= ips.skip(1).push(ip));
    assert(ips2.skip(1).drop_last() =~= ips.skip(1));
    if ips.len() == 1 {
        assert(ips.skip(1) =~= Seq::<Ipv4Address>::empty());
        assert(alternate_lines(ips.skip(1), domain) =~= Seq::<char>::empty());
    }
    let head = "# Source: domain "@ + domain + "\n"@ + "# Resolved via "@ + provider_label + " at "@ + ts
        + "\n"@ + ipv4_text(ips[0]) + " "@ + domain + "\n"@;
    let line = "# "@ + ipv4_text(ip) + " "@ + domain + "\n"@;
    assert(alternate_lines(ips2.skip(1), domain) == alternate_lines(ips.skip(1), domain) + line);
    if ips.len() == 1 {
        assert(domain_hosts_text(domain, ips2, provider_label, ts) =~= head + ("# Alternate addresses:\n"@
            + line));
        assert(domain_hosts_text(domain, ips, provider_label, ts) =~= head + Seq::<char>::empty());
    } else {
        assert(domain_hosts_text(domain, ips2, provider_label, ts) =~= head + ("# Alternate addresses:\n"@
            + (alternate_lines(ips.skip(1), domain) + line)));
        assert(domain_hosts_text(domain, ips, provider_label, ts) =~= head + ("# Alternate addresses:\n"@
            + alternate_lines(ips.skip(1), domain)));
    }
}

} // verus!
