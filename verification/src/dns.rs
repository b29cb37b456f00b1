//! DNS-over-HTTPS providers and their errors. Remote hosts entries whose
//! source is a domain are resolved through one of these providers.
use vstd::prelude::*;
use crate::ipv4::{ipv4_text, law_ipv4_text_round_trip, parse_ipv4_text, Ipv4Address};
use crate::text::{
    contains_text, push_chars, push_signed_decimal, push_str, signed_decimal, str_contains, str_eq,
};

verus! {

broadcast use vstd::string::group_string_axioms;

/// The largest DoH response body, in bytes, that is read.
pub const MAX_DOH_BYTES: usize = 64 * 1024;

/// A DNS-over-HTTPS resolver that answers in the JSON format.
#[derive(Debug, Clone)]
pub struct DohProvider {
    /// config id, e.g. "alidns"
    pub id: String,
    /// short display name for UI lists, e.g. "Ali DoH"
    pub name: String,
    /// label used in generated hosts comments, e.g. "Ali DoH (223.5.5.5)"
    pub label: String,
    /// URL template containing "{domain}"
    pub template: String,
    /// Cloudflare's JSON API requires this Accept header
    pub json_header: bool,
}

/// A provider as plain text values.
pub ghost struct ProviderView {
    pub id: Seq<char>,
    pub name: Seq<char>,
    pub label: Seq<char>,
    pub template: Seq<char>,
    pub json_header: bool,
}

impl View for DohProvider {
    type V = ProviderView;

    open spec fn view(&self) -> ProviderView {
        ProviderView {
            id: self.id@,
            name: self.name@,
            label: self.label@,
            template: self.template@,
            json_header: self.json_header,
        }
    }
}

/// Why resolving a domain failed.
#[derive(Debug)]
pub enum DnsError {
    Network(String),
    Parse(String),
    BadStatus(i64),
    NoARecord,
    InvalidProvider(String),
    InvalidTemplate(String),
}

/// An error as plain values.
pub ghost enum DnsErrorView {
    Network(Seq<char>),
    Parse(Seq<char>),
    BadStatus(i64),
    NoARecord,
    InvalidProvider(Seq<char>),
    InvalidTemplate(Seq<char>),
}

impl View for DnsError {
    type V = DnsErrorView;

    open spec fn view(&self) -> DnsErrorView {
        match self {
            DnsError::Network(m) => DnsErrorView::Network(m@),
            DnsError::Parse(m) => DnsErrorView::Parse(m@),
            DnsError::BadStatus(s) => DnsErrorView::BadStatus(*s),
            DnsError::NoARecord => DnsErrorView::NoARecord,
            DnsError::InvalidProvider(id) => DnsErrorView::InvalidProvider(id@),
            DnsError::InvalidTemplate(t) => DnsErrorView::InvalidTemplate(t@),
        }
    }
}

/// The text shown to the user for an error.
pub open spec fn error_message(e: DnsErrorView) -> Seq<char> {
    match e {
        DnsErrorView::Network(m) => "DNS query failed: "@ + m
            + ". The DNS service can be changed in Preferences."@,
        DnsErrorView::Parse(m) => "Unexpected DNS response: "@ + m,
        DnsErrorView::BadStatus(s) => "DNS server returned status "@ + signed_decimal(s as int)
            + ". The DNS service can be changed in Preferences."@,
        DnsErrorView::NoARecord => "Domain has no IPv4 (A) records."@,
        DnsErrorView::InvalidProvider(id) => "Unknown DNS provider \""@ + id
            + "\". Fix it in Preferences."@,
        DnsErrorView::InvalidTemplate(t) => "Custom DoH template must contain the {domain} placeholder, got: "@
            + t,
    }
}

impl DnsError {
    /// The text shown to the user for this error.
    pub fn message(&self) -> (r: String)
        ensures
            r@ == error_message(self@),
    {
        let mut out = String::new();
        match self {
            DnsError::Network(m) => {
                push_str(&mut out, "DNS query failed: ");
                push_str(&mut out, m.as_str());
                push_str(&mut out, ". The DNS service can be changed in Preferences.");
            },
            DnsError::Parse(m) => {
                push_str(&mut out, "Unexpected DNS response: ");
                push_str(&mut out, m.as_str());
            },
            DnsError::BadStatus(s) => {
                push_str(&mut out, "DNS server returned status ");
                let mut digits: Vec<char> = Vec::new();
                push_signed_decimal(&mut digits, *s);
                push_chars(&mut out, digits.as_slice());
                push_str(&mut out, ". The DNS service can be changed in Preferences.");
            },
            DnsError::NoARecord => {
                push_str(&mut out, "Domain has no IPv4 (A) records.");
            },
            DnsError::InvalidProvider(id) => {
                push_str(&mut out, "Unknown DNS provider \"");
                push_str(&mut out, id.as_str());
                push_str(&mut out, "\". Fix it in Preferences.");
            },
            DnsError::InvalidTemplate(t) => {
                push_str(&mut out, "Custom DoH template must contain the {domain} placeholder, got: ");
                push_str(&mut out, t.as_str());
            },
        }
        out
    }
}


/// The builtin providers, in order.
pub open spec fn builtin_provider_views() -> Seq<ProviderView> {
    seq![
        ProviderView {
            id: "alidns"@,
            name: "Ali DoH"@,
            label: "Ali DoH (223.5.5.5)"@,
            template: "https://223.5.5.5/resolve?name={domain}&type=A"@,
            json_header: false,
        },
        ProviderView {
            id: "dnspod"@,
            name: "DNSPod"@,
            label: "DNSPod (120.53.53.53)"@,
            template: "https://120.53.53.53/dns-query?name={domain}&type=A"@,
            json_header: false,
        },
        ProviderView {
            id: "cloudflare"@,
            name: "Cloudflare"@,
            label: "Cloudflare (1.1.1.1)"@,
            template: "https://1.1.1.1/dns-query?name={domain}&type=A"@,
            json_header: true,
        },
        ProviderView {
            id: "google"@,
            name: "Google"@,
            label: "Google (8.8.8.8)"@,
            template: "https://8.8.8.8/resolve?name={domain}&type=A"@,
            json_header: false,
        },
    ]
}

/// The provider that a custom template describes.
pub open spec fn custom_provider_view(template: Seq<char>) -> ProviderView {
    ProviderView {
        id: "custom"@,
        name: "Custom"@,
        label: "Custom DoH"@,
        template: template,
        json_header: false,
    }
}

/// The first provider of `ps` with the given id, if any.
pub open spec fn first_with_id(ps: Seq<ProviderView>, id: Seq<char>) -> Option<ProviderView>
    decreases ps.len(),
{
    if ps.len() == 0 {
        None
    } else if ps[0].id == id {
        Some(ps[0])
    } else {
        first_with_id(ps.drop_first(), id)
    }
}

/// The placeholder that a provider template must contain.
pub open spec fn domain_placeholder() -> Seq<char> {
    "{domain}"@
}

/// The provider that an id (and, for `custom`, a template) selects, or why
/// none is: a builtin provider by its id; for `custom`, the custom template
/// when it holds the `{domain}` placeholder; any other id is unknown.
pub open spec fn provider_lookup(id: Seq<char>, custom_template: Seq<char>) -> Result<ProviderView, DnsErrorView> {
    match first_with_id(builtin_provider_views(), id) {
        Some(p) => Ok(p),
        None => if id == "custom"@ {
            if contains_text(custom_template, domain_placeholder()) {
                Ok(custom_provider_view(custom_template))
            } else {
                Err(DnsErrorView::InvalidTemplate(custom_template))
            }
        } else {
            Err(DnsErrorView::InvalidProvider(id))
        },
    }
}

/// A provider lookup result as plain values.
pub open spec fn lookup_view(r: Result<DohProvider, DnsError>) -> Result<ProviderView, DnsErrorView> {
    match r {
        Ok(p) => Ok(p@),
        Err(e) => Err(e@),
    }
}

/// The providers that ship with the application.
pub fn builtin_providers() -> (r: Vec<DohProvider>)
    ensures
        r@.map_values(|p: DohProvider| p@) == builtin_provider_views(),
{
    let r = vec![
        DohProvider {
            id: "alidns".to_owned(),
            name: "Ali DoH".to_owned(),
            label: "Ali DoH (223.5.5.5)".to_owned(),
            template: "https://223.5.5.5/resolve?name={domain}&type=A".to_owned(),
            json_header: false,
        },
        DohProvider {
            id: "dnspod".to_owned(),
            name: "DNSPod".to_owned(),
            label: "DNSPod (120.53.53.53)".to_owned(),
            template: "https://120.53.53.53/dns-query?name={domain}&type=A".to_owned(),
            json_header: false,
        },
        DohProvider {
            id: "cloudflare".to_owned(),
            name: "Cloudflare".to_owned(),
            label: "Cloudflare (1.1.1.1)".to_owned(),
            template: "https://1.1.1.1/dns-query?name={domain}&type=A".to_owned(),
            json_header: true,
        },
        DohProvider {
            id: "google".to_owned(),
            name: "Google".to_owned(),
            label: "Google (8.8.8.8)".to_owned(),
            template: "https://8.8.8.8/resolve?name={domain}&type=A".to_owned(),
            json_header: false,
        },
    ];
    assert(r@.map_values(|p: DohProvider| p@) =~= builtin_provider_views());
    r
}

/// Whether `id` names a provider: a builtin one or `custom`.
pub fn is_known_provider_id(id: &str) -> (r: bool)
    ensures
        r == (id@ == "custom"@ || first_with_id(builtin_provider_views(), id@) is Some),
{
    if str_eq(id, "custom") {
        return true;
    }
    let ps = builtin_providers();
    let n = ps.len();
    let ghost views = ps@.map_values(|p: DohProvider| p@);
    assert(views.skip(0) =~= views);
    for i in 0..n
        invariant
            n == ps@.len(),
            views == ps@.map_values(|p: DohProvider| p@),
            views == builtin_provider_views(),
            first_with_id(views, id@) == first_with_id(views.skip(i as int), id@),
    {
        assert(views.skip(i as int)[0] == ps@[i as int]@);
        assert(views.skip(i as int).drop_first() =~= views.skip(i + 1));
        if str_eq(ps[i].id.as_str(), id) {
            return true;
        }
    }
    assert(views.skip(n as int) =~= Seq::<ProviderView>::empty());
    false
}

/// The provider for `id`; `custom_template` is used when `id` is `custom`.
pub fn provider_by_id(id: &str, custom_template: &str) -> (r: Result<DohProvider, DnsError>)
    ensures
        lookup_view(r) == provider_lookup(id@, custom_template@),
{
    let mut ps = builtin_providers();
    let n = ps.len();
    let ghost views = ps@.map_values(|p: DohProvider| p@);
    assert(views.skip(0) =~= views);
    for i in 0..n
        invariant
            n == ps@.len(),
            views == ps@.map_values(|p: DohProvider| p@),
            views == builtin_provider_views(),
            first_with_id(views, id@) == first_with_id(views.skip(i as int), id@),
    {
        assert(views.skip(i as int)[0] == ps@[i as int]@);
        assert(views.skip(i as int).drop_first() =~= views.skip(i + 1));
        if str_eq(ps[i].id.as_str(), id) {
            let p = ps.remove(i);
            return Ok(p);
        }
    }
    assert(views.skip(n as int) =~= Seq::<ProviderView>::empty());
    if str_eq(id, "custom") {
        if !str_contains(custom_template, "{domain}") {
            return Err(DnsError::InvalidTemplate(custom_template.to_owned()));
        }
        return Ok(
            DohProvider {
                id: "custom".to_owned(),
                name: "Custom".to_owned(),
                label: "Custom DoH".to_owned(),
                template: custom_template.to_owned(),
                json_header: false,
            },
        );
    }
    Err(DnsError::InvalidProvider(id.to_owned()))
}


/// An id is known exactly when looking it up does not report an unknown
/// provider, whatever the custom template.
pub proof fn law_known_ids_are_the_resolvable_ones(id: Seq<char>, custom_template: Seq<char>)
    ensures
        (id == "custom"@ || first_with_id(builtin_provider_views(), id) is Some) <==> !(provider_lookup(
            id,
            custom_template,
        ) is Err && provider_lookup(id, custom_template)->Err_0 is InvalidProvider),
{
}

/// The builtin registry: every template holds the `{domain}` placeholder, the
/// ids are distinct and none is `custom`, and each id selects its own provider
/// whatever the custom template.
pub proof fn law_builtin_registry(custom_template: Seq<char>)
    ensures
        forall|i: int|
            0 <= i < builtin_provider_views().len() ==> contains_text(
                #[trigger] builtin_provider_views()[i].template,
                domain_placeholder(),
            ),
        forall|i: int, j: int|
            0 <= i < j < builtin_provider_views().len() ==> #[trigger] builtin_provider_views()[i].id
                != #[trigger] builtin_provider_views()[j].id,
        forall|i: int|
            0 <= i < builtin_provider_views().len() ==> #[trigger] builtin_provider_views()[i].id
                != "custom"@,
        forall|i: int|
            0 <= i < builtin_provider_views().len() ==> provider_lookup(
                #[trigger] builtin_provider_views()[i].id,
                custom_template,
            ) == Ok::<ProviderView, DnsErrorView>(builtin_provider_views()[i]),
{
    reveal_strlit("alidns");
    reveal_strlit("dnspod");
    reveal_strlit("cloudflare");
    reveal_strlit("google");
    reveal_strlit("custom");
    reveal_strlit("{domain}");
    reveal_strlit("https://223.5.5.5/resolve?name={domain}&type=A");
    reveal_strlit("https://120.53.53.53/dns-query?name={domain}&type=A");
    reveal_strlit("https://1.1.1.1/dns-query?name={domain}&type=A");
    reveal_strlit("https://8.8.8.8/resolve?name={domain}&type=A");
    let ps = builtin_provider_views();
    let ph = domain_placeholder();
    assert(ph.len() == 8);
    assert(contains_text(ps[0].template, ph)) by {
        assert(ps[0].template.subrange(31int, 31int + ph.len()) =~= ph);
    }
    assert(contains_text(ps[1].template, ph)) by {
        assert(ps[1].template.subrange(36int, 36int + ph.len()) =~= ph);
    }
    assert(contains_text(ps[2].template, ph)) by {
        assert(ps[2].template.subrange(31int, 31int + ph.len()) =~= ph);
    }
    assert(contains_text(ps[3].template, ph)) by {
        assert(ps[3].template.subrange(29int, 29int + ph.len()) =~= ph);
    }
    assert(ps[0].id[0] != ps[1].id[0]);
    assert(ps[0].id[0] != ps[2].id[0]);
    assert(ps[0].id[0] != ps[3].id[0]);
    assert(ps[1].id[0] != ps[2].id[0]);
    assert(ps[1].id[0] != ps[3].id[0]);
    assert(ps[2].id[0] != ps[3].id[0]);
    assert(ps[0].id.len() == "custom"@.len() && ps[0].id[0] != "custom"@[0]);
    assert(ps[1].id.len() == "custom"@.len() && ps[1].id[1] != "custom"@[1]);
    assert(ps[2].id.len() != "custom"@.len());
    assert(ps[3].id.len() == "custom"@.len() && ps[3].id[0] != "custom"@[0]);
    let t1 = ps.drop_first();
    let t2 = t1.drop_first();
    let t3 = t2.drop_first();
    assert(t1[0] == ps[1] && t1[1] == ps[2] && t1[2] == ps[3] && t1.len() == 3);
    assert(t2[0] == ps[2] && t2[1] == ps[3] && t2.len() == 2);
    assert(t3[0] == ps[3] && t3.len() == 1);
    assert(first_with_id(ps, ps[0].id) == Some(ps[0]));
    assert(first_with_id(t1, ps[1].id) == Some(ps[1]));
    assert(first_with_id(ps, ps[1].id) == Some(ps[1]));
    assert(first_with_id(t2, ps[2].id) == Some(ps[2]));
    assert(first_with_id(t1, ps[2].id) == Some(ps[2]));
    assert(first_with_id(ps, ps[2].id) == Some(ps[2]));
    assert(first_with_id(t3, ps[3].id) == Some(ps[3]));
    assert(first_with_id(t2, ps[3].id) == Some(ps[3]));
    assert(first_with_id(t1, ps[3].id) == Some(ps[3]));
    assert(first_with_id(ps, ps[3].id) == Some(ps[3]));
}


/// The host of `https://HOST/...`, for a template of that shape.
pub open spec fn template_host(template: Seq<char>) -> Seq<char> {
    let rest = template.skip(8);
    rest.take(crate::text::next_index_of(rest, 0, '/'))
}

/// The builtin endpoints are addressed by IP literal, so the resolver never
/// needs a DNS lookup of its own.
pub proof fn law_builtin_endpoints_are_ip_literals()
    ensures
        forall|i: int|
            0 <= i < builtin_provider_views().len() ==> (#[trigger] builtin_provider_views()[i]).template.take(8)
                == "https://"@ && parse_ipv4_text(template_host(builtin_provider_views()[i].template)) is Some,
{
    reveal_strlit("https://");
    reveal_strlit("https://223.5.5.5/resolve?name={domain}&type=A");
    reveal_strlit("https://120.53.53.53/dns-query?name={domain}&type=A");
    reveal_strlit("https://1.1.1.1/dns-query?name={domain}&type=A");
    reveal_strlit("https://8.8.8.8/resolve?name={domain}&type=A");
    let ps = builtin_provider_views();
    let ips = seq![
        Ipv4Address(223, 5, 5, 5),
        Ipv4Address(120, 53, 53, 53),
        Ipv4Address(1, 1, 1, 1),
        Ipv4Address(8, 8, 8, 8),
    ];
    assert forall|i: int| 0 <= i < ps.len() implies (#[trigger] ps[i]).template.take(8) == "https://"@
        && parse_ipv4_text(template_host(ps[i].template)) is Some by {
        let t = ps[i].template;
        assert(t.take(8) =~= "https://"@);
        let rest = t.skip(8);
        let host_len = ipv4_text(ips[i]).len() as int;
        lemma_decimal_small();
        assert(rest.take(host_len) =~= ipv4_text(ips[i]));
        assert(rest[host_len] == '/');
        assert forall|k: int| 0 <= k < host_len implies rest[k] != '/' by {
            assert(rest[k] == ipv4_text(ips[i])[k]);
        }
        crate::text::lemma_next_index_of(rest, 0, '/');
        assert(crate::text::next_index_of(rest, 0, '/') == host_len) by {
            let e = crate::text::next_index_of(rest, 0, '/');
            if e < host_len {
                assert(rest[e] != '/');
            }
        }
        law_ipv4_text_round_trip(ips[i]);
    }
}

proof fn lemma_decimal_small()
    ensures
        crate::text::decimal(1) == seq!['1'],
        crate::text::decimal(5) == seq!['5'],
        crate::text::decimal(8) == seq!['8'],
        crate::text::decimal(53) == seq!['5', '3'],
        crate::text::decimal(120) == seq!['1', '2', '0'],
        crate::text::decimal(223) == seq!['2', '2', '3'],
{
    assert(crate::text::decimal(1) =~= seq!['1']);
    assert(crate::text::decimal(2) =~= seq!['2']);
    assert(crate::text::decimal(5) =~= seq!['5']);
    assert(crate::text::decimal(8) =~= seq!['8']);
    assert(crate::text::digit_char(0) == '0');
    assert(crate::text::digit_char(2) == '2');
    assert(crate::text::digit_char(3) == '3');
    assert(crate::text::decimal(12) =~= seq!['1'].push('2'));
    assert(crate::text::decimal(22) =~= seq!['2'].push('2'));
    assert(crate::text::decimal(53) =~= seq!['5'].push('3'));
    assert(crate::text::decimal(120) =~= seq!['1', '2'].push('0'));
    assert(crate::text::decimal(223) =~= seq!['2', '2'].push('3'));
}

} // verus!
