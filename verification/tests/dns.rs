use switchhosts::dns::{builtin_providers, is_known_provider_id, provider_by_id, DnsError};
use switchhosts::doh_answer::{a_records_from_parse, build_domain_hosts_content, DohAnswer, DohResponse};
use switchhosts::domain::is_valid_domain;
use switchhosts::ipv4::{parse_ipv4, Ipv4Address};

fn ip(s: &str) -> Ipv4Address {
    parse_ipv4(s).unwrap()
}

fn answer(rtype: u16, data: &str) -> DohAnswer {
    DohAnswer { rtype, data: data.to_string() }
}

fn response(status: i64, answer: Vec<DohAnswer>) -> Result<DohResponse, String> {
    Ok(DohResponse { status, answer })
}

#[test]
fn is_valid_domain_accepts_plain_domains() {
    for s in [
        "github.com",
        "a-b.example.co",
        "raw.githubusercontent.com",
        "xn--fiqs8s.example",
        "1.2.3.4.com",
    ] {
        assert!(is_valid_domain(s), "should accept: {s}");
    }
}

#[test]
fn is_valid_domain_rejects_bad_input() {
    let too_long_label = "a".repeat(64);
    let too_long_name = format!("{}.com", "a".repeat(250));
    for s in [
        "",
        "   ",
        "github",
        "github.com.",
        "https://github.com",
        "github.com/x",
        "github.com:443",
        "a..b",
        ".a.com",
        "-a.com",
        "a-.com",
        "192.168.1.1",
        "a b.com",
        too_long_label.as_str(),
        too_long_name.as_str(),
    ] {
        assert!(!is_valid_domain(s), "should reject: {s:?}");
    }
}

#[test]
fn is_valid_domain_trims_surrounding_whitespace() {
    assert!(is_valid_domain("  github.com\n"));
    assert!(is_valid_domain("\u{3000}example.org\t"));
}

#[test]
fn is_valid_domain_rejects_dotted_quads_but_not_lookalikes() {
    assert!(!is_valid_domain("10.20.30.40"));
    assert!(!is_valid_domain("1.2.3.44"));
    // a leading zero is not dotted-decimal, so this is a name with a numeric TLD
    assert!(is_valid_domain("1.2.3.044"));
    // 256 is not an octet
    assert!(is_valid_domain("1.2.3.256"));
    assert!(!is_valid_domain("例子.com"));
    assert!(is_valid_domain(&format!("{}.com", "a".repeat(63))));
    assert!(!is_valid_domain(&format!("{}.com", "a".repeat(64))));
}

#[test]
fn is_valid_domain_length_limit() {
    let label = "a".repeat(63);
    let name_253 = format!("{label}.{label}.{label}.{}", "a".repeat(61));
    assert_eq!(name_253.len(), 253);
    assert!(is_valid_domain(&name_253));
    let name_254 = format!("{label}.{label}.{label}.{}", "a".repeat(62));
    assert!(!is_valid_domain(&name_254));
}

#[test]
fn provider_by_id_resolves_builtins_and_custom() {
    let p = provider_by_id("alidns", "").unwrap();
    assert_eq!(p.id, "alidns");
    assert!(p.template.contains("{domain}"));
    assert!(!p.json_header);

    let cf = provider_by_id("cloudflare", "").unwrap();
    assert!(cf.json_header);

    let tpl = "https://doh.example.com/resolve?name={domain}&type=A";
    let cu = provider_by_id("custom", tpl).unwrap();
    assert_eq!(cu.template, tpl);

    assert!(matches!(
        provider_by_id("custom", "https://no-placeholder.example/resolve"),
        Err(DnsError::InvalidTemplate(_))
    ));
    assert!(matches!(
        provider_by_id("bogus", ""),
        Err(DnsError::InvalidProvider(_))
    ));
}

#[test]
fn provider_by_id_fields_and_error_payloads() {
    let g = provider_by_id("google", "ignored").unwrap();
    assert_eq!(g.name, "Google");
    assert_eq!(g.label, "Google (8.8.8.8)");
    assert_eq!(g.template, "https://8.8.8.8/resolve?name={domain}&type=A");
    let cu = provider_by_id("custom", "x{domain}y").unwrap();
    assert_eq!(cu.id, "custom");
    assert_eq!(cu.name, "Custom");
    assert_eq!(cu.label, "Custom DoH");
    assert!(!cu.json_header);
    match provider_by_id("custom", "no placeholder") {
        Err(DnsError::InvalidTemplate(t)) => assert_eq!(t, "no placeholder"),
        _ => panic!("expected InvalidTemplate"),
    }
    match provider_by_id("Cloudflare", "") {
        Err(DnsError::InvalidProvider(id)) => assert_eq!(id, "Cloudflare"),
        _ => panic!("expected InvalidProvider"),
    }
}

#[test]
fn builtin_providers_registry() {
    let ps = builtin_providers();
    let ids: Vec<&str> = ps.iter().map(|p| p.id.as_str()).collect();
    assert_eq!(ids, vec!["alidns", "dnspod", "cloudflare", "google"]);
    assert_eq!(ps[1].label, "DNSPod (120.53.53.53)");
    assert_eq!(ps[1].template, "https://120.53.53.53/dns-query?name={domain}&type=A");
    assert!(ps.iter().all(|p| p.template.contains("{domain}")));
    assert_eq!(ps.iter().filter(|p| p.json_header).count(), 1);
}

#[test]
fn known_provider_ids() {
    assert!(is_known_provider_id("alidns"));
    assert!(is_known_provider_id("custom"));
    assert!(!is_known_provider_id("bogus"));
}

#[test]
fn known_provider_ids_match_lookup() {
    for id in ["alidns", "dnspod", "cloudflare", "google", "custom", "bogus", "", "ALIDNS"] {
        let unknown = matches!(provider_by_id(id, "{domain}"), Err(DnsError::InvalidProvider(_)));
        assert_eq!(is_known_provider_id(id), !unknown, "{id}");
    }
}

#[test]
fn parse_doh_a_records_filters_type_1_only() {
    let body = response(
        0,
        vec![
            answer(1, "93.184.216.34"),
            answer(5, "ns1.example.com"),
            answer(28, "2606:2800:220:1:1:1:1:1"),
            answer(1, "93.184.216.35"),
        ],
    );
    let ips = a_records_from_parse(body).unwrap();
    assert_eq!(ips, vec![ip("93.184.216.34"), ip("93.184.216.35")]);
}

#[test]
fn parse_doh_a_records_error_paths() {
    assert!(matches!(
        a_records_from_parse(response(3, vec![])),
        Err(DnsError::BadStatus(3))
    ));
    assert!(matches!(
        a_records_from_parse(response(0, vec![])),
        Err(DnsError::NoARecord)
    ));
    let not_json = serde_json::from_str::<serde_json::Value>("not json").unwrap_err().to_string();
    assert!(matches!(
        a_records_from_parse(Err(not_json)),
        Err(DnsError::Parse(_))
    ));
    assert!(matches!(
        a_records_from_parse(response(0, vec![answer(5, "y")])),
        Err(DnsError::NoARecord)
    ));
}

#[test]
fn a_records_skip_unparsable_a_data() {
    let ips = a_records_from_parse(response(
        0,
        vec![answer(1, "not-an-ip"), answer(1, "01.2.3.4"), answer(1, "1.2.3.4")],
    ))
    .unwrap();
    assert_eq!(ips, vec![Ipv4Address(1, 2, 3, 4)]);
    match a_records_from_parse(Err("expected value".to_string())) {
        Err(DnsError::Parse(m)) => assert_eq!(m, "expected value"),
        _ => panic!("expected Parse"),
    }
}

#[test]
fn parse_ipv4_follows_dotted_decimal() {
    assert_eq!(parse_ipv4("140.82.112.3"), Some(Ipv4Address(140, 82, 112, 3)));
    assert_eq!(parse_ipv4("0.0.0.0"), Some(Ipv4Address(0, 0, 0, 0)));
    assert_eq!(parse_ipv4("255.255.255.255"), Some(Ipv4Address(255, 255, 255, 255)));
    for bad in ["", "1.2.3", "1.2.3.4.5", "256.1.1.1", "01.1.1.1", "1..1.1", "1.2.3.4 ", "a.b.c.d", "1000.1.1.1"] {
        assert_eq!(parse_ipv4(bad), None, "{bad:?}");
    }
}

#[test]
fn build_content_single_ip_golden() {
    let ips = [ip("140.82.112.3")];
    let out = build_domain_hosts_content(
        "github.com",
        &ips,
        "Ali DoH (223.5.5.5)",
        "2026-09-02 14:30",
    );
    assert_eq!(
        out,
        "# Source: domain github.com\n\
         # Resolved via Ali DoH (223.5.5.5) at 2026-09-02 14:30\n\
         140.82.112.3 github.com\n"
    );
}

#[test]
fn build_content_multi_ip_golden() {
    let ips = [ip("140.82.112.3"), ip("20.205.243.166")];
    let out = build_domain_hosts_content(
        "github.com",
        &ips,
        "Ali DoH (223.5.5.5)",
        "2026-09-02 14:30",
    );
    assert_eq!(
        out,
        "# Source: domain github.com\n\
         # Resolved via Ali DoH (223.5.5.5) at 2026-09-02 14:30\n\
         140.82.112.3 github.com\n\
         # Alternate addresses:\n\
         # 20.205.243.166 github.com\n"
    );
}

#[test]
fn build_content_three_ips_and_address_round_trip() {
    let ips = [Ipv4Address(1, 2, 3, 4), Ipv4Address(0, 10, 200, 255), Ipv4Address(9, 9, 9, 9)];
    let out = build_domain_hosts_content("x.org", &ips, "L", "T");
    assert_eq!(
        out,
        "# Source: domain x.org\n# Resolved via L at T\n1.2.3.4 x.org\n# Alternate addresses:\n# 0.10.200.255 x.org\n# 9.9.9.9 x.org\n"
    );
    assert_eq!(parse_ipv4("0.10.200.255"), Some(ips[1]));
}

#[test]
fn error_messages() {
    assert_eq!(
        DnsError::Network("timeout".to_string()).message(),
        "DNS query failed: timeout. The DNS service can be changed in Preferences."
    );
    assert_eq!(DnsError::Parse("bad".to_string()).message(), "Unexpected DNS response: bad");
    assert_eq!(
        DnsError::BadStatus(3).message(),
        "DNS server returned status 3. The DNS service can be changed in Preferences."
    );
    assert_eq!(
        DnsError::BadStatus(-120).message(),
        "DNS server returned status -120. The DNS service can be changed in Preferences."
    );
    assert_eq!(
        DnsError::BadStatus(i64::MIN).message(),
        "DNS server returned status -9223372036854775808. The DNS service can be changed in Preferences."
    );
    assert_eq!(DnsError::NoARecord.message(), "Domain has no IPv4 (A) records.");
    assert_eq!(
        DnsError::InvalidProvider("x".to_string()).message(),
        "Unknown DNS provider \"x\". Fix it in Preferences."
    );
    assert_eq!(
        DnsError::InvalidTemplate("t".to_string()).message(),
        "Custom DoH template must contain the {domain} placeholder, got: t"
    );
}

#[test]
fn doh_body_limit() {
    assert_eq!(switchhosts::dns::MAX_DOH_BYTES, 65536);
}
