use std::sync::Arc;

use rdnsx_core::enumeration::{
    after_fallback_attempt, after_first_attempt, FallbackStep,
    api_fallback_error, api_status_error, asn_totals_fit, ipv6_enumeration_result,
    is_ok_status, is_success_status, local_candidates, local_resolution_result,
    local_resolution_result_at, lookup_found, merge_passive_source, new_passive_result,
    parse_failure_error, request_failure_error, server_fingerprint, ureq_failure_error,
};
use rdnsx_core::{
    AnswerData, DnsEnumerator, DnsxError, IpAddress, JsonValue, LocalResolutionSource,
    PassiveDnsSource, ProbeObservation,
};

fn s(t: &str) -> JsonValue {
    JsonValue::String(t.to_string())
}

fn obj(fields: Vec<(&str, JsonValue)>) -> JsonValue {
    let mut names = Vec::new();
    let mut values = Vec::new();
    for (n, v) in fields {
        names.push(n.to_string());
        values.push(v);
    }
    JsonValue::Object(names, values)
}

fn msg(e: &DnsxError) -> String {
    e.to_string()
}

#[test]
fn enumerator_keeps_its_pool() {
    let pool = Arc::new(7u32);
    let e = DnsEnumerator::new(pool.clone());
    assert_eq!(**e.resolver_pool(), 7);
    let src = LocalResolutionSource::new(pool);
    assert_eq!(**src.resolver_pool(), 7);
    assert_eq!(src.name(), "local_resolution");
}

#[test]
fn asn_known_networks() {
    let e = DnsEnumerator::new(Arc::new(()));
    let g = e.asn_enumeration("AS15169").unwrap();
    assert_eq!(g.asn, "AS15169");
    assert_eq!(g.name.as_deref(), Some("Google LLC"));
    assert_eq!(g.description.as_deref(), Some("Google LLC"));
    assert_eq!(g.country.as_deref(), Some("US"));
    assert_eq!(g.ipv4_prefixes, vec!["8.8.8.0/24", "8.8.4.0/24", "8.34.208.0/20"]);
    assert_eq!(g.ipv6_prefixes, vec!["2001:4860::/32", "2607:f8b0::/32"]);
    assert_eq!(g.total_ipv4_addresses, 8454144);
    assert_eq!(g.total_ipv6_addresses, u64::MAX);

    let a = e.asn_enumeration("as16509").unwrap();
    assert_eq!(a.asn, "AS16509");
    assert_eq!(a.name.as_deref(), Some("Amazon.com, Inc."));
    assert_eq!(a.description.as_deref(), Some("Amazon Web Services"));
    assert_eq!(a.ipv6_prefixes, vec!["2600:1f00::/24"]);
    assert_eq!(a.total_ipv4_addresses, 20000000);

    let c = e.asn_enumeration("13335").unwrap();
    assert_eq!(c.asn, "AS13335");
    assert_eq!(c.name.as_deref(), Some("Cloudflare, Inc."));
    assert_eq!(c.ipv4_prefixes, vec!["173.245.48.0/20", "103.21.244.0/22"]);
    assert_eq!(c.total_ipv4_addresses, 30000000);
}

#[test]
fn asn_unknown_network() {
    let e = DnsEnumerator::new(Arc::new(()));
    let r = e.asn_enumeration("AS64500").unwrap();
    assert_eq!(r.asn, "AS64500");
    assert_eq!(r.name.as_deref(), Some("ASN 64500 (Unknown)"));
    assert_eq!(r.description.as_deref(), Some("ASN information not available in offline mode"));
    assert_eq!(r.country, None);
    assert_eq!(r.ipv4_prefixes, vec!["192.0.2.0/24"]);
    assert_eq!(r.ipv6_prefixes, vec!["2001:db8::/32"]);
    assert_eq!(r.total_ipv4_addresses, 256);
    assert_eq!(r.total_ipv6_addresses, 18446744073709551615);
}

#[test]
fn asn_prefix_forms_agree() {
    let e = DnsEnumerator::new(Arc::new(()));
    let plain = e.asn_enumeration("15169").unwrap();
    let upper = e.asn_enumeration("ASAS15169").unwrap();
    let mixed = e.asn_enumeration("ASas15169").unwrap();
    assert_eq!(plain.asn, upper.asn);
    assert_eq!(plain.asn, mixed.asn);
    assert_eq!(plain.name, mixed.name);
    // "as" is only stripped after every "AS".
    let odd = e.asn_enumeration("asAS15169").unwrap();
    assert_eq!(odd.asn, "ASAS15169");
}

fn bgpview_doc() -> JsonValue {
    obj(vec![(
        "data",
        obj(vec![
            (
                "asn",
                obj(vec![
                    ("asn", JsonValue::Number(Some(15169))),
                    ("name", s("GOOGLE")),
                    ("description", s("Google LLC")),
                    ("country_code", s("US")),
                ]),
            ),
            (
                "prefixes",
                obj(vec![
                    (
                        "ipv4",
                        JsonValue::Array(vec![
                            obj(vec![("prefix", s("8.8.8.0/24")), ("ip_count", JsonValue::Number(Some(256)))]),
                            obj(vec![("ip_count", JsonValue::Number(Some(1000)))]),
                            obj(vec![("prefix", s("8.8.4.0/24"))]),
                            obj(vec![("prefix", s("8.34.208.0/20")), ("ip_count", JsonValue::Number(Some(4096)))]),
                        ]),
                    ),
                    (
                        "ipv6",
                        JsonValue::Array(vec![obj(vec![
                            ("prefix", s("2001:4860::/32")),
                            ("ip_count", JsonValue::Number(None)),
                        ])]),
                    ),
                ]),
            ),
        ]),
    )])
}

#[test]
fn parse_bgpview_response() {
    let doc = bgpview_doc();
    assert!(asn_totals_fit(&doc));
    let r = DnsEnumerator::<()>::parse_asn_response(&doc, "BGPView", "15169").unwrap();
    assert_eq!(r.asn, "AS15169");
    assert_eq!(r.name.as_deref(), Some("GOOGLE"));
    assert_eq!(r.description.as_deref(), Some("Google LLC"));
    assert_eq!(r.country.as_deref(), Some("US"));
    assert_eq!(r.ipv4_prefixes, vec!["8.8.8.0/24", "8.8.4.0/24", "8.34.208.0/20"]);
    assert_eq!(r.ipv6_prefixes, vec!["2001:4860::/32"]);
    assert_eq!(r.total_ipv4_addresses, 4352);
    assert_eq!(r.total_ipv6_addresses, 0);
}

#[test]
fn parse_bgpview_without_asn_block() {
    let doc = obj(vec![("data", obj(vec![]))]);
    let r = DnsEnumerator::<()>::parse_asn_response(&doc, "BGPView", "64500").unwrap();
    assert_eq!(r.asn, "AS64500");
    assert_eq!(r.name, None);
    assert!(r.ipv4_prefixes.is_empty());

    let no_number = obj(vec![("data", obj(vec![("asn", obj(vec![("name", s("X"))]))]))]);
    let r = DnsEnumerator::<()>::parse_asn_response(&no_number, "BGPView", "64500").unwrap();
    assert_eq!(r.asn, "");
    assert_eq!(r.name.as_deref(), Some("X"));
}

#[test]
fn bgpview_totals_overflow_detected() {
    let doc = obj(vec![(
        "data",
        obj(vec![(
            "prefixes",
            obj(vec![(
                "ipv4",
                JsonValue::Array(vec![
                    obj(vec![("prefix", s("a")), ("ip_count", JsonValue::Number(Some(u64::MAX)))]),
                    obj(vec![("prefix", s("b")), ("ip_count", JsonValue::Number(Some(1)))]),
                ]),
            )]),
        )]),
    )]);
    assert!(!asn_totals_fit(&doc));
}

#[test]
fn parse_ipinfo_response() {
    let doc = obj(vec![
        ("asn", s("AS13335")),
        ("name", s("Cloudflare")),
        ("country", s("US")),
        (
            "prefixes",
            JsonValue::Array(vec![
                obj(vec![("netblock", s("104.16.0.0/13"))]),
                obj(vec![("netblock", s("2606:4700::/32"))]),
                obj(vec![("other", s("x"))]),
                obj(vec![("netblock", s("172.64.0.0/13"))]),
            ]),
        ),
    ]);
    let r = DnsEnumerator::<()>::parse_asn_response(&doc, "IPInfo", "13335").unwrap();
    assert_eq!(r.asn, "AS13335");
    assert_eq!(r.name.as_deref(), Some("Cloudflare"));
    assert_eq!(r.description, None);
    assert_eq!(r.country.as_deref(), Some("US"));
    assert_eq!(r.ipv4_prefixes, vec!["104.16.0.0/13", "172.64.0.0/13"]);
    assert_eq!(r.ipv6_prefixes, vec!["2606:4700::/32"]);

    let bare = DnsEnumerator::<()>::parse_asn_response(&JsonValue::Null, "IPInfo", "1").unwrap();
    assert_eq!(bare.asn, "Unknown");
}

#[test]
fn parse_unknown_api() {
    let r = DnsEnumerator::<()>::parse_asn_response(&JsonValue::Null, "Other", "1");
    match r {
        Err(e) => assert_eq!(msg(&e), "Unknown API: Other"),
        Ok(_) => panic!("unknown API accepted"),
    }
}

#[test]
fn json_lookups() {
    let doc = obj(vec![("a", JsonValue::Bool(true)), ("a", JsonValue::Null), ("n", JsonValue::Number(Some(3)))]);
    assert!(matches!(doc.get("a"), Some(JsonValue::Bool(true))));
    assert!(doc.get("b").is_none());
    assert_eq!(doc.get("n").and_then(|v| v.as_u64()), Some(3));
    assert!(JsonValue::Array(vec![]).get("a").is_none());
    assert_eq!(s("x").as_str(), Some("x"));
}

#[test]
fn ipv6_enumeration_cases() {
    let v4 = Ok(vec![AnswerData::A([192, 0, 2, 1]), AnswerData::Other, AnswerData::Aaaa([1; 8])]);
    let v6 = Ok(vec![AnswerData::Aaaa([0x2001, 0xdb8, 0, 0, 0, 0, 0, 1]), AnswerData::A([1, 1, 1, 1])]);
    let r = ipv6_enumeration_result("example.com", v4, v6).unwrap();
    assert_eq!(r.domain, "example.com");
    assert_eq!(r.ipv4_addresses, vec![IpAddress::V4([192, 0, 2, 1])]);
    assert_eq!(r.ipv6_addresses, vec![IpAddress::V6([0x2001, 0xdb8, 0, 0, 0, 0, 0, 1])]);
    assert!(r.dual_stack);
    assert!(!r.ipv6_only);

    let failed = Err(DnsxError::Other("timeout".to_string()));
    let only6 = ipv6_enumeration_result("v6.example", failed, Ok(vec![AnswerData::Aaaa([0; 8])])).unwrap();
    assert!(only6.ipv4_addresses.is_empty());
    assert!(!only6.dual_stack);
    assert!(only6.ipv6_only);

    let none = ipv6_enumeration_result("x", Ok(vec![]), Ok(vec![])).unwrap();
    assert!(!none.dual_stack && !none.ipv6_only);
}

#[test]
fn local_candidates_in_order() {
    let c = local_candidates("example.com");
    assert_eq!(
        c,
        vec![
            "www.example.com", "mail.example.com", "ftp.example.com", "admin.example.com",
            "api.example.com", "dev.example.com", "staging.example.com", "test.example.com"
        ]
    );
}

#[test]
fn local_resolution_reports_found_names() {
    let found = vec![true, false, false, false, true, false, false, false];
    let now: i128 = 1_700_000_000_000_000_000;
    let r = local_resolution_result_at("example.com", &found, now);
    assert_eq!(r.domain, "example.com");
    assert_eq!(r.subdomains.len(), 2);
    assert_eq!(r.subdomains[0].name, "www.example.com");
    assert_eq!(r.subdomains[1].name, "api.example.com");
    assert_eq!(r.subdomains[0].record_type, "A");
    assert_eq!(r.subdomains[0].first_seen, now - 31_536_000_000_000_000);
    assert_eq!(r.subdomains[0].last_seen, now);
    assert_eq!(r.subdomains[1].source, "local_resolution");
    assert_eq!(r.historical_ips.len(), 1);
    assert_eq!(r.historical_ips[0].ip, IpAddress::V4([192, 0, 2, 1]));
    assert_eq!(r.historical_ips[0].first_seen, now - 31_536_000_000_000_000);
    assert_eq!(r.historical_ips[0].last_seen, now);
    assert_eq!(r.last_seen, Some(now));
    assert_eq!(r.data_sources, vec!["local_resolution"]);

    let nothing = local_resolution_result("example.com", &vec![false; 8]).unwrap();
    assert!(nothing.subdomains.is_empty());
    assert!(nothing.historical_ips.is_empty());
    assert!(nothing.last_seen.is_some());
}

#[test]
fn passive_merge_keeps_latest_time() {
    let mut combined = new_passive_result("example.com");
    let first = local_resolution_result_at("example.com", &vec![true, false, false, false, false, false, false, false], 100);
    let second = local_resolution_result_at("example.com", &vec![false, true, false, false, false, false, false, false], 50);
    merge_passive_source(&mut combined, "local_resolution", Ok(first));
    merge_passive_source(&mut combined, "other", Err(DnsxError::Other("down".to_string())));
    merge_passive_source(&mut combined, "second", Ok(second));
    assert_eq!(combined.domain, "example.com");
    assert_eq!(combined.subdomains.len(), 2);
    assert_eq!(combined.subdomains[0].name, "www.example.com");
    assert_eq!(combined.subdomains[1].name, "mail.example.com");
    assert_eq!(combined.historical_ips.len(), 2);
    assert_eq!(combined.data_sources, vec!["local_resolution", "second"]);
    assert_eq!(combined.last_seen, Some(100));
}

#[test]
fn fingerprint_outcomes() {
    let quiet = ProbeObservation {
        response_time_ms: 12,
        recursion_available: false,
        edns_present: false,
        answer_types: vec![1],
        version_texts: vec![],
    };
    let ok = server_fingerprint("8.8.8.8", Ok(quiet)).unwrap();
    assert_eq!(ok.server, "8.8.8.8");
    assert_eq!(ok.response_time_ms, 12);
    assert_eq!(ok.version_bind, None);
    assert!(!ok.recursion_available && !ok.dnssec_support && !ok.edns_support);

    let rich = ProbeObservation {
        response_time_ms: 3,
        recursion_available: true,
        edns_present: true,
        answer_types: vec![1, 46],
        version_texts: vec!["9.18.1".to_string(), "other".to_string()],
    };
    let f = server_fingerprint("192.0.2.53:5353", Ok(rich)).unwrap();
    assert_eq!(f.server, "192.0.2.53:5353");
    assert_eq!(f.response_time_ms, 3);
    assert!(f.recursion_available && f.dnssec_support && f.edns_support);
    assert_eq!(f.version_bind, Some("9.18.1".to_string()));

    match server_fingerprint("8.8.8.8", Err(DnsxError::Other("refused".to_string()))) {
        Err(e) => assert_eq!(msg(&e), "Server fingerprinting failed: refused"),
        Ok(_) => panic!("failure turned into success"),
    }
}

#[test]
fn lookup_hits() {
    assert!(lookup_found(&Ok(vec![AnswerData::A([192, 0, 2, 1])])));
    assert!(!lookup_found(&Ok(vec![])));
    assert!(!lookup_found(&Err(DnsxError::Other("nxdomain".to_string()))));
}

#[test]
fn http_status_classes() {
    assert!(is_success_status(200) && is_success_status(204) && is_success_status(299));
    assert!(!is_success_status(199) && !is_success_status(300) && !is_success_status(404));
    assert!(is_ok_status(200));
    assert!(!is_ok_status(204) && !is_ok_status(500));
}

#[test]
fn http_error_messages() {
    assert_eq!(
        msg(&api_fallback_error("a", "b")),
        "Both reqwest and ureq failed. reqwest: a, ureq: b"
    );
    assert_eq!(
        msg(&request_failure_error("BGPView", "boom", "http://x", true, false)),
        "Failed to query BGPView API: boom (URL: http://x) - Request timed out. Check internet connection."
    );
    assert_eq!(
        msg(&request_failure_error("BGPView", "boom", "http://x", false, true)),
        "Failed to query BGPView API: boom (URL: http://x) - Connection failed. Check network connectivity."
    );
    assert_eq!(
        msg(&request_failure_error("IPInfo", "e", "u", false, false)),
        "Failed to query IPInfo API: e (URL: u)"
    );
    assert_eq!(
        msg(&api_status_error("BGPView", "404 Not Found", "http://x")),
        "BGPView API returned status: 404 Not Found for URL: http://x"
    );
    assert_eq!(
        msg(&ureq_failure_error("IPInfo", "timeout", "http://y")),
        "ureq failed for IPInfo API: timeout (URL: http://y)"
    );
    assert_eq!(
        msg(&parse_failure_error("IPInfo", "expected value")),
        "Failed to parse IPInfo API response: expected value"
    );
}

fn sample_asn() -> rdnsx_core::AsnEnumerationResult {
    rdnsx_core::AsnEnumerationResult {
        asn: "15169".to_string(),
        name: Some("GOOGLE".to_string()),
        description: None,
        country: Some("US".to_string()),
        ipv4_prefixes: vec!["8.8.8.0/24".to_string()],
        ipv6_prefixes: vec![],
        total_ipv4_addresses: 256,
        total_ipv6_addresses: 0,
    }
}

#[test]
fn api_fallback_steps() {
    match after_first_attempt(Ok(sample_asn())) {
        FallbackStep::Finished(r) => assert_eq!(r.asn, "15169"),
        FallbackStep::TryFallback(_) => panic!("success sent to the fallback"),
    }
    match after_first_attempt(Err(DnsxError::Other("timed out".to_string()))) {
        FallbackStep::TryFallback(m) => assert_eq!(m, "timed out"),
        FallbackStep::Finished(_) => panic!("failure counted as success"),
    }
    let ok = after_fallback_attempt("timed out", Ok(sample_asn())).unwrap();
    assert_eq!(ok.total_ipv4_addresses, 256);
    match after_fallback_attempt("timed out", Err(DnsxError::Other("refused".to_string()))) {
        Err(e) => assert_eq!(msg(&e), "Both reqwest and ureq failed. reqwest: timed out, ureq: refused"),
        Ok(_) => panic!("failure turned into success"),
    }
}
