use hickory_resolver::proto::rr::RecordType as H;
use rdnsx_core::{DnsRecord, DnsRecordType, DnsxError, IpAddress, RecordValue, ResponseCode};

#[test]
fn test_record_type_display() {
    assert_eq!(DnsRecordType::A.to_string(), "A");
    assert_eq!(DnsRecordType::Aaaa.to_string(), "AAAA");
    assert_eq!(DnsRecordType::Caa.to_string(), "CAA");
    assert_eq!(DnsRecordType::Mx.to_string(), "MX");
    assert_eq!(DnsRecordType::Txt.to_string(), "TXT");
}

#[test]
fn test_record_type_hickory_conversion() {
    // Test a few key conversions
    assert_eq!(DnsRecordType::A.to_hickory(), hickory_resolver::proto::rr::RecordType::A);
    assert_eq!(DnsRecordType::Aaaa.to_hickory(), hickory_resolver::proto::rr::RecordType::AAAA);
    assert_eq!(DnsRecordType::Caa.to_hickory(), hickory_resolver::proto::rr::RecordType::CAA);
    assert_eq!(DnsRecordType::Mx.to_hickory(), hickory_resolver::proto::rr::RecordType::MX);
}

#[test]
fn record_type_codes_match_resolver() {
    assert_eq!(DnsRecordType::Cname.to_hickory(), H::CNAME);
    assert_eq!(DnsRecordType::Ns.to_hickory(), H::NS);
    assert_eq!(DnsRecordType::Txt.to_hickory(), H::TXT);
    assert_eq!(DnsRecordType::Soa.to_hickory(), H::SOA);
    assert_eq!(DnsRecordType::Ptr.to_hickory(), H::PTR);
    assert_eq!(DnsRecordType::Srv.to_hickory(), H::SRV);
    assert_eq!(DnsRecordType::Dnskey.to_hickory(), H::DNSKEY);
    assert_eq!(DnsRecordType::Ds.to_hickory(), H::DS);
    assert_eq!(DnsRecordType::Any.to_hickory(), H::ANY);
    assert_eq!(DnsRecordType::Caa.code(), 257);
    assert_eq!(DnsRecordType::Aaaa.code(), 28);
}

#[test]
fn test_dns_record_creation() {
    let record = DnsRecord::new(
        "example.com".to_string(),
        DnsRecordType::A,
        RecordValue::Ip(IpAddress::V4([127, 0, 0, 1])),
        300,
        ResponseCode::NoError,
        "8.8.8.8:53".to_string(),
        42_500,
    );

    assert_eq!(record.domain, "example.com");
    assert_eq!(record.record_type, DnsRecordType::A);
    assert_eq!(record.ttl, 300);
    assert_eq!(record.response_code, ResponseCode::NoError);
    assert_eq!(record.resolver, "8.8.8.8:53");
    assert_eq!(record.query_time_us, 42_500);
}

#[test]
fn dns_record_text_and_clone() {
    let record = DnsRecord::new(
        "example.com".to_string(),
        DnsRecordType::Cname,
        RecordValue::Domain("alias.example.net".to_string()),
        60,
        ResponseCode::NoError,
        "1.1.1.1:53".to_string(),
        1,
    );
    assert_eq!(record.to_string(), "example.com [alias.example.net]");
    assert_eq!(record.clone(), record);
}

#[test]
fn test_record_value_to_string() {
    let ip_value = RecordValue::Ip(IpAddress::V4([127, 0, 0, 1]));
    assert_eq!(ip_value.to_string(), "127.0.0.1");

    let domain_value = RecordValue::Domain("example.com".to_string());
    assert_eq!(domain_value.to_string(), "example.com");

    let text_value = RecordValue::Text("Hello World".to_string());
    assert_eq!(text_value.to_string(), "Hello World");

    let other_value = RecordValue::Other("Custom data".to_string());
    assert_eq!(other_value.to_string(), "Custom data");
}

#[test]
fn test_response_code_display() {
    assert_eq!(ResponseCode::NoError.to_string(), "NOERROR");
    assert_eq!(ResponseCode::NxDomain.to_string(), "NXDOMAIN");
    assert_eq!(ResponseCode::ServFail.to_string(), "SERVFAIL");
}

#[test]
fn other_response_codes() {
    assert_eq!(ResponseCode::FormErr.to_string(), "FORMERR");
    assert_eq!(ResponseCode::NotImp.to_string(), "NOTIMP");
    assert_eq!(ResponseCode::Refused.to_string(), "REFUSED");
}

#[test]
fn test_caa_record_value() {
    let caa_value = RecordValue::Caa {
        flags: 0,
        tag: "issue".to_string(),
        value: "letsencrypt.org".to_string(),
    };
    assert_eq!(caa_value.to_string(), "0 issue letsencrypt.org");
}

#[test]
fn caa_flags_in_decimal() {
    let caa_value = RecordValue::Caa {
        flags: 128,
        tag: "iodef".to_string(),
        value: "mailto:a@b.c".to_string(),
    };
    assert_eq!(caa_value.to_string(), "128 iodef mailto:a@b.c");
}

#[test]
fn record_value_duplicate_is_equal() {
    let v = RecordValue::Caa { flags: 5, tag: "t".to_string(), value: "v".to_string() };
    assert_eq!(v.duplicate(), v);
}

#[test]
fn ipv4_text() {
    assert_eq!(IpAddress::V4([0, 0, 0, 0]).to_string(), "0.0.0.0");
    assert_eq!(IpAddress::V4([255, 255, 255, 255]).to_string(), "255.255.255.255");
    assert_eq!(IpAddress::V4([192, 0, 2, 10]).to_string(), "192.0.2.10");
}

#[test]
fn ipv6_text() {
    assert_eq!(IpAddress::V6([0; 8]).to_string(), "::");
    assert_eq!(IpAddress::V6([0, 0, 0, 0, 0, 0, 0, 1]).to_string(), "::1");
    assert_eq!(IpAddress::V6([1, 0, 0, 0, 0, 0, 0, 0]).to_string(), "1::");
    assert_eq!(IpAddress::V6([0x2001, 0xdb8, 0, 0, 0, 0, 0, 1]).to_string(), "2001:db8::1");
    assert_eq!(IpAddress::V6([1, 0, 0, 2, 0, 0, 0, 3]).to_string(), "1:0:0:2::3");
    // The leftmost of two equally long runs is compressed.
    assert_eq!(IpAddress::V6([1, 0, 0, 2, 0, 0, 3, 4]).to_string(), "1::2:0:0:3:4");
    // A single zero group is not compressed.
    assert_eq!(IpAddress::V6([1, 0, 2, 3, 4, 5, 6, 7]).to_string(), "1:0:2:3:4:5:6:7");
    assert_eq!(
        IpAddress::V6([0xfe80, 0, 0, 0, 0xabcd, 0xef01, 0x2345, 0x6789]).to_string(),
        "fe80::abcd:ef01:2345:6789"
    );
}

#[test]
fn ipv6_mapped_ipv4_text() {
    assert_eq!(IpAddress::V6([0, 0, 0, 0, 0, 0xffff, 0xc000, 0x0201]).to_string(), "::ffff:192.0.2.1");
}

#[test]
fn error_message() {
    let e = DnsxError::Other("boom".to_string());
    assert_eq!(e.to_string(), "boom");
}

#[test]
fn wall_clock_reads_after_epoch() {
    let now = rdnsx_core::time::unix_now_nanos().expect("system clock after the epoch");
    // Later than September 2020, in nanoseconds.
    assert!(now > 1_600_000_000_000_000_000);
}

#[test]
fn monotonic_clock_does_not_run_backwards() {
    let clock = rdnsx_core::MonotonicClock::new();
    let a = clock.now();
    let b = clock.now();
    assert!(a <= b);
}
