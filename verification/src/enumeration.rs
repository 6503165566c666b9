//! Advanced DNS enumeration: the decisions and data shaping of the
//! enumeration engine, given what the resolver answered.

use std::sync::Arc;
use vstd::prelude::*;
use crate::ip::IpAddress;
use crate::time::unix_now_nanos;
use crate::json::{JsonValue, array_at, get_array, get_str, get_u64, json_get, str_at, u64_at};
use crate::text::{
    concat_str, decimal, has_char, push_decimal, push_str, str_equal, strip_all_prefixes,
    trim_start_matches,
};
use crate::types::DnsxError;

verus! {

/// Text of an optional string.
pub open spec fn opt_text(o: Option<String>) -> Option<Seq<char>> {
    match o {
        Some(s) => Some(s@),
        None => None,
    }
}

/// Texts of a sequence of strings.
pub open spec fn texts(v: Seq<String>) -> Seq<Seq<char>> {
    v.map_values(|s: String| s@)
}

/// ASN information and the IP ranges announced under it.
#[derive(Debug, Clone)]
pub struct AsnEnumerationResult {
    pub asn: String,
    pub name: Option<String>,
    pub description: Option<String>,
    pub country: Option<String>,
    pub ipv4_prefixes: Vec<String>,
    pub ipv6_prefixes: Vec<String>,
    pub total_ipv4_addresses: u64,
    pub total_ipv6_addresses: u64,
}

/// Abstract view of ASN information.
pub struct AsnView {
    pub asn: Seq<char>,
    pub name: Option<Seq<char>>,
    pub description: Option<Seq<char>>,
    pub country: Option<Seq<char>>,
    pub ipv4_prefixes: Seq<Seq<char>>,
    pub ipv6_prefixes: Seq<Seq<char>>,
    pub total_ipv4_addresses: u64,
    pub total_ipv6_addresses: u64,
}

impl View for AsnEnumerationResult {
    type V = AsnView;

    open spec fn view(&self) -> AsnView {
        AsnView {
            asn: self.asn@,
            name: opt_text(self.name),
            description: opt_text(self.description),
            country: opt_text(self.country),
            ipv4_prefixes: texts(self.ipv4_prefixes@),
            ipv6_prefixes: texts(self.ipv6_prefixes@),
            total_ipv4_addresses: self.total_ipv4_addresses,
            total_ipv6_addresses: self.total_ipv6_addresses,
        }
    }
}

/// The number in an ASN as written by a user: every leading "AS", then every
/// leading "as", taken off.
pub open spec fn asn_number(asn: Seq<char>) -> Seq<char> {
    strip_all_prefixes(strip_all_prefixes(asn, "AS"@), "as"@)
}

/// What is known offline of the ASN whose number is `n`: the three
/// well-known networks, and placeholder data for any other.
pub open spec fn offline_asn(n: Seq<char>) -> AsnView {
    if n == "15169"@ {
        AsnView {
            asn: "AS"@ + n,
            name: Some("Google LLC"@),
            description: Some("Google LLC"@),
            country: Some("US"@),
            ipv4_prefixes: seq!["8.8.8.0/24"@, "8.8.4.0/24"@, "8.34.208.0/20"@],
            ipv6_prefixes: seq!["2001:4860::/32"@, "2607:f8b0::/32"@],
            total_ipv4_addresses: 8454144,
            total_ipv6_addresses: 18446744073709551615,
        }
    } else if n == "16509"@ {
        AsnView {
            asn: "AS"@ + n,
            name: Some("Amazon.com, Inc."@),
            description: Some("Amazon Web Services"@),
            country: Some("US"@),
            ipv4_prefixes: seq!["52.0.0.0/11"@, "54.0.0.0/8"@],
            ipv6_prefixes: seq!["2600:1f00::/24"@],
            total_ipv4_addresses: 20000000,
            total_ipv6_addresses: 18446744073709551615,
        }
    } else if n == "13335"@ {
        AsnView {
            asn: "AS"@ + n,
            name: Some("Cloudflare, Inc."@),
            description: Some("Cloudflare, Inc."@),
            country: Some("US"@),
            ipv4_prefixes: seq!["173.245.48.0/20"@, "103.21.244.0/22"@],
            ipv6_prefixes: seq!["2400:cb00::/32"@, "2606:4700::/32"@],
            total_ipv4_addresses: 30000000,
            total_ipv6_addresses: 18446744073709551615,
        }
    } else {
        AsnView {
            asn: "AS"@ + n,
            name: Some("ASN "@ + n + " (Unknown)"@),
            description: Some("ASN information not available in offline mode"@),
            country: None,
            ipv4_prefixes: seq!["192.0.2.0/24"@],
            ipv6_prefixes: seq!["2001:db8::/32"@],
            total_ipv4_addresses: 256,
            total_ipv6_addresses: 18446744073709551615,
        }
    }
}

/// The "prefix" texts of prefix objects, in order; objects without one are
/// skipped.
pub open spec fn listed_prefixes(items: Seq<JsonValue>) -> Seq<Seq<char>>
    decreases items.len(),
{
    if items.len() == 0 {
        Seq::empty()
    } else {
        let rest = listed_prefixes(items.drop_last());
        match str_at(items.last(), "prefix"@) {
            Some(p) => rest.push(p),
            None => rest,
        }
    }
}

/// Sum of the "ip_count" numbers of the prefix objects that have a "prefix"
/// text (a missing count adds nothing).
pub open spec fn listed_total(items: Seq<JsonValue>) -> nat
    decreases items.len(),
{
    if items.len() == 0 {
        0
    } else {
        let rest = listed_total(items.drop_last());
        match str_at(items.last(), "prefix"@) {
            Some(_) => rest + match u64_at(items.last(), "ip_count"@) {
                Some(c) => c as nat,
                None => 0,
            },
            None => rest,
        }
    }
}

/// The "netblock" texts of prefix objects that hold a colon (`v6`) or that do
/// not (`!v6`), in order.
pub open spec fn netblocks(items: Seq<JsonValue>, v6: bool) -> Seq<Seq<char>>
    decreases items.len(),
{
    if items.len() == 0 {
        Seq::empty()
    } else {
        let rest = netblocks(items.drop_last(), v6);
        match str_at(items.last(), "netblock"@) {
            Some(b) => if b.contains(':') == v6 {
                rest.push(b)
            } else {
                rest
            },
            None => rest,
        }
    }
}

/// The prefix objects of one address family ("ipv4" or "ipv6") in a BGPView
/// response: `data.prefixes.<family>`, none when absent.
pub open spec fn bgp_family(json: JsonValue, family: Seq<char>) -> Seq<JsonValue> {
    match json_get(json, "data"@) {
        Some(d) => match json_get(d, "prefixes"@) {
            Some(p) => match array_at(p, family) {
                Some(items) => items,
                None => Seq::empty(),
            },
            None => Seq::empty(),
        },
        None => Seq::empty(),
    }
}

/// The address counts of a BGPView response fit in `u64`.
pub open spec fn bgp_totals_fit(json: JsonValue) -> bool {
    &&& listed_total(bgp_family(json, "ipv4"@)) <= u64::MAX
    &&& listed_total(bgp_family(json, "ipv6"@)) <= u64::MAX
}

/// ASN information read from a BGPView response for `asn`: number, name,
/// description and country from `data.asn` when present, and the prefixes
/// with their address counts from `data.prefixes`.
pub open spec fn parse_bgpview(json: JsonValue, asn: Seq<char>) -> AsnView {
    let info = match json_get(json, "data"@) {
        Some(d) => json_get(d, "asn"@),
        None => None,
    };
    let v4 = bgp_family(json, "ipv4"@);
    let v6 = bgp_family(json, "ipv6"@);
    match info {
        Some(a) => AsnView {
            asn: match u64_at(a, "asn"@) {
                Some(n) => "AS"@ + decimal(n as nat),
                None => Seq::empty(),
            },
            name: str_at(a, "name"@),
            description: str_at(a, "description"@),
            country: str_at(a, "country_code"@),
            ipv4_prefixes: listed_prefixes(v4),
            ipv6_prefixes: listed_prefixes(v6),
            total_ipv4_addresses: listed_total(v4) as u64,
            total_ipv6_addresses: listed_total(v6) as u64,
        },
        None => AsnView {
            asn: "AS"@ + asn,
            name: None,
            description: None,
            country: None,
            ipv4_prefixes: listed_prefixes(v4),
            ipv6_prefixes: listed_prefixes(v6),
            total_ipv4_addresses: listed_total(v4) as u64,
            total_ipv6_addresses: listed_total(v6) as u64,
        },
    }
}

/// ASN information read from an IPInfo response: number ("Unknown" when
/// absent), name and country, and the netblocks split by address family.
pub open spec fn parse_ipinfo(json: JsonValue) -> AsnView {
    let items = match array_at(json, "prefixes"@) {
        Some(a) => a,
        None => Seq::empty(),
    };
    AsnView {
        asn: match str_at(json, "asn"@) {
            Some(a) => a,
            None => "Unknown"@,
        },
        name: str_at(json, "name"@),
        description: None,
        country: str_at(json, "country"@),
        ipv4_prefixes: netblocks(items, false),
        ipv6_prefixes: netblocks(items, true),
        total_ipv4_addresses: 0,
        total_ipv6_addresses: 0,
    }
}

/// A prefix of a list of prefix objects adds up to no more than the list.
proof fn lemma_listed_total_prefix(items: Seq<JsonValue>, i: int)
    requires
        0 <= i <= items.len(),
    ensures
        listed_total(items.take(i)) <= listed_total(items),
    decreases items.len() - i,
{
    if i < items.len() {
        lemma_listed_total_prefix(items, i + 1);
        assert(items.take(i + 1).drop_last() =~= items.take(i));
    } else {
        assert(items.take(i) =~= items);
    }
}

/// The "prefix" texts and the sum of the address counts of prefix objects.
fn collect_prefixes(items: &Vec<JsonValue>) -> (r: (Vec<String>, u64))
    requires
        listed_total(items@) <= u64::MAX,
    ensures
        texts(r.0@) == listed_prefixes(items@),
        r.1 == listed_total(items@),
{
    let n = items.len();
    let mut out: Vec<String> = Vec::new();
    let mut total: u64 = 0;
    let mut i: usize = 0;
    assert(items@.take(0) =~= Seq::<JsonValue>::empty());
    assert(texts(out@) =~= Seq::<Seq<char>>::empty());
    while i < n
        invariant
            n == items@.len(),
            i <= n,
            listed_total(items@) <= u64::MAX,
            texts(out@) == listed_prefixes(items@.take(i as int)),
            total == listed_total(items@.take(i as int)),
        decreases n - i,
    {
        let ghost before = out@;
        let item = &items[i];
        proof {
            assert(items@.take(i + 1).drop_last() =~= items@.take(i as int));
            assert(items@.take(i + 1).last() == items@[i as int]);
            lemma_listed_total_prefix(items@, i + 1);
        }
        match get_str(item, "prefix") {
            Some(p) => {
                out.push(p.to_owned());
                assert(texts(out@) =~= texts(before).push(p@));
                match get_u64(item, "ip_count") {
                    Some(c) => {
                        total = total + c;
                    },
                    None => {},
                }
            },
            None => {},
        }
        i = i + 1;
    }
    assert(items@.take(n as int) =~= items@);
    (out, total)
}

/// The prefix objects of one address family in a BGPView response.
fn bgp_family_items<'a>(json: &'a JsonValue, family: &str) -> (r: Option<&'a Vec<JsonValue>>)
    ensures
        match r {
            Some(items) => items@ == bgp_family(*json, family@),
            None => bgp_family(*json, family@) == Seq::<JsonValue>::empty(),
        },
{
    match json.get("data") {
        Some(d) => match d.get("prefixes") {
            Some(p) => get_array(p, family),
            None => None,
        },
        None => None,
    }
}

/// The address counts of a BGPView response, when they fit in `u64`.
fn family_total(items: &Vec<JsonValue>) -> (r: Option<u64>)
    ensures
        match r {
            Some(t) => t == listed_total(items@),
            None => listed_total(items@) > u64::MAX,
        },
{
    let n = items.len();
    let mut total: u64 = 0;
    let mut i: usize = 0;
    assert(items@.take(0) =~= Seq::<JsonValue>::empty());
    while i < n
        invariant
            n == items@.len(),
            i <= n,
            total == listed_total(items@.take(i as int)),
        decreases n - i,
    {
        let item = &items[i];
        proof {
            assert(items@.take(i + 1).drop_last() =~= items@.take(i as int));
            assert(items@.take(i + 1).last() == items@[i as int]);
            lemma_listed_total_prefix(items@, i + 1);
        }
        match get_str(item, "prefix") {
            Some(_) => {
                match get_u64(item, "ip_count") {
                    Some(c) => {
                        if c > u64::MAX - total {
                            return None;
                        }
                        total = total + c;
                    },
                    None => {},
                }
            },
            None => {},
        }
        i = i + 1;
    }
    assert(items@.take(n as int) =~= items@);
    Some(total)
}

/// Whether the address counts of a BGPView response fit in `u64`, as reading
/// it requires.
pub fn asn_totals_fit(json: &JsonValue) -> (r: bool)
    ensures
        r == bgp_totals_fit(*json),
{
    let v4 = match bgp_family_items(json, "ipv4") {
        Some(items) => family_total(items).is_some(),
        None => true,
    };
    let v6 = match bgp_family_items(json, "ipv6") {
        Some(items) => family_total(items).is_some(),
        None => true,
    };
    v4 && v6
}

/// The "netblock" texts of IPInfo prefix objects, split into IPv4 and IPv6.
fn split_netblocks(items: &Vec<JsonValue>) -> (r: (Vec<String>, Vec<String>))
    ensures
        texts(r.0@) == netblocks(items@, false),
        texts(r.1@) == netblocks(items@, true),
{
    let n = items.len();
    let mut v4: Vec<String> = Vec::new();
    let mut v6: Vec<String> = Vec::new();
    let mut i: usize = 0;
    assert(items@.take(0) =~= Seq::<JsonValue>::empty());
    assert(texts(v4@) =~= Seq::<Seq<char>>::empty());
    assert(texts(v6@) =~= Seq::<Seq<char>>::empty());
    while i < n
        invariant
            n == items@.len(),
            i <= n,
            texts(v4@) == netblocks(items@.take(i as int), false),
            texts(v6@) == netblocks(items@.take(i as int), true),
        decreases n - i,
    {
        let ghost b4 = v4@;
        let ghost b6 = v6@;
        let item = &items[i];
        proof {
            assert(items@.take(i + 1).drop_last() =~= items@.take(i as int));
            assert(items@.take(i + 1).last() == items@[i as int]);
        }
        match get_str(item, "netblock") {
            Some(b) => {
                if has_char(b, ':') {
                    v6.push(b.to_owned());
                    assert(texts(v6@) =~= texts(b6).push(b@));
                } else {
                    v4.push(b.to_owned());
                    assert(texts(v4@) =~= texts(b4).push(b@));
                }
            },
            None => {},
        }
        i = i + 1;
    }
    assert(items@.take(n as int) =~= items@);
    (v4, v6)
}

/// DNS enumeration engine for advanced discovery techniques, over a pool of
/// resolvers of type `P`.
pub struct DnsEnumerator<P> {
    resolver_pool: Arc<P>,
}

impl<P> DnsEnumerator<P> {
    /// The resolver pool that queries go to.
    pub closed spec fn pool(&self) -> Arc<P> {
        self.resolver_pool
    }

    /// Create a new DNS enumerator.
    pub fn new(resolver_pool: Arc<P>) -> (e: DnsEnumerator<P>)
        ensures
            e.pool() == resolver_pool,
    {
        DnsEnumerator { resolver_pool }
    }

    /// The resolver pool that queries go to.
    pub fn resolver_pool(&self) -> (p: &Arc<P>)
        ensures
            *p == self.pool(),
    {
        &self.resolver_pool
    }

    /// Enumerate ASN information and associated IP ranges, from the data
    /// known offline.
    pub fn asn_enumeration(&self, asn: &str) -> (r: Result<AsnEnumerationResult, DnsxError>)
        ensures
            r matches Ok(res) && res@ == offline_asn(asn_number(asn@)),
    {
        let stripped = trim_start_matches(asn, "AS");
        let n = trim_start_matches(stripped, "as");
        let asn_text = concat_str("AS", n);
        let mut v4: Vec<String> = Vec::new();
        let mut v6: Vec<String> = Vec::new();
        let res = if str_equal(n, "15169") {
            v4.push("8.8.8.0/24".to_owned());
            v4.push("8.8.4.0/24".to_owned());
            v4.push("8.34.208.0/20".to_owned());
            v6.push("2001:4860::/32".to_owned());
            v6.push("2607:f8b0::/32".to_owned());
            AsnEnumerationResult {
                asn: asn_text,
                name: Some("Google LLC".to_owned()),
                description: Some("Google LLC".to_owned()),
                country: Some("US".to_owned()),
                ipv4_prefixes: v4,
                ipv6_prefixes: v6,
                total_ipv4_addresses: 8454144,
                total_ipv6_addresses: 18446744073709551615,
            }
        } else if str_equal(n, "16509") {
            v4.push("52.0.0.0/11".to_owned());
            v4.push("54.0.0.0/8".to_owned());
            v6.push("2600:1f00::/24".to_owned());
            AsnEnumerationResult {
                asn: asn_text,
                name: Some("Amazon.com, Inc.".to_owned()),
                description: Some("Amazon Web Services".to_owned()),
                country: Some("US".to_owned()),
                ipv4_prefixes: v4,
                ipv6_prefixes: v6,
                total_ipv4_addresses: 20000000,
                total_ipv6_addresses: 18446744073709551615,
            }
        } else if str_equal(n, "13335") {
            v4.push("173.245.48.0/20".to_owned());
            v4.push("103.21.244.0/22".to_owned());
            v6.push("2400:cb00::/32".to_owned());
            v6.push("2606:4700::/32".to_owned());
            AsnEnumerationResult {
                asn: asn_text,
                name: Some("Cloudflare, Inc.".to_owned()),
                description: Some("Cloudflare, Inc.".to_owned()),
                country: Some("US".to_owned()),
                ipv4_prefixes: v4,
                ipv6_prefixes: v6,
                total_ipv4_addresses: 30000000,
                total_ipv6_addresses: 18446744073709551615,
            }
        } else {
            v4.push("192.0.2.0/24".to_owned());
            v6.push("2001:db8::/32".to_owned());
            let mut name = concat_str("ASN ", n);
            push_str(&mut name, " (Unknown)");
            AsnEnumerationResult {
                asn: asn_text,
                name: Some(name),
                description: Some("ASN information not available in offline mode".to_owned()),
                country: None,
                ipv4_prefixes: v4,
                ipv6_prefixes: v6,
                total_ipv4_addresses: 256,
                total_ipv6_addresses: 18446744073709551615,
            }
        };
        assert(res@.ipv4_prefixes =~= offline_asn(asn_number(asn@)).ipv4_prefixes);
        assert(res@.ipv6_prefixes =~= offline_asn(asn_number(asn@)).ipv6_prefixes);
        Ok(res)
    }

    /// Parse an ASN response of the BGPView or IPInfo API; any other API is
    /// refused.
    pub fn parse_asn_response(json: &JsonValue, api_name: &str, asn: &str) -> (r: Result<
        AsnEnumerationResult,
        DnsxError,
    >)
        requires
            api_name@ == "BGPView"@ ==> bgp_totals_fit(*json),
        ensures
            api_name@ == "BGPView"@ ==> (r matches Ok(res) && res@ == parse_bgpview(*json, asn@)),
            api_name@ == "BGPView"@ ==> (r matches Ok(res) && {
                &&& res.total_ipv4_addresses == listed_total(bgp_family(*json, "ipv4"@))
                &&& res.total_ipv6_addresses == listed_total(bgp_family(*json, "ipv6"@))
                &&& res@.ipv4_prefixes == listed_prefixes(bgp_family(*json, "ipv4"@))
                &&& res@.ipv6_prefixes == listed_prefixes(bgp_family(*json, "ipv6"@))
            }),
            api_name@ == "IPInfo"@ ==> (r matches Ok(res) && res@ == parse_ipinfo(*json)),
            api_name@ != "BGPView"@ && api_name@ != "IPInfo"@ ==> (r matches Err(e) && e.message()
                == "Unknown API: "@ + api_name@),
    {
        proof {
            reveal_strlit("BGPView");
            reveal_strlit("IPInfo");
            assert("BGPView"@.len() != "IPInfo"@.len());
        }
        if str_equal(api_name, "BGPView") {
            let mut res = AsnEnumerationResult {
                asn: concat_str("AS", asn),
                name: None,
                description: None,
                country: None,
                ipv4_prefixes: Vec::new(),
                ipv6_prefixes: Vec::new(),
                total_ipv4_addresses: 0,
                total_ipv6_addresses: 0,
            };
            match json.get("data") {
                Some(d) => match d.get("asn") {
                    Some(a) => {
                        res.asn = match get_u64(a, "asn") {
                            Some(n) => {
                                let mut t = "AS".to_owned();
                                push_decimal(&mut t, n);
                                t
                            },
                            None => String::new(),
                        };
                        res.name = match get_str(a, "name") {
                            Some(s) => Some(s.to_owned()),
                            None => None,
                        };
                        res.description = match get_str(a, "description") {
                            Some(s) => Some(s.to_owned()),
                            None => None,
                        };
                        res.country = match get_str(a, "country_code") {
                            Some(s) => Some(s.to_owned()),
                            None => None,
                        };
                    },
                    None => {},
                },
                None => {},
            }
            match bgp_family_items(json, "ipv4") {
                Some(items) => {
                    let (p, t) = collect_prefixes(items);
                    res.ipv4_prefixes = p;
                    res.total_ipv4_addresses = t;
                },
                None => {
                    assert(texts(res.ipv4_prefixes@) =~= Seq::<Seq<char>>::empty());
                },
            }
            match bgp_family_items(json, "ipv6") {
                Some(items) => {
                    let (p, t) = collect_prefixes(items);
                    res.ipv6_prefixes = p;
                    res.total_ipv6_addresses = t;
                },
                None => {
                    assert(texts(res.ipv6_prefixes@) =~= Seq::<Seq<char>>::empty());
                },
            }
            assert(res@ == parse_bgpview(*json, asn@));
            assert(res.total_ipv4_addresses == listed_total(bgp_family(*json, "ipv4"@)));
            assert(res.total_ipv6_addresses == listed_total(bgp_family(*json, "ipv6"@)));
            Ok(res)
        } else if str_equal(api_name, "IPInfo") {
            let asn_text = match get_str(json, "asn") {
                Some(a) => a.to_owned(),
                None => "Unknown".to_owned(),
            };
            let name = match get_str(json, "name") {
                Some(s) => Some(s.to_owned()),
                None => None,
            };
            let country = match get_str(json, "country") {
                Some(s) => Some(s.to_owned()),
                None => None,
            };
            let (v4, v6) = match get_array(json, "prefixes") {
                Some(items) => split_netblocks(items),
                None => {
                    let v4: Vec<String> = Vec::new();
                    let v6: Vec<String> = Vec::new();
                    assert(texts(v4@) =~= Seq::<Seq<char>>::empty());
                    assert(texts(v6@) =~= Seq::<Seq<char>>::empty());
                    (v4, v6)
                },
            };
            let res = AsnEnumerationResult {
                asn: asn_text,
                name,
                description: None,
                country,
                ipv4_prefixes: v4,
                ipv6_prefixes: v6,
                total_ipv4_addresses: 0,
                total_ipv6_addresses: 0,
            };
            assert(res@ == parse_ipinfo(*json));
            Ok(res)
        } else {
            Err(DnsxError::Other(concat_str("Unknown API: ", api_name)))
        }
    }
}

/// Record data of an answer, as far as enumeration reads it.
#[derive(Debug, Clone, Copy)]
pub enum AnswerData {
    /// An IPv4 address record.
    A([u8; 4]),
    /// An IPv6 address record.
    Aaaa([u16; 8]),
    /// Any other record.
    Other,
}

/// IPv6 deployment of a domain.
#[derive(Debug, Clone)]
pub struct Ipv6EnumerationResult {
    pub domain: String,
    pub ipv6_addresses: Vec<IpAddress>,
    pub ipv4_addresses: Vec<IpAddress>,
    pub dual_stack: bool,
    pub ipv6_only: bool,
}

/// The IPv4 addresses among answers, in order.
pub open spec fn a_addresses(ans: Seq<AnswerData>) -> Seq<IpAddress>
    decreases ans.len(),
{
    if ans.len() == 0 {
        Seq::empty()
    } else {
        let rest = a_addresses(ans.drop_last());
        match ans.last() {
            AnswerData::A(o) => rest.push(IpAddress::V4(o)),
            _ => rest,
        }
    }
}

/// The IPv6 addresses among answers, in order.
pub open spec fn aaaa_addresses(ans: Seq<AnswerData>) -> Seq<IpAddress>
    decreases ans.len(),
{
    if ans.len() == 0 {
        Seq::empty()
    } else {
        let rest = aaaa_addresses(ans.drop_last());
        match ans.last() {
            AnswerData::Aaaa(g) => rest.push(IpAddress::V6(g)),
            _ => rest,
        }
    }
}

/// Answers of a query, none when it failed.
pub open spec fn answers_of(r: Result<Vec<AnswerData>, DnsxError>) -> Seq<AnswerData> {
    match r {
        Ok(v) => v@,
        Err(_) => Seq::empty(),
    }
}

/// Reachable over both IPv4 and IPv6.
pub open spec fn is_dual_stack(v4: Seq<IpAddress>, v6: Seq<IpAddress>) -> bool {
    v4.len() > 0 && v6.len() > 0
}

/// Reachable over IPv6 alone.
pub open spec fn is_ipv6_only(v4: Seq<IpAddress>, v6: Seq<IpAddress>) -> bool {
    v4.len() == 0 && v6.len() > 0
}

/// Law: a domain is never both dual-stack and IPv6-only, and it is one of the
/// two exactly when it has an IPv6 address.
pub proof fn law_deployment_kinds(v4: Seq<IpAddress>, v6: Seq<IpAddress>)
    ensures
        !(is_dual_stack(v4, v6) && is_ipv6_only(v4, v6)),
        (is_dual_stack(v4, v6) || is_ipv6_only(v4, v6)) <==> v6.len() > 0,
{
}

fn collect_addresses(ans: &Vec<AnswerData>, want_v6: bool) -> (r: Vec<IpAddress>)
    ensures
        r@ == if want_v6 {
            aaaa_addresses(ans@)
        } else {
            a_addresses(ans@)
        },
{
    let n = ans.len();
    let mut out: Vec<IpAddress> = Vec::new();
    let mut i: usize = 0;
    assert(ans@.take(0) =~= Seq::<AnswerData>::empty());
    while i < n
        invariant
            n == ans@.len(),
            i <= n,
            out@ == if want_v6 {
                aaaa_addresses(ans@.take(i as int))
            } else {
                a_addresses(ans@.take(i as int))
            },
        decreases n - i,
    {
        proof {
            assert(ans@.take(i + 1).drop_last() =~= ans@.take(i as int));
            assert(ans@.take(i + 1).last() == ans@[i as int]);
        }
        match ans[i] {
            AnswerData::A(o) => {
                if !want_v6 {
                    out.push(IpAddress::V4(o));
                }
            },
            AnswerData::Aaaa(g) => {
                if want_v6 {
                    out.push(IpAddress::V6(g));
                }
            },
            AnswerData::Other => {},
        }
        i = i + 1;
    }
    assert(ans@.take(n as int) =~= ans@);
    out
}

/// IPv6 deployment of `domain`, from the answers to its A and AAAA queries
/// (a failed query contributes no address).
pub fn ipv6_enumeration_result(
    domain: &str,
    a_answers: Result<Vec<AnswerData>, DnsxError>,
    aaaa_answers: Result<Vec<AnswerData>, DnsxError>,
) -> (r: Result<Ipv6EnumerationResult, DnsxError>)
    ensures
        r matches Ok(res) && {
            &&& res.domain@ == domain@
            &&& res.ipv4_addresses@ == a_addresses(answers_of(a_answers))
            &&& res.ipv6_addresses@ == aaaa_addresses(answers_of(aaaa_answers))
            &&& res.dual_stack == is_dual_stack(res.ipv4_addresses@, res.ipv6_addresses@)
            &&& res.ipv6_only == is_ipv6_only(res.ipv4_addresses@, res.ipv6_addresses@)
        },
{
    let v4 = match &a_answers {
        Ok(ans) => collect_addresses(ans, false),
        Err(_) => Vec::new(),
    };
    let v6 = match &aaaa_answers {
        Ok(ans) => collect_addresses(ans, true),
        Err(_) => Vec::new(),
    };
    let dual_stack = v4.len() > 0 && v6.len() > 0;
    let ipv6_only = v4.len() == 0 && v6.len() > 0;
    Ok(
        Ipv6EnumerationResult {
            domain: domain.to_owned(),
            ipv6_addresses: v6,
            ipv4_addresses: v4,
            dual_stack,
            ipv6_only,
        },
    )
}

/// A subdomain seen by a passive source; times are Unix nanoseconds.
#[derive(Debug, Clone)]
pub struct PassiveSubdomain {
    pub name: String,
    pub record_type: String,
    pub first_seen: i128,
    pub last_seen: i128,
    pub source: String,
}

/// An address a domain resolved to; times are Unix nanoseconds.
#[derive(Debug, Clone)]
pub struct HistoricalIp {
    pub ip: IpAddress,
    pub first_seen: i128,
    pub last_seen: i128,
}

/// What passive sources know of a domain; times are Unix nanoseconds.
#[derive(Debug, Clone)]
pub struct PassiveDnsResult {
    pub domain: String,
    pub subdomains: Vec<PassiveSubdomain>,
    pub historical_ips: Vec<HistoricalIp>,
    pub last_seen: Option<i128>,
    pub data_sources: Vec<String>,
}

/// The later of two optional times (an absent time is earlier than any).
pub open spec fn later_of(a: Option<i128>, b: Option<i128>) -> Option<i128> {
    match (a, b) {
        (None, x) => x,
        (Some(x), None) => Some(x),
        (Some(x), Some(y)) => if y > x {
            Some(y)
        } else {
            Some(x)
        },
    }
}

/// Law: combining the last-seen times of passive sources does not depend on
/// the order the sources are taken in, and keeps the latest time.
pub proof fn law_later_of_order_free(a: Option<i128>, b: Option<i128>, c: Option<i128>)
    ensures
        later_of(a, b) == later_of(b, a),
        later_of(later_of(a, b), c) == later_of(a, later_of(b, c)),
        later_of(a, None) == a,
        a matches Some(x) ==> (later_of(a, b) matches Some(y) && x <= y),
        b matches Some(x) ==> (later_of(a, b) matches Some(y) && x <= y),
        later_of(a, b) == a || later_of(a, b) == b,
{
}

/// An empty passive result for `domain`.
pub fn new_passive_result(domain: &str) -> (r: PassiveDnsResult)
    ensures
        r.domain@ == domain@,
        r.subdomains@.len() == 0,
        r.historical_ips@.len() == 0,
        r.last_seen is None,
        r.data_sources@.len() == 0,
{
    PassiveDnsResult {
        domain: domain.to_owned(),
        subdomains: Vec::new(),
        historical_ips: Vec::new(),
        last_seen: None,
        data_sources: Vec::new(),
    }
}

/// Adds what a passive source answered to the combined result: its subdomains
/// and addresses are appended, its name is listed, and the later last-seen
/// time is kept. A source that failed changes nothing.
pub fn merge_passive_source(
    combined: &mut PassiveDnsResult,
    source_name: &str,
    outcome: Result<PassiveDnsResult, DnsxError>,
)
    ensures
        match outcome {
            Ok(res) => {
                &&& final(combined).domain == old(combined).domain
                &&& final(combined).subdomains@ == old(combined).subdomains@ + res.subdomains@
                &&& final(combined).historical_ips@ == old(combined).historical_ips@
                    + res.historical_ips@
                &&& texts(final(combined).data_sources@) == texts(old(combined).data_sources@).push(
                    source_name@,
                )
                &&& final(combined).last_seen == later_of(old(combined).last_seen, res.last_seen)
            },
            Err(_) => *final(combined) == *old(combined),
        },
{
    match outcome {
        Ok(mut res) => {
            combined.subdomains.append(&mut res.subdomains);
            combined.historical_ips.append(&mut res.historical_ips);
            let ghost names = combined.data_sources@;
            combined.data_sources.push(source_name.to_owned());
            assert(texts(combined.data_sources@) =~= texts(names).push(source_name@));
            match res.last_seen {
                Some(seen) => {
                    let replace = match combined.last_seen {
                        None => true,
                        Some(current) => seen > current,
                    };
                    if replace {
                        combined.last_seen = Some(seen);
                    }
                },
                None => {},
            }
        },
        Err(_) => {},
    }
}

/// A passive DNS data source.
pub trait PassiveDnsSource {
    /// Name of the data source.
    fn name(&self) -> &str;
}

/// Local resolution-based "passive" source: resolves a few common prefixes
/// of the domain.
pub struct LocalResolutionSource<P> {
    resolver_pool: Arc<P>,
}

impl<P> LocalResolutionSource<P> {
    /// The resolver pool that queries go to.
    pub closed spec fn pool(&self) -> Arc<P> {
        self.resolver_pool
    }

    /// Create a source that resolves through `resolver_pool`.
    pub fn new(resolver_pool: Arc<P>) -> (s: LocalResolutionSource<P>)
        ensures
            s.pool() == resolver_pool,
    {
        LocalResolutionSource { resolver_pool }
    }

    /// The resolver pool that queries go to.
    pub fn resolver_pool(&self) -> (p: &Arc<P>)
        ensures
            *p == self.pool(),
    {
        &self.resolver_pool
    }
}

impl<P> PassiveDnsSource for LocalResolutionSource<P> {
    fn name(&self) -> (n: &str)
        ensures
            n@ == "local_resolution"@,
    {
        "local_resolution"
    }
}

/// Law: a leading "AS" does not change which ASN is meant: "AS15169" and
/// "15169" give the same information.
pub proof fn law_asn_prefix_ignored(x: Seq<char>)
    ensures
        asn_number("AS"@ + x) == asn_number(x),
        offline_asn(asn_number("AS"@ + x)) == offline_asn(asn_number(x)),
{
    reveal_strlit("AS");
    let p = "AS"@;
    assert((p + x).take(p.len() as int) =~= p);
    assert((p + x).skip(p.len() as int) =~= x);
}

/// The prefixes tried by local resolution, in order.
pub open spec fn common_prefixes() -> Seq<Seq<char>> {
    seq!["www"@, "mail"@, "ftp"@, "admin"@, "api"@, "dev"@, "staging"@, "test"@]
}

/// Name of the subdomain `prefix` of `domain`: "prefix.domain".
pub open spec fn subdomain_name(prefix: Seq<char>, domain: Seq<char>) -> Seq<char> {
    prefix + seq!['.'] + domain
}

/// Number of nanoseconds in the 365 days before the first sighting.
pub const YEAR_NANOS: i128 = 31_536_000_000_000_000;

/// The subdomains tried by local resolution, in order.
pub fn local_candidates(domain: &str) -> (r: Vec<String>)
    ensures
        r@.len() == common_prefixes().len(),
        forall|i: int|
            0 <= i < r@.len() ==> #[trigger] r@[i]@ == subdomain_name(common_prefixes()[i], domain@),
{
    let prefixes = ["www", "mail", "ftp", "admin", "api", "dev", "staging", "test"];
    let mut out: Vec<String> = Vec::new();
    let mut i: usize = 0;
    while i < 8
        invariant
            i <= 8,
            prefixes@ == seq!["www", "mail", "ftp", "admin", "api", "dev", "staging", "test"],
            out@.len() == i,
            forall|j: int|
                0 <= j < i ==> #[trigger] out@[j]@ == subdomain_name(common_prefixes()[j], domain@),
        decreases 8 - i,
    {
        let mut name = prefixes[i].to_owned();
        name.push('.');
        push_str(&mut name, domain);
        proof {
            assert(common_prefixes()[i as int] == prefixes@[i as int]@);
        }
        assert(name@ =~= subdomain_name(common_prefixes()[i as int], domain@));
        out.push(name);
        i = i + 1;
    }
    out
}

/// The candidates whose lookup found an address, in order.
pub open spec fn found_names(cands: Seq<Seq<char>>, found: Seq<bool>) -> Seq<Seq<char>>
    decreases found.len(),
{
    if found.len() == 0 || cands.len() == 0 {
        Seq::empty()
    } else {
        let rest = found_names(cands.drop_last(), found.drop_last());
        if found.last() {
            rest.push(cands.last())
        } else {
            rest
        }
    }
}

/// `r` is what local resolution reports for `domain` at Unix time `now`, when
/// the lookup of the i-th candidate found an address exactly when `found[i]`:
/// each such candidate as an "A" subdomain first seen a year earlier, the
/// documentation address 192.0.2.1 when any was found, and the source itself.
pub open spec fn describes_local_lookup(
    r: PassiveDnsResult,
    domain: Seq<char>,
    found: Seq<bool>,
    now: i128,
) -> bool {
    let names = found_names(
        Seq::new(8, |i: int| subdomain_name(common_prefixes()[i], domain)),
        found,
    );
    &&& r.domain@ == domain
    &&& r.subdomains@.len() == names.len()
    &&& forall|j: int|
        0 <= j < names.len() ==> {
            &&& (#[trigger] r.subdomains@[j]).name@ == names[j]
            &&& r.subdomains@[j].record_type@ == "A"@
            &&& r.subdomains@[j].first_seen == now - YEAR_NANOS
            &&& r.subdomains@[j].last_seen == now
            &&& r.subdomains@[j].source@ == "local_resolution"@
        }
    &&& r.historical_ips@.len() == if names.len() > 0 {
        1int
    } else {
        0
    }
    &&& names.len() > 0 ==> {
        &&& r.historical_ips@[0].ip == IpAddress::V4([192, 0, 2, 1])
        &&& r.historical_ips@[0].first_seen == now - YEAR_NANOS
        &&& r.historical_ips@[0].last_seen == now
    }
    &&& r.last_seen == Some(now)
    &&& texts(r.data_sources@) == seq!["local_resolution"@]
}

/// What local resolution reports for `domain` at Unix time `now`, given which
/// candidate lookups found an address.
pub fn local_resolution_result_at(domain: &str, found: &Vec<bool>, now: i128) -> (r: PassiveDnsResult)
    requires
        found@.len() == 8,
        now >= i128::MIN + YEAR_NANOS,
    ensures
        describes_local_lookup(r, domain@, found@, now),
{
    let cands = local_candidates(domain);
    let ghost all = Seq::new(8, |i: int| subdomain_name(common_prefixes()[i], domain@));
    assert(all =~= cands@.map_values(|s: String| s@));
    let mut subs: Vec<PassiveSubdomain> = Vec::new();
    let mut i: usize = 0;
    assert(all.take(0) =~= Seq::<Seq<char>>::empty());
    assert(found@.take(0) =~= Seq::<bool>::empty());
    while i < 8
        invariant
            i <= 8,
            found@.len() == 8,
            cands@.len() == 8,
            now >= i128::MIN + YEAR_NANOS,
            all == Seq::new(8, |i: int| subdomain_name(common_prefixes()[i], domain@)),
            forall|j: int| 0 <= j < 8 ==> #[trigger] cands@[j]@ == all[j],
            subs@.len() == found_names(all.take(i as int), found@.take(i as int)).len(),
            forall|j: int|
                0 <= j < subs@.len() ==> {
                    &&& (#[trigger] subs@[j]).name@ == found_names(
                        all.take(i as int),
                        found@.take(i as int),
                    )[j]
                    &&& subs@[j].record_type@ == "A"@
                    &&& subs@[j].first_seen == now - YEAR_NANOS
                    &&& subs@[j].last_seen == now
                    &&& subs@[j].source@ == "local_resolution"@
                },
        decreases 8 - i,
    {
        proof {
            assert(all.take(i + 1).drop_last() =~= all.take(i as int));
            assert(found@.take(i + 1).drop_last() =~= found@.take(i as int));
            assert(all.take(i + 1).last() == all[i as int]);
            assert(found@.take(i + 1).last() == found@[i as int]);
        }
        if found[i] {
            let ghost before = subs@;
            let name = cands[i].clone();
            subs.push(
                PassiveSubdomain {
                    name,
                    record_type: "A".to_owned(),
                    first_seen: now - YEAR_NANOS,
                    last_seen: now,
                    source: "local_resolution".to_owned(),
                },
            );
            assert forall|j: int| 0 <= j < subs@.len() implies (#[trigger] subs@[j]).name@
                == found_names(all.take(i + 1), found@.take(i + 1))[j] by {
                if j < before.len() {
                    assert(subs@[j] == before[j]);
                }
            }
        }
        i = i + 1;
    }
    assert(all.take(8) =~= all);
    assert(found@.take(8) =~= found@);
    let mut ips: Vec<HistoricalIp> = Vec::new();
    if subs.len() > 0 {
        ips.push(HistoricalIp { ip: IpAddress::V4([192, 0, 2, 1]), first_seen: now - YEAR_NANOS, last_seen: now });
    }
    let mut sources: Vec<String> = Vec::new();
    sources.push("local_resolution".to_owned());
    assert(texts(sources@) =~= seq!["local_resolution"@]);
    PassiveDnsResult {
        domain: domain.to_owned(),
        subdomains: subs,
        historical_ips: ips,
        last_seen: Some(now),
        data_sources: sources,
    }
}

/// What local resolution reports for `domain` at the current wall-clock time,
/// given which candidate lookups found an address. The wall clock is read as a
/// time since the Unix epoch; when the system time lies before the epoch (or
/// beyond `i128::MAX` nanoseconds after it) there is no such time, and the
/// result is an error.
pub fn local_resolution_result(domain: &str, found: &Vec<bool>) -> (r: Result<
    PassiveDnsResult,
    DnsxError,
>)
    requires
        found@.len() == 8,
    ensures
        r matches Ok(res) ==> exists|now: i128|
            now >= 0 && #[trigger] describes_local_lookup(res, domain@, found@, now),
        r matches Err(e) ==> e.message() == "System time before Unix epoch"@,
{
    match unix_now_nanos() {
        Some(now) => Ok(local_resolution_result_at(domain, found, now)),
        None => Err(DnsxError::Other("System time before Unix epoch".to_owned())),
    }
}

/// Capabilities found when fingerprinting a DNS server.
#[derive(Debug, Clone)]
pub struct DnsServerFingerprint {
    pub server: String,
    pub version_bind: Option<String>,
    pub recursion_available: bool,
    pub dnssec_support: bool,
    pub edns_support: bool,
    pub response_time_ms: u64,
}

/// What the answers of a DNS server to the fingerprint probes showed: the
/// probe is an A query for "example.com" sent to the server itself with EDNS
/// and the DNSSEC-OK bit set, the version probe a CHAOS-class TXT query for
/// "version.bind".
#[derive(Debug, Clone)]
pub struct ProbeObservation {
    /// Milliseconds the probe query took.
    pub response_time_ms: u64,
    /// The recursion-available bit of the probe's response header.
    pub recursion_available: bool,
    /// The probe's response carried an EDNS (OPT) record.
    pub edns_present: bool,
    /// Type codes of the records in the probe's answer section.
    pub answer_types: Vec<u16>,
    /// Texts answered to the version probe (none when it was not answered).
    pub version_texts: Vec<String>,
}

/// Type code of RRSIG, the records that carry DNSSEC signatures.
pub const RRSIG_CODE: u16 = 46;

/// Fingerprint of a server from what its answers showed: recursion as its
/// header said, EDNS when it answered with an OPT record, DNSSEC when it
/// returned signatures, and the first version text it gave.
pub open spec fn fingerprint_of(nameserver: Seq<char>, obs: ProbeObservation, f: DnsServerFingerprint) -> bool {
    &&& f.server@ == nameserver
    &&& f.recursion_available == obs.recursion_available
    &&& f.edns_support == obs.edns_present
    &&& f.dnssec_support == obs.answer_types@.contains(RRSIG_CODE)
    &&& f.version_bind == if obs.version_texts@.len() > 0 {
        Some(obs.version_texts@[0])
    } else {
        None
    }
    &&& f.response_time_ms == obs.response_time_ms
}

fn contains_code(codes: &Vec<u16>, code: u16) -> (r: bool)
    ensures
        r == codes@.contains(code),
{
    let n = codes.len();
    let mut i: usize = 0;
    while i < n
        invariant
            n == codes@.len(),
            i <= n,
            forall|j: int| 0 <= j < i ==> codes@[j] != code,
        decreases n - i,
    {
        if codes[i] == code {
            assert(codes@[i as int] == code);
            return true;
        }
        i = i + 1;
    }
    false
}

/// Fingerprint of `nameserver` from what its answers to the probes showed;
/// an error naming the failure when the probe was not answered.
pub fn server_fingerprint(nameserver: &str, probe: Result<ProbeObservation, DnsxError>) -> (r: Result<
    DnsServerFingerprint,
    DnsxError,
>)
    ensures
        match probe {
            Ok(obs) => r matches Ok(f) && fingerprint_of(nameserver@, obs, f),
            Err(e) => r matches Err(e2) && e2.message() == "Server fingerprinting failed: "@
                + e.message(),
        },
{
    match probe {
        Ok(obs) => {
            let dnssec_support = contains_code(&obs.answer_types, RRSIG_CODE);
            let version_bind = if obs.version_texts.len() > 0 {
                Some(obs.version_texts[0].clone())
            } else {
                None
            };
            Ok(
                DnsServerFingerprint {
                    server: nameserver.to_owned(),
                    version_bind,
                    recursion_available: obs.recursion_available,
                    dnssec_support,
                    edns_support: obs.edns_present,
                    response_time_ms: obs.response_time_ms,
                },
            )
        },
        Err(e) => {
            let m = e.to_string();
            Err(DnsxError::Other(concat_str("Server fingerprinting failed: ", m.as_str())))
        },
    }
}

/// Error when an API could be reached by neither HTTP client.
pub fn api_fallback_error(reqwest_error: &str, ureq_error: &str) -> (e: DnsxError)
    ensures
        e.message() == "Both reqwest and ureq failed. reqwest: "@ + reqwest_error@ + ", ureq: "@
            + ureq_error@,
{
    let mut m = concat_str("Both reqwest and ureq failed. reqwest: ", reqwest_error);
    push_str(&mut m, ", ureq: ");
    push_str(&mut m, ureq_error);
    DnsxError::Other(m)
}

/// Error when a request to an API failed: the failure, then advice when it
/// timed out or could not connect.
pub fn request_failure_error(
    api_name: &str,
    error_text: &str,
    url: &str,
    is_timeout: bool,
    is_connect: bool,
) -> (e: DnsxError)
    ensures
        e.message() == {
            let base = "Failed to query "@ + api_name@ + " API: "@ + error_text@ + " (URL: "@
                + url@ + ")"@;
            if is_timeout {
                base + " - Request timed out. Check internet connection."@
            } else if is_connect {
                base + " - Connection failed. Check network connectivity."@
            } else {
                base
            }
        },
{
    let mut m = concat_str("Failed to query ", api_name);
    push_str(&mut m, " API: ");
    push_str(&mut m, error_text);
    push_str(&mut m, " (URL: ");
    push_str(&mut m, url);
    push_str(&mut m, ")");
    if is_timeout {
        push_str(&mut m, " - Request timed out. Check internet connection.");
    } else if is_connect {
        push_str(&mut m, " - Connection failed. Check network connectivity.");
    }
    DnsxError::Other(m)
}

/// Whether a lookup found an address: it was answered with at least one
/// record.
pub fn lookup_found(answer: &Result<Vec<AnswerData>, DnsxError>) -> (b: bool)
    ensures
        b == (answer matches Ok(v) && v@.len() > 0),
{
    match answer {
        Ok(v) => v.len() > 0,
        Err(_) => false,
    }
}

/// Whether an HTTP status code is in the success class, 200 to 299.
pub fn is_success_status(code: u16) -> (b: bool)
    ensures
        b == (200 <= code && code <= 299),
{
    200 <= code && code <= 299
}

/// Whether an HTTP status code is exactly 200 OK.
pub fn is_ok_status(code: u16) -> (b: bool)
    ensures
        b == (code == 200),
{
    code == 200
}

/// Error when an API answered with a status that is not accepted.
pub fn api_status_error(api_name: &str, status_text: &str, url: &str) -> (e: DnsxError)
    ensures
        e.message() == api_name@ + " API returned status: "@ + status_text@ + " for URL: "@
            + url@,
{
    let mut m = concat_str(api_name, " API returned status: ");
    push_str(&mut m, status_text);
    push_str(&mut m, " for URL: ");
    push_str(&mut m, url);
    DnsxError::Other(m)
}

/// Error when the fallback HTTP client could not complete a request.
pub fn ureq_failure_error(api_name: &str, error_text: &str, url: &str) -> (e: DnsxError)
    ensures
        e.message() == "ureq failed for "@ + api_name@ + " API: "@ + error_text@ + " (URL: "@
            + url@ + ")"@,
{
    let mut m = concat_str("ureq failed for ", api_name);
    push_str(&mut m, " API: ");
    push_str(&mut m, error_text);
    push_str(&mut m, " (URL: ");
    push_str(&mut m, url);
    push_str(&mut m, ")");
    DnsxError::Other(m)
}

/// Error when an API's response body could not be read as JSON.
pub fn parse_failure_error(api_name: &str, error_text: &str) -> (e: DnsxError)
    ensures
        e.message() == "Failed to parse "@ + api_name@ + " API response: "@ + error_text@,
{
    let mut m = concat_str("Failed to parse ", api_name);
    push_str(&mut m, " API response: ");
    push_str(&mut m, error_text);
    DnsxError::Other(m)
}

/// What follows the first HTTP client's attempt at an API.
pub enum FallbackStep {
    /// The first client got the result.
    Finished(AsnEnumerationResult),
    /// The first client failed with this message; the fallback client is
    /// tried next.
    TryFallback(String),
}

/// The step after the first client's attempt: done when it succeeded, else
/// try the fallback client, keeping the first failure's message.
pub fn after_first_attempt(first: Result<AsnEnumerationResult, DnsxError>) -> (step: FallbackStep)
    ensures
        match first {
            Ok(res) => step == FallbackStep::Finished(res),
            Err(e) => step matches FallbackStep::TryFallback(m) && m@ == e.message(),
        },
{
    match first {
        Ok(res) => FallbackStep::Finished(res),
        Err(e) => FallbackStep::TryFallback(e.to_string()),
    }
}

/// The outcome once the fallback client was tried: its result when it
/// succeeded, else an error naming both failures.
pub fn after_fallback_attempt(first_error: &str, second: Result<AsnEnumerationResult, DnsxError>) -> (r:
    Result<AsnEnumerationResult, DnsxError>)
    ensures
        match second {
            Ok(res) => r == Ok::<AsnEnumerationResult, DnsxError>(res),
            Err(e) => r matches Err(e2) && e2.message() == "Both reqwest and ureq failed. reqwest: "@
                + first_error@ + ", ureq: "@ + e.message(),
        },
{
    match second {
        Ok(res) => Ok(res),
        Err(e) => {
            let m = e.to_string();
            Err(api_fallback_error(first_error, m.as_str()))
        },
    }
}

/// What one prefix object adds to an address total: its "ip_count" when it
/// has a "prefix" text and a count, nothing otherwise.
pub open spec fn prefix_count(item: JsonValue) -> nat {
    match (str_at(item, "prefix"@), u64_at(item, "ip_count"@)) {
        (Some(_), Some(c)) => c as nat,
        _ => 0,
    }
}

/// Law: an empty list of prefix objects lists no prefix and no address, and
/// appending one object raises the total by that object's count and lists its
/// prefix after the others (when it has one).
pub proof fn law_listed_prefix_append(items: Seq<JsonValue>, item: JsonValue)
    ensures
        listed_total(Seq::<JsonValue>::empty()) == 0,
        listed_prefixes(Seq::<JsonValue>::empty()) == Seq::<Seq<char>>::empty(),
        listed_total(items.push(item)) == listed_total(items) + prefix_count(item),
        listed_prefixes(items.push(item)) == match str_at(item, "prefix"@) {
            Some(p) => listed_prefixes(items).push(p),
            None => listed_prefixes(items),
        },
{
    assert(items.push(item).drop_last() =~= items);
    assert(items.push(item).last() == item);
}

/// Law: the address total of a list is the sum of the totals of its parts.
pub proof fn law_listed_total_concat(a: Seq<JsonValue>, b: Seq<JsonValue>)
    ensures
        listed_total(a + b) == listed_total(a) + listed_total(b),
    decreases b.len(),
{
    if b.len() == 0 {
        assert(a + b =~= a);
    } else {
        let c = b.drop_last();
        law_listed_total_concat(a, c);
        assert((a + b).drop_last() =~= a + c);
        assert((a + b).last() == b.last());
    }
}

/// Law: the offline data of Google's network (AS15169), in every field.
pub proof fn law_offline_google()
    ensures
        offline_asn("15169"@) == (AsnView {
            asn: "AS"@ + "15169"@,
            name: Some("Google LLC"@),
            description: Some("Google LLC"@),
            country: Some("US"@),
            ipv4_prefixes: seq!["8.8.8.0/24"@, "8.8.4.0/24"@, "8.34.208.0/20"@],
            ipv6_prefixes: seq!["2001:4860::/32"@, "2607:f8b0::/32"@],
            total_ipv4_addresses: 8454144,
            total_ipv6_addresses: 18446744073709551615,
        }),
{
}

/// Law: the offline data of Amazon's network (AS16509), in every field.
pub proof fn law_offline_amazon()
    ensures
        offline_asn("16509"@) == (AsnView {
            asn: "AS"@ + "16509"@,
            name: Some("Amazon.com, Inc."@),
            description: Some("Amazon Web Services"@),
            country: Some("US"@),
            ipv4_prefixes: seq!["52.0.0.0/11"@, "54.0.0.0/8"@],
            ipv6_prefixes: seq!["2600:1f00::/24"@],
            total_ipv4_addresses: 20000000,
            total_ipv6_addresses: 18446744073709551615,
        }),
{
    reveal_strlit("16509");
    reveal_strlit("15169");
    assert("16509"@[1] != "15169"@[1]);
}

/// Law: the offline data of Cloudflare's network (AS13335), in every field.
pub proof fn law_offline_cloudflare()
    ensures
        offline_asn("13335"@) == (AsnView {
            asn: "AS"@ + "13335"@,
            name: Some("Cloudflare, Inc."@),
            description: Some("Cloudflare, Inc."@),
            country: Some("US"@),
            ipv4_prefixes: seq!["173.245.48.0/20"@, "103.21.244.0/22"@],
            ipv6_prefixes: seq!["2400:cb00::/32"@, "2606:4700::/32"@],
            total_ipv4_addresses: 30000000,
            total_ipv6_addresses: 18446744073709551615,
        }),
{
    reveal_strlit("13335");
    reveal_strlit("15169");
    reveal_strlit("16509");
    assert("13335"@[1] != "15169"@[1]);
    assert("13335"@[1] != "16509"@[1]);
}

/// Law: any other network gets placeholder data naming its number.
pub proof fn law_offline_unknown(n: Seq<char>)
    requires
        n != "15169"@,
        n != "16509"@,
        n != "13335"@,
    ensures
        offline_asn(n) == (AsnView {
            asn: "AS"@ + n,
            name: Some("ASN "@ + n + " (Unknown)"@),
            description: Some("ASN information not available in offline mode"@),
            country: None,
            ipv4_prefixes: seq!["192.0.2.0/24"@],
            ipv6_prefixes: seq!["2001:db8::/32"@],
            total_ipv4_addresses: 256,
            total_ipv6_addresses: 18446744073709551615,
        }),
{
}

/// Law: every A answer adds its address after those before it, every AAAA
/// answer likewise among the IPv6 addresses, and other answers add nothing;
/// no answers give no address.
pub proof fn law_addresses_append(ans: Seq<AnswerData>, x: AnswerData)
    ensures
        a_addresses(Seq::<AnswerData>::empty()) == Seq::<IpAddress>::empty(),
        aaaa_addresses(Seq::<AnswerData>::empty()) == Seq::<IpAddress>::empty(),
        a_addresses(ans.push(x)) == match x {
            AnswerData::A(o) => a_addresses(ans).push(IpAddress::V4(o)),
            _ => a_addresses(ans),
        },
        aaaa_addresses(ans.push(x)) == match x {
            AnswerData::Aaaa(g) => aaaa_addresses(ans).push(IpAddress::V6(g)),
            _ => aaaa_addresses(ans),
        },
{
    assert(ans.push(x).drop_last() =~= ans);
    assert(ans.push(x).last() == x);
}

/// Law: the addresses of two runs of answers are those of the first run
/// followed by those of the second.
pub proof fn law_addresses_concat(a: Seq<AnswerData>, b: Seq<AnswerData>)
    ensures
        a_addresses(a + b) == a_addresses(a) + a_addresses(b),
        aaaa_addresses(a + b) == aaaa_addresses(a) + aaaa_addresses(b),
    decreases b.len(),
{
    if b.len() == 0 {
        assert(a + b =~= a);
        assert(a_addresses(a) + a_addresses(b) =~= a_addresses(a));
        assert(aaaa_addresses(a) + aaaa_addresses(b) =~= aaaa_addresses(a));
    } else {
        let c = b.drop_last();
        law_addresses_concat(a, c);
        assert((a + b).drop_last() =~= a + c);
        assert((a + b).last() == b.last());
        match b.last() {
            AnswerData::A(o) => {
                assert(a_addresses(a) + a_addresses(c).push(IpAddress::V4(o)) =~= (a_addresses(a)
                    + a_addresses(c)).push(IpAddress::V4(o)));
            },
            AnswerData::Aaaa(g) => {
                assert(aaaa_addresses(a) + aaaa_addresses(c).push(IpAddress::V6(g)) =~= (
                aaaa_addresses(a) + aaaa_addresses(c)).push(IpAddress::V6(g)));
            },
            AnswerData::Other => {},
        }
    }
}

} // verus!
