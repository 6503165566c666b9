//! Core logic of a DNS toolkit: record types and values, a TTL-aware
//! response cache, and the decision parts of the enumeration engine.

pub mod cache;
pub mod dns_records;
pub mod enumeration;
pub mod hickory;
pub mod ip;
pub mod json;
pub mod text;
pub mod time;
pub mod types;

pub use cache::{CacheKey, CacheStats, CachedDnsClient, CachedResponse, DnsCache};
pub use dns_records::DnsRecord;
pub use enumeration::{
    AnswerData, AsnEnumerationResult, DnsEnumerator, DnsServerFingerprint, HistoricalIp,
    Ipv6EnumerationResult, LocalResolutionSource, PassiveDnsResult, PassiveDnsSource,
    PassiveSubdomain, ProbeObservation,
};
pub use ip::IpAddress;
pub use json::JsonValue;
pub use time::{MonotonicClock, TimeSpan};
pub use types::{DnsRecordType, DnsxError, RecordValue, ResponseCode};
