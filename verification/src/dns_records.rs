//! DNS record structures.

use vstd::prelude::*;
use crate::text::push_str;
use crate::time::system_time_now;
use crate::types::{DnsRecordType, RecordValue, ResponseCode, record_value_text};

verus! {

/// One answer to a DNS query.
#[derive(Debug, PartialEq)]
pub struct DnsRecord {
    /// Domain name queried.
    pub domain: String,
    /// Record type.
    pub record_type: DnsRecordType,
    /// Record value.
    pub value: RecordValue,
    /// Time to live, in seconds.
    pub ttl: u32,
    /// Response code.
    pub response_code: ResponseCode,
    /// Resolver used.
    pub resolver: String,
    /// When the query was made.
    pub timestamp: std::time::SystemTime,
    /// How long the query took, in microseconds.
    pub query_time_us: u64,
}

impl Clone for DnsRecord {
    fn clone(&self) -> (r: Self)
        ensures
            r == *self,
    {
        DnsRecord {
            domain: self.domain.clone(),
            record_type: self.record_type,
            value: self.value.duplicate(),
            ttl: self.ttl,
            response_code: self.response_code,
            resolver: self.resolver.clone(),
            timestamp: self.timestamp,
            query_time_us: self.query_time_us,
        }
    }
}

/// Text of a record: "domain [value]".
pub open spec fn record_text(r: DnsRecord) -> Seq<char> {
    r.domain@ + seq![' ', '['] + record_value_text(r.value) + seq![']']
}

impl DnsRecord {
    /// A record stamped with the current wall-clock time.
    pub fn new(
        domain: String,
        record_type: DnsRecordType,
        value: RecordValue,
        ttl: u32,
        response_code: ResponseCode,
        resolver: String,
        query_time_us: u64,
    ) -> (r: DnsRecord)
        ensures
            r.domain == domain,
            r.record_type == record_type,
            r.value == value,
            r.ttl == ttl,
            r.response_code == response_code,
            r.resolver == resolver,
            r.query_time_us == query_time_us,
    {
        DnsRecord {
            domain,
            record_type,
            value,
            ttl,
            response_code,
            resolver,
            timestamp: system_time_now(),
            query_time_us,
        }
    }

    /// Text of the record: "domain [value]".
    pub fn to_string(&self) -> (s: String)
        ensures
            s@ == record_text(*self),
    {
        let mut s = self.domain.clone();
        s.push(' ');
        s.push('[');
        let v = self.value.to_string();
        push_str(&mut s, v.as_str());
        s.push(']');
        assert(s@ =~= record_text(*self));
        s
    }
}

} // verus!
