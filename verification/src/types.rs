//! DNS record types, response codes, record values and errors.

use vstd::prelude::*;
use crate::ip::{IpAddress, ip_text};
use crate::text::{decimal, push_decimal, push_str};
use crate::hickory::{hickory_record_type, hickory_from_code};

verus! {

/// DNS record types handled by the toolkit.
#[derive(Debug, Clone, Copy, PartialEq, Eq, Hash, Structural)]
pub enum DnsRecordType {
    A,
    Aaaa,
    Cname,
    Mx,
    Ns,
    Txt,
    Soa,
    Ptr,
    Srv,
    Caa,
    Dnskey,
    Ds,
    Any,
}

/// Mnemonic of a record type as written in zone files.
pub open spec fn record_type_name(t: DnsRecordType) -> Seq<char> {
    match t {
        DnsRecordType::A => "A"@,
        DnsRecordType::Aaaa => "AAAA"@,
        DnsRecordType::Cname => "CNAME"@,
        DnsRecordType::Mx => "MX"@,
        DnsRecordType::Ns => "NS"@,
        DnsRecordType::Txt => "TXT"@,
        DnsRecordType::Soa => "SOA"@,
        DnsRecordType::Ptr => "PTR"@,
        DnsRecordType::Srv => "SRV"@,
        DnsRecordType::Caa => "CAA"@,
        DnsRecordType::Dnskey => "DNSKEY"@,
        DnsRecordType::Ds => "DS"@,
        DnsRecordType::Any => "ANY"@,
    }
}

impl DnsRecordType {
    /// The record type's mnemonic ("A", "AAAA", ...).
    pub fn to_string(&self) -> (s: String)
        ensures
            s@ == record_type_name(*self),
    {
        match self {
            DnsRecordType::A => "A".to_owned(),
            DnsRecordType::Aaaa => "AAAA".to_owned(),
            DnsRecordType::Cname => "CNAME".to_owned(),
            DnsRecordType::Mx => "MX".to_owned(),
            DnsRecordType::Ns => "NS".to_owned(),
            DnsRecordType::Txt => "TXT".to_owned(),
            DnsRecordType::Soa => "SOA".to_owned(),
            DnsRecordType::Ptr => "PTR".to_owned(),
            DnsRecordType::Srv => "SRV".to_owned(),
            DnsRecordType::Caa => "CAA".to_owned(),
            DnsRecordType::Dnskey => "DNSKEY".to_owned(),
            DnsRecordType::Ds => "DS".to_owned(),
            DnsRecordType::Any => "ANY".to_owned(),
        }
    }
}

/// IANA code of a record type.
pub open spec fn record_type_code(t: DnsRecordType) -> u16 {
    match t {
        DnsRecordType::A => 1,
        DnsRecordType::Aaaa => 28,
        DnsRecordType::Cname => 5,
        DnsRecordType::Mx => 15,
        DnsRecordType::Ns => 2,
        DnsRecordType::Txt => 16,
        DnsRecordType::Soa => 6,
        DnsRecordType::Ptr => 12,
        DnsRecordType::Srv => 33,
        DnsRecordType::Caa => 257,
        DnsRecordType::Dnskey => 48,
        DnsRecordType::Ds => 43,
        DnsRecordType::Any => 255,
    }
}

/// Law: distinct record types have distinct codes, so converting by code
/// keeps them apart.
pub proof fn law_record_type_codes_distinct(a: DnsRecordType, b: DnsRecordType)
    ensures
        record_type_code(a) == record_type_code(b) ==> a == b,
{
}

impl DnsRecordType {
    /// IANA numeric code of the record type.
    pub fn code(&self) -> (c: u16)
        ensures
            c == record_type_code(*self),
    {
        match self {
            DnsRecordType::A => 1,
            DnsRecordType::Aaaa => 28,
            DnsRecordType::Cname => 5,
            DnsRecordType::Mx => 15,
            DnsRecordType::Ns => 2,
            DnsRecordType::Txt => 16,
            DnsRecordType::Soa => 6,
            DnsRecordType::Ptr => 12,
            DnsRecordType::Srv => 33,
            DnsRecordType::Caa => 257,
            DnsRecordType::Dnskey => 48,
            DnsRecordType::Ds => 43,
            DnsRecordType::Any => 255,
        }
    }

    /// The resolver library's record type with the same numeric code.
    pub fn to_hickory(&self) -> (r: hickory_resolver::proto::rr::RecordType)
        ensures
            r == hickory_record_type(record_type_code(*self)),
    {
        hickory_from_code(self.code())
    }
}

/// DNS response codes.
#[derive(Debug, Clone, Copy, PartialEq, Eq, Hash, Structural)]
pub enum ResponseCode {
    NoError,
    FormErr,
    ServFail,
    NxDomain,
    NotImp,
    Refused,
}

/// Upper-case mnemonic of a response code.
pub open spec fn response_code_name(c: ResponseCode) -> Seq<char> {
    match c {
        ResponseCode::NoError => "NOERROR"@,
        ResponseCode::FormErr => "FORMERR"@,
        ResponseCode::ServFail => "SERVFAIL"@,
        ResponseCode::NxDomain => "NXDOMAIN"@,
        ResponseCode::NotImp => "NOTIMP"@,
        ResponseCode::Refused => "REFUSED"@,
    }
}

impl ResponseCode {
    /// The response code's mnemonic ("NOERROR", "NXDOMAIN", ...).
    pub fn to_string(&self) -> (s: String)
        ensures
            s@ == response_code_name(*self),
    {
        match self {
            ResponseCode::NoError => "NOERROR".to_owned(),
            ResponseCode::FormErr => "FORMERR".to_owned(),
            ResponseCode::ServFail => "SERVFAIL".to_owned(),
            ResponseCode::NxDomain => "NXDOMAIN".to_owned(),
            ResponseCode::NotImp => "NOTIMP".to_owned(),
            ResponseCode::Refused => "REFUSED".to_owned(),
        }
    }
}

/// Data carried by a DNS record.
#[derive(Debug, Clone, PartialEq)]
pub enum RecordValue {
    /// An address (A, AAAA).
    Ip(IpAddress),
    /// A domain name (CNAME, NS, PTR, ...).
    Domain(String),
    /// Free text (TXT).
    Text(String),
    /// Certification authority authorization.
    Caa { flags: u8, tag: String, value: String },
    /// Any other data, already rendered as text.
    Other(String),
}

/// Text of a record value: the address, name or text itself, and
/// "flags tag value" for CAA.
pub open spec fn record_value_text(v: RecordValue) -> Seq<char> {
    match v {
        RecordValue::Ip(ip) => ip_text(ip),
        RecordValue::Domain(s) => s@,
        RecordValue::Text(s) => s@,
        RecordValue::Caa { flags, tag, value } => decimal(flags as nat) + seq![' '] + tag@ + seq![' ']
            + value@,
        RecordValue::Other(s) => s@,
    }
}

impl RecordValue {
    /// Text form of the value.
    pub fn to_string(&self) -> (s: String)
        ensures
            s@ == record_value_text(*self),
    {
        match self {
            RecordValue::Ip(ip) => ip.to_string(),
            RecordValue::Domain(s) => s.clone(),
            RecordValue::Text(s) => s.clone(),
            RecordValue::Caa { flags, tag, value } => {
                let mut s = String::new();
                push_decimal(&mut s, *flags as u64);
                s.push(' ');
                push_str(&mut s, tag.as_str());
                s.push(' ');
                push_str(&mut s, value.as_str());
                assert(s@ =~= record_value_text(*self));
                s
            },
            RecordValue::Other(s) => s.clone(),
        }
    }

    /// A copy with the same contents.
    pub fn duplicate(&self) -> (r: RecordValue)
        ensures
            r == *self,
    {
        match self {
            RecordValue::Ip(ip) => RecordValue::Ip(*ip),
            RecordValue::Domain(s) => RecordValue::Domain(s.clone()),
            RecordValue::Text(s) => RecordValue::Text(s.clone()),
            RecordValue::Caa { flags, tag, value } => RecordValue::Caa {
                flags: *flags,
                tag: tag.clone(),
                value: value.clone(),
            },
            RecordValue::Other(s) => RecordValue::Other(s.clone()),
        }
    }
}

/// Errors of the toolkit.
#[derive(Debug, Clone, PartialEq)]
pub enum DnsxError {
    /// A failure described by its message.
    Other(String),
}

impl DnsxError {
    /// The error's message.
    pub fn to_string(&self) -> (s: String)
        ensures
            s@ == self.message(),
    {
        match self {
            DnsxError::Other(m) => m.clone(),
        }
    }

    /// The error's message as text.
    pub open spec fn message(self) -> Seq<char> {
        match self {
            DnsxError::Other(m) => m@,
        }
    }
}

} // verus!
