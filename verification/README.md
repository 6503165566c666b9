# rdnsx-core

Core of a DNS reconnaissance toolkit, written in Verus.

- `src/` is the verified library:
  - `types`, `ip`, `dns_records`: record types, response codes, record values,
    IP addresses and records, with their exact text forms;
  - `cache`: a TTL-aware response cache (`DnsCache`) and the cached client
    wrapper, stated over an abstract sequence of entries, with the laws that
    relate storing, serving, expiry and capacity;
  - `enumeration`: the decisions of the enumeration engine (IPv6 deployment,
    passive-source merging, local resolution, server fingerprints, offline ASN
    data and ASN API responses);
  - `json`, `text`, `time`: JSON values, text helpers and clock readings.
- `app/` holds the I/O: hickory lookups, the fingerprint probes sent to a
  nameserver over UDP, HTTP requests with reqwest and ureq,
  serde forms of records, and the asynchronous steps that wait on them.
- `tests/` runs the library on concrete values.
