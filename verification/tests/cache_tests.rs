use rdnsx_core::cache::{answer_ttl, CachedResponse};
use rdnsx_core::{
    CacheKey, CachedDnsClient, DnsCache, DnsRecord, DnsRecordType, RecordValue, ResponseCode,
    TimeSpan,
};

fn create_test_record(domain: &str, record_type: DnsRecordType) -> DnsRecord {
    DnsRecord {
        domain: domain.to_string(),
        record_type,
        value: RecordValue::Domain("test.example.com".to_string()),
        ttl: 300,
        response_code: ResponseCode::NoError,
        resolver: "127.0.0.1".to_string(),
        timestamp: std::time::SystemTime::now(),
        query_time_us: 10_500,
    }
}

fn record_with_ttl(domain: &str, ttl: u32) -> DnsRecord {
    let mut r = create_test_record(domain, DnsRecordType::A);
    r.ttl = ttl;
    r
}

const SEC: u64 = 1_000_000_000;

#[test]
fn test_cache_key() {
    let key1 = CacheKey::new("example.com", DnsRecordType::A);
    let key2 = CacheKey::new("example.com", DnsRecordType::A);
    let key3 = CacheKey::new("example.com", DnsRecordType::Aaaa);

    assert_eq!(key1, key2);
    assert_ne!(key1, key3);
}

#[test]
fn test_cache_operations() {
    let mut cache = DnsCache::new(100, TimeSpan::from_secs(60));
    let key = CacheKey::new("example.com", DnsRecordType::A);
    let records = vec![create_test_record("example.com", DnsRecordType::A)];

    // Initially empty
    assert!(cache.get(&key).is_none());

    // Store and retrieve
    cache.put(key.clone(), records.clone(), Some(TimeSpan::from_secs(60)));
    assert_eq!(cache.get(&key), Some(records));

    // Test stats
    let stats = cache.stats();
    assert_eq!(stats.total_entries, 1);
    assert_eq!(stats.valid_entries, 1);
}

#[test]
fn cache_key_differs_by_domain() {
    let a = CacheKey::new("example.com", DnsRecordType::Mx);
    let b = CacheKey::new("example.org", DnsRecordType::Mx);
    assert_ne!(a, b);
}

#[test]
fn get_after_put_within_and_after_ttl() {
    let mut cache = DnsCache::new(10, TimeSpan::from_secs(60));
    let key = CacheKey::new("a.example", DnsRecordType::A);
    let records = vec![create_test_record("a.example", DnsRecordType::A)];
    cache.put_at(key.clone(), records.clone(), Some(TimeSpan::from_secs(5)), 100 * SEC);
    assert_eq!(cache.get_at(&key, 100 * SEC), Some(records.clone()));
    assert_eq!(cache.get_at(&key, 104 * SEC), Some(records.clone()));
    assert_eq!(cache.get_at(&key, 105 * SEC), None);
    assert_eq!(cache.get_at(&key, 200 * SEC), None);
}

#[test]
fn put_uses_default_ttl() {
    let mut cache = DnsCache::new(10, TimeSpan::from_secs(30));
    let key = CacheKey::new("b.example", DnsRecordType::Txt);
    let records = vec![create_test_record("b.example", DnsRecordType::Txt)];
    cache.put_at(key.clone(), records.clone(), None, 0);
    assert_eq!(cache.get_at(&key, 29 * SEC), Some(records));
    assert_eq!(cache.get_at(&key, 30 * SEC), None);
}

#[test]
fn put_replaces_existing_entry() {
    let mut cache = DnsCache::new(10, TimeSpan::from_secs(30));
    let key = CacheKey::new("c.example", DnsRecordType::A);
    let first = vec![record_with_ttl("c.example", 1)];
    let second = vec![record_with_ttl("c.example", 2), record_with_ttl("c.example", 3)];
    cache.put_at(key.clone(), first, None, 0);
    cache.put_at(key.clone(), second.clone(), None, SEC);
    assert_eq!(cache.get_at(&key, 2 * SEC), Some(second));
    assert_eq!(cache.stats_at(2 * SEC).total_entries, 1);
}

#[test]
fn full_cache_drops_expired_entries_first() {
    let mut cache = DnsCache::new(2, TimeSpan::from_secs(10));
    let k1 = CacheKey::new("one.example", DnsRecordType::A);
    let k2 = CacheKey::new("two.example", DnsRecordType::A);
    let k3 = CacheKey::new("three.example", DnsRecordType::A);
    cache.put_at(k1.clone(), vec![record_with_ttl("one.example", 1)], Some(TimeSpan::from_secs(1)), 0);
    cache.put_at(k2.clone(), vec![record_with_ttl("two.example", 1)], None, 0);
    // At 5s k1 has expired, so it is the one dropped.
    cache.put_at(k3.clone(), vec![record_with_ttl("three.example", 1)], None, 5 * SEC);
    let stats = cache.stats_at(5 * SEC);
    assert_eq!(stats.total_entries, 2);
    assert_eq!(stats.valid_entries, 2);
    assert!(cache.get_at(&k1, 5 * SEC).is_none());
    assert!(cache.get_at(&k2, 5 * SEC).is_some());
    assert!(cache.get_at(&k3, 5 * SEC).is_some());
}

#[test]
fn full_cache_evicts_oldest_entry() {
    let mut cache = DnsCache::new(2, TimeSpan::from_secs(100));
    let k1 = CacheKey::new("one.example", DnsRecordType::A);
    let k2 = CacheKey::new("two.example", DnsRecordType::A);
    let k3 = CacheKey::new("three.example", DnsRecordType::A);
    cache.put_at(k1.clone(), vec![record_with_ttl("one.example", 1)], None, 0);
    cache.put_at(k2.clone(), vec![record_with_ttl("two.example", 1)], None, SEC);
    cache.put_at(k3.clone(), vec![record_with_ttl("three.example", 1)], None, 2 * SEC);
    assert_eq!(cache.stats_at(2 * SEC).total_entries, 2);
    assert!(cache.get_at(&k1, 2 * SEC).is_none());
    assert!(cache.get_at(&k2, 2 * SEC).is_some());
    assert!(cache.get_at(&k3, 2 * SEC).is_some());
}

#[test]
fn eviction_removes_a_tenth() {
    let mut cache = DnsCache::new(20, TimeSpan::from_secs(100));
    for i in 0..20u32 {
        let name = format!("host{}.example", i);
        cache.put_at(CacheKey::new(&name, DnsRecordType::A), vec![record_with_ttl(&name, i)], None, 0);
    }
    assert_eq!(cache.stats_at(0).total_entries, 20);
    cache.put_at(CacheKey::new("new.example", DnsRecordType::A), vec![], None, 0);
    // Two of twenty removed, then one added.
    assert_eq!(cache.stats_at(0).total_entries, 19);
    assert!(cache.get_at(&CacheKey::new("host0.example", DnsRecordType::A), 0).is_none());
    assert!(cache.get_at(&CacheKey::new("host1.example", DnsRecordType::A), 0).is_none());
    assert!(cache.get_at(&CacheKey::new("host2.example", DnsRecordType::A), 0).is_some());
}

#[test]
fn zero_max_size_keeps_one_entry() {
    let mut cache = DnsCache::new(0, TimeSpan::from_secs(100));
    let k1 = CacheKey::new("one.example", DnsRecordType::A);
    let k2 = CacheKey::new("two.example", DnsRecordType::A);
    cache.put_at(k1.clone(), vec![], None, 0);
    assert_eq!(cache.stats_at(0).total_entries, 1);
    cache.put_at(k2.clone(), vec![], None, 0);
    assert_eq!(cache.stats_at(0).total_entries, 1);
    assert!(cache.get_at(&k1, 0).is_none());
    assert_eq!(cache.get_at(&k2, 0), Some(vec![]));
}

#[test]
fn stats_count_and_average() {
    let mut cache = DnsCache::new(10, TimeSpan::from_secs(100));
    cache.put_at(CacheKey::new("a", DnsRecordType::A), vec![], Some(TimeSpan::from_secs(10)), 0);
    cache.put_at(CacheKey::new("b", DnsRecordType::A), vec![], Some(TimeSpan::from_secs(30)), 0);
    cache.put_at(CacheKey::new("c", DnsRecordType::A), vec![], Some(TimeSpan::from_secs(2)), 0);
    let stats = cache.stats_at(4 * SEC);
    assert_eq!(stats.total_entries, 3);
    assert_eq!(stats.valid_entries, 2);
    assert_eq!(stats.expired_entries, 1);
    // Remaining 6s and 26s: mean 16s.
    assert_eq!(stats.average_ttl, TimeSpan::from_secs(16));
    let empty = DnsCache::new(10, TimeSpan::from_secs(100)).stats_at(0);
    assert_eq!(empty.average_ttl, TimeSpan::zero());
    assert_eq!(empty.total_entries, 0);
}

#[test]
fn clear_empties_the_cache() {
    let mut cache = DnsCache::new(10, TimeSpan::from_secs(100));
    let key = CacheKey::new("a.example", DnsRecordType::A);
    cache.put(key.clone(), vec![create_test_record("a.example", DnsRecordType::A)], None);
    cache.clear();
    assert!(cache.get(&key).is_none());
    assert_eq!(cache.stats().total_entries, 0);
}

#[test]
fn cached_response_validity_and_remaining_ttl() {
    let r = CachedResponse::new(vec![], TimeSpan::from_secs(10), 5 * SEC);
    assert!(r.is_valid(5 * SEC));
    assert!(r.is_valid(14 * SEC));
    assert!(!r.is_valid(15 * SEC));
    assert_eq!(r.remaining_ttl(5 * SEC), TimeSpan::from_secs(10));
    assert_eq!(r.remaining_ttl(12 * SEC), TimeSpan::from_secs(3));
    assert_eq!(r.remaining_ttl(15 * SEC), TimeSpan::zero());
    assert_eq!(r.remaining_ttl(40 * SEC), TimeSpan::zero());
    // A reading before the entry was cached counts as no time elapsed.
    assert_eq!(r.remaining_ttl(0), TimeSpan::from_secs(10));
}

#[test]
fn answer_ttl_is_smallest_record_ttl() {
    let recs = vec![record_with_ttl("x", 300), record_with_ttl("x", 60), record_with_ttl("x", 120)];
    assert_eq!(answer_ttl(&recs), TimeSpan::from_secs(60));
    assert_eq!(answer_ttl(&vec![]), TimeSpan::from_secs(300));
}

#[test]
fn cached_client_records_and_serves_answers() {
    let mut client = CachedDnsClient::new("upstream", DnsCache::new(100, TimeSpan::from_secs(60)));
    assert_eq!(*client.client(), "upstream");
    assert!(client.cached_answer("example.com", DnsRecordType::A).is_none());
    let records = vec![record_with_ttl("example.com", 120)];
    client.record_answer("example.com", DnsRecordType::A, &records);
    assert_eq!(client.cached_answer("example.com", DnsRecordType::A), Some(records));
    assert!(client.cached_answer("example.com", DnsRecordType::Aaaa).is_none());
    let stats = client.cache_stats();
    assert_eq!(stats.total_entries, 1);
    assert_eq!(stats.valid_entries, 1);
    client.clear_cache();
    assert_eq!(client.cache_stats().total_entries, 0);
}

#[test]
fn record_with_zero_ttl_is_not_served() {
    let mut client = CachedDnsClient::new((), DnsCache::new(100, TimeSpan::from_secs(60)));
    let records = vec![record_with_ttl("example.com", 0)];
    client.record_answer("example.com", DnsRecordType::A, &records);
    assert!(client.cached_answer("example.com", DnsRecordType::A).is_none());
}

#[test]
fn eviction_takes_earliest_cached_entry() {
    let mut cache = DnsCache::new(2, TimeSpan::from_secs(100));
    let k1 = CacheKey::new("one.example", DnsRecordType::A);
    let k2 = CacheKey::new("two.example", DnsRecordType::A);
    let k3 = CacheKey::new("three.example", DnsRecordType::A);
    cache.put_at(k1.clone(), vec![], None, 5 * SEC);
    cache.put_at(k2.clone(), vec![], None, SEC);
    cache.put_at(k3.clone(), vec![], None, 6 * SEC);
    assert_eq!(cache.stats_at(6 * SEC).total_entries, 2);
    assert!(cache.get_at(&k1, 6 * SEC).is_some());
    assert!(cache.get_at(&k2, 6 * SEC).is_none());
    assert!(cache.get_at(&k3, 6 * SEC).is_some());
}

#[test]
fn cached_client_at_given_readings() {
    let mut client = CachedDnsClient::new((), DnsCache::new(100, TimeSpan::from_secs(60)));
    let records = vec![record_with_ttl("example.com", 120), record_with_ttl("example.com", 300)];
    assert!(client.cached_answer_at("example.com", DnsRecordType::A, 0).is_none());
    client.record_answer_at("example.com", DnsRecordType::A, &records, 10 * SEC);
    assert_eq!(client.cached_answer_at("example.com", DnsRecordType::A, 129 * SEC), Some(records.clone()));
    assert!(client.cached_answer_at("example.com", DnsRecordType::A, 130 * SEC).is_none());
    let stats = client.cache_stats_at(70 * SEC);
    assert_eq!(stats.total_entries, 1);
    assert_eq!(stats.valid_entries, 1);
    assert_eq!(stats.expired_entries, 0);
    assert_eq!(stats.average_ttl, TimeSpan::from_secs(60));
    let later = client.cache_stats_at(200 * SEC);
    assert_eq!(later.valid_entries, 0);
    assert_eq!(later.expired_entries, 1);
}

#[test]
fn stats_average_of_very_long_ttls() {
    let mut cache = DnsCache::new(10, TimeSpan::from_secs(100));
    let longest = TimeSpan::from_secs(u64::MAX);
    cache.put_at(CacheKey::new("a", DnsRecordType::A), vec![], Some(longest), 0);
    cache.put_at(CacheKey::new("b", DnsRecordType::A), vec![], Some(longest), 0);
    cache.put_at(CacheKey::new("c", DnsRecordType::A), vec![], Some(TimeSpan::from_secs(1)), 0);
    let stats = cache.stats_at(0);
    assert_eq!(stats.valid_entries, 3);
    // (2 * MAX + 1s) / 3, rounded down.
    let expected = (2 * (u64::MAX as u128 * 1_000_000_000) + 1_000_000_000) / 3;
    assert_eq!(stats.average_ttl.as_nanos(), expected);
    assert!(cache.get_at(&CacheKey::new("a", DnsRecordType::A), u64::MAX).is_some());
}

#[test]
fn mean_ttl_not_above_largest_remaining() {
    let mut cache = DnsCache::new(10, TimeSpan::from_secs(100));
    cache.put_at(CacheKey::new("a", DnsRecordType::A), vec![], Some(TimeSpan::from_secs(7)), 0);
    cache.put_at(CacheKey::new("b", DnsRecordType::A), vec![], Some(TimeSpan::from_secs(9)), 0);
    cache.put_at(CacheKey::new("c", DnsRecordType::A), vec![], Some(TimeSpan::from_secs(1)), 0);
    let stats = cache.stats_at(2 * SEC);
    // Valid: 5s and 7s left; the expired entry does not count.
    assert_eq!(stats.valid_entries, 2);
    assert_eq!(stats.average_ttl, TimeSpan::from_secs(6));
    assert!(stats.average_ttl.as_nanos() <= 7 * SEC as u128);
}
