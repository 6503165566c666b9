//! DNS response caching to avoid redundant queries.

use vstd::prelude::*;
use crate::dns_records::DnsRecord;
use crate::time::{MonotonicClock, TimeSpan, MAX_SPAN_NANOS};
use crate::types::DnsRecordType;

verus! {

broadcast use vstd::seq_lib::group_seq_properties;

/// Cache key combining domain and record type.
#[derive(Debug, Clone, Eq, Hash)]
pub struct CacheKey {
    pub domain: String,
    pub record_type: DnsRecordType,
}

impl View for CacheKey {
    type V = (Seq<char>, DnsRecordType);

    open spec fn view(&self) -> (Seq<char>, DnsRecordType) {
        (self.domain@, self.record_type)
    }
}

impl CacheKey {
    /// The key for `domain` and `record_type`.
    pub fn new(domain: &str, record_type: DnsRecordType) -> (k: CacheKey)
        ensures
            k@ == (domain@, record_type),
    {
        CacheKey { domain: domain.to_owned(), record_type }
    }
}

impl PartialEq for CacheKey {
    fn eq(&self, other: &Self) -> (r: bool) {
        self.domain == other.domain && self.record_type == other.record_type
    }
}

impl vstd::std_specs::cmp::PartialEqSpecImpl for CacheKey {
    open spec fn obeys_eq_spec() -> bool {
        true
    }

    open spec fn eq_spec(&self, other: &Self) -> bool {
        self@ == other@
    }
}

/// Time passed between `cached_at` and `now` on the cache's clock (zero when
/// `now` lies before `cached_at`).
pub open spec fn elapsed_since(cached_at: u64, now: u64) -> nat {
    if now >= cached_at {
        (now - cached_at) as nat
    } else {
        0
    }
}

/// An entry cached at `cached_at` with a TTL of `ttl` nanoseconds is still
/// valid at `now`.
pub open spec fn is_fresh(cached_at: u64, ttl: nat, now: u64) -> bool {
    elapsed_since(cached_at, now) < ttl
}

/// TTL left at `now`, zero once it has run out.
pub open spec fn remaining(cached_at: u64, ttl: nat, now: u64) -> nat {
    if elapsed_since(cached_at, now) <= ttl {
        (ttl - elapsed_since(cached_at, now)) as nat
    } else {
        0
    }
}

/// Cached DNS response with TTL information; times are readings of the
/// cache's monotonic clock, in nanoseconds.
#[derive(Debug, Clone)]
pub struct CachedResponse {
    pub records: Vec<DnsRecord>,
    pub cached_at: u64,
    pub ttl: TimeSpan,
}

impl CachedResponse {
    /// A response cached at clock reading `now`.
    pub fn new(records: Vec<DnsRecord>, ttl: TimeSpan, now: u64) -> (r: CachedResponse)
        ensures
            r.records == records,
            r.ttl == ttl,
            r.cached_at == now,
    {
        CachedResponse { records, cached_at: now, ttl }
    }

    /// Whether the response is still valid at clock reading `now`.
    pub fn is_valid(&self, now: u64) -> (b: bool)
        ensures
            b == is_fresh(self.cached_at, self.ttl@, now),
    {
        let elapsed = if now >= self.cached_at {
            now - self.cached_at
        } else {
            0
        };
        (elapsed as u128) < self.ttl.as_nanos()
    }

    /// TTL left at clock reading `now`.
    pub fn remaining_ttl(&self, now: u64) -> (t: TimeSpan)
        ensures
            t@ == remaining(self.cached_at, self.ttl@, now),
    {
        let elapsed = if now >= self.cached_at {
            now - self.cached_at
        } else {
            0
        };
        let ttl = self.ttl.as_nanos();
        if (elapsed as u128) <= ttl {
            TimeSpan::from_total_nanos(ttl - elapsed as u128)
        } else {
            TimeSpan::zero()
        }
    }
}

/// What the cache holds for one key.
pub struct EntryView {
    pub key: (Seq<char>, DnsRecordType),
    pub records: Seq<DnsRecord>,
    pub cached_at: u64,
    pub ttl: nat,
}

/// Abstract view of one stored entry.
pub open spec fn entry_view(e: (CacheKey, CachedResponse)) -> EntryView {
    EntryView { key: e.0@, records: e.1.records@, cached_at: e.1.cached_at, ttl: e.1.ttl@ }
}

/// Abstract view of the stored entries, oldest insertion first.
pub open spec fn entries_view(v: Seq<(CacheKey, CachedResponse)>) -> Seq<EntryView> {
    v.map_values(|e: (CacheKey, CachedResponse)| entry_view(e))
}

/// No key occurs twice.
pub open spec fn keys_distinct(s: Seq<EntryView>) -> bool {
    forall|i: int, j: int| 0 <= i < s.len() && 0 <= j < s.len() && i != j ==> s[i].key != s[j].key
}

/// Some entry has key `k`.
pub open spec fn has_key(s: Seq<EntryView>, k: (Seq<char>, DnsRecordType)) -> bool {
    exists|i: int| 0 <= i < s.len() && s[i].key == k
}

/// Position of the entry with key `k` (meaningful when `has_key`).
pub open spec fn key_index(s: Seq<EntryView>, k: (Seq<char>, DnsRecordType)) -> int {
    choose|i: int| 0 <= i < s.len() && s[i].key == k
}

/// Records served for `k` at `now`: those of its entry while that entry is valid.
pub open spec fn cache_get(s: Seq<EntryView>, k: (Seq<char>, DnsRecordType), now: u64) -> Option<
    Seq<DnsRecord>,
> {
    if has_key(s, k) && is_fresh(s[key_index(s, k)].cached_at, s[key_index(s, k)].ttl, now) {
        Some(s[key_index(s, k)].records)
    } else {
        None
    }
}

/// TTL a response is stored with: the given one, else the default.
pub open spec fn effective_ttl(ttl: Option<TimeSpan>, default_ttl: nat) -> nat {
    match ttl {
        Some(t) => t@,
        None => default_ttl,
    }
}

/// The records of an optional answer, as a sequence.
pub open spec fn records_view(r: Option<Vec<DnsRecord>>) -> Option<Seq<DnsRecord>> {
    match r {
        Some(v) => Some(v@),
        None => None,
    }
}

/// Entry is still valid at `now`.
pub open spec fn entry_fresh(now: u64) -> spec_fn(EntryView) -> bool {
    |e: EntryView| is_fresh(e.cached_at, e.ttl, now)
}

/// Number of entries dropped by one eviction round from `len` entries:
/// a tenth of them, at least one, at most all.
pub open spec fn evict_count(len: nat) -> nat {
    let n = if len / 10 >= 1 { len / 10 } else { 1 };
    if n <= len { n } else { len }
}

/// The entries with the one for `k` (if any) taken out.
pub open spec fn without_key(s: Seq<EntryView>, k: (Seq<char>, DnsRecordType)) -> Seq<EntryView> {
    if has_key(s, k) {
        s.remove(key_index(s, k))
    } else {
        s
    }
}

/// The entry at `i` was cached no later than any other, and strictly earlier
/// than every entry before it (the first of the earliest ones).
pub open spec fn is_oldest_at(s: Seq<EntryView>, i: int) -> bool {
    &&& 0 <= i < s.len()
    &&& forall|j: int| 0 <= j < s.len() ==> s[i].cached_at <= #[trigger] s[j].cached_at
    &&& forall|j: int| 0 <= j < i ==> #[trigger] s[j].cached_at > s[i].cached_at
}

/// Position of the first entry among those cached earliest.
pub open spec fn oldest_index(s: Seq<EntryView>) -> int {
    choose|i: int| is_oldest_at(s, i)
}

/// The entries with the `k` earliest-cached ones taken out, one at a time
/// (among entries cached at the same time, the first goes first).
pub open spec fn evict_oldest_entries(s: Seq<EntryView>, k: nat) -> Seq<EntryView>
    decreases k,
{
    if k == 0 || s.len() == 0 {
        s
    } else {
        evict_oldest_entries(s.remove(oldest_index(s)), (k - 1) as nat)
    }
}

/// Entries after a full cache makes room: expired entries are dropped when the
/// cache is at capacity, then the earliest-cached ones when it still is.
pub open spec fn make_room(s: Seq<EntryView>, max_size: nat, now: u64) -> Seq<EntryView> {
    let s1 = if s.len() >= max_size {
        s.filter(entry_fresh(now))
    } else {
        s
    };
    if s1.len() >= max_size {
        evict_oldest_entries(s1, evict_count(s1.len()))
    } else {
        s1
    }
}

/// Entries after storing `records` under `k` with `ttl` at `now`: room is made,
/// then any old entry for `k` is replaced by the new one, stored as the newest.
pub open spec fn cache_put(
    s: Seq<EntryView>,
    max_size: nat,
    k: (Seq<char>, DnsRecordType),
    records: Seq<DnsRecord>,
    ttl: nat,
    now: u64,
) -> Seq<EntryView> {
    without_key(make_room(s, max_size, now), k).push(
        EntryView { key: k, records, cached_at: now, ttl },
    )
}

/// Most entries a cache with `max_size` holds: `max_size`, and at least one.
pub open spec fn capacity(max_size: nat) -> nat {
    if max_size >= 1 { max_size } else { 1 }
}

/// Number of entries still valid at `now`.
pub open spec fn fresh_count(s: Seq<EntryView>, now: u64) -> nat {
    s.filter(entry_fresh(now)).len()
}

/// Sum of the TTL left at `now` over the entries still valid then.
pub open spec fn total_remaining(s: Seq<EntryView>, now: u64) -> nat
    decreases s.len(),
{
    if s.len() == 0 {
        0
    } else {
        let e = s.last();
        total_remaining(s.drop_last(), now) + if is_fresh(e.cached_at, e.ttl, now) {
            remaining(e.cached_at, e.ttl, now)
        } else {
            0
        }
    }
}

/// The valid entries among the first `i` are no more than among all.
proof fn lemma_fresh_count_prefix(s: Seq<EntryView>, now: u64, i: int)
    requires
        0 <= i <= s.len(),
    ensures
        fresh_count(s.take(i), now) <= fresh_count(s, now),
    decreases s.len() - i,
{
    broadcast use vstd::seq_lib::group_filter_ensures;
    if i < s.len() {
        assert(s.take(i + 1) =~= s.take(i).push(s[i]));
        s.take(i).lemma_filter_push(s[i], entry_fresh(now));
        lemma_fresh_count_prefix(s, now, i + 1);
    } else {
        assert(s.take(i) =~= s);
    }
}

/// A sum `t == q * m + r` of at most `c <= m` terms, each at most the longest
/// span, has a quotient no larger than the longest span.
proof fn lemma_quotient_bound(q: int, m: int, r: int, t: int, c: int)
    requires
        m > 0,
        q >= 0,
        r >= 0,
        t == q * m + r,
        t <= c * MAX_SPAN_NANOS,
        c <= m,
    ensures
        q <= MAX_SPAN_NANOS,
{
    assert(q <= MAX_SPAN_NANOS) by (nonlinear_arith)
        requires
            m > 0,
            q >= 0,
            r >= 0,
            t == q * m + r,
            t <= c * MAX_SPAN_NANOS,
            c <= m,
    ;
}

/// Cache statistics.
#[derive(Debug, Clone, Copy, PartialEq, Eq, Structural)]
pub struct CacheStats {
    pub total_entries: usize,
    pub valid_entries: usize,
    pub expired_entries: usize,
    pub average_ttl: TimeSpan,
}

/// `st` describes the entries `s` at `now`: how many there are, how many are
/// still valid and how many have expired, and the mean TTL left over the valid
/// ones (rounded down; zero when none is valid).
pub open spec fn stats_describe(st: CacheStats, s: Seq<EntryView>, now: u64) -> bool {
    &&& st.total_entries == s.len()
    &&& st.valid_entries == fresh_count(s, now)
    &&& st.expired_entries == s.len() - fresh_count(s, now)
    &&& st.average_ttl@ == if fresh_count(s, now) > 0 {
        total_remaining(s, now) / fresh_count(s, now)
    } else {
        0
    }
}

/// DNS response cache with TTL support.
pub struct DnsCache {
    entries: Vec<(CacheKey, CachedResponse)>,
    max_size: usize,
    default_ttl: TimeSpan,
    clock: MonotonicClock,
    latest: u64,
}

impl View for DnsCache {
    type V = Seq<EntryView>;

    closed spec fn view(&self) -> Seq<EntryView> {
        entries_view(self.entries@)
    }
}

/// Every entry of `a` is an entry of `b`.
pub open spec fn entries_from(a: Seq<EntryView>, b: Seq<EntryView>) -> bool {
    forall|i: int| 0 <= i < a.len() ==> b.contains(#[trigger] a[i])
}

/// A filtered sequence keeps its keys distinct, and its entries come from the
/// sequence.
proof fn lemma_filter_keys(s: Seq<EntryView>, p: spec_fn(EntryView) -> bool)
    requires
        keys_distinct(s),
    ensures
        keys_distinct(s.filter(p)),
        entries_from(s.filter(p), s),
    decreases s.len(),
{
    broadcast use vstd::seq_lib::group_filter_ensures;
    reveal(Seq::filter);
    if s.len() > 0 {
        let t = s.drop_last();
        assert(keys_distinct(t));
        lemma_filter_keys(t, p);
        let f = t.filter(p);
        assert forall|i: int| 0 <= i < f.len() implies s.contains(#[trigger] f[i]) by {
            assert(t.contains(f[i]));
            let j = choose|j: int| 0 <= j < t.len() && t[j] == f[i];
            assert(s[j] == f[i]);
        }
        if p(s.last()) {
            let g = f.push(s.last());
            assert(s.filter(p) == g);
            assert forall|i: int, j: int|
                0 <= i < g.len() && 0 <= j < g.len() && i != j implies g[i].key != g[j].key by {
                if i == f.len() as int || j == f.len() as int {
                    let o = if i == f.len() as int { j } else { i };
                    assert(t.contains(f[o]));
                    let m = choose|m: int| 0 <= m < t.len() && t[m] == f[o];
                    assert(s[m] == f[o]);
                }
            }
            assert forall|i: int| 0 <= i < g.len() implies s.contains(#[trigger] g[i]) by {
                if i == f.len() as int {
                    assert(s[s.len() - 1] == g[i]);
                } else {
                    assert(s.contains(f[i]));
                }
            }
        } else {
            assert(s.filter(p) == f);
        }
    }
}

/// Taking out the entry for `k` keeps the keys distinct, leaves no entry for
/// `k`, and keeps every other entry.
proof fn lemma_without_key(m: Seq<EntryView>, k: (Seq<char>, DnsRecordType))
    requires
        keys_distinct(m),
    ensures
        keys_distinct(without_key(m, k)),
        !has_key(without_key(m, k), k),
        entries_from(without_key(m, k), m),
        without_key(m, k).len() <= m.len(),
        has_key(m, k) ==> without_key(m, k).len() == m.len() - 1,
        forall|x: EntryView| m.contains(x) && x.key != k ==> #[trigger] without_key(m, k).contains(x),
{
    let w = without_key(m, k);
    if has_key(m, k) {
        let i = key_index(m, k);
        assert(w == m.remove(i));
        assert forall|a: int| 0 <= a < w.len() implies m.contains(#[trigger] w[a]) by {
            let a2 = if a < i { a } else { a + 1 };
            assert(w[a] == m[a2]);
        }
        assert(keys_distinct(w)) by {
            assert forall|a: int, b: int|
                0 <= a < w.len() && 0 <= b < w.len() && a != b implies w[a].key != w[b].key by {
                let a2 = if a < i { a } else { a + 1 };
                let b2 = if b < i { b } else { b + 1 };
                assert(w[a] == m[a2]);
                assert(w[b] == m[b2]);
            }
        }
        assert(!has_key(w, k)) by {
            if has_key(w, k) {
                let a = choose|a: int| 0 <= a < w.len() && w[a].key == k;
                let a2 = if a < i { a } else { a + 1 };
                assert(w[a] == m[a2]);
            }
        }
        assert forall|x: EntryView| m.contains(x) && x.key != k implies #[trigger] w.contains(x) by {
            let j = choose|j: int| 0 <= j < m.len() && m[j] == x;
            assert(j != i);
            let a = if j < i { j } else { j - 1 };
            assert(w[a] == x);
        }
    } else {
        assert forall|a: int| 0 <= a < w.len() implies m.contains(#[trigger] w[a]) by {
            assert(m[a] == w[a]);
        }
    }
}

/// In a sequence with distinct keys, an entry with key `k` is the one at
/// `key_index`.
proof fn lemma_entry_is_keyed(s: Seq<EntryView>, x: EntryView)
    requires
        keys_distinct(s),
        s.contains(x),
    ensures
        has_key(s, x.key),
        s[key_index(s, x.key)] == x,
{
    let j = choose|j: int| 0 <= j < s.len() && s[j] == x;
    assert(s[j].key == x.key);
    let i = key_index(s, x.key);
    assert(i == j);
}

/// Position of the entry with `key`, if any.
fn find_key(v: &Vec<(CacheKey, CachedResponse)>, key: &CacheKey) -> (r: Option<usize>)
    ensures
        match r {
            Some(i) => i < v@.len() && entries_view(v@)[i as int].key == key@,
            None => !has_key(entries_view(v@), key@),
        },
{
    let n = v.len();
    let mut i: usize = 0;
    while i < n
        invariant
            n == v@.len(),
            i <= n,
            forall|j: int| 0 <= j < i ==> entries_view(v@)[j].key != key@,
        decreases n - i,
    {
        if v[i].0 == *key {
            return Some(i);
        }
        i = i + 1;
    }
    None
}

/// Drops the entries that are no longer valid at `now`.
fn drop_expired(v: &mut Vec<(CacheKey, CachedResponse)>, now: u64)
    ensures
        entries_view(final(v)@) == entries_view(old(v)@).filter(entry_fresh(now)),
{
    broadcast use vstd::seq_lib::group_filter_ensures;
    let mut source: Vec<(CacheKey, CachedResponse)> = Vec::new();
    std::mem::swap(&mut source, v);
    let ghost src = entries_view(source@);
    assert(entries_view(v@) =~= src.take(0).filter(entry_fresh(now))) by {
        reveal(Seq::filter);
    }
    for e in it: source.into_iter()
        invariant
            src == entries_view(it.seq()),
            entries_view(v@) == src.take(it.index() as int).filter(entry_fresh(now)),
    {
        let ghost i = it.index() as int;
        let ghost before = v@;
        proof {
            assert(src.take(i + 1) =~= src.take(i).push(src[i]));
            src.take(i).lemma_filter_push(src[i], entry_fresh(now));
        }
        if e.1.is_valid(now) {
            v.push(e);
            assert(entries_view(v@) =~= entries_view(before).push(entry_view(e)));
        }
    }
    assert(src.take(src.len() as int) =~= src);
}

/// Position of the first of the earliest-cached entries.
fn oldest_position(v: &Vec<(CacheKey, CachedResponse)>) -> (i: usize)
    requires
        v@.len() > 0,
    ensures
        is_oldest_at(entries_view(v@), i as int),
{
    let ghost s = entries_view(v@);
    let n = v.len();
    let mut best: usize = 0;
    let mut i: usize = 1;
    while i < n
        invariant
            s == entries_view(v@),
            n == s.len(),
            1 <= i <= n,
            best < i,
            forall|j: int| 0 <= j < i ==> s[best as int].cached_at <= #[trigger] s[j].cached_at,
            forall|j: int| 0 <= j < best ==> #[trigger] s[j].cached_at > s[best as int].cached_at,
        decreases n - i,
    {
        if v[i].1.cached_at < v[best].1.cached_at {
            best = i;
        }
        i = i + 1;
    }
    best
}

/// Drops the earliest-cached tenth of the entries (at least one).
fn evict_oldest(v: &mut Vec<(CacheKey, CachedResponse)>)
    ensures
        entries_view(final(v)@) == evict_oldest_entries(
            entries_view(old(v)@),
            evict_count(old(v)@.len()),
        ),
{
    let n = v.len();
    let mut k = n / 10;
    if k < 1 {
        k = 1;
    }
    if k > n {
        k = n;
    }
    let ghost start = entries_view(v@);
    let ghost count = evict_count(start.len());
    let mut removed: usize = 0;
    while removed < k
        invariant
            k == count,
            count <= start.len(),
            removed <= k,
            v@.len() == start.len() - removed,
            evict_oldest_entries(start, count) == evict_oldest_entries(
                entries_view(v@),
                (count - removed) as nat,
            ),
        decreases k - removed,
    {
        let i = oldest_position(v);
        proof {
            lemma_oldest_unique(entries_view(v@), i as int, oldest_index(entries_view(v@)));
        }
        let ghost before = entries_view(v@);
        v.remove(i);
        assert(entries_view(v@) =~= before.remove(i as int));
        removed = removed + 1;
    }
}

impl DnsCache {
    /// The stored entries keep their keys distinct and stay within capacity.
    #[verifier::type_invariant]
    spec fn inv(self) -> bool {
        &&& keys_distinct(entries_view(self.entries@))
        &&& self.entries@.len() <= capacity(self.max_size as nat)
    }

    /// Largest number of entries before room is made.
    pub closed spec fn max_size(&self) -> nat {
        self.max_size as nat
    }

    /// TTL used when a response is stored without one, in nanoseconds.
    pub closed spec fn default_ttl(&self) -> nat {
        self.default_ttl@
    }

    /// The latest clock reading at which the cache has stored an entry (zero
    /// before the first): the cache never judges freshness at an earlier one.
    pub closed spec fn latest_reading(&self) -> u64 {
        self.latest
    }

    /// Well-formed: no key twice, and no more entries than the capacity.
    pub open spec fn wf(&self) -> bool {
        &&& keys_distinct(self@)
        &&& self@.len() <= capacity(self.max_size())
    }

    /// Create a new, empty DNS cache.
    pub fn new(max_size: usize, default_ttl: TimeSpan) -> (c: DnsCache)
        ensures
            c.wf(),
            c@ == Seq::<EntryView>::empty(),
            c.max_size() == max_size,
            c.default_ttl() == default_ttl@,
            c.latest_reading() == 0,
    {
        let entries: Vec<(CacheKey, CachedResponse)> = Vec::new();
        assert(entries_view(entries@) =~= Seq::<EntryView>::empty());
        let c = DnsCache { entries, max_size, default_ttl, clock: MonotonicClock::new(), latest: 0 };
        c
    }

    /// Records for `key` at clock reading `now`, if an entry exists and is
    /// still valid.
    pub fn get_at(&self, key: &CacheKey, now: u64) -> (r: Option<Vec<DnsRecord>>)
        ensures
            records_view(r) == cache_get(self@, key@, now),
    {
        proof {
            use_type_invariant(self);
        }
        match find_key(&self.entries, key) {
            Some(i) => {
                proof {
                    let k = key_index(self@, key@);
                    assert(self@[k].key == key@);
                    assert(k == i);
                }
                if self.entries[i].1.is_valid(now) {
                    let rs = self.entries[i].1.records.clone();
                    assert(rs@ =~= self.entries@[i as int].1.records@);
                    Some(rs)
                } else {
                    None
                }
            },
            None => None,
        }
    }

    /// Store `records` under `key` at clock reading `now`, with `ttl` or else
    /// the cache's default TTL.
    pub fn put_at(&mut self, key: CacheKey, records: Vec<DnsRecord>, ttl: Option<TimeSpan>, now: u64)
        ensures
            final(self).wf(),
            final(self).max_size() == old(self).max_size(),
            final(self).default_ttl() == old(self).default_ttl(),
            final(self).latest_reading() == if now > old(self).latest_reading() {
                now
            } else {
                old(self).latest_reading()
            },
            final(self)@ == cache_put(
                old(self)@,
                old(self).max_size(),
                key@,
                records@,
                effective_ttl(ttl, old(self).default_ttl()),
                now,
            ),
    {
        proof {
            use_type_invariant(&*self);
        }
        if now > self.latest {
            self.latest = now;
        }
        let ttl_eff = match ttl {
            Some(t) => t,
            None => self.default_ttl,
        };
        let ghost k = key@;
        let ghost rs = records@;
        let resp = CachedResponse::new(records, ttl_eff, now);
        let mut entries: Vec<(CacheKey, CachedResponse)> = Vec::new();
        proof {
            assert(entries_view(entries@) =~= Seq::<EntryView>::empty());
        }
        std::mem::swap(&mut entries, &mut self.entries);
        let ghost s0 = entries_view(entries@);
        if entries.len() >= self.max_size {
            drop_expired(&mut entries, now);
        }
        if entries.len() >= self.max_size {
            evict_oldest(&mut entries);
        }
        let ghost s2 = entries_view(entries@);
        assert(s2 == make_room(s0, self.max_size as nat, now));
        proof {
            lemma_make_room(s0, self.max_size as nat, now);
        }
        match find_key(&entries, &key) {
            Some(i) => {
                proof {
                    let j = key_index(s2, k);
                    assert(s2[j].key == k);
                    assert(j == i);
                }
                entries.remove(i);
                assert(entries_view(entries@) =~= s2.remove(i as int));
            },
            None => {},
        }
        assert(entries_view(entries@) == without_key(s2, k));
        entries.push((key, resp));
        assert(entries_view(entries@) =~= without_key(s2, k).push(entry_view((key, resp))));
        proof {
            law_put_within_capacity(s0, self.max_size as nat, k, rs, ttl_eff@, now);
        }
        std::mem::swap(&mut entries, &mut self.entries);
    }
}

/// Reading the clock and storing or serving at that reading.
impl DnsCache {
    /// Store a response in the cache, stamped with the current clock reading.
    pub fn put(&mut self, key: CacheKey, records: Vec<DnsRecord>, ttl: Option<TimeSpan>)
        ensures
            final(self).wf(),
            final(self).max_size() == old(self).max_size(),
            final(self).default_ttl() == old(self).default_ttl(),
            exists|now: u64|
                now >= old(self).latest_reading() && final(self).latest_reading() == now
                    && final(self)@ == #[trigger] cache_put(
                    old(self)@,
                    old(self).max_size(),
                    key@,
                    records@,
                    effective_ttl(ttl, old(self).default_ttl()),
                    now,
                ),
    {
        let now = self.reading();
        self.put_at(key, records, ttl, now);
    }

    /// The clock's current reading, or the latest reading the cache has
    /// stored at if that is later: readings the cache uses never go back.
    fn reading(&self) -> (now: u64)
        ensures
            now >= self.latest_reading(),
    {
        let c = self.clock.now();
        if c > self.latest {
            c
        } else {
            self.latest
        }
    }

    /// Get a cached response if it exists and is still valid at the current
    /// clock reading.
    pub fn get(&self, key: &CacheKey) -> (r: Option<Vec<DnsRecord>>)
        ensures
            exists|now: u64|
                now >= self.latest_reading() && records_view(r) == #[trigger] cache_get(
                    self@,
                    key@,
                    now,
                ),
    {
        let now = self.reading();
        self.get_at(key, now)
    }

    /// Cache statistics at the current clock reading.
    pub fn stats(&self) -> (st: CacheStats)
        ensures
            exists|now: u64| now >= self.latest_reading() && #[trigger] stats_describe(st, self@, now),
    {
        let now = self.reading();
        self.stats_at(now)
    }

    /// Clear all cached entries.
    pub fn clear(&mut self)
        ensures
            final(self).wf(),
            final(self)@ == Seq::<EntryView>::empty(),
            final(self).max_size() == old(self).max_size(),
            final(self).default_ttl() == old(self).default_ttl(),
            final(self).latest_reading() == old(self).latest_reading(),
    {
        let mut entries: Vec<(CacheKey, CachedResponse)> = Vec::new();
        proof {
            assert(entries_view(entries@) =~= Seq::<EntryView>::empty());
        }
        std::mem::swap(&mut entries, &mut self.entries);
        assert(self@ =~= Seq::<EntryView>::empty());
    }

    /// The TTL left at `now`, summed over the valid entries and divided by
    /// their number `m` (rounded down). The sum is carried as a quotient and a
    /// remainder by `m`, so that it never has to be held whole.
    fn mean_remaining(&self, now: u64, m: usize) -> (q: u128)
        requires
            m > 0,
            m == fresh_count(self@, now),
        ensures
            q == total_remaining(self@, now) / (m as nat),
            q <= MAX_SPAN_NANOS,
    {
        broadcast use vstd::seq_lib::group_filter_ensures;
        let n = self.entries.len();
        let ghost s = self@;
        let mm = m as u128;
        let mut q: u128 = 0;
        let mut r: u128 = 0;
        let mut i: usize = 0;
        assert(s.take(0).filter(entry_fresh(now)) =~= Seq::<EntryView>::empty()) by {
            reveal(Seq::filter);
        }
        assert(s.take(0) =~= Seq::<EntryView>::empty());
        assert(s.take(n as int) =~= s);
        while i < n
            invariant
                n == s.len(),
                s == self@,
                i <= n,
                mm == m,
                m == fresh_count(s, now),
                m > 0,
                r < mm,
                q <= MAX_SPAN_NANOS,
                total_remaining(s.take(i as int), now) == q * mm + r,
                total_remaining(s.take(i as int), now) <= fresh_count(s.take(i as int), now)
                    * MAX_SPAN_NANOS,
                fresh_count(s.take(i as int), now) <= fresh_count(s, now),
            decreases n - i,
        {
            let ghost t0 = total_remaining(s.take(i as int), now);
            let ghost c0 = fresh_count(s.take(i as int), now);
            proof {
                assert(s.take(i + 1) =~= s.take(i as int).push(s[i as int]));
                s.take(i as int).lemma_filter_push(s[i as int], entry_fresh(now));
                assert(s.take(i + 1).drop_last() =~= s.take(i as int));
                lemma_fresh_count_prefix(s, now, i as int + 1);
            }
            if self.entries[i].1.is_valid(now) {
                let x = self.entries[i].1.remaining_ttl(now).as_nanos();
                let xq = x / mm;
                let xr = x % mm;
                proof {
                    vstd::arithmetic::div_mod::lemma_fundamental_div_mod(x as int, mm as int);
                    assert(x == xq * mm + xr) by (nonlinear_arith)
                        requires
                            x == mm * (x / mm) + (x % mm),
                            xq == x / mm,
                            xr == x % mm,
                    ;
                    assert(t0 + x <= (c0 + 1) * MAX_SPAN_NANOS) by (nonlinear_arith)
                        requires
                            t0 <= c0 * MAX_SPAN_NANOS,
                            x <= MAX_SPAN_NANOS,
                    ;
                    assert(t0 + x == (q + xq) * mm + (r + xr)) by (nonlinear_arith)
                        requires
                            t0 == q * mm + r,
                            x == xq * mm + xr,
                    ;
                    assert(t0 + x == (q + xq + 1) * mm + (r + xr - mm)) by (nonlinear_arith)
                        requires
                            t0 + x == (q + xq) * mm + (r + xr),
                    ;
                    lemma_quotient_bound((q + xq) as int, mm as int, (r + xr) as int, t0 + x, (c0 + 1) as int);
                }
                if r + xr >= mm {
                    proof {
                        lemma_quotient_bound((q + xq + 1) as int, mm as int, (r + xr - mm) as int, t0 + x, (c0 + 1) as int);
                    }
                    q = q + xq + 1;
                    r = r + xr - mm;
                } else {
                    q = q + xq;
                    r = r + xr;
                }
            }
            i = i + 1;
        }
        proof {
            vstd::arithmetic::div_mod::lemma_fundamental_div_mod_converse(
                total_remaining(s, now) as int,
                m as int,
                q as int,
                r as int,
            );
        }
        q
    }

    /// Cache statistics at clock reading `now`.
    pub fn stats_at(&self, now: u64) -> (st: CacheStats)
        ensures
            stats_describe(st, self@, now),
    {
        broadcast use vstd::seq_lib::group_filter_ensures;
        let n = self.entries.len();
        let ghost s = self@;
        let mut valid: usize = 0;
        let mut i: usize = 0;
        assert(s.take(0).filter(entry_fresh(now)) =~= Seq::<EntryView>::empty()) by {
            reveal(Seq::filter);
        }
        assert(s.take(0) =~= Seq::<EntryView>::empty());
        while i < n
            invariant
                n == s.len(),
                s == self@,
                i <= n,
                valid == s.take(i as int).filter(entry_fresh(now)).len(),
                valid <= i,
            decreases n - i,
        {
            proof {
                assert(s.take(i + 1) =~= s.take(i as int).push(s[i as int]));
                s.take(i as int).lemma_filter_push(s[i as int], entry_fresh(now));
                assert(s.take(i + 1).drop_last() =~= s.take(i as int));
            }
            if self.entries[i].1.is_valid(now) {
                valid = valid + 1;
            }
            i = i + 1;
        }
        assert(s.take(n as int) =~= s);
        let average = if valid > 0 {
            TimeSpan::from_total_nanos(self.mean_remaining(now, valid))
        } else {
            TimeSpan::zero()
        };
        CacheStats {
            total_entries: n,
            valid_entries: valid,
            expired_entries: n - valid,
            average_ttl: average,
        }
    }
}

/// There is a first earliest-cached entry in every non-empty sequence.
proof fn lemma_oldest_exists(s: Seq<EntryView>) -> (i: int)
    requires
        s.len() > 0,
    ensures
        is_oldest_at(s, i),
    decreases s.len(),
{
    if s.len() == 1 {
        0
    } else {
        let t = s.drop_last();
        let i0 = lemma_oldest_exists(t);
        assert forall|j: int| 0 <= j < t.len() implies #[trigger] s[j] == t[j] by {}
        if s.last().cached_at < s[i0].cached_at {
            let l = s.len() - 1;
            assert forall|j: int| 0 <= j < s.len() implies s[l].cached_at <= #[trigger] s[j].cached_at by {
                if j < l {
                    assert(t[i0].cached_at <= t[j].cached_at);
                }
            }
            assert forall|j: int| 0 <= j < l implies #[trigger] s[j].cached_at > s[l].cached_at by {
                assert(t[i0].cached_at <= t[j].cached_at);
            }
            l
        } else {
            assert forall|j: int| 0 <= j < s.len() implies s[i0].cached_at <= #[trigger] s[j].cached_at by {
                if j < s.len() - 1 {
                    assert(t[i0].cached_at <= t[j].cached_at);
                }
            }
            assert forall|j: int| 0 <= j < i0 implies #[trigger] s[j].cached_at > s[i0].cached_at by {
                assert(t[j].cached_at > t[i0].cached_at);
            }
            i0
        }
    }
}

/// The first earliest-cached entry is unique, so `oldest_index` finds it.
proof fn lemma_oldest_unique(s: Seq<EntryView>, i: int, o: int)
    requires
        is_oldest_at(s, i),
        o == oldest_index(s),
    ensures
        o == i,
        is_oldest_at(s, o),
{
    assert(is_oldest_at(s, oldest_index(s)));
    if o < i {
        assert(s[o].cached_at > s[i].cached_at);
    } else if i < o {
        assert(s[i].cached_at > s[o].cached_at);
    }
}

/// Removing one entry keeps the keys distinct and every other entry.
proof fn lemma_remove_keeps(m: Seq<EntryView>, i: int)
    requires
        keys_distinct(m),
        0 <= i < m.len(),
    ensures
        keys_distinct(m.remove(i)),
        entries_from(m.remove(i), m),
        forall|a: int| 0 <= a < m.len() && a != i ==> #[trigger] m.remove(i).contains(m[a]),
{
    let w = m.remove(i);
    assert forall|a: int| 0 <= a < w.len() implies m.contains(#[trigger] w[a]) by {
        let a2 = if a < i { a } else { a + 1 };
        assert(w[a] == m[a2]);
    }
    assert forall|a: int, b: int|
        0 <= a < w.len() && 0 <= b < w.len() && a != b implies w[a].key != w[b].key by {
        let a2 = if a < i { a } else { a + 1 };
        let b2 = if b < i { b } else { b + 1 };
        assert(w[a] == m[a2]);
        assert(w[b] == m[b2]);
    }
    assert forall|a: int| 0 <= a < m.len() && a != i implies #[trigger] w.contains(m[a]) by {
        let a2 = if a < i { a } else { a - 1 };
        assert(w[a2] == m[a]);
    }
}

/// Law: eviction takes out exactly `k` entries (all, when there are fewer),
/// keeps the others unchanged with their keys distinct, and every entry it
/// takes out was cached no later than every entry it keeps.
pub proof fn law_evict_takes_oldest(s: Seq<EntryView>, k: nat)
    requires
        keys_distinct(s),
    ensures
        evict_oldest_entries(s, k).len() == s.len() - if k <= s.len() {
            k as int
        } else {
            s.len() as int
        },
        keys_distinct(evict_oldest_entries(s, k)),
        entries_from(evict_oldest_entries(s, k), s),
        forall|i: int, j: int|
            #![trigger s[i], evict_oldest_entries(s, k)[j]]
            0 <= i < s.len() && !has_key(evict_oldest_entries(s, k), s[i].key) && 0 <= j
                < evict_oldest_entries(s, k).len() ==> s[i].cached_at <= evict_oldest_entries(
                s,
                k,
            )[j].cached_at,
    decreases k,
{
    let r = evict_oldest_entries(s, k);
    if k == 0 || s.len() == 0 {
        assert forall|a: int| 0 <= a < r.len() implies s.contains(#[trigger] r[a]) by {
            assert(s[a] == r[a]);
        }
        assert forall|i: int| 0 <= i < s.len() implies has_key(r, s[i].key) by {
            assert(r[i].key == s[i].key);
        }
    } else {
        let w0 = lemma_oldest_exists(s);
        let o = oldest_index(s);
        lemma_oldest_unique(s, w0, o);
        let t = s.remove(o);
        lemma_remove_keeps(s, o);
        law_evict_takes_oldest(t, (k - 1) as nat);
        assert(r == evict_oldest_entries(t, (k - 1) as nat));
        assert forall|a: int| 0 <= a < r.len() implies s.contains(#[trigger] r[a]) by {
            assert(t.contains(r[a]));
            let b = choose|b: int| 0 <= b < t.len() && t[b] == r[a];
            assert(s.contains(t[b]));
        }
        assert forall|i: int, j: int|
            #![trigger s[i], r[j]]
            0 <= i < s.len() && !has_key(r, s[i].key) && 0 <= j < r.len() implies s[i].cached_at
            <= r[j].cached_at by {
            if i == o {
                assert(s.contains(r[j]));
                let m = choose|m: int| 0 <= m < s.len() && s[m] == r[j];
                assert(s[o].cached_at <= s[m].cached_at);
            } else {
                let i2 = if i < o { i } else { i - 1 };
                assert(t[i2] == s[i]);
            }
        }
    }
}

/// Making room keeps keys distinct, never adds an entry, and leaves fewer than
/// `max_size` entries (or none) when the cache was at capacity.
proof fn lemma_make_room(s: Seq<EntryView>, max_size: nat, now: u64)
    requires
        keys_distinct(s),
    ensures
        keys_distinct(make_room(s, max_size, now)),
        entries_from(make_room(s, max_size, now), s),
        make_room(s, max_size, now).len() <= s.len(),
        s.len() <= capacity(max_size) && s.len() >= max_size ==> make_room(s, max_size, now).len()
            < max_size || make_room(
            s,
            max_size,
            now,
        ).len() == 0,
        s.len() < max_size ==> make_room(s, max_size, now) == s,
{
    broadcast use vstd::seq_lib::group_filter_ensures;
    let s1 = if s.len() >= max_size {
        s.filter(entry_fresh(now))
    } else {
        s
    };
    if s.len() >= max_size {
        lemma_filter_keys(s, entry_fresh(now));
    } else {
        assert forall|i: int| 0 <= i < s1.len() implies s.contains(#[trigger] s1[i]) by {
            assert(s[i] == s1[i]);
        }
    }
    assert(keys_distinct(s1));
    assert(entries_from(s1, s));
    assert(s1.len() <= s.len());
    let r = make_room(s, max_size, now);
    if s1.len() >= max_size {
        let c = evict_count(s1.len());
        law_evict_takes_oldest(s1, c);
        assert(r == evict_oldest_entries(s1, c));
        assert forall|i: int| 0 <= i < r.len() implies s.contains(#[trigger] r[i]) by {
            assert(s1.contains(r[i]));
            let m = choose|m: int| 0 <= m < s1.len() && s1[m] == r[i];
            assert(s.contains(s1[m]));
        }
    }
}

/// Law: storing keeps the keys distinct and the cache within its capacity.
pub proof fn law_put_within_capacity(
    s: Seq<EntryView>,
    max_size: nat,
    k: (Seq<char>, DnsRecordType),
    records: Seq<DnsRecord>,
    ttl: nat,
    now: u64,
)
    requires
        keys_distinct(s),
        s.len() <= capacity(max_size),
    ensures
        keys_distinct(cache_put(s, max_size, k, records, ttl, now)),
        cache_put(s, max_size, k, records, ttl, now).len() <= capacity(max_size),
{
    lemma_make_room(s, max_size, now);
    let m = make_room(s, max_size, now);
    lemma_without_key(m, k);
    let w = without_key(m, k);
    let e = EntryView { key: k, records, cached_at: now, ttl };
    let r = w.push(e);
    assert(keys_distinct(r)) by {
        assert forall|a: int, b: int|
            0 <= a < r.len() && 0 <= b < r.len() && a != b implies r[a].key != r[b].key by {
            if a == w.len() as int {
                assert(r[b] == w[b]);
            } else if b == w.len() as int {
                assert(r[a] == w[a]);
            }
        }
    }
}

/// In the entries after a store, `k` is held by the new, last entry.
proof fn lemma_put_last(
    s: Seq<EntryView>,
    max_size: nat,
    k: (Seq<char>, DnsRecordType),
    records: Seq<DnsRecord>,
    ttl: nat,
    now: u64,
)
    requires
        keys_distinct(s),
    ensures
        has_key(cache_put(s, max_size, k, records, ttl, now), k),
        key_index(cache_put(s, max_size, k, records, ttl, now), k) == cache_put(
            s,
            max_size,
            k,
            records,
            ttl,
            now,
        ).len() - 1,
        entries_from(without_key(make_room(s, max_size, now), k), s),
{
    lemma_make_room(s, max_size, now);
    let m = make_room(s, max_size, now);
    lemma_without_key(m, k);
    let w = without_key(m, k);
    let r = cache_put(s, max_size, k, records, ttl, now);
    assert(r[r.len() - 1].key == k);
    let i = key_index(r, k);
    if i < w.len() {
        assert(r[i] == w[i]);
        assert(has_key(w, k));
    }
    assert forall|a: int| 0 <= a < w.len() implies s.contains(#[trigger] w[a]) by {
        assert(m.contains(w[a]));
        let j = choose|j: int| 0 <= j < m.len() && m[j] == w[a];
        assert(s.contains(m[j]));
    }
}

/// Law: until its TTL runs out, a stored response is what the cache serves for
/// its key.
pub proof fn law_get_after_put(
    s: Seq<EntryView>,
    max_size: nat,
    k: (Seq<char>, DnsRecordType),
    records: Seq<DnsRecord>,
    ttl: nat,
    t_put: u64,
    t_get: u64,
)
    requires
        keys_distinct(s),
        t_put <= t_get,
        t_get - t_put < ttl,
    ensures
        cache_get(cache_put(s, max_size, k, records, ttl, t_put), k, t_get) == Some(records),
{
    lemma_put_last(s, max_size, k, records, ttl, t_put);
}

/// Law: once its TTL has run out, a stored response is no longer served.
pub proof fn law_get_after_expiry(
    s: Seq<EntryView>,
    max_size: nat,
    k: (Seq<char>, DnsRecordType),
    records: Seq<DnsRecord>,
    ttl: nat,
    t_put: u64,
    t_get: u64,
)
    requires
        keys_distinct(s),
        t_get >= t_put + ttl,
    ensures
        cache_get(cache_put(s, max_size, k, records, ttl, t_put), k, t_get) is None,
{
    lemma_put_last(s, max_size, k, records, ttl, t_put);
}

/// Law: storing under one key never changes what is served under another key;
/// it can only make the cache drop that other entry.
pub proof fn law_put_keeps_other_keys(
    s: Seq<EntryView>,
    max_size: nat,
    k: (Seq<char>, DnsRecordType),
    records: Seq<DnsRecord>,
    ttl: nat,
    t_put: u64,
    k2: (Seq<char>, DnsRecordType),
    t: u64,
)
    requires
        keys_distinct(s),
        k2 != k,
    ensures
        cache_get(cache_put(s, max_size, k, records, ttl, t_put), k2, t) is None || cache_get(
            cache_put(s, max_size, k, records, ttl, t_put),
            k2,
            t,
        ) == cache_get(s, k2, t),
{
    lemma_put_last(s, max_size, k, records, ttl, t_put);
    let w = without_key(make_room(s, max_size, t_put), k);
    let r = cache_put(s, max_size, k, records, ttl, t_put);
    if has_key(r, k2) {
        let i = key_index(r, k2);
        assert(i < w.len());
        assert(r[i] == w[i]);
        assert(s.contains(w[i]));
        lemma_entry_is_keyed(s, w[i]);
    }
}

/// Law: while the cache is below `max_size`, storing under one key leaves what
/// is served under every other key unchanged.
pub proof fn law_put_below_capacity(
    s: Seq<EntryView>,
    max_size: nat,
    k: (Seq<char>, DnsRecordType),
    records: Seq<DnsRecord>,
    ttl: nat,
    t_put: u64,
    k2: (Seq<char>, DnsRecordType),
    t: u64,
)
    requires
        keys_distinct(s),
        s.len() < max_size,
        k2 != k,
    ensures
        cache_get(cache_put(s, max_size, k, records, ttl, t_put), k2, t) == cache_get(s, k2, t),
{
    law_put_keeps_other_keys(s, max_size, k, records, ttl, t_put, k2, t);
    lemma_make_room(s, max_size, t_put);
    lemma_without_key(s, k);
    let w = without_key(s, k);
    let r = cache_put(s, max_size, k, records, ttl, t_put);
    if has_key(s, k2) {
        let x = s[key_index(s, k2)];
        assert(s.contains(x));
        assert(w.contains(x));
        let j = choose|j: int| 0 <= j < w.len() && w[j] == x;
        assert(r[j] == x);
        assert(has_key(r, k2));
    }
}

/// Law: an empty cache (as left by `clear`) serves nothing.
pub proof fn law_empty_serves_nothing(k: (Seq<char>, DnsRecordType), t: u64)
    ensures
        cache_get(Seq::<EntryView>::empty(), k, t) is None,
{
}

/// Law: an entry is valid exactly while some of its TTL is left.
pub proof fn law_fresh_iff_time_left(cached_at: u64, ttl: nat, now: u64)
    ensures
        is_fresh(cached_at, ttl, now) <==> remaining(cached_at, ttl, now) > 0,
        remaining(cached_at, ttl, now) <= ttl,
{
}

/// The TTL left, summed over the valid entries, is at most their number
/// times a bound on each.
proof fn lemma_total_within_bound(s: Seq<EntryView>, now: u64, b: nat)
    requires
        forall|i: int|
            0 <= i < s.len() && is_fresh(s[i].cached_at, s[i].ttl, now) ==> remaining(
                s[i].cached_at,
                s[i].ttl,
                now,
            ) <= b,
    ensures
        total_remaining(s, now) <= fresh_count(s, now) * b,
    decreases s.len(),
{
    broadcast use vstd::seq_lib::group_filter_ensures;
    if s.len() == 0 {
        assert(s.filter(entry_fresh(now)) =~= Seq::<EntryView>::empty()) by {
            reveal(Seq::filter);
        }
    } else {
        let d = s.drop_last();
        assert forall|i: int|
            0 <= i < d.len() && is_fresh(d[i].cached_at, d[i].ttl, now) implies remaining(
            d[i].cached_at,
            d[i].ttl,
            now,
        ) <= b by {
            assert(d[i] == s[i]);
        }
        lemma_total_within_bound(d, now, b);
        assert(s =~= d.push(s.last()));
        d.lemma_filter_push(s.last(), entry_fresh(now));
        let c = fresh_count(d, now);
        if is_fresh(s.last().cached_at, s.last().ttl, now) {
            assert(s.last() == s[s.len() - 1]);
            assert((c + 1) * b == c * b + b) by (nonlinear_arith);
        }
    }
}

/// Law: the mean TTL left over the valid entries is no larger than a bound
/// on the TTL left of every valid entry (in particular, than the largest).
pub proof fn law_mean_within_bound(st: CacheStats, s: Seq<EntryView>, now: u64, b: nat)
    requires
        stats_describe(st, s, now),
        forall|i: int|
            0 <= i < s.len() && is_fresh(s[i].cached_at, s[i].ttl, now) ==> remaining(
                s[i].cached_at,
                s[i].ttl,
                now,
            ) <= b,
    ensures
        st.average_ttl@ <= b,
{
    lemma_total_within_bound(s, now, b);
    let c = fresh_count(s, now);
    let t = total_remaining(s, now);
    if c > 0 {
        assert(t / c <= b) by (nonlinear_arith)
            requires
                c > 0,
                t <= c * b,
        {
            vstd::arithmetic::div_mod::lemma_fundamental_div_mod(t as int, c as int);
        }
    }
}

/// Law: once an entry's TTL has run out it stays run out at every later
/// reading, with no TTL left.
pub proof fn law_expired_stays_expired(cached_at: u64, ttl: nat, t1: u64, t2: u64)
    requires
        t1 <= t2,
        !is_fresh(cached_at, ttl, t1),
    ensures
        !is_fresh(cached_at, ttl, t2),
        remaining(cached_at, ttl, t2) == 0,
{
}

/// Law: what is served for `k` is the records of the entry stored under `k`
/// while its TTL has not run out at the reading, and nothing otherwise.
pub proof fn law_get_serves_only_fresh(s: Seq<EntryView>, k: (Seq<char>, DnsRecordType), now: u64)
    requires
        keys_distinct(s),
    ensures
        forall|i: int|
            0 <= i < s.len() && #[trigger] s[i].key == k ==> cache_get(s, k, now) == if now
                >= s[i].cached_at && now - s[i].cached_at < s[i].ttl {
                Some(s[i].records)
            } else if now < s[i].cached_at && 0 < s[i].ttl {
                Some(s[i].records)
            } else {
                None
            },
        (forall|i: int| 0 <= i < s.len() ==> #[trigger] s[i].key != k) ==> cache_get(s, k, now)
            is None,
{
    assert forall|i: int| 0 <= i < s.len() && #[trigger] s[i].key == k implies cache_get(
        s,
        k,
        now,
    ) == if now >= s[i].cached_at && now - s[i].cached_at < s[i].ttl {
        Some(s[i].records)
    } else if now < s[i].cached_at && 0 < s[i].ttl {
        Some(s[i].records)
    } else {
        None
    } by {
        lemma_entry_is_keyed(s, s[i]);
    }
}

/// No entry valid at `now` means nothing counted valid and no TTL left.
proof fn lemma_none_fresh(s: Seq<EntryView>, now: u64)
    requires
        forall|i: int| 0 <= i < s.len() ==> !is_fresh(#[trigger] s[i].cached_at, s[i].ttl, now),
    ensures
        fresh_count(s, now) == 0,
        total_remaining(s, now) == 0,
    decreases s.len(),
{
    broadcast use vstd::seq_lib::group_filter_ensures;
    if s.len() == 0 {
        assert(s.filter(entry_fresh(now)) =~= Seq::<EntryView>::empty()) by {
            reveal(Seq::filter);
        }
    } else {
        let d = s.drop_last();
        assert forall|i: int| 0 <= i < d.len() implies !is_fresh(#[trigger] d[i].cached_at, d[i].ttl, now) by {
            assert(d[i] == s[i]);
        }
        lemma_none_fresh(d, now);
        assert(s =~= d.push(s.last()));
        d.lemma_filter_push(s.last(), entry_fresh(now));
        assert(s.last() == s[s.len() - 1]);
    }
}

/// Law: at a reading where every entry's TTL has run out, the statistics
/// count every entry as expired and none as valid, with a mean of zero.
pub proof fn law_stats_all_expired(st: CacheStats, s: Seq<EntryView>, now: u64)
    requires
        stats_describe(st, s, now),
        forall|i: int| 0 <= i < s.len() ==> !is_fresh(#[trigger] s[i].cached_at, s[i].ttl, now),
    ensures
        st.total_entries == s.len(),
        st.valid_entries == 0,
        st.expired_entries == s.len(),
        st.average_ttl@ == 0,
{
    lemma_none_fresh(s, now);
}

/// Law: the statistics split the entries into valid and expired ones.
pub proof fn law_stats_partition(st: CacheStats, s: Seq<EntryView>, now: u64)
    requires
        stats_describe(st, s, now),
    ensures
        st.total_entries == st.valid_entries + st.expired_entries,
{
    broadcast use vstd::seq_lib::group_filter_ensures;
}

/// Smallest TTL among the records, in seconds (meaningful when there is one).
pub open spec fn min_ttl(rs: Seq<DnsRecord>) -> nat
    decreases rs.len(),
{
    if rs.len() <= 1 {
        rs[0].ttl as nat
    } else {
        let m = min_ttl(rs.drop_last());
        if rs.last().ttl < m {
            rs.last().ttl as nat
        } else {
            m
        }
    }
}

/// TTL, in seconds, that an upstream answer is cached with: the smallest TTL
/// among its records, or five minutes when it has none.
pub open spec fn answer_ttl_secs(rs: Seq<DnsRecord>) -> nat {
    if rs.len() == 0 {
        300
    } else {
        min_ttl(rs)
    }
}

/// Law: the TTL an answer is cached with is that of one of its records, and
/// no record has a smaller one.
pub proof fn law_answer_ttl_is_minimum(rs: Seq<DnsRecord>)
    requires
        rs.len() > 0,
    ensures
        exists|i: int| 0 <= i < rs.len() && rs[i].ttl == answer_ttl_secs(rs),
        forall|j: int| 0 <= j < rs.len() ==> answer_ttl_secs(rs) <= rs[j].ttl,
    decreases rs.len(),
{
    if rs.len() == 1 {
        assert(rs[0].ttl == answer_ttl_secs(rs));
    } else {
        let t = rs.drop_last();
        law_answer_ttl_is_minimum(t);
        let i = choose|i: int| 0 <= i < t.len() && t[i].ttl == answer_ttl_secs(t);
        assert(rs[i] == t[i]);
        assert(rs[rs.len() - 1] == rs.last());
        assert forall|j: int| 0 <= j < rs.len() implies answer_ttl_secs(rs) <= rs[j].ttl by {
            if j < t.len() {
                assert(rs[j] == t[j]);
            }
        }
    }
}

/// TTL to cache an upstream answer with: the smallest record TTL, or five
/// minutes when the answer has no record.
pub fn answer_ttl(records: &Vec<DnsRecord>) -> (t: TimeSpan)
    ensures
        t@ == answer_ttl_secs(records@) * 1_000_000_000,
{
    let n = records.len();
    if n == 0 {
        return TimeSpan::from_secs(300);
    }
    let mut m: u32 = records[0].ttl;
    let mut i: usize = 1;
    assert(records@.take(1).drop_last().len() == 0);
    assert(min_ttl(records@.take(1)) == records@[0].ttl);
    while i < n
        invariant
            1 <= i <= n,
            n == records@.len(),
            m == min_ttl(records@.take(i as int)),
        decreases n - i,
    {
        assert(records@.take(i + 1).drop_last() =~= records@.take(i as int));
        if records[i].ttl < m {
            m = records[i].ttl;
        }
        i = i + 1;
    }
    assert(records@.take(n as int) =~= records@);
    TimeSpan::from_secs(m as u64)
}

/// Law: an answer recorded after an upstream query is what the cache serves
/// for that query until the smallest TTL among its records runs out.
pub proof fn law_recorded_answer_is_served(
    s: Seq<EntryView>,
    max_size: nat,
    k: (Seq<char>, DnsRecordType),
    records: Seq<DnsRecord>,
    t_put: u64,
    t_get: u64,
)
    requires
        keys_distinct(s),
        t_put <= t_get,
        t_get - t_put < answer_ttl_secs(records) * 1_000_000_000,
    ensures
        cache_get(
            cache_put(s, max_size, k, records, answer_ttl_secs(records) * 1_000_000_000, t_put),
            k,
            t_get,
        ) == Some(records),
{
    law_get_after_put(s, max_size, k, records, answer_ttl_secs(records) * 1_000_000_000, t_put, t_get);
}

/// Cached DNS client wrapper: answers from the cache while they are valid,
/// from the upstream client otherwise.
pub struct CachedDnsClient<C> {
    client: C,
    cache: DnsCache,
}

impl<C> CachedDnsClient<C> {
    /// The upstream client.
    pub closed spec fn upstream(&self) -> C {
        self.client
    }

    /// The cache in front of it.
    pub closed spec fn cache(&self) -> DnsCache {
        self.cache
    }

    /// Create a new cached DNS client.
    pub fn new(client: C, cache: DnsCache) -> (c: CachedDnsClient<C>)
        ensures
            c.upstream() == client,
            c.cache() == cache,
    {
        CachedDnsClient { client, cache }
    }

    /// The upstream client, for the query that the cache cannot answer.
    pub fn client(&self) -> (c: &C)
        ensures
            *c == self.upstream(),
    {
        &self.client
    }

    /// The cached answer for `domain` and `record_type` at clock reading `now`,
    /// if there is a valid one.
    pub fn cached_answer_at(&self, domain: &str, record_type: DnsRecordType, now: u64) -> (r:
        Option<Vec<DnsRecord>>)
        ensures
            records_view(r) == cache_get(self.cache()@, (domain@, record_type), now),
    {
        let key = CacheKey::new(domain, record_type);
        self.cache.get_at(&key, now)
    }

    /// Caches an upstream answer at clock reading `now`, with the smallest TTL
    /// among its records (five minutes when it has none).
    pub fn record_answer_at(
        &mut self,
        domain: &str,
        record_type: DnsRecordType,
        records: &Vec<DnsRecord>,
        now: u64,
    )
        ensures
            final(self).cache().wf(),
            final(self).upstream() == old(self).upstream(),
            final(self).cache().max_size() == old(self).cache().max_size(),
            final(self).cache().default_ttl() == old(self).cache().default_ttl(),
            final(self).cache().latest_reading() == if now > old(self).cache().latest_reading() {
                now
            } else {
                old(self).cache().latest_reading()
            },
            final(self).cache()@ == cache_put(
                old(self).cache()@,
                old(self).cache().max_size(),
                (domain@, record_type),
                records@,
                answer_ttl_secs(records@) * 1_000_000_000,
                now,
            ),
    {
        let key = CacheKey::new(domain, record_type);
        let ttl = answer_ttl(records);
        let copy = records.clone();
        assert(copy@ =~= records@);
        self.cache.put_at(key, copy, Some(ttl), now);
    }

    /// Cache statistics at clock reading `now`.
    pub fn cache_stats_at(&self, now: u64) -> (st: CacheStats)
        ensures
            stats_describe(st, self.cache()@, now),
    {
        let st = self.cache.stats_at(now);
        assert(self.cache()@ == self.cache@);
        st
    }

    /// First step of a query: the cached answer for `domain` and `record_type`,
    /// if there is a valid one.
    pub fn cached_answer(&self, domain: &str, record_type: DnsRecordType) -> (r: Option<
        Vec<DnsRecord>,
    >)
        ensures
            exists|now: u64|
                now >= self.cache().latest_reading() && records_view(r) == #[trigger] cache_get(
                    self.cache()@,
                    (domain@, record_type),
                    now,
                ),
    {
        let key = CacheKey::new(domain, record_type);
        let r = self.cache.get(&key);
        assert(self.cache()@ == self.cache@);
        r
    }

    /// Last step of a query answered upstream: caches the answer with the
    /// smallest TTL among its records (five minutes when it has none).
    pub fn record_answer(&mut self, domain: &str, record_type: DnsRecordType, records: &Vec<DnsRecord>)
        ensures
            final(self).cache().wf(),
            final(self).upstream() == old(self).upstream(),
            final(self).cache().max_size() == old(self).cache().max_size(),
            final(self).cache().default_ttl() == old(self).cache().default_ttl(),
            exists|now: u64|
                now >= old(self).cache().latest_reading() && final(self).cache().latest_reading()
                    == now && final(self).cache()@ == #[trigger] cache_put(
                    old(self).cache()@,
                    old(self).cache().max_size(),
                    (domain@, record_type),
                    records@,
                    answer_ttl_secs(records@) * 1_000_000_000,
                    now,
                ),
    {
        let key = CacheKey::new(domain, record_type);
        let ttl = answer_ttl(records);
        let copy = records.clone();
        assert(copy@ =~= records@);
        self.cache.put(key, copy, Some(ttl));
    }

    /// Get cache statistics.
    pub fn cache_stats(&self) -> (st: CacheStats)
        ensures
            exists|now: u64|
                now >= self.cache().latest_reading() && #[trigger] stats_describe(
                    st,
                    self.cache()@,
                    now,
                ),
    {
        let st = self.cache.stats();
        assert(self.cache()@ == self.cache@);
        st
    }

    /// Clear the cache.
    pub fn clear_cache(&mut self)
        ensures
            final(self).cache().wf(),
            final(self).cache()@ == Seq::<EntryView>::empty(),
            final(self).upstream() == old(self).upstream(),
            final(self).cache().max_size() == old(self).cache().max_size(),
            final(self).cache().default_ttl() == old(self).cache().default_ttl(),
            final(self).cache().latest_reading() == old(self).cache().latest_reading(),
    {
        self.cache.clear();
    }
}

} // verus!
