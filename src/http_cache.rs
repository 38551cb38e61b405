use vstd::prelude::*;
use vstd::string::*;
use vstd::utf8::*;

use crate::keyed::{entry_map, find_key, keys_unique, lemma_remove_keeps_unique, put_key};

verus! {

/// Seconds to sleep between two looks at a fetch that is in flight.
pub const HTTP_WAITING_DELAY_SECS: u64 = 3;
/// How long a resolution waits for a fetch in flight before fetching itself.
pub const HTTP_WAITING_TIMEOUT_SECS: u64 = 24;
/// Fixed cycles charged for one outcall.
pub const HTTP_OUTCALL_REQUEST_CYCLES: u128 = 400_000_000;
/// Cycles charged per byte of request or response.
pub const HTTP_OUTCALL_PAYLOAD_CYCLES: u128 = 100_000;
/// The largest response that an outcall may bring (2 MiB).
pub const MAX_RESPONSE_BYTES: u128 = 2097152;
/// Entries kept by a fresh cache before `clean` drops any.
pub const DEFAULT_CACHE_CAPACITY: usize = 300;

/// An upstream answer: its status code and body.
#[derive(Debug)]
pub struct HttpResponse {
    pub status: u64,
    pub body: Vec<u8>,
}

impl HttpResponse {
    pub open spec fn view(&self) -> (u64, Seq<u8>) {
        (self.status, self.body@)
    }

    pub fn duplicate(&self) -> (r: HttpResponse)
        ensures
            r@ == self@,
    {
        let body = copy_bytes(&self.body);
        HttpResponse { status: self.status, body }
    }
}

pub fn copy_bytes(v: &Vec<u8>) -> (r: Vec<u8>)
    ensures
        r@ == v@,
{
    let mut out: Vec<u8> = Vec::new();
    let mut i: usize = 0;
    while i < v.len()
        invariant
            i <= v@.len(),
            out@ == v@.subrange(0, i as int),
        decreases v@.len() - i,
    {
        out.push(v[i]);
        proof {
            assert(v@.subrange(0, i + 1) == v@.subrange(0, i as int).push(v@[i as int]));
        }
        i = i + 1;
    }
    assert(v@.subrange(0, v@.len() as int) == v@);
    out
}

/// One cached fetch. `response` is `None` while the fetch is in flight.
#[derive(Debug)]
pub struct HttpCacheEntry {
    pub cached_at: u64,
    pub expr_freq: u64,
    pub response: Option<HttpResponse>,
}

/// Whether a cached entry may still be served at `now`.
pub open spec fn is_fresh(e: HttpCacheEntry, now: u64) -> bool {
    now as int <= e.cached_at as int + e.expr_freq as int
}

/// The entry that marks a fetch in flight.
pub open spec fn placeholder() -> HttpCacheEntry {
    HttpCacheEntry { cached_at: 0, expr_freq: 0, response: None }
}

impl HttpCacheEntry {
    fn is_expired(&self, now: u64) -> (r: bool)
        ensures
            r == !is_fresh(*self, now),
    {
        (self.cached_at as u128) + (self.expr_freq as u128) < now as u128
    }
}

/// Counters over the cache's life; they never decide anything.
#[derive(Debug, Clone, Copy, PartialEq, Eq, Structural)]
pub struct HttpCacheStats {
    pub hits: usize,
    pub misses: usize,
    pub cache_size: usize,
    pub total_requests: usize,
}

pub open spec fn bump(n: usize) -> usize {
    if n < usize::MAX { (n + 1) as usize } else { n }
}

fn bump_exec(n: usize) -> (r: usize)
    ensures
        r == bump(n),
{
    if n < usize::MAX { n + 1 } else { n }
}

#[derive(Debug, PartialEq, Eq)]
pub enum HttpCacheError {
    /// The outcall itself failed.
    HttpOutcallError(String),
    /// The upstream answered with a status of 400 or more; the body's text.
    ServerError(String),
    /// The body is not JSON.
    InvalidResponseBodyJson(String),
    /// The resolver does not lead to a value in the body.
    InvalidResponseBodyResolver(String),
}

/// What a resolution does next with a URL.
#[derive(Debug)]
pub enum RequestStep {
    /// Use this response, cached at the given time.
    Served(HttpResponse, u64),
    /// Another resolution is fetching this URL: sleep, then `poll`.
    Wait,
    /// Fetch the URL now; the cache already marks it as in flight.
    Fetch,
}

/// The kind of a `RequestStep`, for stating what a step decides.
#[derive(Debug, Clone, Copy, PartialEq, Eq, Structural)]
pub enum StepKind {
    Served,
    Wait,
    Fetch,
}

impl RequestStep {
    pub open spec fn kind(&self) -> StepKind {
        match self {
            RequestStep::Served(..) => StepKind::Served,
            RequestStep::Wait => StepKind::Wait,
            RequestStep::Fetch => StepKind::Fetch,
        }
    }
}

/// Rounds of waiting on a fetch in flight before fetching anyway.
pub open spec fn wait_rounds() -> u64 {
    (HTTP_WAITING_TIMEOUT_SECS / HTTP_WAITING_DELAY_SECS) as u64
}

/// What `request` decides for `url` at `now`.
pub open spec fn request_kind(m: Map<Seq<char>, HttpCacheEntry>, url: Seq<char>, now: u64) -> StepKind {
    if !m.contains_key(url) {
        StepKind::Fetch
    } else if m[url].response is None {
        StepKind::Wait
    } else if is_fresh(m[url], now) {
        StepKind::Served
    } else {
        StepKind::Fetch
    }
}

/// What `poll` decides for `url` after `rounds` rounds of waiting.
pub open spec fn poll_kind(m: Map<Seq<char>, HttpCacheEntry>, url: Seq<char>, rounds: u64) -> StepKind {
    if m.contains_key(url) && m[url].response is Some {
        StepKind::Served
    } else if rounds < wait_rounds() {
        StepKind::Wait
    } else {
        StepKind::Fetch
    }
}

/// The entries after a step of kind `k` on `url`: a fetch marks the URL in flight.
pub open spec fn after_step(m: Map<Seq<char>, HttpCacheEntry>, url: Seq<char>, k: StepKind) -> Map<
    Seq<char>,
    HttpCacheEntry,
> {
    if k == StepKind::Fetch {
        m.insert(url, placeholder())
    } else {
        m
    }
}

/// The entry stored for a successful fetch.
pub open spec fn stored(resp: HttpResponse, expr_freq: u64, now: u64) -> HttpCacheEntry {
    HttpCacheEntry { cached_at: now, expr_freq, response: Some(resp) }
}

/// The text of a failing upstream's body.
pub open spec fn error_text(body: Seq<u8>) -> Seq<char> {
    if valid_utf8(body) {
        decode_utf8(body)
    } else {
        "unknown error"@
    }
}

/// Relies on `String::from_utf8`: the text of valid UTF-8 bytes, `None` otherwise.
#[verifier::external_body]
fn utf8_text(bytes: &Vec<u8>) -> (r: Option<String>)
    ensures
        r is Some <==> valid_utf8(bytes@),
        r matches Some(s) ==> s@ == decode_utf8(bytes@),
{
    String::from_utf8(bytes.clone()).ok()
}

/// Cycles to pay for one outcall: a fixed part, the largest response, and the
/// request body if there is one.
pub fn outcall_cycles(body_len: Option<usize>) -> (r: u128)
    ensures
        r == HTTP_OUTCALL_REQUEST_CYCLES + MAX_RESPONSE_BYTES * HTTP_OUTCALL_PAYLOAD_CYCLES + match body_len {
            Some(n) => n * HTTP_OUTCALL_PAYLOAD_CYCLES,
            None => 0,
        },
{
    let mut cycles = HTTP_OUTCALL_REQUEST_CYCLES + MAX_RESPONSE_BYTES * HTTP_OUTCALL_PAYLOAD_CYCLES;
    if let Some(n) = body_len {
        proof {
            assert(n * HTTP_OUTCALL_PAYLOAD_CYCLES <= usize::MAX * 100_000) by (nonlinear_arith)
                requires n <= usize::MAX;
        }
        cycles = cycles + n as u128 * HTTP_OUTCALL_PAYLOAD_CYCLES;
    }
    cycles
}

/// How many entries of `s` are fresh at `now`.
pub open spec fn fresh_count(s: Seq<(String, HttpCacheEntry)>, now: u64) -> nat
    decreases s.len(),
{
    if s.len() == 0 {
        0
    } else {
        fresh_count(s.drop_last(), now) + if is_fresh(s.last().1, now) { 1nat } else { 0nat }
    }
}

/// Index of an entry with the earliest `cached_at`.
fn oldest(s: &Vec<(String, HttpCacheEntry)>) -> (m: usize)
    requires
        s@.len() > 0,
    ensures
        m < s@.len(),
        forall|i: int| 0 <= i < s@.len() ==> s@[m as int].1.cached_at <= (#[trigger] s@[i]).1.cached_at,
{
    let mut m: usize = 0;
    let mut i: usize = 1;
    while i < s.len()
        invariant
            1 <= i <= s@.len(),
            m < i,
            forall|k: int| 0 <= k < i ==> s@[m as int].1.cached_at <= (#[trigger] s@[k]).1.cached_at,
        decreases s@.len() - i,
    {
        if s[i].1.cached_at < s[m].1.cached_at {
            m = i;
        }
        i = i + 1;
    }
    m
}

/// `after` is what cleaning `before` down to `capacity` at `now` leaves: fresh
/// entries of `before` only, as many as the capacity allows, and none older
/// than a fresh entry that was dropped.
pub open spec fn cleaned(
    before: Seq<(String, HttpCacheEntry)>,
    after: Seq<(String, HttpCacheEntry)>,
    capacity: usize,
    now: u64,
) -> bool {
    &&& after.len() == if fresh_count(before, now) < capacity {
        fresh_count(before, now)
    } else {
        capacity as nat
    }
    &&& forall|i: int| 0 <= i < after.len() ==> before.contains(#[trigger] after[i])
    &&& forall|i: int| 0 <= i < after.len() ==> is_fresh((#[trigger] after[i]).1, now)
    &&& forall|j: int, i: int|
        0 <= j < before.len() && is_fresh(before[j].1, now) && !after.contains(before[j]) && 0 <= i
            < after.len() ==> (#[trigger] before[j]).1.cached_at <= (#[trigger] after[i]).1.cached_at
}

proof fn lemma_all_fresh_count(s: Seq<(String, HttpCacheEntry)>, now: u64)
    requires
        forall|i: int| 0 <= i < s.len() ==> is_fresh((#[trigger] s[i]).1, now),
    ensures
        fresh_count(s, now) == s.len(),
    decreases s.len(),
{
    if s.len() > 0 {
        assert forall|i: int| 0 <= i < s.drop_last().len() implies is_fresh(
            (#[trigger] s.drop_last()[i]).1,
            now,
        ) by {
            assert(s.drop_last()[i] == s[i]);
        }
        lemma_all_fresh_count(s.drop_last(), now);
        assert(is_fresh(s[s.len() - 1].1, now));
    }
}

/// Cleaning a cache that holds `capacity + k` fresh entries (`k > 0`) leaves
/// exactly `capacity` of them, and every entry dropped was cached no later
/// than every entry kept.
pub proof fn lemma_eviction(
    before: Seq<(String, HttpCacheEntry)>,
    after: Seq<(String, HttpCacheEntry)>,
    capacity: usize,
    k: nat,
    now: u64,
)
    requires
        before.len() == capacity + k,
        k > 0,
        forall|i: int| 0 <= i < before.len() ==> is_fresh((#[trigger] before[i]).1, now),
        cleaned(before, after, capacity, now),
    ensures
        after.len() == capacity,
        forall|i: int| 0 <= i < after.len() ==> before.contains(#[trigger] after[i]),
        forall|j: int, i: int|
            0 <= j < before.len() && !after.contains(before[j]) && 0 <= i < after.len()
                ==> (#[trigger] before[j]).1.cached_at <= (#[trigger] after[i]).1.cached_at,
{
    lemma_all_fresh_count(before, now);
}

/// A response stored with time to live `ttl` at `t0` is served to a request at
/// `t0 + d` exactly when `d <= ttl`; later, the request fetches afresh.
pub proof fn lemma_cache_freshness(
    m: Map<Seq<char>, HttpCacheEntry>,
    url: Seq<char>,
    resp: HttpResponse,
    ttl: u64,
    t0: u64,
    d: u64,
)
    requires
        t0 + d <= u64::MAX,
    ensures
        request_kind(m.insert(url, stored(resp, ttl, t0)), url, (t0 + d) as u64) == if d <= ttl {
            StepKind::Served
        } else {
            StepKind::Fetch
        },
{
}

/// Two resolutions of one uncached URL: the first marks it in flight and
/// fetches; the second does not fetch but waits, and fetches only once the
/// whole wait has passed with no response. Once the first fetch is stored, the
/// waiting resolution is served it. So at most two fetches happen, and both
/// resolutions end with a response.
pub proof fn lemma_dedup_best_effort(
    m: Map<Seq<char>, HttpCacheEntry>,
    url: Seq<char>,
    t1: u64,
    t2: u64,
    resp: HttpResponse,
    ttl: u64,
    t3: u64,
    rounds: u64,
)
    requires
        !m.contains_key(url),
    ensures
        request_kind(m, url, t1) == StepKind::Fetch,
        request_kind(after_step(m, url, StepKind::Fetch), url, t2) == StepKind::Wait,
        after_step(after_step(m, url, StepKind::Fetch), url, StepKind::Wait) == after_step(
            m,
            url,
            StepKind::Fetch,
        ),
        rounds < wait_rounds() ==> poll_kind(after_step(m, url, StepKind::Fetch), url, rounds)
            == StepKind::Wait,
        poll_kind(after_step(m, url, StepKind::Fetch), url, wait_rounds()) == StepKind::Fetch,
        poll_kind(after_step(m, url, StepKind::Fetch).insert(url, stored(resp, ttl, t3)), url, rounds)
            == StepKind::Served,
{
}

/// Cache of upstream responses keyed by URL, with a time to live per entry
/// and a bound on the number of entries.
#[derive(Debug)]
pub struct HttpCache {
    pub entries: Vec<(String, HttpCacheEntry)>,
    pub capacity: usize,
    pub stats: HttpCacheStats,
}

impl HttpCache {
    pub open spec fn wf(&self) -> bool {
        keys_unique(self.entries@)
    }

    pub open spec fn view(&self) -> Map<Seq<char>, HttpCacheEntry> {
        entry_map(self.entries@)
    }

    /// An empty cache that keeps up to 300 entries.
    pub fn new() -> (r: HttpCache)
        ensures
            r.wf(),
            r@ == Map::<Seq<char>, HttpCacheEntry>::empty(),
            r.capacity == DEFAULT_CACHE_CAPACITY,
            r.stats == (HttpCacheStats { hits: 0, misses: 0, cache_size: 0, total_requests: 0 }),
    {
        let r = HttpCache {
            entries: Vec::new(),
            capacity: DEFAULT_CACHE_CAPACITY,
            stats: HttpCacheStats { hits: 0, misses: 0, cache_size: 0, total_requests: 0 },
        };
        assert(r@ =~= Map::<Seq<char>, HttpCacheEntry>::empty());
        r
    }

    /// Marks `url` as in flight before it is fetched, and gives the cycles that
    /// the fetch costs (with a request body of `body_len` bytes, if any).
    pub fn force_request(&mut self, url: &str, body_len: Option<usize>) -> (r: u128)
        requires
            old(self).wf(),
        ensures
            final(self).wf(),
            final(self).capacity == old(self).capacity,
            final(self).stats == old(self).stats,
            final(self)@ == old(self)@.insert(url@, placeholder()),
            r == HTTP_OUTCALL_REQUEST_CYCLES + MAX_RESPONSE_BYTES * HTTP_OUTCALL_PAYLOAD_CYCLES + match body_len {
                Some(n) => n * HTTP_OUTCALL_PAYLOAD_CYCLES,
                None => 0,
            },
    {
        put_key(
            &mut self.entries,
            String::from_str(url),
            HttpCacheEntry { cached_at: 0, expr_freq: 0, response: None },
        );
        outcall_cycles(body_len)
    }

    /// First look at `url` by a resolution at `now`: serve a fresh response,
    /// wait for a fetch in flight, or mark the URL in flight and fetch.
    pub fn request(&mut self, url: &str, now: u64) -> (r: RequestStep)
        requires
            old(self).wf(),
        ensures
            final(self).wf(),
            final(self).capacity == old(self).capacity,
            final(self).stats == (HttpCacheStats {
                total_requests: bump(old(self).stats.total_requests),
                ..old(self).stats
            }),
            r.kind() == request_kind(old(self)@, url@, now),
            final(self)@ == after_step(old(self)@, url@, r.kind()),
            r matches RequestStep::Served(resp, at) ==> old(self)@[url@].response matches Some(c)
                && resp@ == c@ && at == old(self)@[url@].cached_at,
    {
        self.stats.total_requests = bump_exec(self.stats.total_requests);
        let key = String::from_str(url);
        match find_key(&self.entries, &key) {
            None => {
                self.force_request(url, None);
                RequestStep::Fetch
            },
            Some(i) => {
                let entry = &self.entries[i].1;
                match &entry.response {
                    None => RequestStep::Wait,
                    Some(resp) => {
                        if entry.is_expired(now) {
                            self.force_request(url, None);
                            RequestStep::Fetch
                        } else {
                            RequestStep::Served(resp.duplicate(), entry.cached_at)
                        }
                    },
                }
            },
        }
    }

    /// Look at `url` again after `rounds` rounds of waiting on a fetch in flight:
    /// serve its response once it has come, keep waiting, or give up waiting and
    /// fetch.
    pub fn poll(&mut self, url: &str, rounds: u64) -> (r: RequestStep)
        requires
            old(self).wf(),
        ensures
            final(self).wf(),
            final(self).capacity == old(self).capacity,
            final(self).stats == old(self).stats,
            r.kind() == poll_kind(old(self)@, url@, rounds),
            final(self)@ == after_step(old(self)@, url@, r.kind()),
            r matches RequestStep::Served(resp, at) ==> old(self)@[url@].response matches Some(c)
                && resp@ == c@ && at == old(self)@[url@].cached_at,
    {
        let key = String::from_str(url);
        if let Some(i) = find_key(&self.entries, &key) {
            let entry = &self.entries[i].1;
            if let Some(resp) = &entry.response {
                return RequestStep::Served(resp.duplicate(), entry.cached_at);
            }
        }
        if rounds < HTTP_WAITING_TIMEOUT_SECS / HTTP_WAITING_DELAY_SECS {
            RequestStep::Wait
        } else {
            self.force_request(url, None);
            RequestStep::Fetch
        }
    }

    /// Records how the fetch of `url` ended. A transport failure or a status of
    /// 400 or more is counted as a miss and leaves the entries as they were; a
    /// success is stored, fresh for `expr_freq` seconds from `now`.
    pub fn complete(
        &mut self,
        url: &str,
        outcome: Result<HttpResponse, String>,
        expr_freq: u64,
        now: u64,
    ) -> (r: Result<(HttpResponse, u64), HttpCacheError>)
        requires
            old(self).wf(),
        ensures
            final(self).wf(),
            final(self).capacity == old(self).capacity,
            final(self).stats.total_requests == old(self).stats.total_requests,
            final(self).stats.cache_size == old(self).stats.cache_size,
            match outcome {
                Err(msg) => r == Err::<(HttpResponse, u64), HttpCacheError>(
                    HttpCacheError::HttpOutcallError(msg),
                ) && final(self)@ == old(self)@ && final(self).stats.misses == bump(
                    old(self).stats.misses,
                ) && final(self).stats.hits == old(self).stats.hits,
                Ok(resp) => if resp.status >= 400 {
                    (r matches Err(HttpCacheError::ServerError(t)) && t@ == error_text(resp.body@))
                        && final(self)@ == old(self)@ && final(self).stats.misses == bump(
                        old(self).stats.misses,
                    ) && final(self).stats.hits == old(self).stats.hits
                } else {
                    (r matches Ok((x, at)) && x@ == resp@ && at == now) && final(self)@ == old(
                        self,
                    )@.insert(url@, stored(resp, expr_freq, now)) && final(self).stats.hits == bump(
                        old(self).stats.hits,
                    ) && final(self).stats.misses == old(self).stats.misses
                },
            },
    {
        match outcome {
            Err(msg) => {
                self.stats.misses = bump_exec(self.stats.misses);
                Err(HttpCacheError::HttpOutcallError(msg))
            },
            Ok(resp) => {
                if resp.status >= 400 {
                    let text = match utf8_text(&resp.body) {
                        Some(t) => t,
                        None => String::from_str("unknown error"),
                    };
                    self.stats.misses = bump_exec(self.stats.misses);
                    Err(HttpCacheError::ServerError(text))
                } else {
                    let copy = resp.duplicate();
                    put_key(&mut self.entries, String::from_str(url), HttpCacheEntry { cached_at: now, expr_freq, response: Some(resp) });
                    self.stats.hits = bump_exec(self.stats.hits);
                    Ok((copy, now))
                }
            },
        }
    }

    /// The counters, with the current number of entries.
    pub fn stats(&self) -> (r: HttpCacheStats)
        ensures
            r == (HttpCacheStats { cache_size: self.entries@.len() as usize, ..self.stats }),
    {
        HttpCacheStats { cache_size: self.entries.len(), ..self.stats }
    }

    /// Bounds the cache. Nothing happens while it holds at most `capacity`
    /// entries. Beyond that, expired entries go first; then, of the rest, the
    /// `capacity` most recently cached stay.
    pub fn clean(&mut self, now: u64)
        requires
            old(self).wf(),
        ensures
            final(self).wf(),
            final(self).capacity == old(self).capacity,
            final(self).stats == old(self).stats,
            old(self).entries@.len() <= old(self).capacity ==> final(self).entries@ == old(self).entries@,
            old(self).entries@.len() > old(self).capacity ==> cleaned(
                old(self).entries@,
                final(self).entries@,
                old(self).capacity,
                now,
            ),
    {
        if self.entries.len() <= self.capacity {
            return;
        }
        let ghost orig = self.entries@;
        let mut i: usize = 0;
        let ghost mut j: int = 0;
        while i < self.entries.len()
            invariant
                0 <= j <= orig.len(),
                i <= j,
                self.entries@.len() == i + (orig.len() - j),
                forall|a: int| 0 <= a < orig.len() - j ==> #[trigger] self.entries@[i + a] == orig[j + a],
                i == fresh_count(orig.subrange(0, j), now),
                forall|a: int| 0 <= a < i ==> orig.contains(#[trigger] self.entries@[a]),
                forall|a: int| 0 <= a < i ==> is_fresh((#[trigger] self.entries@[a]).1, now),
                forall|b: int| 0 <= b < j && is_fresh((#[trigger] orig[b]).1, now) ==>
                    exists|a: int| 0 <= a < i && self.entries@[a] == orig[b],
                keys_unique(self.entries@),
                self.capacity == old(self).capacity,
                self.stats == old(self).stats,
            decreases self.entries@.len() - i,
        {
            let ghost cur = self.entries@;
            proof {
                assert(orig.subrange(0, j + 1).drop_last() == orig.subrange(0, j));
                assert(cur[i + 0] == orig[j + 0]);
            }
            if self.entries[i].1.is_expired(now) {
                proof {
                    lemma_remove_keeps_unique(cur, i as int);
                }
                self.entries.remove(i);
                proof {
                    let t = self.entries@;
                    assert forall|a: int| 0 <= a < orig.len() - (j + 1) implies #[trigger] t[i + a] == orig[j + 1 + a] by {
                        assert(t[i + a] == cur[i + a + 1]);
                        assert(cur[i + (a + 1)] == orig[j + (a + 1)]);
                    }
                    assert forall|b: int| 0 <= b < j + 1 && is_fresh((#[trigger] orig[b]).1, now) implies
                        exists|a: int| 0 <= a < i && t[a] == orig[b] by {
                        if b < j {
                            let a = choose|a: int| 0 <= a < i && cur[a] == orig[b];
                            assert(t[a] == cur[a]);
                        }
                    }
                    assert forall|a: int| 0 <= a < i implies orig.contains(#[trigger] t[a]) by {
                        assert(t[a] == cur[a]);
                    }
                }
                proof { j = j + 1; }
            } else {
                proof {
                    assert(orig.contains(cur[i as int]) ) by {
                        assert(orig[j] == cur[i as int]);
                    }
                    assert forall|b: int| 0 <= b < j + 1 && is_fresh((#[trigger] orig[b]).1, now) implies
                        exists|a: int| 0 <= a < i + 1 && cur[a] == orig[b] by {
                        if b == j {
                            assert(cur[i as int] == orig[b]);
                        }
                    }
                    assert forall|a: int| 0 <= a < orig.len() - (j + 1) implies #[trigger] cur[i + 1 + a] == orig[j + 1 + a] by {
                        assert(cur[i + (a + 1)] == orig[j + (a + 1)]);
                    }
                }
                i = i + 1;
                proof { j = j + 1; }
            }
        }
        proof {
            assert(orig.subrange(0, orig.len() as int) == orig);
        }
        let ghost mid = self.entries@;
        let ghost mut dropped: Seq<(String, HttpCacheEntry)> = Seq::empty();
        while self.entries.len() > self.capacity
            invariant
                self.entries@.len() + dropped.len() == mid.len(),
                dropped.len() == 0 || self.entries@.len() >= self.capacity,
                forall|a: int| 0 <= a < self.entries@.len() ==> mid.contains(#[trigger] self.entries@[a]),
                forall|b: int| 0 <= b < mid.len() ==> self.entries@.contains(#[trigger] mid[b]) || dropped.contains(mid[b]),
                forall|d: int, a: int| 0 <= d < dropped.len() && 0 <= a < self.entries@.len() ==>
                    (#[trigger] dropped[d]).1.cached_at <= (#[trigger] self.entries@[a]).1.cached_at,
                keys_unique(self.entries@),
                self.capacity == old(self).capacity,
                self.stats == old(self).stats,
            decreases self.entries@.len(),
        {
            let m = oldest(&self.entries);
            let ghost cur = self.entries@;
            let ghost x = cur[m as int];
            proof {
                lemma_remove_keeps_unique(cur, m as int);
            }
            self.entries.remove(m);
            proof {
                let t = self.entries@;
                let nd = dropped.push(x);
                assert forall|a: int| 0 <= a < t.len() implies mid.contains(#[trigger] t[a]) by {
                    let a2 = if a < m { a } else { a + 1 };
                    assert(t[a] == cur[a2]);
                    assert(mid.contains(cur[a2]));
                }
                assert forall|b: int| 0 <= b < mid.len() implies t.contains(#[trigger] mid[b]) || nd.contains(mid[b]) by {
                    if cur.contains(mid[b]) {
                        let p = choose|p: int| 0 <= p < cur.len() && cur[p] == mid[b];
                        if p == m {
                            assert(nd[nd.len() - 1] == mid[b]);
                        } else if p < m {
                            assert(t[p] == mid[b]);
                        } else {
                            assert(t[p - 1] == mid[b]);
                        }
                    } else {
                        let q = choose|q: int| 0 <= q < dropped.len() && dropped[q] == mid[b];
                        assert(nd[q] == mid[b]);
                    }
                }
                assert forall|d: int, a: int| 0 <= d < nd.len() && 0 <= a < t.len() implies
                    (#[trigger] nd[d]).1.cached_at <= (#[trigger] t[a]).1.cached_at by {
                    let a2 = if a < m { a } else { a + 1 };
                    assert(t[a] == cur[a2]);
                    if d < dropped.len() {
                        assert(nd[d] == dropped[d]);
                    }
                }
                dropped = nd;
            }
        }
        proof {
            let after = self.entries@;
            assert forall|i: int| 0 <= i < after.len() implies orig.contains(#[trigger] after[i]) by {
                let p = choose|p: int| 0 <= p < mid.len() && mid[p] == after[i];
                let q = choose|q: int| 0 <= q < orig.len() && orig[q] == mid[p];
            }
            assert forall|i: int| 0 <= i < after.len() implies is_fresh((#[trigger] after[i]).1, now) by {
                let p = choose|p: int| 0 <= p < mid.len() && mid[p] == after[i];
            }
            assert forall|jj: int, i: int|
                0 <= jj < orig.len() && is_fresh(orig[jj].1, now) && !after.contains(orig[jj])
                    && 0 <= i < after.len() implies (#[trigger] orig[jj]).1.cached_at <= (
                #[trigger] after[i]).1.cached_at by {
                let a = choose|a: int| 0 <= a < mid.len() && mid[a] == orig[jj];
                assert(dropped.contains(mid[a]));
                let d = choose|d: int| 0 <= d < dropped.len() && dropped[d] == mid[a];
            }
        }
    }
}

} // verus!
