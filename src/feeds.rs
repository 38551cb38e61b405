use vstd::prelude::*;
use vstd::arithmetic::div_mod::{lemma_div_denominator, lemma_div_multiples_vanish_quotient, lemma_fundamental_div_mod};
use vstd::string::*;

use crate::aggregate::{count_of, sum_all, sum_of, tally};
use crate::signatures::{lemma_lex_antisym, lemma_lex_total, lemma_lex_trans, lemma_lex_refl, lex_le, text_le};
use crate::balances::{can_credit, covers, credited, debited, is_exempt, BalanceError, Balances, BalancesCfg};
use crate::exchange_rate::{Asset, AssetClass, ExchangeRate, ExchangeRateError, GetExchangeRateRequest};
use crate::keyed::{entry_map, find_key, keys_unique, put_key, remove_key};
use crate::number::{
    after_first, before_first, find_char, first_pos, fraction_digits, fraction_part, is_u64_text,
    lemma_first_pos_bounds, rescaled_text, u64_text_value, ParsedNumber,
};
use crate::rate_cache::{RateCache, RateCacheEntry};
use crate::rate_data::{AssetData, AssetDataResult};
use crate::source::{censored_keys, keys_of, HttpSource, RateResult, Source, SourceError, SourceValue};

verus! {

/// How a feed's answer is made.
#[derive(Debug, Clone, Copy, PartialEq, Eq, Structural)]
pub enum FeedType {
    Custom,
    CustomNumber,
    CustomString,
    Default,
}

/// A kind of feed to list.
#[derive(Debug, Clone, Copy, PartialEq, Eq, Structural)]
pub enum FeedTypeFilter {
    CustomNumber,
    CustomString,
    Custom,
    Default,
}

pub open spec fn filter_admits(f: FeedTypeFilter, t: FeedType) -> bool {
    match f {
        FeedTypeFilter::Custom => t == FeedType::Custom,
        FeedTypeFilter::Default => t == FeedType::Default,
        FeedTypeFilter::CustomNumber => t == FeedType::CustomNumber,
        FeedTypeFilter::CustomString => t == FeedType::CustomString,
    }
}

impl FeedTypeFilter {
    /// Whether a feed of type `other` is of this kind.
    pub fn filter(&self, other: &FeedType) -> (r: bool)
        ensures
            r == filter_admits(*self, *other),
    {
        match (self, other) {
            (FeedTypeFilter::Custom, FeedType::Custom) => true,
            (FeedTypeFilter::Default, FeedType::Default) => true,
            (FeedTypeFilter::CustomNumber, FeedType::CustomNumber) => true,
            (FeedTypeFilter::CustomString, FeedType::CustomString) => true,
            _ => false,
        }
    }
}

/// What to list: feeds of a kind, of an owner, or matching a search text.
#[derive(Debug)]
pub struct GetFeedsFilter {
    pub feed_type: Option<FeedTypeFilter>,
    pub owner: Option<String>,
    pub search: Option<String>,
}

#[derive(Debug, Clone, Copy, PartialEq, Eq, Structural)]
pub struct FeedStatus {
    pub last_update: u64,
    pub updated_counter: u64,
    pub requests_counter: u64,
}

/// A named, owned recipe for one answer of the oracle.
#[derive(Debug)]
pub struct Feed {
    pub id: String,
    pub feed_type: FeedType,
    pub update_freq: u64,
    pub sources: Option<Vec<HttpSource>>,
    pub new_sources: Option<Vec<Source>>,
    pub decimals: Option<u64>,
    pub status: FeedStatus,
    pub owner: String,
    pub data: Option<AssetDataResult>,
}

/// `b` is `a` with the keys of every web source hidden.
pub open spec fn censored_sources(a: Seq<Source>, b: Seq<Source>) -> bool {
    &&& a.len() == b.len()
    &&& forall|i: int|
        0 <= i < a.len() ==> match (#[trigger] a[i], b[i]) {
            (Source::HttpSource(x), Source::HttpSource(y)) => y.uri == x.uri && y.resolver == x.resolver
                && y.expected_bytes == x.expected_bytes && (y.api_keys is Some <==> x.api_keys is Some)
                && censored_keys(keys_of(x), keys_of(y)),
            (Source::EvmEventLogsSource(x), Source::EvmEventLogsSource(y)) => y == x,
            _ => false,
        }
}

/// Whether a caller must see the feed's sources censored: when it is not the owner.
pub open spec fn needs_censoring(owner: Seq<char>, caller: Option<String>) -> bool {
    match caller {
        Some(c) => c@ != owner,
        None => true,
    }
}

fn censor_sources(sources: &mut Vec<Source>)
    ensures
        censored_sources(old(sources)@, final(sources)@),
{
    let ghost orig = sources@;
    let mut rest: Vec<Source> = Vec::new();
    std::mem::swap(sources, &mut rest);
    let n = rest.len();
    let mut out: Vec<Source> = Vec::new();
    let mut k: usize = 0;
    while k < n
        invariant
            n == orig.len(),
            k <= n,
            rest@ == orig.subrange(k as int, n as int),
            censored_sources(orig.subrange(0, k as int), out@),
        decreases n - k,
    {
        let s = rest.remove(0);
        let t = match s {
            Source::HttpSource(h) => {
                let mut h = h;
                h.censor_keys();
                Source::HttpSource(h)
            },
            other => other,
        };
        out.push(t);
        proof {
            let a = orig.subrange(0, k + 1);
            assert(a[k as int] == orig[k as int]);
            assert forall|i: int| 0 <= i < k implies #[trigger] a[i] == orig.subrange(0, k as int)[i] by {}
        }
        k = k + 1;
    }
    assert(orig.subrange(0, n as int) == orig);
    *sources = out;
}

impl Feed {
    pub fn set_owner(&mut self, owner: String)
        ensures
            final(self).owner == owner,
            final(self).id == old(self).id,
            final(self).feed_type == old(self).feed_type,
            final(self).update_freq == old(self).update_freq,
            final(self).new_sources == old(self).new_sources,
            final(self).decimals == old(self).decimals,
    {
        self.owner = owner;
    }

    /// Hides the keys of the feed's web sources from a caller that is not its owner.
    pub fn censor_if_needed(&mut self, caller: &Option<String>)
        ensures
            final(self).id == old(self).id,
            final(self).owner == old(self).owner,
            final(self).feed_type == old(self).feed_type,
            final(self).update_freq == old(self).update_freq,
            final(self).decimals == old(self).decimals,
            final(self).status == old(self).status,
            final(self).data == old(self).data,
            final(self).sources == old(self).sources,
            final(self).new_sources is Some <==> old(self).new_sources is Some,
            !needs_censoring(old(self).owner@, *caller) ==> *final(self) == *old(self),
            needs_censoring(old(self).owner@, *caller) ==> (old(self).new_sources matches Some(a)
                ==> final(self).new_sources matches Some(b) && censored_sources(a@, b@)),
    {
        let needed = match caller {
            Some(c) => !(*c == self.owner),
            None => true,
        };
        if needed {
            if let Some(sources) = &mut self.new_sources {
                censor_sources(sources);
            }
        }
    }
}

/// The base and quote of a feed id `BASE/QUOTE`: exactly one `/`, with a
/// non-empty part on each side.
pub open spec fn feed_assets(id: Seq<char>) -> Option<(Seq<char>, Seq<char>)> {
    let rest = after_first(id, '/');
    if first_pos(id, '/') < id.len() && first_pos(rest, '/') == rest.len() && before_first(id, '/').len()
        > 0 && rest.len() > 0 {
        Some((before_first(id, '/'), rest))
    } else {
        None
    }
}

/// Whether `f` is of the filter's kind and owner.
pub open spec fn admitted(filter: GetFeedsFilter, f: Feed) -> bool {
    &&& filter.feed_type matches Some(t) ==> filter_admits(t, f.feed_type)
    &&& filter.owner matches Some(o) ==> f.owner@ == o@
}

/// The feeds of `s` that the filter admits, in order.
pub open spec fn selected(filter: GetFeedsFilter, s: Seq<(String, Feed)>) -> Seq<Feed>
    decreases s.len(),
{
    if s.len() == 0 {
        Seq::empty()
    } else if admitted(filter, s.last().1) {
        selected(filter, s.drop_last()).push(s.last().1)
    } else {
        selected(filter, s.drop_last())
    }
}

/// The feeds, keyed by id.
#[derive(Debug)]
pub struct FeedStorage {
    pub feeds: Vec<(String, Feed)>,
}

impl FeedStorage {
    pub open spec fn wf(&self) -> bool {
        keys_unique(self.feeds@)
    }

    pub open spec fn view(&self) -> Map<Seq<char>, Feed> {
        entry_map(self.feeds@)
    }

    pub fn new() -> (r: FeedStorage)
        ensures
            r.wf(),
            r@ == Map::<Seq<char>, Feed>::empty(),
    {
        let r = FeedStorage { feeds: Vec::new() };
        assert(r@ =~= Map::<Seq<char>, Feed>::empty());
        r
    }

    /// Stores `feed` under its id, replacing any feed of that id.
    pub fn add(&mut self, feed: Feed)
        requires
            old(self).wf(),
        ensures
            final(self).wf(),
            final(self)@ == old(self)@.insert(feed.id@, feed),
    {
        let id = feed.id.clone();
        put_key(&mut self.feeds, id, feed);
    }

    pub fn remove(&mut self, id: &String)
        requires
            old(self).wf(),
        ensures
            final(self).wf(),
            final(self)@ == old(self)@.remove(id@),
    {
        remove_key(&mut self.feeds, id);
    }

    pub fn get(&self, id: &String) -> (r: Option<&Feed>)
        requires
            self.wf(),
        ensures
            r is Some <==> self@.contains_key(id@),
            r matches Some(f) ==> *f == self@[id@],
    {
        match find_key(&self.feeds, id) {
            Some(i) => Some(&self.feeds[i].1),
            None => None,
        }
    }

    pub fn contains(&self, id: &String) -> (r: bool)
        requires
            self.wf(),
        ensures
            r == self@.contains_key(id@),
    {
        find_key(&self.feeds, id).is_some()
    }

    pub fn clear(&mut self)
        ensures
            final(self).wf(),
            final(self)@ == Map::<Seq<char>, Feed>::empty(),
    {
        self.feeds = Vec::new();
        assert(self@ =~= Map::<Seq<char>, Feed>::empty());
    }

    /// Records the latest answer of the feed `id`, for display only.
    pub fn set_data(&mut self, id: &String, answer: AssetDataResult) -> (r: Result<(), FeedError>)
        requires
            old(self).wf(),
        ensures
            final(self).wf(),
            r is Ok <==> old(self)@.contains_key(id@),
            r is Err ==> (r matches Err(FeedError::FeedNotFound)) && final(self)@ == old(self)@,
            r is Ok ==> final(self)@.dom() == old(self)@.dom() && final(self)@[id@].data == Some(answer)
                && final(self)@[id@].id == old(self)@[id@].id && final(self)@[id@].owner == old(
                self,
            )@[id@].owner && final(self)@[id@].feed_type == old(self)@[id@].feed_type && forall|k: Seq<char>|
                k != id@ && old(self)@.contains_key(k) ==> #[trigger] final(self)@[k] == old(self)@[k],
    {
        match remove_key(&mut self.feeds, id) {
            None => Err(FeedError::FeedNotFound),
            Some(feed) => {
                let mut feed = feed;
                feed.data = Some(answer);
                put_key(&mut self.feeds, id.clone(), feed);
                proof {
                    assert(self@.dom() =~= old(self)@.dom());
                }
                Ok(())
            },
        }
    }

    /// The feeds of the filter's kind and owner, where it names them, in
    /// storage order. The search text is not applied here.
    pub fn get_all(&self, filter: &GetFeedsFilter) -> (r: Vec<&Feed>)
        ensures
            r@.map_values(|f: &Feed| *f) == selected(*filter, self.feeds@),
    {
        let mut out: Vec<&Feed> = Vec::new();
        let mut j: usize = 0;
        while j < self.feeds.len()
            invariant
                j <= self.feeds@.len(),
                out@.map_values(|f: &Feed| *f) == selected(*filter, self.feeds@.subrange(0, j as int)),
            decreases self.feeds@.len() - j,
        {
            let f = &self.feeds[j].1;
            let type_ok = match &filter.feed_type {
                Some(t) => t.filter(&f.feed_type),
                None => true,
            };
            let owner_ok = match &filter.owner {
                Some(o) => f.owner == *o,
                None => true,
            };
            let ghost before = out@;
            proof {
                assert(self.feeds@.subrange(0, j + 1).drop_last() == self.feeds@.subrange(0, j as int));
            }
            if type_ok && owner_ok {
                out.push(f);
                assert(out@.map_values(|f: &Feed| *f) =~= before.map_values(|f: &Feed| *f).push(*f));
            }
            j = j + 1;
        }
        assert(self.feeds@.subrange(0, self.feeds@.len() as int) == self.feeds@);
        out
    }

    /// The base asset (a cryptocurrency) and quote asset (a fiat currency) of
    /// a feed id `BASE/QUOTE`.
    pub fn get_assets(id: &str) -> (r: Option<(Asset, Asset)>)
        ensures
            r is Some <==> feed_assets(id@) is Some,
            r matches Some((b, q)) ==> feed_assets(id@) == Some((b.symbol@, q.symbol@))
                && b.class == AssetClass::Cryptocurrency && q.class == AssetClass::FiatCurrency,
    {
        let len = id.unicode_len();
        let slash = find_char(id, '/');
        proof {
            lemma_first_pos_bounds(id@, '/');
        }
        if slash == len {
            return None;
        }
        let rest = id.substring_char(slash + 1, len);
        assert(rest@ == after_first(id@, '/'));
        let rest_len = rest.unicode_len();
        let slash2 = find_char(rest, '/');
        proof {
            lemma_first_pos_bounds(rest@, '/');
        }
        if slash2 == rest_len && slash > 0 && rest_len > 0 {
            let base = String::from_str(id.substring_char(0, slash));
            let quote = String::from_str(rest);
            Some((
                Asset { class: AssetClass::Cryptocurrency, symbol: base },
                Asset { class: AssetClass::FiatCurrency, symbol: quote },
            ))
        } else {
            None
        }
    }
}

/// Attempts at each exchange-rate service before giving up on it.
pub const RATE_FETCH_DEFAULT_XRC_MAX_RETRIES: u64 = 5;
pub const RATE_FETCH_FALLBACK_XRC_MAX_RETRIES: u64 = 5;
/// Milliseconds to wait between two attempts.
pub const WAITING_BEFORE_RETRY_MS: u64 = 500;
/// How far in the past the rate is asked for, in seconds.
pub const XRC_TIMESTAMP_LAG_SECS: u64 = 5;

#[derive(Debug)]
pub enum FeedError {
    FeedNotFound,
    InvalidFeedId,
    UnableToGetRate(String),
    UnableToConvertRate(String),
    ExchangeRateCanisterError(ExchangeRateError),
    NoRateValueGotFromSources,
    ValueTypeIsNotCompatibleWithFeedType,
    RateDataError(String),
    Balance(BalanceError),
    Canister(String),
    SourceError(Vec<SourceError>),
}

/// The exchange-rate service being asked.
#[derive(Debug, Clone, Copy, PartialEq, Eq, Structural)]
pub enum XrcStage {
    Primary,
    Fallback,
}

/// Where the default path stands: which service, and which attempt at it.
#[derive(Debug, Clone, Copy, PartialEq, Eq, Structural)]
pub struct XrcRetry {
    pub stage: XrcStage,
    pub attempt: u64,
}

/// What to do after an attempt.
#[derive(Debug)]
pub enum XrcStep {
    /// The rate came.
    Finished(ExchangeRate),
    /// Give up with this error.
    Failed(FeedError),
    /// Wait, then make the attempt described.
    Retry(XrcRetry),
}

pub open spec fn max_attempts(stage: XrcStage) -> u64 {
    match stage {
        XrcStage::Primary => RATE_FETCH_DEFAULT_XRC_MAX_RETRIES,
        XrcStage::Fallback => RATE_FETCH_FALLBACK_XRC_MAX_RETRIES,
    }
}

pub open spec fn is_rate_limited(e: FeedError) -> bool {
    e matches FeedError::ExchangeRateCanisterError(ExchangeRateError::RateLimited)
}

/// The attempt after one that failed with `e`, or `None` to give up. A rate
/// limit ends everything at once; otherwise each service has its own budget
/// of attempts, and the fallback comes after the primary's budget is spent.
pub open spec fn xrc_next(s: XrcRetry, e: FeedError) -> Option<XrcRetry> {
    if is_rate_limited(e) {
        None
    } else if s.attempt + 1 < max_attempts(s.stage) {
        Some(XrcRetry { stage: s.stage, attempt: (s.attempt + 1) as u64 })
    } else if s.stage == XrcStage::Primary {
        Some(XrcRetry { stage: XrcStage::Fallback, attempt: 0 })
    } else {
        None
    }
}

pub open spec fn first_attempt() -> XrcRetry {
    XrcRetry { stage: XrcStage::Primary, attempt: 0 }
}

/// Where `k` failures in a row with `e` lead from `s`.
pub open spec fn after_failures(s: XrcRetry, e: FeedError, k: nat) -> Option<XrcRetry>
    decreases k,
{
    if k == 0 {
        Some(s)
    } else {
        match after_failures(s, e, (k - 1) as nat) {
            Some(t) => xrc_next(t, e),
            None => None,
        }
    }
}

/// When every attempt at the primary service fails with an error other than
/// a rate limit, the fallback is asked next, with an attempt budget of its
/// own; when that is spent too, the default path fails. A rate limit from the
/// primary ends the default path at once, with no retry and no fallback.
pub proof fn lemma_default_fallback(e: FeedError, limited: FeedError)
    requires
        !is_rate_limited(e),
        is_rate_limited(limited),
    ensures
        forall|k: nat| k < 5 ==> #[trigger] after_failures(first_attempt(), e, k) == Some(
            XrcRetry { stage: XrcStage::Primary, attempt: k as u64 },
        ),
        after_failures(first_attempt(), e, 5) == Some(XrcRetry { stage: XrcStage::Fallback, attempt: 0 }),
        forall|k: nat| 5 <= k < 10 ==> #[trigger] after_failures(first_attempt(), e, k) == Some(
            XrcRetry { stage: XrcStage::Fallback, attempt: (k - 5) as u64 },
        ),
        after_failures(first_attempt(), e, 10) is None,
        forall|a: u64| a < 5 ==> #[trigger] xrc_next(XrcRetry { stage: XrcStage::Primary, attempt: a }, limited) is None,
{
    let s = first_attempt();
    assert(after_failures(s, e, 0) == Some(s));
    assert(after_failures(s, e, 1) == Some(XrcRetry { stage: XrcStage::Primary, attempt: 1 }));
    assert(after_failures(s, e, 2) == Some(XrcRetry { stage: XrcStage::Primary, attempt: 2 }));
    assert(after_failures(s, e, 3) == Some(XrcRetry { stage: XrcStage::Primary, attempt: 3 }));
    assert(after_failures(s, e, 4) == Some(XrcRetry { stage: XrcStage::Primary, attempt: 4 }));
    assert(after_failures(s, e, 5) == Some(XrcRetry { stage: XrcStage::Fallback, attempt: 0 }));
    assert(after_failures(s, e, 6) == Some(XrcRetry { stage: XrcStage::Fallback, attempt: 1 }));
    assert(after_failures(s, e, 7) == Some(XrcRetry { stage: XrcStage::Fallback, attempt: 2 }));
    assert(after_failures(s, e, 8) == Some(XrcRetry { stage: XrcStage::Fallback, attempt: 3 }));
    assert(after_failures(s, e, 9) == Some(XrcRetry { stage: XrcStage::Fallback, attempt: 4 }));
    assert(after_failures(s, e, 10) is None);
    assert forall|k: nat| k < 5 implies #[trigger] after_failures(s, e, k) == Some(
        XrcRetry { stage: XrcStage::Primary, attempt: k as u64 },
    ) by {
        if k == 0 {} else if k == 1 {} else if k == 2 {} else if k == 3 {} else {}
    }
    assert forall|k: nat| 5 <= k < 10 implies #[trigger] after_failures(s, e, k) == Some(
        XrcRetry { stage: XrcStage::Fallback, attempt: (k - 5) as u64 },
    ) by {
        if k == 5 {} else if k == 6 {} else if k == 7 {} else if k == 8 {} else {}
    }
}

impl XrcRetry {
    pub fn start() -> (r: XrcRetry)
        ensures
            r == first_attempt(),
    {
        XrcRetry { stage: XrcStage::Primary, attempt: 0 }
    }

    /// Decides what follows an attempt that ended with `outcome`. A failed call
    /// is given as `UnableToGetRate`, an error of the service as
    /// `ExchangeRateCanisterError`.
    pub fn on_result(&self, outcome: Result<ExchangeRate, FeedError>) -> (r: XrcStep)
        requires
            self.attempt < max_attempts(self.stage),
        ensures
            match outcome {
                Ok(x) => r == XrcStep::Finished(x),
                Err(e) => match xrc_next(*self, e) {
                    Some(n) => r == XrcStep::Retry(n) && n.attempt < max_attempts(n.stage),
                    None => r == XrcStep::Failed(e),
                },
            },
    {
        match outcome {
            Ok(x) => XrcStep::Finished(x),
            Err(e) => {
                let limited = match &e {
                    FeedError::ExchangeRateCanisterError(ExchangeRateError::RateLimited) => true,
                    _ => false,
                };
                let budget = match self.stage {
                    XrcStage::Primary => RATE_FETCH_DEFAULT_XRC_MAX_RETRIES,
                    XrcStage::Fallback => RATE_FETCH_FALLBACK_XRC_MAX_RETRIES,
                };
                if limited {
                    XrcStep::Failed(e)
                } else if self.attempt + 1 < budget {
                    XrcStep::Retry(XrcRetry { stage: self.stage, attempt: self.attempt + 1 })
                } else if self.stage == XrcStage::Primary {
                    XrcStep::Retry(XrcRetry { stage: XrcStage::Fallback, attempt: 0 })
                } else {
                    XrcStep::Failed(e)
                }
            },
        }
    }
}

/// The time the exchange-rate service is asked about: a few seconds before `now`.
pub open spec fn lagged(now: u64) -> u64 {
    if now >= XRC_TIMESTAMP_LAG_SECS { (now - XRC_TIMESTAMP_LAG_SECS) as u64 } else { 0 }
}

pub fn request_timestamp(now: u64) -> (r: u64)
    ensures
        r == lagged(now),
{
    if now >= XRC_TIMESTAMP_LAG_SECS { now - XRC_TIMESTAMP_LAG_SECS } else { 0 }
}

/// How the default path begins.
#[derive(Debug)]
pub enum DefaultStart {
    /// A cached answer that is still fresh.
    Cached(AssetDataResult),
    /// Ask the exchange-rate services this.
    Call(GetExchangeRateRequest),
}

/// The answer that the default path caches and returns for a rate.
pub open spec fn default_answer(feed: Feed, rate: ExchangeRate) -> AssetDataResult {
    AssetDataResult {
        data: AssetData::DefaultPriceFeed {
            symbol: feed.id,
            rate: rate.rate,
            decimals: match feed.decimals {
                Some(d) => d,
                None => rate.metadata.decimals as u64,
            },
            timestamp: rate.timestamp,
        },
        signature: None,
    }
}

/// When an answer cached at `now` for `ttl` seconds stops being served.
pub open spec fn expiry(now: u64, ttl: u64) -> u64 {
    if now + ttl <= u64::MAX { (now + ttl) as u64 } else { u64::MAX }
}

impl FeedStorage {
    /// First step of the default path of `feed` at `now`: a fresh cached
    /// answer, or the question to put to the exchange-rate services.
    pub fn default_rate_start(cache: &mut RateCache, feed: &Feed, now: u64) -> (r: Result<
        DefaultStart,
        FeedError,
    >)
        requires
            old(cache).wf(),
        ensures
            final(cache).wf(),
            old(cache)@.contains_key(feed.id@) && now <= old(cache)@[feed.id@].expired_at ==> (r
                matches Ok(DefaultStart::Cached(a)) && a == old(cache)@[feed.id@].data
                && final(cache)@ == old(cache)@),
            !(old(cache)@.contains_key(feed.id@) && now <= old(cache)@[feed.id@].expired_at)
                ==> final(cache)@ == old(cache)@.remove(feed.id@),
            !(old(cache)@.contains_key(feed.id@) && now <= old(cache)@[feed.id@].expired_at)
                && feed_assets(feed.id@) is None ==> (r matches Err(FeedError::InvalidFeedId)),
            !(old(cache)@.contains_key(feed.id@) && now <= old(cache)@[feed.id@].expired_at)
                && feed_assets(feed.id@) is Some ==> (r matches Ok(DefaultStart::Call(req))
                && feed_assets(feed.id@) == Some((req.base_asset.symbol@, req.quote_asset.symbol@))
                && req.base_asset.class == AssetClass::Cryptocurrency && req.quote_asset.class
                == AssetClass::FiatCurrency && req.timestamp == Some(lagged(now))),
    {
        if let Some(cached) = cache.get_entry(&feed.id, now) {
            return Ok(DefaultStart::Cached(cached));
        }
        proof {
            if !old(cache)@.contains_key(feed.id@) {
                assert(old(cache)@ =~= old(cache)@.remove(feed.id@));
            }
        }
        match FeedStorage::get_assets(feed.id.as_str()) {
            None => Err(FeedError::InvalidFeedId),
            Some((base_asset, quote_asset)) => Ok(DefaultStart::Call(GetExchangeRateRequest {
                timestamp: Some(request_timestamp(now)),
                quote_asset,
                base_asset,
            })),
        }
    }

    /// Last step of the default path: the answer for `rate`, cached for the
    /// feed's update frequency.
    pub fn default_rate_finish(cache: &mut RateCache, feed: &Feed, rate: &ExchangeRate, now: u64) -> (r:
        AssetDataResult)
        requires
            old(cache).wf(),
        ensures
            final(cache).wf(),
            r == default_answer(*feed, *rate),
            final(cache)@ == old(cache)@.insert(
                feed.id@,
                RateCacheEntry { expired_at: expiry(now, feed.update_freq), data: r },
            ),
    {
        let decimals = match feed.decimals {
            Some(d) => d,
            None => rate.metadata.decimals as u64,
        };
        let answer = AssetDataResult {
            data: AssetData::DefaultPriceFeed {
                symbol: feed.id.clone(),
                rate: rate.rate,
                decimals,
                timestamp: rate.timestamp,
            },
            signature: None,
        };
        let ttl = if feed.update_freq <= u64::MAX - now { feed.update_freq } else { u64::MAX - now };
        cache.add_entry(feed.id.clone(), answer.duplicate(), ttl, now);
        answer
    }
}

/// Whether the values have the shape that a numeric feed of type `t` reads:
/// numbers for `Custom`; for `CustomNumber`, all texts or all numbers, as the
/// first one is.
pub open spec fn shape_ok(vals: Seq<SourceValue>, t: FeedType) -> bool {
    if t == FeedType::CustomNumber && vals[0] is Text {
        forall|i: int| 0 <= i < vals.len() ==> (#[trigger] vals[i]) is Text
    } else if t == FeedType::CustomNumber && vals[0] is Other {
        false
    } else {
        forall|i: int| 0 <= i < vals.len() ==> (#[trigger] vals[i]) is Number
    }
}

/// The most fraction digits among the texts.
pub open spec fn max_fraction(ts: Seq<Seq<char>>) -> nat
    decreases ts.len(),
{
    if ts.len() == 0 {
        0
    } else {
        let m = max_fraction(ts.drop_last());
        let f = fraction_part(ts.last()).len();
        if f > m { f } else { m }
    }
}

/// The texts of the values.
pub open spec fn texts_of(vals: Seq<SourceValue>) -> Seq<Seq<char>> {
    Seq::new(vals.len(), |i: int| vals[i]@)
}

/// The scale of a numeric answer: the feed's decimals, else the most
/// fraction digits among the values.
pub open spec fn scale_of(decimals: Option<u64>, ts: Seq<Seq<char>>) -> nat {
    match decimals {
        Some(d) => d as nat,
        None => max_fraction(ts),
    }
}

pub open spec fn scaled_ok(ts: Seq<Seq<char>>, sc: nat) -> bool {
    forall|i: int| 0 <= i < ts.len() ==> is_u64_text(rescaled_text(#[trigger] ts[i], sc))
}

/// The values as integers at scale `sc`.
pub open spec fn scaled_values(ts: Seq<Seq<char>>, sc: nat) -> Seq<u64> {
    Seq::new(ts.len(), |i: int| u64_text_value(rescaled_text(ts[i], sc)) as u64)
}

/// The latest of the timestamps (0 for none).
pub open spec fn max_stamp(s: Seq<u64>) -> u64
    decreases s.len(),
{
    if s.len() == 0 {
        0
    } else {
        let m = max_stamp(s.drop_last());
        if s.last() > m { s.last() } else { m }
    }
}

/// Index `i` holds a most frequent text, the least of those in text order,
/// and no earlier index holds the same text: the value that a stable sort
/// puts first among the most frequent ones.
pub open spec fn is_top_text(vals: Seq<SourceValue>, i: int) -> bool {
    &&& 0 <= i < vals.len()
    &&& forall|j: int| 0 <= j < vals.len() ==> tally(vals, (#[trigger] vals[j])@) <= tally(vals, vals[i]@)
    &&& forall|j: int|
        0 <= j < vals.len() && tally(vals, (#[trigger] vals[j])@) == tally(vals, vals[i]@) ==> lex_le(
            vals[i]@,
            vals[j]@,
        )
    &&& forall|j: int| 0 <= j < i ==> (#[trigger] vals[j])@ != vals[i]@
}

/// The index of the value a text feed answers with.
pub open spec fn top_index(vals: Seq<SourceValue>) -> int {
    choose|i: int| is_top_text(vals, i)
}

/// The answer that a custom feed makes of its sources' values. Numbers are
/// all brought to the most fraction digits among them, their exact mean is
/// taken, and it is cut to the feed's decimals (to that common scale when the
/// feed has none); texts give their most frequent value. `None` where the
/// values give no answer.
pub open spec fn aggregated(
    t: FeedType,
    id: String,
    decimals: Option<u64>,
    vals: Seq<SourceValue>,
    stamps: Seq<u64>,
) -> Option<AssetData> {
    if vals.len() == 0 || t == FeedType::Default {
        None
    } else if t == FeedType::CustomString {
        if forall|i: int| 0 <= i < vals.len() ==> (#[trigger] vals[i]) is Text {
            match vals[top_index(vals)] {
                SourceValue::Text(v) => Some(AssetData::CustomString { id, value: v }),
                _ => None,
            }
        } else {
            None
        }
    } else if !shape_ok(vals, t) {
        None
    } else {
        let ts = texts_of(vals);
        let sc = max_fraction(ts);
        let d = scale_of(decimals, ts);
        if !scaled_ok(ts, sc) {
            None
        } else {
            let m = truncated_mean(sum_of(scaled_values(ts, sc)), vals.len(), sc, d);
            if m > u64::MAX {
                None
            } else if t == FeedType::CustomNumber {
                Some(AssetData::CustomNumber { id, value: m as u64, decimals: d as u64 })
            } else {
                Some(
                    AssetData::CustomPriceFeed {
                        symbol: id,
                        rate: m as u64,
                        decimals: d as u64,
                        timestamp: max_stamp(stamps),
                    },
                )
            }
        }
    }
}

pub open spec fn pow10(k: nat) -> nat
    decreases k,
{
    if k == 0 {
        1
    } else {
        10 * pow10((k - 1) as nat)
    }
}

proof fn lemma_pow10_add(a: nat, b: nat)
    ensures
        pow10(a + b) == pow10(a) * pow10(b),
        pow10(a) > 0,
    decreases a,
{
    if a > 0 {
        lemma_pow10_add((a - 1) as nat, b);
        assert((a + b - 1) as nat == (a - 1 + b) as nat);
        assert(pow10(a + b) == 10 * pow10((a - 1 + b) as nat));
        assert(pow10(a) == 10 * pow10((a - 1) as nat));
        assert(10 * (pow10((a - 1) as nat) * pow10(b)) == (10 * pow10((a - 1) as nat)) * pow10(b)) by (nonlinear_arith);
    } else {
        assert(pow10(0) == 1);
        assert(a + b == b);
    }
}

/// The mean of `n` values whose sum at scale `s` is `sum`, cut to `d`
/// decimals: the floor of `sum * 10^d / (n * 10^s)`.
pub open spec fn truncated_mean(sum: nat, n: nat, s: nat, d: nat) -> nat {
    (sum * pow10(d)) / (n * pow10(s))
}

/// The mean cut to `d` decimals, when it fits in a `u64`.
fn scaled_mean(sum: u128, n: u128, s: u64, d: u64) -> (r: Option<u64>)
    requires
        0 < n <= u64::MAX,
    ensures
        truncated_mean(sum as nat, n as nat, s as nat, d as nat) <= u64::MAX ==> r == Some(
            truncated_mean(sum as nat, n as nat, s as nat, d as nat) as u64,
        ),
        truncated_mean(sum as nat, n as nat, s as nat, d as nat) > u64::MAX ==> r is None,
{
    let ghost tm = truncated_mean(sum as nat, n as nat, s as nat, d as nat);
    if d <= s {
        let k = s - d;
        let mut q: u128 = sum / n;
        let mut i: u64 = 0;
        proof {
            lemma_pow10_add(0, 0);
            assert(pow10(0) == 1);
        }
        while i < k
            invariant
                0 < n <= u64::MAX,
                i <= k,
                q as nat == (sum as nat / n as nat) / pow10(i as nat),
            decreases k - i,
        {
            proof {
                lemma_pow10_add(i as nat, 1);
                lemma_div_denominator((sum / n) as int, pow10(i as nat) as int, 10);
            }
            q = q / 10;
            i = i + 1;
        }
        proof {
            let pd = pow10(d as nat);
            let pk = pow10(k as nat);
            lemma_pow10_add(d as nat, k as nat);
            lemma_pow10_add(k as nat, 0);
            assert(d + k == s);
            lemma_div_denominator(sum as int, n as int, pk as int);
            lemma_div_multiples_vanish_quotient(pd as int, sum as int, (n * pk) as int);
            assert(pd * (n * pk) == n * pow10(s as nat)) by (nonlinear_arith)
                requires pow10(s as nat) == pd * pk;
            assert(pd * sum == sum * pd) by (nonlinear_arith);
            assert(q as nat == tm);
        }
        if q > u64::MAX as u128 {
            None
        } else {
            Some(q as u64)
        }
    } else {
        let k = d - s;
        let mut m: u128 = sum;
        let mut i: u64 = 0;
        proof {
            lemma_pow10_add(0, 0);
            assert(pow10(0) == 1);
        }
        while i < k
            invariant
                0 < n <= u64::MAX,
                d > s,
                k == d - s,
                tm == truncated_mean(sum as nat, n as nat, s as nat, d as nat),
                i <= k,
                m as nat == sum as nat * pow10(i as nat),
            decreases k - i,
        {
            proof {
                lemma_pow10_add(i as nat, 1);
                assert(pow10((i + 1) as nat) == pow10(i as nat) * 10);
            }
            if m > u128::MAX / 10 {
                proof {
                    let x = sum as nat * pow10(k as nat);
                    lemma_pow10_add((i + 1) as nat, (k - i - 1) as nat);
                    lemma_pow10_add((k - i - 1) as nat, 0);
                    assert(m * 10 > u128::MAX) by (nonlinear_arith)
                        requires m > u128::MAX / 10;
                    assert(sum * pow10((i + 1) as nat) == m * 10) by (nonlinear_arith)
                        requires m == sum * pow10(i as nat), pow10((i + 1) as nat) == pow10(i as nat) * 10;
                    assert(x >= sum * pow10((i + 1) as nat)) by (nonlinear_arith)
                        requires
                            x == sum * pow10(k as nat),
                            pow10(k as nat) == pow10((i + 1) as nat) * pow10((k - i - 1) as nat),
                            pow10((k - i - 1) as nat) > 0;
                    lemma_pow10_add(s as nat, k as nat);
                    lemma_pow10_add(s as nat, 0);
                    let ps = pow10(s as nat);
                    let nn = n as nat;
                    lemma_div_multiples_vanish_quotient(ps as int, x as int, nn as int);
                    assert(ps * x == (sum as nat) * pow10(d as nat)) by (nonlinear_arith)
                        requires x == (sum as nat) * pow10(k as nat), pow10(d as nat) == ps * pow10(k as nat);
                    assert(ps * nn == nn * pow10(s as nat)) by (nonlinear_arith)
                        requires ps == pow10(s as nat);
                    assert(tm == (ps * x) / (ps * nn));
                    assert(tm == x / nn);
                    lemma_fundamental_div_mod(x as int, nn as int);
                    assert(x / nn > u64::MAX) by (nonlinear_arith)
                        requires
                            x > u128::MAX,
                            0 < nn <= u64::MAX,
                            x == nn * (x / nn) + x % nn,
                            x % nn < nn;
                }
                return None;
            }
            let ghost m0 = m;
            m = m * 10;
            proof {
                assert(m == sum * pow10((i + 1) as nat)) by (nonlinear_arith)
                    requires m == m0 * 10, m0 == sum * pow10(i as nat), pow10((i + 1) as nat) == pow10(i as nat) * 10;
            }
            i = i + 1;
        }
        let q = m / n;
        proof {
            lemma_pow10_add(s as nat, k as nat);
            lemma_pow10_add(s as nat, 0);
            let ps = pow10(s as nat);
            lemma_div_multiples_vanish_quotient(ps as int, m as int, n as int);
            assert(ps * m == sum * pow10(d as nat)) by (nonlinear_arith)
                requires m == sum * pow10(k as nat), pow10(d as nat) == ps * pow10(k as nat);
            assert(ps * n == n * ps) by (nonlinear_arith);
            assert(q as nat == tm);
        }
        if q > u64::MAX as u128 {
            None
        } else {
            Some(q as u64)
        }
    }
}

proof fn lemma_top_index_unique(vals: Seq<SourceValue>, i: int)
    requires
        is_top_text(vals, i),
    ensures
        top_index(vals) == i,
{
    let j = top_index(vals);
    assert(is_top_text(vals, j));
    assert(tally(vals, vals[j]@) == tally(vals, vals[i]@));
    assert(lex_le(vals[i]@, vals[j]@));
    assert(lex_le(vals[j]@, vals[i]@));
    lemma_lex_antisym(vals[i]@, vals[j]@);
}

fn text_of(v: &SourceValue) -> (r: &String)
    requires
        !(v is Other),
    ensures
        r@ == v@,
{
    match v {
        SourceValue::Text(s) => s,
        SourceValue::Number(s) => s,
        SourceValue::Other => unreached(),
    }
}

/// The sum of the response sizes.
pub open spec fn total_bytes(results: Seq<RateResult>) -> nat
    decreases results.len(),
{
    if results.len() == 0 {
        0
    } else {
        total_bytes(results.drop_last()) + results.last().bytes as nat
    }
}

impl FeedStorage {
    /// Makes one answer of the values that a custom feed's sources gave, in
    /// the feed's kind.
    pub fn aggregate(feed: &Feed, values: &Vec<SourceValue>, stamps: &Vec<u64>) -> (r: Result<AssetData, FeedError>)
        requires
            values@.len() == stamps@.len(),
        ensures
            r is Ok <==> aggregated(feed.feed_type, feed.id, feed.decimals, values@, stamps@) is Some,
            r matches Ok(d) ==> aggregated(feed.feed_type, feed.id, feed.decimals, values@, stamps@)
                == Some(d),
            values@.len() == 0 || feed.feed_type == FeedType::Default ==> (r matches Err(
                FeedError::NoRateValueGotFromSources,
            )),
            values@.len() > 0 && (feed.feed_type == FeedType::Custom || feed.feed_type
                == FeedType::CustomNumber) && !shape_ok(values@, feed.feed_type) ==> (r matches Err(
                FeedError::ValueTypeIsNotCompatibleWithFeedType,
            )),
            values@.len() > 0 && feed.feed_type == FeedType::CustomString && !(forall|i: int|
                0 <= i < values@.len() ==> (#[trigger] values@[i]) is Text) ==> (r matches Err(
                FeedError::ValueTypeIsNotCompatibleWithFeedType,
            )),
    {
        let n = values.len();
        if n == 0 {
            return Err(FeedError::NoRateValueGotFromSources);
        }
        match feed.feed_type {
            FeedType::Default => {
                return Err(FeedError::NoRateValueGotFromSources);
            },
            FeedType::CustomString => {
                let mut i: usize = 0;
                while i < n
                    invariant
                        n == values@.len(),
                        n > 0,
                        feed.feed_type == FeedType::CustomString,
                        i <= n,
                        forall|j: int| 0 <= j < i ==> (#[trigger] values@[j]) is Text,
                    decreases n - i,
                {
                    if !matches!(values[i], SourceValue::Text(_)) {
                        return Err(FeedError::ValueTypeIsNotCompatibleWithFeedType);
                    }
                    i = i + 1;
                }
                let mut best: usize = 0;
                let mut best_count: usize = count_of(values.as_slice(), &values[0]);
                let mut i: usize = 1;
                proof {
                    lemma_lex_refl(values@[0]@);
                }
                while i < n
                    invariant
                        n == values@.len(),
                        n > 0,
                        forall|j: int| 0 <= j < n ==> (#[trigger] values@[j]) is Text,
                        1 <= i <= n,
                        best < i,
                        best_count as nat == tally(values@, values@[best as int]@),
                        forall|j: int| 0 <= j < i ==> tally(values@, (#[trigger] values@[j])@) <= best_count,
                        forall|j: int|
                            0 <= j < i && tally(values@, (#[trigger] values@[j])@) == best_count ==> lex_le(
                                values@[best as int]@,
                                values@[j]@,
                            ),
                        forall|j: int| 0 <= j < best ==> (#[trigger] values@[j])@ != values@[best as int]@,
                    decreases n - i,
                {
                    let c = count_of(values.as_slice(), &values[i]);
                    let a = text_of(&values[i]);
                    let b = text_of(&values[best]);
                    let smaller = text_le(a, b) && !text_le(b, a);
                    let ghost ob = best;
                    let ghost x = values@[i as int]@;
                    let ghost y = values@[ob as int]@;
                    proof {
                        lemma_lex_total(x, y);
                    }
                    if c > best_count || (c == best_count && smaller) {
                        proof {
                            assert forall|j: int| 0 <= j < i + 1 && tally(values@, (#[trigger] values@[j])@) == c implies lex_le(
                                x,
                                values@[j]@,
                            ) by {
                                if j == i {
                                    lemma_lex_refl(x);
                                } else {
                                    lemma_lex_trans(x, y, values@[j]@);
                                }
                            }
                            assert forall|j: int| 0 <= j < i implies (#[trigger] values@[j])@ != x by {
                                if values@[j]@ == x {
                                    assert(tally(values@, values@[j]@) == c);
                                }
                            }
                        }
                        best = i;
                        best_count = c;
                    } else {
                        proof {
                            if c == best_count {
                                assert(lex_le(y, x));
                            }
                        }
                    }
                    i = i + 1;
                }
                proof {
                    assert(is_top_text(values@, best as int));
                    lemma_top_index_unique(values@, best as int);
                }
                match &values[best] {
                    SourceValue::Text(v) => {
                        return Ok(AssetData::CustomString { id: feed.id.clone(), value: v.clone() });
                    },
                    _ => {
                        return Err(FeedError::NoRateValueGotFromSources);
                    },
                }
            },
            _ => {},
        }
        let ghost t = feed.feed_type;
        // The values must all be texts or all numbers.
        let want_text = match &values[0] {
            SourceValue::Text(_) => feed.feed_type == FeedType::CustomNumber,
            SourceValue::Number(_) => false,
            SourceValue::Other => {
                return Err(FeedError::ValueTypeIsNotCompatibleWithFeedType);
            },
        };
        if feed.feed_type == FeedType::Custom && matches!(values[0], SourceValue::Text(_)) {
            return Err(FeedError::ValueTypeIsNotCompatibleWithFeedType);
        }
        let mut i: usize = 0;
        while i < n
            invariant
                n == values@.len(),
                n > 0,
                i <= n,
                t == feed.feed_type,
                t == FeedType::Custom || t == FeedType::CustomNumber,
                want_text == (t == FeedType::CustomNumber && values@[0] is Text),
                !(values@[0] is Other),
                t == FeedType::Custom ==> values@[0] is Number,
                forall|j: int| 0 <= j < i ==> if want_text {
                    (#[trigger] values@[j]) is Text
                } else {
                    values@[j] is Number
                },
            decreases n - i,
        {
            let ok = if want_text {
                matches!(values[i], SourceValue::Text(_))
            } else {
                matches!(values[i], SourceValue::Number(_))
            };
            if !ok {
                return Err(FeedError::ValueTypeIsNotCompatibleWithFeedType);
            }
            i = i + 1;
        }
        assert(shape_ok(values@, t));
        let ghost ts = texts_of(values@);
        // The common scale of the values.
        let mut sc: u64 = 0;
        let mut k: usize = 0;
        while k < n
            invariant
                n == values@.len(),
                k <= n,
                ts == texts_of(values@),
                shape_ok(values@, t),
                t == feed.feed_type,
                n > 0,
                t == FeedType::Custom || t == FeedType::CustomNumber,
                !(values@[0] is Other),
                sc as nat == max_fraction(ts.subrange(0, k as int)),
            decreases n - k,
        {
            assert(!(values@[k as int] is Other));
            let f = fraction_digits(text_of(&values[k]).as_str()) as u64;
            proof {
                assert(ts.subrange(0, k + 1).drop_last() == ts.subrange(0, k as int));
                assert(ts.subrange(0, k + 1).last() == ts[k as int]);
            }
            if f > sc {
                sc = f;
            }
            k = k + 1;
        }
        assert(ts.subrange(0, n as int) == ts);
        let d: u64 = match feed.decimals {
            Some(d) => d,
            None => sc,
        };
        assert(d as nat == scale_of(feed.decimals, ts));
        let mut nums: Vec<u64> = Vec::new();
        let mut k: usize = 0;
        while k < n
            invariant
                n == values@.len(),
                k <= n,
                ts == texts_of(values@),
                shape_ok(values@, t),
                t == feed.feed_type,
                n > 0,
                sc as nat == max_fraction(ts),
                d as nat == scale_of(feed.decimals, ts),
                t == FeedType::Custom || t == FeedType::CustomNumber,
                !(values@[0] is Other),
                nums@.len() == k,
                forall|j: int| 0 <= j < k ==> is_u64_text(rescaled_text(#[trigger] ts[j], sc as nat)),
                forall|j: int| 0 <= j < k ==> #[trigger] nums@[j] == scaled_values(ts, sc as nat)[j],
            decreases n - k,
        {
            assert(!(values@[k as int] is Other));
            let text = text_of(&values[k]);
            match ParsedNumber::parse(text.as_str(), Some(sc)) {
                Ok(p) => {
                    nums.push(p.number);
                },
                Err(_) => {
                    proof {
                        assert(ts[k as int] == text@);
                        assert(!is_u64_text(rescaled_text(ts[k as int], sc as nat)));
                        assert(!scaled_ok(ts, sc as nat));
                    }
                    return Err(FeedError::UnableToConvertRate(String::from_str("invalid number")));
                },
            }
            k = k + 1;
        }
        assert(nums@ == scaled_values(ts, sc as nat));
        let total = sum_all(nums.as_slice());
        let mean = match scaled_mean(total, n as u128, sc, d) {
            Some(m) => m,
            None => {
                return Err(FeedError::UnableToConvertRate(String::from_str("mean out of range")));
            },
        };
        if feed.feed_type == FeedType::CustomNumber {
            Ok(AssetData::CustomNumber { id: feed.id.clone(), value: mean, decimals: d })
        } else {
            let mut latest: u64 = 0;
            let mut k: usize = 0;
            while k < stamps.len()
                invariant
                    k <= stamps@.len(),
                    latest == max_stamp(stamps@.subrange(0, k as int)),
                decreases stamps@.len() - k,
            {
                proof {
                    assert(stamps@.subrange(0, k + 1).drop_last() == stamps@.subrange(0, k as int));
                }
                if stamps[k] > latest {
                    latest = stamps[k];
                }
                k = k + 1;
            }
            assert(stamps@.subrange(0, stamps@.len() as int) == stamps@);
            Ok(AssetData::CustomPriceFeed { symbol: feed.id.clone(), rate: mean, decimals: d, timestamp: latest })
        }
    }

    /// The custom path after its sources were fetched. Any source error fails
    /// the whole answer. Otherwise the fee for the fetched bytes is moved from
    /// the feed's owner to `service`, and only then are the values aggregated.
    /// An owner that cannot pay is refused before any debit or credit.
    pub fn get_custom_rate(
        feed: &Feed,
        results: Vec<Result<RateResult, SourceError>>,
        balances: &mut Balances,
        cfg: &BalancesCfg,
        service: &String,
    ) -> (r: Result<AssetDataResult, FeedError>)
        requires
            old(balances).wf(),
        ensures
            final(balances).wf(),
            !all_ok(results@) ==> (r matches Err(FeedError::SourceError(errs)) && errs@ == errors_of(
                results@,
            )) && final(balances)@ == old(balances)@,
            all_ok(results@) && !settles(old(balances)@, *cfg, feed.owner@, service@, fee_of(*cfg, results@))
                ==> (r matches Err(FeedError::Balance(_))) && final(balances)@ == old(balances)@,
            all_ok(results@) && fee_of(*cfg, results@) > u128::MAX ==> (r matches Err(
                FeedError::Balance(BalanceError::InsufficientBalance),
            )) && final(balances)@ == old(balances)@,
            all_ok(results@) && fee_of(*cfg, results@) <= u128::MAX && !is_exempt(*cfg, feed.owner@)
                && old(balances)@.contains_key(feed.owner@) && old(balances)@[feed.owner@].amount
                < fee_of(*cfg, results@) ==> (r matches Err(FeedError::Balance(BalanceError::InsufficientBalance))),
            all_ok(results@) && settles(old(balances)@, *cfg, feed.owner@, service@, fee_of(*cfg, results@))
                ==> final(balances)@ == credited(
                debited(old(balances)@, *cfg, feed.owner@, fee_of(*cfg, results@) as u128),
                service@,
                fee_of(*cfg, results@) as u128,
            ) && (r is Ok <==> aggregated(
                feed.feed_type,
                feed.id,
                feed.decimals,
                values_of(results@),
                stamps_of(results@),
            ) is Some) && (r matches Ok(a) ==> Some(a.data) == aggregated(
                feed.feed_type,
                feed.id,
                feed.decimals,
                values_of(results@),
                stamps_of(results@),
            ) && a.signature is None),
    {
        let n = results.len();
        let mut failed = false;
        let mut bytes: u128 = 0;
        let mut values: Vec<SourceValue> = Vec::new();
        let mut stamps: Vec<u64> = Vec::new();
        let mut i: usize = 0;
        while i < n
            invariant
                n == results@.len(),
                i <= n,
                failed == !all_ok(results@.subrange(0, i as int)),
                !failed ==> bytes as nat == total_bytes(ok_results(results@.subrange(0, i as int))),
                !failed ==> values@ == values_of(results@.subrange(0, i as int)),
                !failed ==> stamps@ == stamps_of(results@.subrange(0, i as int)),
                bytes <= i * usize::MAX,
            decreases n - i,
        {
            let ghost pre = results@.subrange(0, i as int);
            let ghost cur = results@.subrange(0, i + 1);
            proof {
                assert(cur.drop_last() == pre);
                assert(ok_results(cur).drop_last() =~= ok_results(pre));
                assert(values_of(cur) =~= values_of(pre).push(values_of(cur).last()));
                assert(stamps_of(cur) =~= stamps_of(pre).push(stamps_of(cur).last()));
            }
            match &results[i] {
                Ok(rr) => {
                    proof {
                        assert(bytes + rr.bytes <= (i + 1) * usize::MAX) by (nonlinear_arith)
                            requires bytes <= i * usize::MAX, rr.bytes <= usize::MAX;
                        assert((i + 1) * usize::MAX <= u128::MAX) by (nonlinear_arith)
                            requires i < n, n <= usize::MAX, usize::MAX <= u64::MAX;
                    }
                    bytes = bytes + rr.bytes as u128;
                    values.push(rr.rate.duplicate());
                    stamps.push(rr.cached_at);
                },
                Err(_) => {
                    proof {
                        assert(i * usize::MAX <= (i + 1) * usize::MAX) by (nonlinear_arith);
                    }
                    failed = true;
                },
            }
            i = i + 1;
        }
        assert(results@.subrange(0, n as int) == results@);
        if failed {
            let ghost all = results@;
            let mut errs: Vec<SourceError> = Vec::new();
            let mut rest = results;
            let ghost mut k: int = 0;
            while rest.len() > 0
                invariant
                    0 <= k <= all.len(),
                    rest@ == all.subrange(k, all.len() as int),
                    errs@ == errors_of(all.subrange(0, k)),
                decreases rest@.len(),
            {
                let item = rest.remove(0);
                proof {
                    assert(all.subrange(0, k + 1).drop_last() == all.subrange(0, k));
                    assert(all.subrange(0, k + 1).last() == item);
                    k = k + 1;
                    assert(rest@ == all.subrange(k, all.len() as int));
                }
                if let Err(e) = item {
                    errs.push(e);
                }
            }
            assert(all.subrange(0, k) == all);
            return Err(FeedError::SourceError(errs));
        }
        if cfg.fee_per_byte > 0 && bytes > u128::MAX / cfg.fee_per_byte {
            proof {
                assert(cfg.fee_per_byte * bytes > u128::MAX) by (nonlinear_arith)
                    requires cfg.fee_per_byte > 0, bytes > u128::MAX / cfg.fee_per_byte;
            }
            return Err(FeedError::Balance(BalanceError::InsufficientBalance));
        }
        proof {
            if cfg.fee_per_byte > 0 {
                assert(cfg.fee_per_byte * bytes <= u128::MAX) by (nonlinear_arith)
                    requires cfg.fee_per_byte > 0, bytes <= u128::MAX / cfg.fee_per_byte;
            }
        }
        let fee = cfg.fee_per_byte * bytes;
        match balances.settle_fee(cfg, &feed.owner, service, fee) {
            Err(e) => {
                return Err(FeedError::Balance(e));
            },
            Ok(()) => {},
        }
        match FeedStorage::aggregate(feed, &values, &stamps) {
            Ok(data) => Ok(AssetDataResult { data, signature: None }),
            Err(e) => Err(e),
        }
    }
}

/// The errors of the sources that failed, in order.
pub open spec fn errors_of(results: Seq<Result<RateResult, SourceError>>) -> Seq<SourceError>
    decreases results.len(),
{
    if results.len() == 0 {
        Seq::empty()
    } else {
        match results.last() {
            Err(e) => errors_of(results.drop_last()).push(e),
            Ok(_) => errors_of(results.drop_last()),
        }
    }
}

/// Whether every source gave a value.
pub open spec fn all_ok(results: Seq<Result<RateResult, SourceError>>) -> bool {
    forall|i: int| 0 <= i < results.len() ==> (#[trigger] results[i]) is Ok
}

pub open spec fn ok_results(results: Seq<Result<RateResult, SourceError>>) -> Seq<RateResult> {
    Seq::new(results.len(), |i: int| match results[i] {
        Ok(x) => x,
        Err(_) => arbitrary(),
    })
}

pub open spec fn values_of(results: Seq<Result<RateResult, SourceError>>) -> Seq<SourceValue> {
    Seq::new(results.len(), |i: int| ok_results(results)[i].rate)
}

pub open spec fn stamps_of(results: Seq<Result<RateResult, SourceError>>) -> Seq<u64> {
    Seq::new(results.len(), |i: int| ok_results(results)[i].cached_at)
}

/// The fee for the bytes that the sources fetched.
pub open spec fn fee_of(cfg: BalancesCfg, results: Seq<Result<RateResult, SourceError>>) -> nat {
    (cfg.fee_per_byte * total_bytes(ok_results(results))) as nat
}

/// Whether the owner can pay `fee` to `service`.
pub open spec fn settles(m: Map<Seq<char>, crate::balances::BalanceEntry>, cfg: BalancesCfg, owner: Seq<char>, service: Seq<char>, fee: nat) -> bool {
    fee <= u128::MAX && covers(m, cfg, owner, fee as u128) && can_credit(
        debited(m, cfg, owner, fee as u128),
        service,
        fee as u128,
    )
}

} // verus!
