use sybil::balances::{BalanceError, Balances, BalancesCfg};
use sybil::exchange_rate::{Asset, AssetClass, ExchangeRate, ExchangeRateError, ExchangeRateMetadata};
use sybil::feeds::{
    DefaultStart, Feed, FeedError, FeedStatus, FeedStorage, FeedType, FeedTypeFilter, GetFeedsFilter, XrcRetry, XrcStage,
    XrcStep,
};
use sybil::rate_cache::RateCache;
use sybil::rate_data::AssetData;
use sybil::source::{ApiKey, HttpSource, RateResult, Source, SourceError, SourceValue};
use sybil::address::is_valid;
use sybil::whitelist::{Whitelist, WhitelistError};

fn feed(id: &str, feed_type: FeedType, decimals: Option<u64>) -> Feed {
    Feed {
        id: id.to_string(),
        feed_type,
        update_freq: 5,
        sources: None,
        new_sources: None,
        decimals,
        status: FeedStatus { last_update: 0, updated_counter: 0, requests_counter: 0 },
        owner: "owner".to_string(),
        data: None,
    }
}

fn numbers(v: &[&str]) -> Vec<SourceValue> {
    v.iter().map(|s| SourceValue::Number(s.to_string())).collect()
}

fn texts(v: &[&str]) -> Vec<SourceValue> {
    v.iter().map(|s| SourceValue::Text(s.to_string())).collect()
}

#[test]
fn numeric_aggregate_is_mean_at_target_decimals() {
    let f = feed("n", FeedType::CustomNumber, Some(2));
    let out = FeedStorage::aggregate(&f, &numbers(&["1.0", "2.0", "3.0"]), &vec![1, 2, 3]).unwrap();
    assert!(matches!(out, AssetData::CustomNumber { value: 200, decimals: 2, .. }));
}

#[test]
fn string_aggregate_is_most_frequent() {
    let f = feed("s", FeedType::CustomString, None);
    let out = FeedStorage::aggregate(&f, &texts(&["a", "a", "b"]), &vec![0, 0, 0]).unwrap();
    match out {
        AssetData::CustomString { id, value } => {
            assert_eq!(id, "s");
            assert_eq!(value, "a");
        },
        _ => panic!("wrong kind"),
    }
}

#[test]
fn custom_price_feed_takes_latest_timestamp_and_own_scale() {
    let f = feed("p", FeedType::Custom, None);
    let out = FeedStorage::aggregate(&f, &numbers(&["1.5", "2.25"]), &vec![10, 30]).unwrap();
    assert!(matches!(out, AssetData::CustomPriceFeed { rate: 187, decimals: 2, timestamp: 30, .. }));
}

#[test]
fn aggregate_errors() {
    let f = feed("n", FeedType::CustomNumber, Some(2));
    assert!(matches!(FeedStorage::aggregate(&f, &vec![], &vec![]), Err(FeedError::NoRateValueGotFromSources)));
    let mixed = vec![SourceValue::Text("1".to_string()), SourceValue::Number("2".to_string())];
    assert!(matches!(
        FeedStorage::aggregate(&f, &mixed, &vec![0, 0]),
        Err(FeedError::ValueTypeIsNotCompatibleWithFeedType)
    ));
    assert!(matches!(
        FeedStorage::aggregate(&f, &texts(&["abc"]), &vec![0]),
        Err(FeedError::UnableToConvertRate(_))
    ));
    let p = feed("p", FeedType::Custom, None);
    assert!(matches!(
        FeedStorage::aggregate(&p, &texts(&["1"]), &vec![0]),
        Err(FeedError::ValueTypeIsNotCompatibleWithFeedType)
    ));
    let d = feed("d", FeedType::Default, None);
    assert!(matches!(
        FeedStorage::aggregate(&d, &numbers(&["1"]), &vec![0]),
        Err(FeedError::NoRateValueGotFromSources)
    ));
}

fn ledger(owner_amount: u128) -> (Balances, BalancesCfg) {
    let mut b = Balances::new();
    b.add("owner".to_string()).unwrap();
    b.add("service".to_string()).unwrap();
    b.add_amount(&"owner".to_string(), owner_amount).unwrap();
    (b, BalancesCfg { fee_per_byte: 2, whitelist: Vec::new() })
}

fn fetched(values: &[&str], bytes: usize) -> Vec<Result<RateResult, SourceError>> {
    values
        .iter()
        .map(|v| Ok(RateResult { rate: SourceValue::Number(v.to_string()), cached_at: 1, bytes }))
        .collect()
}

#[test]
fn custom_rate_charges_fee_then_aggregates() {
    let (mut b, cfg) = ledger(100);
    let f = feed("n", FeedType::CustomNumber, Some(0));
    let out = FeedStorage::get_custom_rate(&f, fetched(&["4", "6"], 10), &mut b, &cfg, &"service".to_string())
        .unwrap();
    assert!(matches!(out.data, AssetData::CustomNumber { value: 5, decimals: 0, .. }));
    assert_eq!(b.get_amount(&"owner".to_string()).unwrap(), 60);
    assert_eq!(b.get_amount(&"service".to_string()).unwrap(), 40);
}

#[test]
fn insufficient_balance_changes_nothing() {
    let (mut b, cfg) = ledger(39);
    let f = feed("n", FeedType::CustomNumber, Some(0));
    let out = FeedStorage::get_custom_rate(&f, fetched(&["4", "6"], 10), &mut b, &cfg, &"service".to_string());
    assert!(matches!(out, Err(FeedError::Balance(BalanceError::InsufficientBalance))));
    assert_eq!(b.get_amount(&"owner".to_string()).unwrap(), 39);
    assert_eq!(b.get_amount(&"service".to_string()).unwrap(), 0);
}

#[test]
fn exempt_owner_is_not_charged() {
    let (mut b, _) = ledger(0);
    let cfg = BalancesCfg { fee_per_byte: 2, whitelist: vec!["owner".to_string()] };
    let f = feed("n", FeedType::CustomNumber, Some(0));
    FeedStorage::get_custom_rate(&f, fetched(&["4"], 10), &mut b, &cfg, &"service".to_string()).unwrap();
    assert_eq!(b.get_amount(&"owner".to_string()).unwrap(), 0);
    assert_eq!(b.get_amount(&"service".to_string()).unwrap(), 20);
}

#[test]
fn any_source_error_fails_the_answer() {
    let (mut b, cfg) = ledger(100);
    let f = feed("n", FeedType::CustomNumber, Some(0));
    let mut results = fetched(&["4"], 10);
    results.push(Err(SourceError::InvalidRequest("bad".to_string())));
    let out = FeedStorage::get_custom_rate(&f, results, &mut b, &cfg, &"service".to_string());
    match out {
        Err(FeedError::SourceError(errs)) => assert_eq!(errs.len(), 1),
        _ => panic!("expected a source error"),
    }
    assert_eq!(b.get_amount(&"owner".to_string()).unwrap(), 100);
}

fn rate(ts: u64) -> ExchangeRate {
    ExchangeRate {
        metadata: ExchangeRateMetadata {
            decimals: 9,
            forex_timestamp: None,
            quote_asset_num_received_rates: 1,
            base_asset_num_received_rates: 1,
            base_asset_num_queried_sources: 1,
            standard_deviation: 0,
            quote_asset_num_queried_sources: 1,
        },
        rate: 3000,
        timestamp: ts,
        quote_asset: Asset { class: AssetClass::FiatCurrency, symbol: "USD".to_string() },
        base_asset: Asset { class: AssetClass::Cryptocurrency, symbol: "ETH".to_string() },
    }
}

fn resolve(cache: &mut RateCache, f: &Feed, now: u64) -> u64 {
    match FeedStorage::default_rate_start(cache, f, now).unwrap() {
        DefaultStart::Cached(a) => match a.data {
            AssetData::DefaultPriceFeed { timestamp, .. } => timestamp,
            _ => panic!("wrong kind"),
        },
        DefaultStart::Call(req) => {
            assert_eq!(req.timestamp, Some(now - 5));
            let answer = FeedStorage::default_rate_finish(cache, f, &rate(now - 5), now);
            match answer.data {
                AssetData::DefaultPriceFeed { timestamp, decimals, .. } => {
                    assert_eq!(decimals, 8);
                    timestamp
                },
                _ => panic!("wrong kind"),
            }
        },
    }
}

#[test]
fn default_feed_is_cached_for_its_update_frequency() {
    let mut cache = RateCache::new();
    let f = feed("ETH/USD", FeedType::Default, Some(8));
    let first = resolve(&mut cache, &f, 100);
    let second = resolve(&mut cache, &f, 104);
    assert_eq!(first, second);
    let third = resolve(&mut cache, &f, 106);
    assert_ne!(first, third);
}

#[test]
fn default_feed_id_must_have_base_and_quote() {
    let mut cache = RateCache::new();
    assert!(matches!(
        FeedStorage::default_rate_start(&mut cache, &feed("ETH", FeedType::Default, None), 10),
        Err(FeedError::InvalidFeedId)
    ));
    assert!(FeedStorage::get_assets("A/B/C").is_none());
    assert!(FeedStorage::get_assets("ETH/").is_none());
    assert!(FeedStorage::get_assets("/USD").is_none());
    assert!(FeedStorage::get_assets("ETH/USD/").is_none());
    let (b, q) = FeedStorage::get_assets("ETH/USD").unwrap();
    assert_eq!((b.symbol.as_str(), q.symbol.as_str()), ("ETH", "USD"));
    assert_eq!(b.class, AssetClass::Cryptocurrency);
    assert_eq!(q.class, AssetClass::FiatCurrency);
}

fn other_error() -> Result<ExchangeRate, FeedError> {
    Err(FeedError::ExchangeRateCanisterError(ExchangeRateError::Pending))
}

#[test]
fn primary_failures_fall_back_with_own_budget() {
    let mut state = XrcRetry::start();
    let mut primary_calls = 0;
    let mut fallback_calls = 0;
    loop {
        match state.stage {
            XrcStage::Primary => primary_calls += 1,
            XrcStage::Fallback => fallback_calls += 1,
        }
        match state.on_result(other_error()) {
            XrcStep::Retry(next) => state = next,
            XrcStep::Failed(e) => {
                assert!(matches!(e, FeedError::ExchangeRateCanisterError(ExchangeRateError::Pending)));
                break;
            },
            XrcStep::Finished(_) => panic!("no rate was given"),
        }
    }
    assert_eq!((primary_calls, fallback_calls), (5, 5));
}

#[test]
fn rate_limit_stops_at_once() {
    let state = XrcRetry::start();
    let step = state.on_result(Err(FeedError::ExchangeRateCanisterError(ExchangeRateError::RateLimited)));
    assert!(matches!(step, XrcStep::Failed(FeedError::ExchangeRateCanisterError(ExchangeRateError::RateLimited))));
    assert!(matches!(state.on_result(Ok(rate(1))), XrcStep::Finished(_)));
}

#[test]
fn feed_storage_and_filters() {
    let mut s = FeedStorage::new();
    s.add(feed("a", FeedType::Custom, None));
    assert!(s.contains(&"a".to_string()));
    assert_eq!(s.get(&"a".to_string()).unwrap().feed_type, FeedType::Custom);
    s.remove(&"a".to_string());
    assert!(!s.contains(&"a".to_string()));
    s.add(feed("b", FeedType::Default, None));
    s.clear();
    assert!(s.get(&"b".to_string()).is_none());
    assert!(FeedTypeFilter::Custom.filter(&FeedType::Custom));
    assert!(!FeedTypeFilter::Custom.filter(&FeedType::CustomNumber));
}

#[test]
fn sources_are_censored_for_strangers() {
    let mut f = feed("a", FeedType::Custom, None);
    f.new_sources = Some(vec![Source::HttpSource(HttpSource {
        uri: "https://x/{k}".to_string(),
        api_keys: Some(vec![ApiKey { title: "k".to_string(), key: "secret".to_string() }]),
        resolver: "/p".to_string(),
        expected_bytes: Some(10),
    })]);
    f.censor_if_needed(&Some("owner".to_string()));
    let url = match &f.new_sources.as_ref().unwrap()[0] {
        Source::HttpSource(h) => h.get_url_with_keys(),
        _ => panic!("wrong source"),
    };
    assert_eq!(url, "https://x/secret");
    f.censor_if_needed(&None);
    match &f.new_sources.as_ref().unwrap()[0] {
        Source::HttpSource(h) => assert_eq!(h.api_keys.as_ref().unwrap()[0].key, "***"),
        _ => panic!("wrong source"),
    }
}

#[test]
fn source_fetch_extracts_pointed_value() {
    let src = HttpSource {
        uri: "https://api.example.com/price?s={sym}".to_string(),
        api_keys: Some(vec![ApiKey { title: "sym".to_string(), key: "ETH".to_string() }]),
        resolver: "/data/price".to_string(),
        expected_bytes: Some(100),
    };
    assert!(src.validate().is_ok());
    let req = src.outcall_request(&"https://proxy/?url=".to_string());
    assert_eq!(
        req.url,
        "https://proxy/?url=https%3A%2F%2Fapi.example.com%2Fprice%3Fs%3DETH&cacheTTL=30000"
    );
    let body = br#"{"data":{"price":"12.5"}}"#.to_vec();
    let r = src.rate_result(&body, 7).unwrap();
    assert_eq!(r.rate, SourceValue::Text("12.5".to_string()));
    assert_eq!((r.cached_at, r.bytes), (7, body.len()));
    let num = src.rate_result(&br#"{"data":{"price":3}}"#.to_vec(), 7).unwrap();
    assert_eq!(num.rate, SourceValue::Number("3".to_string()));
    assert!(src.rate_result(&b"not json".to_vec(), 7).is_err());
    assert!(src.rate_result(&br#"{"other":1}"#.to_vec(), 7).is_err());
}

#[test]
fn source_validation_errors() {
    let bad = HttpSource {
        uri: "not a url".to_string(),
        api_keys: None,
        resolver: "/a".to_string(),
        expected_bytes: Some(0),
    };
    assert!(matches!(bad.validate(), Err(SourceError::ValidationError(_))));
    let big = HttpSource { uri: "https://a".to_string(), api_keys: None, resolver: "/a".to_string(), expected_bytes: Some(3_000_000) };
    assert!(big.validate().is_err());
}

#[test]
fn whitelist_add_remove() {
    let mut w = Whitelist::new();
    let a = "0x654DFF41D51c230FA400205A633101C5C1f1969C".to_string();
    w.add(a.clone()).unwrap();
    assert!(w.contains(&a));
    assert_eq!(w.add(a.clone()), Err(WhitelistError::AddressAlreadyWhitelisted));
    assert_eq!(w.get_all(), vec![a.clone()]);
    w.remove(&a).unwrap();
    assert_eq!(w.remove(&a), Err(WhitelistError::AddressNotWhitelisted));
    assert!(is_valid("654DFF41D51c230FA400205A633101C5C1f1969C"));
    assert!(!is_valid("invalid-test-address"));
}

#[test]
fn ledger_errors() {
    let mut b = Balances::new();
    assert_eq!(b.add("a".to_string()), Ok(()));
    assert_eq!(b.add("a".to_string()), Err(BalanceError::BalanceAlreadyExists));
    assert_eq!(b.get_amount(&"x".to_string()), Err(BalanceError::BalanceDoesNotExist));
    assert_eq!(b.add_nonce(&"a".to_string(), 1), Ok(()));
    assert_eq!(b.add_nonce(&"a".to_string(), 1), Err(BalanceError::NonceAlreadyUsed));
    b.add_amount(&"a".to_string(), u128::MAX).unwrap();
    assert_eq!(b.add_amount(&"a".to_string(), 1), Err(BalanceError::AmountOverflow));
    assert_eq!(b.remove(&"a".to_string()), Ok(()));
    assert_eq!(b.remove(&"a".to_string()), Err(BalanceError::BalanceDoesNotExist));
}

#[test]
fn malformed_resolver_is_reported() {
    let src = HttpSource {
        uri: "https://a".to_string(),
        api_keys: None,
        resolver: "no-leading-slash".to_string(),
        expected_bytes: None,
    };
    assert!(matches!(
        src.rate_result(&b"{}".to_vec(), 0),
        Err(SourceError::HttpCacheError(sybil::http_cache::HttpCacheError::InvalidResponseBodyResolver(_)))
    ));
    let req = src.outcall_request(&"p/".to_string());
    assert_eq!(req.headers[0], ("Content-Type".to_string(), "application/json".to_string()));
    assert_eq!(req.headers[1], ("User-Agent".to_string(), "sybil".to_string()));
}

#[test]
fn listing_filters_by_kind_and_owner() {
    let mut s = FeedStorage::new();
    s.add(feed("a", FeedType::Custom, None));
    let mut other = feed("b", FeedType::Default, None);
    other.set_owner("someone".to_string());
    s.add(other);
    let all = GetFeedsFilter { feed_type: None, owner: None, search: None };
    assert_eq!(s.get_all(&all).len(), 2);
    let defaults = GetFeedsFilter { feed_type: Some(FeedTypeFilter::Default), owner: None, search: None };
    let found = s.get_all(&defaults);
    assert_eq!(found.len(), 1);
    assert_eq!(found[0].id, "b");
    let mine = GetFeedsFilter { feed_type: None, owner: Some("owner".to_string()), search: None };
    assert_eq!(s.get_all(&mine)[0].id, "a");
}

#[test]
fn recorded_answer_is_kept_on_the_feed() {
    let mut s = FeedStorage::new();
    s.add(feed("a", FeedType::CustomString, None));
    let answer = sybil::rate_data::AssetDataResult {
        data: AssetData::CustomString { id: "a".to_string(), value: "x".to_string() },
        signature: None,
    };
    s.set_data(&"a".to_string(), answer.duplicate()).unwrap();
    assert!(s.get(&"a".to_string()).unwrap().data.is_some());
    assert!(matches!(s.set_data(&"z".to_string(), answer), Err(FeedError::FeedNotFound)));
}

#[test]
fn state_clear_forgets_everything() {
    let cfg = BalancesCfg { fee_per_byte: 1, whitelist: Vec::new() };
    let mut st = sybil::state::State::new("w/".to_string(), "key".to_string(), cfg);
    st.feeds.add(feed("a", FeedType::Custom, None));
    st.balances.add("o".to_string()).unwrap();
    st.whitelist.add("x".to_string()).unwrap();
    st.clean_caches(0);
    st.clear();
    assert!(!st.feeds.contains(&"a".to_string()));
    assert!(!st.balances.contains(&"o".to_string()));
    assert!(!st.whitelist.contains(&"x".to_string()));
}

#[test]
fn numeric_mean_is_taken_before_truncation() {
    let f = feed("p", FeedType::Custom, Some(0));
    let out = FeedStorage::aggregate(&f, &numbers(&["1.5", "2.5"]), &vec![4, 9]).unwrap();
    assert!(matches!(out, AssetData::CustomPriceFeed { rate: 2, decimals: 0, timestamp: 9, .. }));
    let g = feed("n", FeedType::CustomNumber, Some(3));
    let out = FeedStorage::aggregate(&g, &texts(&["1", "2"]), &vec![0, 0]).unwrap();
    assert!(matches!(out, AssetData::CustomNumber { value: 1500, decimals: 3, .. }));
    let h = feed("n", FeedType::CustomNumber, Some(30));
    assert!(matches!(
        FeedStorage::aggregate(&h, &texts(&["1"]), &vec![0]),
        Err(FeedError::UnableToConvertRate(_))
    ));
}

#[test]
fn string_ties_go_to_the_first_in_sort_order() {
    let f = feed("s", FeedType::CustomString, None);
    match FeedStorage::aggregate(&f, &texts(&["b", "a"]), &vec![0, 0]).unwrap() {
        AssetData::CustomString { value, .. } => assert_eq!(value, "a"),
        _ => panic!("wrong kind"),
    }
    match FeedStorage::aggregate(&f, &texts(&["c", "b", "c", "b", "a"]), &vec![0; 5]).unwrap() {
        AssetData::CustomString { value, .. } => assert_eq!(value, "b"),
        _ => panic!("wrong kind"),
    }
}

#[test]
fn failed_sources_are_listed_in_order() {
    let (mut b, cfg) = ledger(100);
    let f = feed("n", FeedType::CustomNumber, Some(0));
    let mut results = vec![Err(SourceError::InvalidRequest("first".to_string()))];
    results.extend(fetched(&["4"], 10));
    results.push(Err(SourceError::InvalidRequest("second".to_string())));
    match FeedStorage::get_custom_rate(&f, results, &mut b, &cfg, &"service".to_string()) {
        Err(FeedError::SourceError(errs)) => {
            assert_eq!(errs.len(), 2);
            assert!(matches!(&errs[0], SourceError::InvalidRequest(m) if m == "first"));
            assert!(matches!(&errs[1], SourceError::InvalidRequest(m) if m == "second"));
        },
        _ => panic!("expected source errors"),
    }
}

#[test]
fn fee_beyond_any_balance_is_refused() {
    let (mut b, _) = ledger(100);
    let cfg = BalancesCfg { fee_per_byte: u128::MAX, whitelist: Vec::new() };
    let f = feed("n", FeedType::CustomNumber, Some(0));
    let out = FeedStorage::get_custom_rate(&f, fetched(&["x"], 2), &mut b, &cfg, &"service".to_string());
    assert!(matches!(out, Err(FeedError::Balance(BalanceError::InsufficientBalance))));
    assert_eq!(b.get_amount(&"owner".to_string()).unwrap(), 100);
}
