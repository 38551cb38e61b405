use sha3::Digest;
use sybil::http_cache::{outcall_cycles, HttpCache, HttpCacheError, HttpResponse, RequestStep};
use sybil::rate_cache::RateCache;
use sybil::rate_data::{AssetData, AssetDataResult};
use sybil::signatures::{get_eth_v, SignLookup, SignaturesCache};

fn ok_response(body: &str) -> HttpResponse {
    HttpResponse { status: 200, body: body.as_bytes().to_vec() }
}

fn served_at(step: RequestStep) -> Option<u64> {
    match step {
        RequestStep::Served(_, at) => Some(at),
        _ => None,
    }
}

#[test]
fn cache_serves_until_ttl_then_refetches() {
    let mut cache = HttpCache::new();
    assert!(matches!(cache.request("https://a", 100), RequestStep::Fetch));
    let (resp, at) = cache.complete("https://a", Ok(ok_response("1")), 10, 100).unwrap();
    assert_eq!(resp.body, b"1".to_vec());
    assert_eq!(at, 100);
    assert_eq!(served_at(cache.request("https://a", 105)), Some(100));
    assert_eq!(served_at(cache.request("https://a", 110)), Some(100));
    assert!(matches!(cache.request("https://a", 111), RequestStep::Fetch));
    let stats = cache.stats();
    assert_eq!(stats.total_requests, 4);
    assert_eq!(stats.hits, 1);
    assert_eq!(stats.cache_size, 1);
}

#[test]
fn concurrent_resolutions_fetch_at_most_twice() {
    let mut cache = HttpCache::new();
    assert!(matches!(cache.request("u", 0), RequestStep::Fetch));
    assert!(matches!(cache.request("u", 1), RequestStep::Wait));
    for round in 1..8 {
        assert!(matches!(cache.poll("u", round), RequestStep::Wait));
    }
    cache.complete("u", Ok(ok_response("x")), 60, 5).unwrap();
    assert_eq!(served_at(cache.poll("u", 3)), Some(5));
}

#[test]
fn waiting_resolution_fetches_after_timeout() {
    let mut cache = HttpCache::new();
    assert!(matches!(cache.request("u", 0), RequestStep::Fetch));
    assert!(matches!(cache.request("u", 0), RequestStep::Wait));
    assert!(matches!(cache.poll("u", 8), RequestStep::Fetch));
}

#[test]
fn failed_fetches_are_not_cached() {
    let mut cache = HttpCache::new();
    cache.request("u", 0);
    let err = cache.complete("u", Err("timeout".to_string()), 60, 0).unwrap_err();
    assert_eq!(err, HttpCacheError::HttpOutcallError("timeout".to_string()));
    let err = cache
        .complete("u", Ok(HttpResponse { status: 503, body: b"down".to_vec() }), 60, 0)
        .unwrap_err();
    assert_eq!(err, HttpCacheError::ServerError("down".to_string()));
    let err = cache
        .complete("u", Ok(HttpResponse { status: 404, body: vec![0xff, 0xfe] }), 60, 0)
        .unwrap_err();
    assert_eq!(err, HttpCacheError::ServerError("unknown error".to_string()));
    assert_eq!(cache.stats().misses, 3);
    assert!(matches!(cache.request("u", 1), RequestStep::Wait));
}

#[test]
fn clean_keeps_most_recent_entries() {
    let mut cache = HttpCache::new();
    cache.capacity = 3;
    for i in 0..5u64 {
        let url = format!("u{i}");
        cache.request(&url, i);
        cache.complete(&url, Ok(ok_response("v")), 1000, i).unwrap();
    }
    cache.clean(10);
    assert_eq!(cache.entries.len(), 3);
    let mut kept: Vec<String> = cache.entries.iter().map(|(k, _)| k.clone()).collect();
    kept.sort();
    assert_eq!(kept, vec!["u2".to_string(), "u3".to_string(), "u4".to_string()]);
}

#[test]
fn clean_drops_expired_first_and_ignores_small_cache() {
    let mut cache = HttpCache::new();
    cache.capacity = 2;
    for i in 0..3u64 {
        let url = format!("u{i}");
        cache.request(&url, 0);
        cache.complete(&url, Ok(ok_response("v")), if i == 2 { 1 } else { 100 }, 0).unwrap();
    }
    cache.clean(50);
    assert_eq!(cache.entries.len(), 2);
    assert!(cache.entries.iter().all(|(k, _)| k != "u2"));
    cache.clean(500);
    assert_eq!(cache.entries.len(), 2);
}

#[test]
fn outcall_cost_formula() {
    assert_eq!(outcall_cycles(None), 400_000_000 + 2_097_152 * 100_000);
    assert_eq!(outcall_cycles(Some(10)), 400_000_000 + 2_097_152 * 100_000 + 1_000_000);
}

fn answer(ts: u64) -> AssetDataResult {
    AssetDataResult {
        data: AssetData::DefaultPriceFeed { symbol: "ETH/USD".to_string(), rate: 1, decimals: 2, timestamp: ts },
        signature: None,
    }
}

#[test]
fn rate_cache_expires() {
    let mut cache = RateCache::new();
    cache.add_entry("ETH/USD".to_string(), answer(7), 5, 100);
    assert!(cache.get_entry(&"ETH/USD".to_string(), 105).is_some());
    assert!(cache.get_entry(&"ETH/USD".to_string(), 106).is_none());
    assert!(cache.entries.is_empty());
    assert!(cache.get_entry(&"BTC/USD".to_string(), 0).is_none());
}

#[test]
fn signing_same_payload_twice_signs_once() {
    let mut cache = SignaturesCache::new();
    let payload = b"payload".to_vec();
    let digest = match cache.lookup(&payload).unwrap() {
        SignLookup::Sign(d) => d,
        SignLookup::Cached(_) => panic!("nothing was signed yet"),
    };
    assert_eq!(digest.len(), 32);
    let own = "abc".to_string();
    let sig = cache.store(&digest, vec![1, 2, 3], &"zzz".to_string(), &own, &own).unwrap();
    assert_eq!(sig, vec![1, 2, 3, 28]);
    match cache.lookup(&payload).unwrap() {
        SignLookup::Cached(s) => assert_eq!(s, sig),
        SignLookup::Sign(_) => panic!("the payload was signed before"),
    }
    assert!(matches!(cache.lookup(&b"other".to_vec()).unwrap(), SignLookup::Sign(_)));
}

#[test]
fn keccak_digest_of_empty_payload() {
    let cache = SignaturesCache::new();
    match cache.lookup(&Vec::new()).unwrap() {
        SignLookup::Sign(d) => assert_eq!(
            hex::encode(d),
            "c5d2460186f7233c927e7db2dcc703c0e500b653ca82273b7bfad8045d85a470"
        ),
        SignLookup::Cached(_) => panic!("empty cache"),
    }
}

#[test]
fn recovery_byte_selection() {
    let own = "me".to_string();
    assert_eq!(get_eth_v(&own, &"x".to_string(), &own).unwrap(), 27);
    assert_eq!(get_eth_v(&"x".to_string(), &own, &own).unwrap(), 28);
    assert!(matches!(
        get_eth_v(&"x".to_string(), &"y".to_string(), &own),
        Err(sybil::signatures::SignaturesCacheError::InvalidSignature(_))
    ));
}

#[test]
fn signature_cache_clean_keeps_largest_texts() {
    let mut cache = SignaturesCache::new();
    cache.limit = 2;
    let own = "me".to_string();
    for (i, d) in [[1u8], [2u8], [3u8]].iter().enumerate() {
        cache.store(&d.to_vec(), vec![i as u8], &own, &own, &own).unwrap();
    }
    cache.clean();
    assert_eq!(cache.signatures.len(), 2);
    let mut values: Vec<String> = cache.signatures.iter().map(|(_, v)| v.clone()).collect();
    values.sort();
    assert_eq!(values, vec!["011b".to_string(), "021b".to_string()]);
}

#[test]
fn packed_encoding_of_answers() {
    let a = AssetDataResult {
        data: AssetData::CustomString { id: "id".to_string(), value: "v".to_string() },
        signature: None,
    };
    assert_eq!(a.encode(), b"idv".to_vec());
    let n = AssetDataResult { data: AssetData::CustomNumber { id: "n".to_string(), value: 258, decimals: 1 }, signature: None };
    let e = n.encode();
    assert_eq!(e.len(), 1 + 64);
    assert_eq!(e[0], b'n');
    assert_eq!(&e[31..33], &[1, 2]);
    assert_eq!(e[64], 1);
    let mut s = answer(1);
    s.set_signature(&vec![0xab, 0x01]);
    assert_eq!(s.signature, Some("ab01".to_string()));
}

#[test]
fn cached_upper_case_signature_decodes() {
    let mut cache = SignaturesCache::new();
    let payload = b"p".to_vec();
    let key = hex::encode(sha3::Keccak256::digest(&payload));
    cache.signatures.push((key, "0A1B".to_string()));
    match cache.lookup(&payload).unwrap() {
        SignLookup::Cached(s) => assert_eq!(s, vec![0x0a, 0x1b]),
        SignLookup::Sign(_) => panic!("cached"),
    }
    let mut bad = SignaturesCache::new();
    bad.signatures.push((hex::encode(sha3::Keccak256::digest(&payload)), "xyz".to_string()));
    assert!(matches!(
        bad.lookup(&payload),
        Err(sybil::signatures::SignaturesCacheError::InvalidSignature(_))
    ));
}
