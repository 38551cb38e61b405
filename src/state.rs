use vstd::prelude::*;

use crate::balances::{Balances, BalancesCfg};
use crate::feeds::FeedStorage;
use crate::http_cache::HttpCache;
use crate::rate_cache::RateCache;
use crate::signatures::SignaturesCache;
use crate::whitelist::Whitelist;

verus! {

/// Everything the service keeps between calls.
#[derive(Debug)]
pub struct State {
    pub rpc_wrapper: String,
    pub key_name: String,
    pub mock: bool,
    pub eth_address: Option<String>,
    pub feeds: FeedStorage,
    pub balances: Balances,
    pub balances_cfg: BalancesCfg,
    pub whitelist: Whitelist,
    pub rate_cache: RateCache,
    pub http_cache: HttpCache,
    pub signatures_cache: SignaturesCache,
}

impl State {
    pub open spec fn wf(&self) -> bool {
        &&& self.feeds.wf()
        &&& self.balances.wf()
        &&& self.whitelist.wf()
        &&& self.rate_cache.wf()
        &&& self.http_cache.wf()
        &&& self.signatures_cache.wf()
    }

    pub fn new(rpc_wrapper: String, key_name: String, balances_cfg: BalancesCfg) -> (r: State)
        ensures
            r.wf(),
            r.rpc_wrapper == rpc_wrapper,
            r.key_name == key_name,
            r.feeds@ == Map::<Seq<char>, crate::feeds::Feed>::empty(),
            r.balances@ == Map::<Seq<char>, crate::balances::BalanceEntry>::empty(),
            r.whitelist@ == Set::<Seq<char>>::empty(),
    {
        State {
            rpc_wrapper,
            key_name,
            mock: false,
            eth_address: None,
            feeds: FeedStorage::new(),
            balances: Balances::new(),
            balances_cfg,
            whitelist: Whitelist::new(),
            rate_cache: RateCache::new(),
            http_cache: HttpCache::new(),
            signatures_cache: SignaturesCache::new(),
        }
    }

    /// Bounds both caches, as the periodic cleaning job does.
    pub fn clean_caches(&mut self, now: u64)
        requires
            old(self).wf(),
        ensures
            final(self).wf(),
            old(self).http_cache.entries@.len() <= old(self).http_cache.capacity ==> final(self).http_cache.entries@ == old(self).http_cache.entries@,
            old(self).http_cache.entries@.len() > old(self).http_cache.capacity ==> crate::http_cache::cleaned(
                old(self).http_cache.entries@,
                final(self).http_cache.entries@,
                old(self).http_cache.capacity,
                now,
            ),
            old(self).signatures_cache.signatures@.len() <= old(self).signatures_cache.limit ==> final(self).signatures_cache.signatures@ == old(self).signatures_cache.signatures@,
            final(self).signatures_cache.signatures@.len() <= old(self).signatures_cache.limit || final(self).signatures_cache.signatures@ == old(self).signatures_cache.signatures@,
            final(self).feeds == old(self).feeds,
            final(self).balances == old(self).balances,
    {
        self.http_cache.clean(now);
        self.signatures_cache.clean();
    }

    /// Forgets every feed, balance and whitelisted address.
    pub fn clear(&mut self)
        requires
            old(self).wf(),
        ensures
            final(self).wf(),
            final(self).feeds@ == Map::<Seq<char>, crate::feeds::Feed>::empty(),
            final(self).balances@ == Map::<Seq<char>, crate::balances::BalanceEntry>::empty(),
            final(self).whitelist@ == Set::<Seq<char>>::empty(),
            final(self).rpc_wrapper == old(self).rpc_wrapper,
            final(self).key_name == old(self).key_name,
            final(self).mock == old(self).mock,
            final(self).eth_address == old(self).eth_address,
            final(self).balances_cfg == old(self).balances_cfg,
            final(self).rate_cache == old(self).rate_cache,
            final(self).http_cache == old(self).http_cache,
            final(self).signatures_cache == old(self).signatures_cache,
    {
        self.feeds.clear();
        self.balances.clear();
        self.whitelist.clear();
    }
}

} // verus!
