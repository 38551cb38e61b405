use vstd::prelude::*;

use crate::keyed::{entry_map, find_key, keys_unique, put_key, remove_key};
use crate::rate_data::AssetDataResult;

verus! {

/// A cached answer and the time after which it is no longer served.
#[derive(Debug)]
pub struct RateCacheEntry {
    pub expired_at: u64,
    pub data: AssetDataResult,
}

/// Short-lived answers of the default path, keyed by feed id.
#[derive(Debug)]
pub struct RateCache {
    pub entries: Vec<(String, RateCacheEntry)>,
}

impl RateCache {
    pub open spec fn wf(&self) -> bool {
        keys_unique(self.entries@)
    }

    pub open spec fn view(&self) -> Map<Seq<char>, RateCacheEntry> {
        entry_map(self.entries@)
    }

    pub fn new() -> (r: RateCache)
        ensures
            r.wf(),
            r@ == Map::<Seq<char>, RateCacheEntry>::empty(),
    {
        let r = RateCache { entries: Vec::new() };
        assert(r@ =~= Map::<Seq<char>, RateCacheEntry>::empty());
        r
    }

    /// Caches `data` under `key` until `now + expiration`.
    pub fn add_entry(&mut self, key: String, data: AssetDataResult, expiration: u64, now: u64)
        requires
            old(self).wf(),
            now + expiration <= u64::MAX,
        ensures
            final(self).wf(),
            final(self)@ == old(self)@.insert(
                key@,
                RateCacheEntry { expired_at: (now + expiration) as u64, data },
            ),
    {
        put_key(&mut self.entries, key, RateCacheEntry { expired_at: now + expiration, data });
    }

    /// The answer cached under `key`, unless it expired before `now`; an
    /// expired entry is dropped.
    pub fn get_entry(&mut self, key: &String, now: u64) -> (r: Option<AssetDataResult>)
        requires
            old(self).wf(),
        ensures
            final(self).wf(),
            !old(self)@.contains_key(key@) ==> r is None && final(self)@ == old(self)@,
            old(self)@.contains_key(key@) && old(self)@[key@].expired_at < now ==> r is None
                && final(self)@ == old(self)@.remove(key@),
            old(self)@.contains_key(key@) && now <= old(self)@[key@].expired_at ==> r == Some(
                old(self)@[key@].data,
            ) && final(self)@ == old(self)@,
    {
        match find_key(&self.entries, key) {
            None => None,
            Some(i) => {
                if self.entries[i].1.expired_at < now {
                    remove_key(&mut self.entries, key);
                    None
                } else {
                    Some(self.entries[i].1.data.duplicate())
                }
            },
        }
    }
}

} // verus!
