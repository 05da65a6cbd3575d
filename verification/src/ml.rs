//! Feed recommendations cached for the user, and the bounded watch and
//! interaction histories.

use vstd::prelude::*;

use crate::canister_data::CanisterData;
use crate::principal::Principal;

verus! {

/// A post recommended to the user.
#[derive(Debug)]
pub struct MLFeedCacheItem {
    pub post_id: u64,
    pub canister_id: Principal,
    pub video_id: String,
    pub creator_principal_id: Option<Principal>,
}

impl Clone for MLFeedCacheItem {
    fn clone(&self) -> (r: Self)
        ensures
            r == *self,
    {
        MLFeedCacheItem {
            post_id: self.post_id,
            canister_id: self.canister_id,
            video_id: self.video_id.clone(),
            creator_principal_id: self.creator_principal_id,
        }
    }
}


/// Most items kept in the feed cache.
pub const ML_FEED_CACHE_CAPACITY: usize = 200;

/// Most items kept in the watch history and in the success history.
pub const HISTORY_CAPACITY: usize = 3000;

/// At most the first `ML_FEED_CACHE_CAPACITY` items of `s`.
pub open spec fn cap_feed_cache(s: Seq<MLFeedCacheItem>) -> Seq<MLFeedCacheItem> {
    if s.len() > ML_FEED_CACHE_CAPACITY {
        s.subrange(0, ML_FEED_CACHE_CAPACITY as int)
    } else {
        s
    }
}

/// Puts new recommendations in front of the cached ones and drops what goes
/// beyond the capacity from the end.
pub fn update_ml_feed_cache_impl(ml_feed_cache_items: Vec<MLFeedCacheItem>, canister_data: &mut CanisterData) -> (r:
    Result<String, String>)
    ensures
        final(canister_data).ml_feed_cache@ == cap_feed_cache(
            ml_feed_cache_items@ + old(canister_data).ml_feed_cache@,
        ),
        *final(canister_data) == (CanisterData {
            ml_feed_cache: final(canister_data).ml_feed_cache,
            ..*old(canister_data)
        }),
        r matches Ok(m) && m@ == "Success"@,
{
    let mut cache = ml_feed_cache_items;
    let mut previous: Vec<MLFeedCacheItem> = Vec::new();
    std::mem::swap(&mut previous, &mut canister_data.ml_feed_cache);
    cache.append(&mut previous);
    if cache.len() > ML_FEED_CACHE_CAPACITY {
        cache.truncate(ML_FEED_CACHE_CAPACITY);
    }
    canister_data.ml_feed_cache = cache;
    Ok(String::from_str("Success"))
}

/// The cached items from `start_index` up to `start_index + count`, cut at
/// the end of the cache.
pub open spec fn feed_cache_page(s: Seq<MLFeedCacheItem>, start_index: int, count: int) -> Seq<
    MLFeedCacheItem,
> {
    let end = if start_index + count < s.len() {
        start_index + count
    } else {
        s.len() as int
    };
    if start_index >= end {
        Seq::empty()
    } else {
        s.subrange(start_index, end)
    }
}

pub fn get_ml_feed_cache_paginated_impl(start_index: usize, count: usize, canister_data: &CanisterData) -> (r: Vec<
    MLFeedCacheItem,
>)
    requires
        start_index + count <= usize::MAX,
    ensures
        r@ == feed_cache_page(canister_data.ml_feed_cache@, start_index as int, count as int),
{
    let cache = &canister_data.ml_feed_cache;
    let end_index = if start_index + count < cache.len() {
        start_index + count
    } else {
        cache.len()
    };
    let mut r: Vec<MLFeedCacheItem> = Vec::new();
    if start_index >= end_index {
        return r;
    }
    let mut i = start_index;
    while i < end_index
        invariant
            start_index <= i <= end_index,
            end_index <= cache@.len(),
            r@ == cache@.subrange(start_index as int, i as int),
        decreases end_index - i,
    {
        r.push(cache[i].clone());
        i = i + 1;
        assert(r@ =~= cache@.subrange(start_index as int, i as int));
    }
    r
}

/// How many of the oldest items a history of `len` items must drop to stay
/// within `HISTORY_CAPACITY`.
pub fn history_items_to_evict(len: usize) -> (n: usize)
    ensures
        n == if len > HISTORY_CAPACITY {
            len - HISTORY_CAPACITY
        } else {
            0
        },
{
    if len > HISTORY_CAPACITY {
        len - HISTORY_CAPACITY
    } else {
        0
    }
}


/// The cache never holds more than `ML_FEED_CACHE_CAPACITY` items, the new
/// recommendations come first in the order given, and older items follow
/// until the capacity is reached.
pub proof fn lemma_feed_cache_update(new_items: Seq<MLFeedCacheItem>, cached: Seq<MLFeedCacheItem>)
    ensures
        cap_feed_cache(new_items + cached).len() <= ML_FEED_CACHE_CAPACITY,
        cap_feed_cache(new_items + cached).len() == if new_items.len() + cached.len()
            > ML_FEED_CACHE_CAPACITY {
            ML_FEED_CACHE_CAPACITY as int
        } else {
            (new_items.len() + cached.len()) as int
        },
        forall|i: int|
            0 <= i < cap_feed_cache(new_items + cached).len() && i < new_items.len() ==> #[trigger] cap_feed_cache(
                new_items + cached,
            )[i] == new_items[i],
        forall|i: int|
            0 <= i < cap_feed_cache(new_items + cached).len() && i >= new_items.len() ==> #[trigger] cap_feed_cache(
                new_items + cached,
            )[i] == cached[i - new_items.len()],
{
}

/// A page starts at `start_index` and holds `count` items, or all that
/// remain when fewer do; it is empty past the end.
pub proof fn lemma_feed_cache_page_shape(s: Seq<MLFeedCacheItem>, start_index: int, count: int)
    requires
        start_index >= 0,
        count >= 0,
    ensures
        feed_cache_page(s, start_index, count).len() == if start_index >= s.len() {
            0
        } else if count < s.len() - start_index {
            count
        } else {
            s.len() - start_index
        },
        forall|i: int| 0 <= i < feed_cache_page(s, start_index, count).len() ==> #[trigger] feed_cache_page(
            s,
            start_index,
            count,
        )[i] == s[start_index + i],
{
}

/// Reading the whole cache from the start returns it as it is.
pub proof fn lemma_feed_cache_page_all(s: Seq<MLFeedCacheItem>, count: int)
    requires
        count >= s.len(),
    ensures
        feed_cache_page(s, 0, count) == s,
{
    if s.len() > 0 {
        assert(s.subrange(0, s.len() as int) =~= s);
    } else {
        assert(feed_cache_page(s, 0, count) =~= s);
    }
}

} // verus!
