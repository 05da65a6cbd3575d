use individual_user_template::canister_data::CanisterData;
use individual_user_template::ml::{
    get_ml_feed_cache_paginated_impl, history_items_to_evict, update_ml_feed_cache_impl,
    MLFeedCacheItem,
};
use individual_user_template::principal::Principal;

fn anonymous() -> Principal {
    let c = candid::Principal::anonymous();
    Principal { len: c.len(), bytes: *c.as_fixed_bytes() }
}

fn item(i: u64) -> MLFeedCacheItem {
    MLFeedCacheItem {
        post_id: i,
        canister_id: anonymous(),
        video_id: "dafds".to_string(),
        creator_principal_id: None,
    }
}

#[test]
fn test_update_ml_feed_cache() {
    let mut canister_data = CanisterData::default();
    let mut ml_feed_cache_items = vec![];
    for i in 0..200 {
        ml_feed_cache_items.push(item(i));
    }

    let result = update_ml_feed_cache_impl(ml_feed_cache_items, &mut canister_data);
    assert_eq!(result, Ok("Success".into()));

    let result = get_ml_feed_cache_paginated_impl(0, 200, &canister_data);
    assert_eq!(result.len(), 200);
    assert_eq!(result[0].post_id, 0);
    assert_eq!(result[199].post_id, 199);

    let mut new_ml_feed_cache_items = vec![];
    for i in 200..300 {
        new_ml_feed_cache_items.push(item(i));
    }

    let result = update_ml_feed_cache_impl(new_ml_feed_cache_items, &mut canister_data);
    assert_eq!(result, Ok("Success".into()));

    let result = get_ml_feed_cache_paginated_impl(0, 200, &canister_data);
    assert_eq!(result.len(), 200);
    assert_eq!(result[0].post_id, 200);
    assert_eq!(result[199].post_id, 99);

    let result = get_ml_feed_cache_paginated_impl(200, 200, &canister_data);
    assert_eq!(result.len(), 0);

    let result = get_ml_feed_cache_paginated_impl(2000, 200, &canister_data);
    assert_eq!(result.len(), 0);
}

#[test]
fn feed_cache_page_is_cut_at_the_end() {
    let mut canister_data = CanisterData::default();
    update_ml_feed_cache_impl((0..5).map(item).collect(), &mut canister_data).unwrap();
    let page = get_ml_feed_cache_paginated_impl(3, 10, &canister_data);
    assert_eq!(page.iter().map(|i| i.post_id).collect::<Vec<_>>(), vec![3, 4]);
    let page = get_ml_feed_cache_paginated_impl(1, 2, &canister_data);
    assert_eq!(page.iter().map(|i| i.post_id).collect::<Vec<_>>(), vec![1, 2]);
    let page = get_ml_feed_cache_paginated_impl(1, 0, &canister_data);
    assert!(page.is_empty());
}

#[test]
fn history_keeps_at_most_three_thousand_items() {
    assert_eq!(history_items_to_evict(0), 0);
    assert_eq!(history_items_to_evict(3000), 0);
    assert_eq!(history_items_to_evict(3001), 1);
    assert_eq!(history_items_to_evict(3500), 500);
}
