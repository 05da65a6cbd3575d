use individual_user_template::canister_data::CanisterData;
use individual_user_template::follow::{
    add_or_remove_followee_depending_on_follow_status, do_i_follow_this_user_impl,
    get_profiles_that_follow_me_paginated_impl,
    update_profiles_that_follow_me_toggle_list_with_specified_profile_impl,
    validate_incoming_request, FollowAnotherUserProfileError, FollowEntryDetail, FollowList,
    FolloweeArg, FollowerArg, GetFollowerOrFollowingPageError,
    MAX_USERS_IN_FOLLOWER_FOLLOWING_LIST,
};
use individual_user_template::principal::Principal;

fn principal_of(c: candid::Principal) -> Principal {
    Principal { len: c.len(), bytes: *c.as_fixed_bytes() }
}

fn anonymous() -> Principal {
    principal_of(candid::Principal::anonymous())
}

fn named(name: &str) -> Principal {
    principal_of(candid::Principal::self_authenticating(name.as_bytes()))
}

fn numbered(id: u64) -> Principal {
    principal_of(candid::Principal::self_authenticating(id.to_ne_bytes()))
}

fn alice_principal() -> Principal {
    named("alice principal")
}
fn alice_canister() -> Principal {
    named("alice canister")
}
fn bob_principal() -> Principal {
    named("bob principal")
}
fn bob_canister() -> Principal {
    named("bob canister")
}
fn charlie_principal() -> Principal {
    named("charlie principal")
}
fn charlie_canister() -> Principal {
    named("charlie canister")
}

fn entry(id: u64) -> FollowEntryDetail {
    FollowEntryDetail { principal_id: numbered(id), canister_id: numbered(id) }
}

#[test]
fn test_do_i_follow_this_user_impl() {
    let mut canister_data = CanisterData::default();
    let arg = FolloweeArg {
        followee_principal_id: bob_principal(),
        followee_canister_id: bob_canister(),
    };

    let current_caller = anonymous();
    let result = do_i_follow_this_user_impl(&canister_data, &arg, &current_caller);
    assert_eq!(result, Err(FollowAnotherUserProfileError::Unauthenticated));

    canister_data.profile.principal_id = Some(alice_principal());

    let current_caller = charlie_principal();
    let result = do_i_follow_this_user_impl(&canister_data, &arg, &current_caller);
    assert_eq!(result, Err(FollowAnotherUserProfileError::Unauthorized));

    let current_caller = alice_principal();
    let result = do_i_follow_this_user_impl(&canister_data, &arg, &current_caller);
    assert_eq!(result, Ok(false));

    canister_data.follow_data.following.add(FollowEntryDetail {
        principal_id: bob_principal(),
        canister_id: bob_canister(),
    });

    let result = do_i_follow_this_user_impl(&canister_data, &arg, &current_caller);
    assert_eq!(result, Ok(true));
}

fn expected_page(ids: Vec<u64>) -> Vec<(u64, FollowEntryDetail)> {
    ids.into_iter().map(|id| (id, entry(id))).collect()
}

#[test]
fn test_get_profiles_that_follow_me_paginated_impl() {
    let mut canister_data = CanisterData::default();
    let mut current_caller = anonymous();
    let mut last_index_received: Option<u64> = None;

    let result = get_profiles_that_follow_me_paginated_impl(&canister_data, None, &current_caller);
    assert_eq!(result, Err(GetFollowerOrFollowingPageError::Unauthenticated));

    current_caller = bob_principal();
    canister_data.profile.principal_id = Some(alice_principal());

    let result =
        get_profiles_that_follow_me_paginated_impl(&canister_data, last_index_received, &current_caller);
    assert_eq!(result, Err(GetFollowerOrFollowingPageError::Unauthorized));

    current_caller = alice_principal();

    let result =
        get_profiles_that_follow_me_paginated_impl(&canister_data, last_index_received, &current_caller);
    assert_eq!(result.as_ref().unwrap().len(), 0);

    (0..25).for_each(|id: u64| {
        canister_data.follow_data.follower.add(entry(id));
    });

    let result =
        get_profiles_that_follow_me_paginated_impl(&canister_data, last_index_received, &current_caller);
    assert_eq!(result.as_ref().unwrap().len(), 10);
    assert_eq!(result.unwrap(), expected_page((15..=24).rev().collect()));

    last_index_received = Some(15);
    let result =
        get_profiles_that_follow_me_paginated_impl(&canister_data, last_index_received, &current_caller);
    assert_eq!(result.as_ref().unwrap().len(), 10);
    assert_eq!(result.unwrap(), expected_page((6..=15).rev().collect()));

    last_index_received = Some(5);
    let result =
        get_profiles_that_follow_me_paginated_impl(&canister_data, last_index_received, &current_caller);
    assert_eq!(result.as_ref().unwrap().len(), 6);
    assert_eq!(result.unwrap(), expected_page((0..=5).rev().collect()));

    last_index_received = Some(0);
    let result =
        get_profiles_that_follow_me_paginated_impl(&canister_data, last_index_received, &current_caller);
    assert_eq!(result.as_ref().unwrap().len(), 1);
    assert_eq!(result.unwrap(), expected_page((0..1).rev().collect()));

    last_index_received = Some(100);
    let result =
        get_profiles_that_follow_me_paginated_impl(&canister_data, last_index_received, &current_caller);
    assert_eq!(result.as_ref().unwrap().len(), 10);
    assert_eq!(result.unwrap(), expected_page((15..=24).rev().collect()));
}

#[test]
fn test_validate_incoming_request() {
    let mut canister_data = CanisterData::default();
    let mut current_caller = anonymous();
    let my_principal_id = alice_principal();

    let result = validate_incoming_request(&canister_data, &current_caller, &my_principal_id);
    assert_eq!(result, Err(FollowAnotherUserProfileError::Unauthenticated));

    current_caller = bob_principal();
    let result = validate_incoming_request(&canister_data, &current_caller, &my_principal_id);
    assert_eq!(result, Err(FollowAnotherUserProfileError::Unauthorized));

    current_caller = alice_principal();

    (0..MAX_USERS_IN_FOLLOWER_FOLLOWING_LIST).for_each(|id: u64| {
        canister_data.follow_data.following.add(entry(id));
    });

    let result = validate_incoming_request(&canister_data, &current_caller, &my_principal_id);
    assert!(result.is_ok());

    canister_data.follow_data.following.add(entry(MAX_USERS_IN_FOLLOWER_FOLLOWING_LIST + 1));

    let result = validate_incoming_request(&canister_data, &current_caller, &my_principal_id);
    assert_eq!(result, Err(FollowAnotherUserProfileError::UsersICanFollowListIsFull));
}

#[test]
fn test_add_or_remove_followee_depending_on_follow_status() {
    let mut canister_data = CanisterData::default();
    let follow_status = true;
    let followee_entry_detail = FollowEntryDetail {
        principal_id: alice_principal(),
        canister_id: alice_canister(),
    };

    let result = add_or_remove_followee_depending_on_follow_status(
        &mut canister_data,
        &follow_status,
        &followee_entry_detail,
    );
    assert!(result.is_ok());
    assert_eq!(canister_data.follow_data.following.len(), 1);

    let follow_status = false;
    let result = add_or_remove_followee_depending_on_follow_status(
        &mut canister_data,
        &follow_status,
        &followee_entry_detail,
    );
    assert!(result.is_ok());
    assert_eq!(canister_data.follow_data.following.len(), 0);
}

#[test]
fn test_update_profiles_that_follow_me_toggle_list_with_specified_profile_impl() {
    let mut canister_data = CanisterData::default();
    let mut calling_canister_principal = charlie_canister();
    let arg = FollowerArg {
        follower_principal_id: alice_principal(),
        follower_canister_id: alice_canister(),
    };

    let result = update_profiles_that_follow_me_toggle_list_with_specified_profile_impl(
        &mut canister_data,
        &calling_canister_principal,
        &arg,
    );
    assert_eq!(result, Err(FollowAnotherUserProfileError::Unauthorized));

    calling_canister_principal = alice_canister();
    (0..MAX_USERS_IN_FOLLOWER_FOLLOWING_LIST).for_each(|id: u64| {
        canister_data.follow_data.follower.add(entry(id));
    });

    let result = update_profiles_that_follow_me_toggle_list_with_specified_profile_impl(
        &mut canister_data,
        &calling_canister_principal,
        &arg,
    );
    assert!(result.is_ok());

    canister_data.follow_data.follower.add(entry(MAX_USERS_IN_FOLLOWER_FOLLOWING_LIST + 1));

    let result = update_profiles_that_follow_me_toggle_list_with_specified_profile_impl(
        &mut canister_data,
        &calling_canister_principal,
        &arg,
    );
    assert_eq!(result, Err(FollowAnotherUserProfileError::UserITriedToFollowHasTheirFollowersListFull));

    canister_data.follow_data.follower = FollowList::new();
    let follow_entry_detail = FollowEntryDetail {
        principal_id: arg.follower_principal_id,
        canister_id: arg.follower_canister_id,
    };

    let result = update_profiles_that_follow_me_toggle_list_with_specified_profile_impl(
        &mut canister_data,
        &calling_canister_principal,
        &arg,
    );
    assert!(result.is_ok());
    assert!(*result.as_ref().unwrap());
    assert_eq!(canister_data.follow_data.follower.len(), 1_usize);
    assert!(canister_data.follow_data.follower.contains(&follow_entry_detail));

    let result = update_profiles_that_follow_me_toggle_list_with_specified_profile_impl(
        &mut canister_data,
        &calling_canister_principal,
        &arg,
    );
    assert!(result.is_ok());
    assert!(!(*result.as_ref().unwrap()));
    assert_eq!(canister_data.follow_data.follower.len(), 0_usize);
    assert!(!canister_data.follow_data.follower.contains(&follow_entry_detail));
}

#[test]
fn follow_list_numbers_entries_in_order_and_toggling_twice_restores_it() {
    let mut list = FollowList::new();
    list.add(entry(7));
    list.add(entry(8));
    list.add(entry(7));
    assert_eq!(list.entries, vec![(0, entry(7)), (1, entry(8))]);
    list.remove(&entry(7));
    assert_eq!(list.entries, vec![(1, entry(8))]);
    list.add(entry(9));
    assert_eq!(list.entries, vec![(1, entry(8)), (2, entry(9))]);
    let page = list.page_up_to(1, 10);
    assert_eq!(page, vec![(1, entry(8))]);
}

#[test]
fn profile_follow_toggle_twice_leaves_list_unchanged() {
    let mut canister_data = CanisterData::default();
    canister_data.follow_data.follower.add(entry(1));
    let before = canister_data.follow_data.follower.entries.clone();
    let arg = FollowerArg { follower_principal_id: bob_principal(), follower_canister_id: bob_canister() };
    let caller = bob_canister();
    let first =
        update_profiles_that_follow_me_toggle_list_with_specified_profile_impl(&mut canister_data, &caller, &arg);
    assert_eq!(first, Ok(true));
    let second =
        update_profiles_that_follow_me_toggle_list_with_specified_profile_impl(&mut canister_data, &caller, &arg);
    assert_eq!(second, Ok(false));
    assert_eq!(canister_data.follow_data.follower.entries, before);
}

#[test]
fn follow_list_from_entries_checks_ids_and_duplicates() {
    let alice = FollowEntryDetail { principal_id: alice_principal(), canister_id: alice_canister() };
    let bob = FollowEntryDetail { principal_id: bob_principal(), canister_id: bob_canister() };

    let restored = FollowList::from_entries(vec![(3, alice), (7, bob)]).expect("valid entries");
    assert_eq!(restored.entries, vec![(3, alice), (7, bob)]);
    assert_eq!(restored.last_id(), 7);

    assert!(FollowList::from_entries(vec![]).is_some());
    assert!(FollowList::from_entries(vec![(7, alice), (3, bob)]).is_none());
    assert!(FollowList::from_entries(vec![(3, alice), (3, bob)]).is_none());
    assert!(FollowList::from_entries(vec![(3, alice), (7, alice)]).is_none());
}

#[test]
fn unfollowing_needs_no_free_entry_id() {
    let alice = FollowEntryDetail { principal_id: alice_principal(), canister_id: alice_canister() };
    let mut data = CanisterData::default();
    data.follow_data.following = FollowList::from_entries(vec![(u64::MAX, alice)]).unwrap();
    assert_eq!(add_or_remove_followee_depending_on_follow_status(&mut data, &false, &alice), Ok(()));
    assert_eq!(data.follow_data.following.len(), 0);

    data.follow_data.follower = FollowList::from_entries(vec![(u64::MAX, alice)]).unwrap();
    let arg = FollowerArg { follower_principal_id: alice_principal(), follower_canister_id: alice_canister() };
    assert_eq!(
        update_profiles_that_follow_me_toggle_list_with_specified_profile_impl(&mut data, &alice_canister(), &arg),
        Ok(false)
    );
    assert_eq!(data.follow_data.follower.len(), 0);
}
