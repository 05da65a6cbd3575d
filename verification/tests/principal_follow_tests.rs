use individual_user_template::canister_data::CanisterData;
use individual_user_template::principal::Principal;
use individual_user_template::principal_follow::{
    apply_follow_toggle_reply, check_follow_request, check_follower_canister,
    followee_canister_from_user_index, get_following_status_do_i_follow_this_user,
    get_principals_that_follow_me_paginated, map_followed_me_error, toggle_principal_that_follows_me,
    AnotherUserFollowedMeError, CallFailed, FollowAnotherUserProfileError,
    GetFollowerOrFollowingError, PaginationError,
};

fn named(name: &str) -> Principal {
    let c = candid::Principal::self_authenticating(name.as_bytes());
    Principal { len: c.len(), bytes: *c.as_fixed_bytes() }
}

#[test]
fn only_the_owner_may_follow() {
    let me = named("me");
    assert_eq!(check_follow_request(None, me, 0), Err(FollowAnotherUserProfileError::NotAuthorized));
    assert_eq!(check_follow_request(Some(named("other")), me, 0), Err(FollowAnotherUserProfileError::NotAuthorized));
    assert_eq!(check_follow_request(Some(me), me, 10_000), Ok(()));
    assert_eq!(check_follow_request(Some(me), me, 10_001), Err(FollowAnotherUserProfileError::UsersICanFollowListIsFull));
}

#[test]
fn user_index_answers_are_mapped() {
    let c = named("canister");
    assert_eq!(followee_canister_from_user_index(Err(CallFailed)), Err(FollowAnotherUserProfileError::UserIndexCrossCanisterCallFailed));
    assert_eq!(followee_canister_from_user_index(Ok(None)), Err(FollowAnotherUserProfileError::UserToFollowDoesNotExist));
    assert_eq!(followee_canister_from_user_index(Ok(Some(c))), Ok(c));
    assert_eq!(check_follower_canister(Err(CallFailed), c), Err(AnotherUserFollowedMeError::UserIndexCrossCanisterCallFailed));
    assert_eq!(check_follower_canister(Ok(None), c), Err(AnotherUserFollowedMeError::UserTryingToFollowMeDoesNotExist));
    assert_eq!(check_follower_canister(Ok(Some(named("x"))), c), Err(AnotherUserFollowedMeError::NotAuthorized));
    assert_eq!(check_follower_canister(Ok(Some(c)), c), Ok(()));
}

#[test]
fn followee_refusals_are_reported() {
    assert_eq!(
        map_followed_me_error(AnotherUserFollowedMeError::UserIndexCrossCanisterCallFailed),
        FollowAnotherUserProfileError::UserITriedToFollowCrossCanisterCallFailed
    );
    assert_eq!(
        map_followed_me_error(AnotherUserFollowedMeError::UserTryingToFollowMeDoesNotExist),
        FollowAnotherUserProfileError::UserITriedToFollowDidNotFindMe
    );
    assert_eq!(
        map_followed_me_error(AnotherUserFollowedMeError::NotAuthorized),
        FollowAnotherUserProfileError::MyCanisterIDDoesNotMatchMyPrincipalCanisterIDMappingSeenByUserITriedToFollow
    );
    assert_eq!(
        map_followed_me_error(AnotherUserFollowedMeError::FollowersListFull),
        FollowAnotherUserProfileError::UserITriedToFollowHasTheirFollowersListFull
    );
}

#[test]
fn follow_replies_update_principals_i_follow() {
    let mut data = CanisterData::default();
    let u = named("u");
    assert_eq!(
        apply_follow_toggle_reply(&mut data, u, Err(CallFailed)),
        Err(FollowAnotherUserProfileError::UserITriedToFollowCrossCanisterCallFailed)
    );
    assert_eq!(
        apply_follow_toggle_reply(&mut data, u, Ok(Err(AnotherUserFollowedMeError::FollowersListFull))),
        Err(FollowAnotherUserProfileError::UserITriedToFollowHasTheirFollowersListFull)
    );
    assert!(!get_following_status_do_i_follow_this_user(&data, u));
    assert_eq!(apply_follow_toggle_reply(&mut data, u, Ok(Ok(true))), Ok(true));
    assert!(get_following_status_do_i_follow_this_user(&data, u));
    assert_eq!(apply_follow_toggle_reply(&mut data, u, Ok(Ok(false))), Ok(false));
    assert!(!get_following_status_do_i_follow_this_user(&data, u));
}

#[test]
fn followers_toggle_and_page() {
    let mut data = CanisterData::default();
    let a = named("a");
    let b = named("b");
    assert_eq!(toggle_principal_that_follows_me(&mut data, a), Ok(true));
    assert_eq!(toggle_principal_that_follows_me(&mut data, b), Ok(true));
    assert_eq!(
        get_principals_that_follow_me_paginated(&data, Ok((0, 2))).unwrap(),
        vec![a, b]
    );
    assert_eq!(get_principals_that_follow_me_paginated(&data, Ok((1, 5))).unwrap(), vec![b]);
    assert_eq!(get_principals_that_follow_me_paginated(&data, Ok((1, 2))).unwrap(), vec![b]);
    assert_eq!(get_principals_that_follow_me_paginated(&data, Ok((1, 1))).unwrap(), Vec::<Principal>::new());
    assert_eq!(
        get_principals_that_follow_me_paginated(&data, Err(PaginationError::ReachedEndOfItemsList)),
        Err(GetFollowerOrFollowingError::ReachedEndOfItemsList)
    );
    assert_eq!(toggle_principal_that_follows_me(&mut data, a), Ok(false));
    assert_eq!(get_principals_that_follow_me_paginated(&data, Ok((0, 10))).unwrap(), vec![b]);
    assert_eq!(toggle_principal_that_follows_me(&mut data, a), Ok(true));
    assert_eq!(get_principals_that_follow_me_paginated(&data, Ok((0, 10))).unwrap(), vec![b, a]);
}

#[test]
fn full_follower_list_refuses() {
    let mut data = CanisterData::default();
    for i in 0..10_001u64 {
        data.principals_that_follow_me.items.push(named(&format!("f{i}")));
    }
    assert_eq!(toggle_principal_that_follows_me(&mut data, named("new")), Err(AnotherUserFollowedMeError::FollowersListFull));
}
