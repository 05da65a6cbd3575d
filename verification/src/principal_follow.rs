//! Following by principal: the older follow API, which keeps plain sets of
//! principals and asks the user index for the followee's canister.
//!
//! Each request alternates calls to other canisters with decisions; the
//! decisions stand here as functions from what is known and what a call
//! answered to the next step.

use vstd::prelude::*;

use crate::canister_data::CanisterData;
use crate::follow::MAX_USERS_IN_FOLLOWER_FOLLOWING_LIST;
use crate::principal::{principal_toggle_spec, Principal, PrincipalSet};

verus! {

/// Errors of following another user by principal.
#[derive(Clone, Copy, Debug, PartialEq, Eq, Structural)]
pub enum FollowAnotherUserProfileError {
    NotAuthorized,
    UsersICanFollowListIsFull,
    UserIndexCrossCanisterCallFailed,
    UserToFollowDoesNotExist,
    UserITriedToFollowCrossCanisterCallFailed,
    UserITriedToFollowDidNotFindMe,
    MyCanisterIDDoesNotMatchMyPrincipalCanisterIDMappingSeenByUserITriedToFollow,
    UserITriedToFollowHasTheirFollowersListFull,
}

/// Errors a followee's canister answers when asked to record a follower.
#[derive(Clone, Copy, Debug, PartialEq, Eq, Structural)]
pub enum AnotherUserFollowedMeError {
    UserIndexCrossCanisterCallFailed,
    UserTryingToFollowMeDoesNotExist,
    NotAuthorized,
    FollowersListFull,
}

/// Errors of the bounds of a page request.
#[derive(Clone, Copy, Debug, PartialEq, Eq, Structural)]
pub enum PaginationError {
    InvalidBoundsPassed,
    ReachedEndOfItemsList,
    ExceededMaxNumberOfItemsAllowedInOneRequest,
}

/// Errors of reading a page of followers or followees.
#[derive(Clone, Copy, Debug, PartialEq, Eq, Structural)]
pub enum GetFollowerOrFollowingError {
    InvalidBoundsPassed,
    ReachedEndOfItemsList,
    ExceededMaxNumberOfItemsAllowedInOneRequest,
}

/// A call to another canister that did not complete.
#[derive(Clone, Copy, Debug, PartialEq, Eq, Structural)]
pub struct CallFailed;

/// First step of following `user_to_follow`: only the owner may follow, and
/// not when the list of principals followed is over the limit.
pub fn check_follow_request(
    my_principal_id: Option<Principal>,
    current_caller: Principal,
    principals_i_follow_count: usize,
) -> (r: Result<(), FollowAnotherUserProfileError>)
    ensures
        my_principal_id != Some(current_caller) ==> r == Err::<(), FollowAnotherUserProfileError>(
            FollowAnotherUserProfileError::NotAuthorized,
        ),
        my_principal_id == Some(current_caller) && principals_i_follow_count
            > MAX_USERS_IN_FOLLOWER_FOLLOWING_LIST ==> r == Err::<(), FollowAnotherUserProfileError>(
            FollowAnotherUserProfileError::UsersICanFollowListIsFull,
        ),
        my_principal_id == Some(current_caller) && principals_i_follow_count
            <= MAX_USERS_IN_FOLLOWER_FOLLOWING_LIST ==> r == Ok::<(), FollowAnotherUserProfileError>(()),
{
    match my_principal_id {
        None => return Err(FollowAnotherUserProfileError::NotAuthorized),
        Some(p) => {
            if p != current_caller {
                return Err(FollowAnotherUserProfileError::NotAuthorized);
            }
        },
    }
    if principals_i_follow_count as u64 > MAX_USERS_IN_FOLLOWER_FOLLOWING_LIST {
        return Err(FollowAnotherUserProfileError::UsersICanFollowListIsFull);
    }
    Ok(())
}

/// Second step: the user index's answer to "which canister belongs to the
/// user to follow".
pub fn followee_canister_from_user_index(reply: Result<Option<Principal>, CallFailed>) -> (r: Result<
    Principal,
    FollowAnotherUserProfileError,
>)
    ensures
        reply is Err ==> r == Err::<Principal, FollowAnotherUserProfileError>(
            FollowAnotherUserProfileError::UserIndexCrossCanisterCallFailed,
        ),
        reply == Ok::<Option<Principal>, CallFailed>(None) ==> r == Err::<
            Principal,
            FollowAnotherUserProfileError,
        >(FollowAnotherUserProfileError::UserToFollowDoesNotExist),
        forall|c: Principal|
            reply == Ok::<Option<Principal>, CallFailed>(Some(c)) ==> r == Ok::<
                Principal,
                FollowAnotherUserProfileError,
            >(c),
{
    match reply {
        Err(_) => Err(FollowAnotherUserProfileError::UserIndexCrossCanisterCallFailed),
        Ok(None) => Err(FollowAnotherUserProfileError::UserToFollowDoesNotExist),
        Ok(Some(c)) => Ok(c),
    }
}

/// How the followee's refusal is reported to the user who tried to follow.
pub open spec fn followed_me_error_to_follow_error(e: AnotherUserFollowedMeError) -> FollowAnotherUserProfileError {
    match e {
        AnotherUserFollowedMeError::UserIndexCrossCanisterCallFailed => FollowAnotherUserProfileError::UserITriedToFollowCrossCanisterCallFailed,
        AnotherUserFollowedMeError::UserTryingToFollowMeDoesNotExist => FollowAnotherUserProfileError::UserITriedToFollowDidNotFindMe,
        AnotherUserFollowedMeError::NotAuthorized => FollowAnotherUserProfileError::MyCanisterIDDoesNotMatchMyPrincipalCanisterIDMappingSeenByUserITriedToFollow,
        AnotherUserFollowedMeError::FollowersListFull => FollowAnotherUserProfileError::UserITriedToFollowHasTheirFollowersListFull,
    }
}

pub fn map_followed_me_error(e: AnotherUserFollowedMeError) -> (r: FollowAnotherUserProfileError)
    ensures
        r == followed_me_error_to_follow_error(e),
{
    match e {
        AnotherUserFollowedMeError::UserIndexCrossCanisterCallFailed => FollowAnotherUserProfileError::UserITriedToFollowCrossCanisterCallFailed,
        AnotherUserFollowedMeError::UserTryingToFollowMeDoesNotExist => FollowAnotherUserProfileError::UserITriedToFollowDidNotFindMe,
        AnotherUserFollowedMeError::NotAuthorized => FollowAnotherUserProfileError::MyCanisterIDDoesNotMatchMyPrincipalCanisterIDMappingSeenByUserITriedToFollow,
        AnotherUserFollowedMeError::FollowersListFull => FollowAnotherUserProfileError::UserITriedToFollowHasTheirFollowersListFull,
    }
}

/// Last step of following: applies the followee's answer. A failed call or a
/// refusal changes nothing; "now followed" adds the user to the principals
/// followed, "no longer followed" removes them.
pub fn apply_follow_toggle_reply(
    canister_data: &mut CanisterData,
    user_to_follow: Principal,
    reply: Result<Result<bool, AnotherUserFollowedMeError>, CallFailed>,
) -> (r: Result<bool, FollowAnotherUserProfileError>)
    requires
        old(canister_data).wf(),
    ensures
        final(canister_data).wf(),
        reply is Err ==> r == Err::<bool, FollowAnotherUserProfileError>(
            FollowAnotherUserProfileError::UserITriedToFollowCrossCanisterCallFailed,
        ),
        forall|e: AnotherUserFollowedMeError|
            reply == Ok::<Result<bool, AnotherUserFollowedMeError>, CallFailed>(Err(e)) ==> r == Err::<
                bool,
                FollowAnotherUserProfileError,
            >(followed_me_error_to_follow_error(e)),
        r is Err ==> *final(canister_data) == *old(canister_data),
        reply == Ok::<Result<bool, AnotherUserFollowedMeError>, CallFailed>(Ok(true)) ==> r == Ok::<
            bool,
            FollowAnotherUserProfileError,
        >(true) && final(canister_data).principals_i_follow@.contains(user_to_follow),
        reply == Ok::<Result<bool, AnotherUserFollowedMeError>, CallFailed>(Ok(false)) ==> r == Ok::<
            bool,
            FollowAnotherUserProfileError,
        >(false) && !final(canister_data).principals_i_follow@.contains(user_to_follow),
        forall|p: Principal|
            p != user_to_follow ==> (final(canister_data).principals_i_follow@.contains(p)
                <==> old(canister_data).principals_i_follow@.contains(p)),
        *final(canister_data) == (CanisterData {
            principals_i_follow: final(canister_data).principals_i_follow,
            ..*old(canister_data)
        }),
{
    match reply {
        Err(_) => Err(FollowAnotherUserProfileError::UserITriedToFollowCrossCanisterCallFailed),
        Ok(Err(e)) => Err(map_followed_me_error(e)),
        Ok(Ok(true)) => {
            canister_data.principals_i_follow.insert(user_to_follow);
            proof {
                assert forall|p: Principal| p != user_to_follow implies (
                canister_data.principals_i_follow@.contains(p) <==> old(canister_data).principals_i_follow@.contains(p)) by {
                    if canister_data.principals_i_follow@.contains(p) {
                        let i = choose|i: int|
                            0 <= i < canister_data.principals_i_follow@.len()
                                && canister_data.principals_i_follow@[i] == p;
                        if i < old(canister_data).principals_i_follow@.len() {
                            assert(old(canister_data).principals_i_follow@[i] == p);
                        }
                    }
                    if old(canister_data).principals_i_follow@.contains(p) {
                        let i = choose|i: int|
                            0 <= i < old(canister_data).principals_i_follow@.len() && old(canister_data).principals_i_follow@[i] == p;
                        assert(canister_data.principals_i_follow@[i] == p);
                    }
                }
                if !old(canister_data).principals_i_follow@.contains(user_to_follow) {
                    let n = canister_data.principals_i_follow@.len();
                    assert(canister_data.principals_i_follow@[n - 1] == user_to_follow);
                }
            }
            Ok(true)
        },
        Ok(Ok(false)) => {
            canister_data.principals_i_follow.remove(&user_to_follow);
            proof {
                let s = old(canister_data).principals_i_follow@;
                let r = canister_data.principals_i_follow@;
                assert forall|p: Principal| p != user_to_follow implies (r.contains(p) <==> s.contains(p)) by {
                    if s.contains(user_to_follow) {
                        let i = choose|i: int| 0 <= i < s.len() && s[i] == user_to_follow;
                        assert(r == s.remove(i));
                        if s.contains(p) {
                            let j = choose|j: int| 0 <= j < s.len() && s[j] == p;
                            if j < i {
                                assert(r[j] == p);
                            } else {
                                assert(r[j - 1] == p);
                            }
                        }
                        if r.contains(p) {
                            let j = choose|j: int| 0 <= j < r.len() && r[j] == p;
                            if j < i {
                                assert(s[j] == p);
                            } else {
                                assert(s[j + 1] == p);
                            }
                        }
                    }
                }
            }
            Ok(false)
        },
    }
}

/// Followee side, first step: the user index's answer to "which canister
/// belongs to the user trying to follow me", checked against the canister
/// that called.
pub fn check_follower_canister(
    reply: Result<Option<Principal>, CallFailed>,
    calling_canister_principal: Principal,
) -> (r: Result<(), AnotherUserFollowedMeError>)
    ensures
        reply is Err ==> r == Err::<(), AnotherUserFollowedMeError>(
            AnotherUserFollowedMeError::UserIndexCrossCanisterCallFailed,
        ),
        reply == Ok::<Option<Principal>, CallFailed>(None) ==> r == Err::<(), AnotherUserFollowedMeError>(
            AnotherUserFollowedMeError::UserTryingToFollowMeDoesNotExist,
        ),
        forall|c: Principal|
            reply == Ok::<Option<Principal>, CallFailed>(Some(c)) ==> r == if c
                == calling_canister_principal {
                Ok::<(), AnotherUserFollowedMeError>(())
            } else {
                Err::<(), AnotherUserFollowedMeError>(AnotherUserFollowedMeError::NotAuthorized)
            },
{
    match reply {
        Err(_) => Err(AnotherUserFollowedMeError::UserIndexCrossCanisterCallFailed),
        Ok(None) => Err(AnotherUserFollowedMeError::UserTryingToFollowMeDoesNotExist),
        Ok(Some(c)) => {
            if c != calling_canister_principal {
                Err(AnotherUserFollowedMeError::NotAuthorized)
            } else {
                Ok(())
            }
        },
    }
}

/// Followee side, last step: a follower list over the limit refuses;
/// otherwise the follower is removed if present (answer `false`) or added
/// (answer `true`).
pub fn toggle_principal_that_follows_me(
    canister_data: &mut CanisterData,
    follower: Principal,
) -> (r: Result<bool, AnotherUserFollowedMeError>)
    requires
        old(canister_data).wf(),
    ensures
        final(canister_data).wf(),
        old(canister_data).principals_that_follow_me@.len() > MAX_USERS_IN_FOLLOWER_FOLLOWING_LIST
            ==> r == Err::<bool, AnotherUserFollowedMeError>(
            AnotherUserFollowedMeError::FollowersListFull,
        ) && *final(canister_data) == *old(canister_data),
        old(canister_data).principals_that_follow_me@.len() <= MAX_USERS_IN_FOLLOWER_FOLLOWING_LIST
            ==> r == Ok::<bool, AnotherUserFollowedMeError>(
            !old(canister_data).principals_that_follow_me@.contains(follower),
        ),
        r is Ok ==> final(canister_data).principals_that_follow_me@ == principal_toggle_spec(
            old(canister_data).principals_that_follow_me@,
            follower,
        ),
        r == Ok::<bool, AnotherUserFollowedMeError>(true) ==> final(canister_data).principals_that_follow_me@ == old(canister_data).principals_that_follow_me@.push(follower),
        r == Ok::<bool, AnotherUserFollowedMeError>(false) ==> !final(canister_data).principals_that_follow_me@.contains(follower),
        forall|i: int|
            r == Ok::<bool, AnotherUserFollowedMeError>(false) && 0 <= i < old(canister_data).principals_that_follow_me@.len() && #[trigger] old(canister_data).principals_that_follow_me@[i]
                == follower ==> final(canister_data).principals_that_follow_me@ == old(canister_data).principals_that_follow_me@.remove(i),
        *final(canister_data) == (CanisterData {
            principals_that_follow_me: final(canister_data).principals_that_follow_me,
            ..*old(canister_data)
        }),
{
    if canister_data.principals_that_follow_me.len() as u64 > MAX_USERS_IN_FOLLOWER_FOLLOWING_LIST {
        return Err(AnotherUserFollowedMeError::FollowersListFull);
    }
    if canister_data.principals_that_follow_me.contains(&follower) {
        canister_data.principals_that_follow_me.remove(&follower);
        Ok(false)
    } else {
        canister_data.principals_that_follow_me.insert(follower);
        Ok(true)
    }
}

/// Whether the owner follows `user_principal_to_check`.
pub fn get_following_status_do_i_follow_this_user(
    canister_data: &CanisterData,
    user_principal_to_check: Principal,
) -> (r: bool)
    ensures
        r == canister_data.principals_i_follow@.contains(user_principal_to_check),
{
    canister_data.principals_i_follow.contains(&user_principal_to_check)
}

/// How a bounds error is reported.
pub open spec fn pagination_error_to_follower_error(e: PaginationError) -> GetFollowerOrFollowingError {
    match e {
        PaginationError::InvalidBoundsPassed => GetFollowerOrFollowingError::InvalidBoundsPassed,
        PaginationError::ReachedEndOfItemsList => GetFollowerOrFollowingError::ReachedEndOfItemsList,
        PaginationError::ExceededMaxNumberOfItemsAllowedInOneRequest => GetFollowerOrFollowingError::ExceededMaxNumberOfItemsAllowedInOneRequest,
    }
}

/// The principals at positions `from` (inclusive) to `to` (exclusive) of
/// `s`, cut at its end; empty when the range is.
pub open spec fn index_range_page(s: Seq<Principal>, from: int, to: int) -> Seq<Principal> {
    if from >= s.len() || to <= from {
        Seq::empty()
    } else if to >= s.len() {
        s.subrange(from, s.len() as int)
    } else {
        s.subrange(from, to)
    }
}

/// A page from `from` (inclusive) to `to` (exclusive) holds the items at
/// exactly those positions that exist: `min(to, len) - from` of them, the
/// first being the one at `from`; none when the range is empty or starts
/// past the end.
pub proof fn lemma_index_range_page_shape(s: Seq<Principal>, from: int, to: int)
    requires
        from >= 0,
    ensures
        index_range_page(s, from, to).len() == if from >= s.len() || to <= from {
            0
        } else if to < s.len() {
            to - from
        } else {
            s.len() - from
        },
        forall|i: int| 0 <= i < index_range_page(s, from, to).len() ==> #[trigger] index_range_page(s, from, to)[i]
            == s[from + i],
{
}

/// A page of the principals that follow the owner, given the checked bounds
/// of the request, an inclusive start and an exclusive end: bounds errors are
/// passed on; otherwise the principals at positions `from` up to, but not
/// including, `to`.
pub fn get_principals_that_follow_me_paginated(
    canister_data: &CanisterData,
    bounds: Result<(u64, u64), PaginationError>,
) -> (r: Result<Vec<Principal>, GetFollowerOrFollowingError>)
    ensures
        forall|e: PaginationError|
            bounds == Err::<(u64, u64), PaginationError>(e) ==> r == Err::<Vec<Principal>, GetFollowerOrFollowingError>(
                pagination_error_to_follower_error(e),
            ),
        forall|from: u64, to: u64|
            bounds == Ok::<(u64, u64), PaginationError>((from, to)) ==> (r matches Ok(v) && v@
                == index_range_page(canister_data.principals_that_follow_me@, from as int, to as int)),
{
    match bounds {
        Err(PaginationError::InvalidBoundsPassed) => Err(GetFollowerOrFollowingError::InvalidBoundsPassed),
        Err(PaginationError::ReachedEndOfItemsList) => Err(GetFollowerOrFollowingError::ReachedEndOfItemsList),
        Err(PaginationError::ExceededMaxNumberOfItemsAllowedInOneRequest) => Err(
            GetFollowerOrFollowingError::ExceededMaxNumberOfItemsAllowedInOneRequest,
        ),
        Ok((from, to)) => {
            if to <= from {
                Ok(Vec::new())
            } else {
                Ok(canister_data.principals_that_follow_me.window(from, to - from))
            }
        },
    }
}

} // verus!
