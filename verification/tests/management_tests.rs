use individual_user_template::canister_data::CanisterData;
use individual_user_template::management::{
    add_device_id_impl, chunk_ranges, cycles_to_return, get_last_access_time, get_session_type,
    get_version_number, is_backup_requester, is_data_backup_canister, metrics_canister_type,
    profile_needs_backup, receive_my_profile_from_data_backup_canister,
    receive_my_utility_token_balance_from_data_backup_canister,
    receive_principals_i_follow_from_data_backup_canister, reset_data,
    update_last_access_time_impl, update_profile_owner_impl, update_session_type_impl,
};
use individual_user_template::principal::Principal;
use individual_user_template::bets::BetOutcomeForBetMaker;
use individual_user_template::types::{KnownPrincipalType, SessionType, TokenEvent, UserProfile};

fn named(name: &str) -> Principal {
    let c = candid::Principal::self_authenticating(name.as_bytes());
    Principal { len: c.len(), bytes: *c.as_fixed_bytes() }
}

#[test]
fn profile_owner_is_set_once_by_a_controller() {
    let mut data = CanisterData::default();
    assert_eq!(update_profile_owner_impl(&mut data, false, Some(named("a"))), Err("Unauthorised".to_string()));
    assert_eq!(update_profile_owner_impl(&mut data, true, Some(named("a"))), Ok(()));
    assert_eq!(data.profile.principal_id, Some(named("a")));
    assert_eq!(
        update_profile_owner_impl(&mut data, true, Some(named("b"))),
        Err("Canister Already has a profile Owner".to_string())
    );
    assert_eq!(data.profile.principal_id, Some(named("a")));
}

#[test]
fn registered_session_is_final() {
    let mut data = CanisterData::default();
    assert_eq!(get_session_type(&data), Err("Canister has not been assigned yet".to_string()));
    assert_eq!(
        update_session_type_impl(&mut data, Err("Unauthorized".to_string()), SessionType::AnonymousSession),
        Err("Unauthorized".to_string())
    );
    assert_eq!(update_session_type_impl(&mut data, Ok(()), SessionType::AnonymousSession), Ok("Success".to_string()));
    assert_eq!(update_session_type_impl(&mut data, Ok(()), SessionType::RegisteredSession), Ok("Success".to_string()));
    assert_eq!(
        update_session_type_impl(&mut data, Ok(()), SessionType::AnonymousSession),
        Err("Session Already marked as Registered Session".to_string())
    );
    assert_eq!(get_session_type(&data), Ok(SessionType::RegisteredSession));
}

#[test]
fn access_time_is_recorded_for_the_owner() {
    let mut data = CanisterData::default();
    let owner = named("owner");
    data.profile.principal_id = Some(owner);
    assert_eq!(update_last_access_time_impl(&mut data, named("x"), 5), Err("Unauthorized".to_string()));
    assert_eq!(data.last_canister_functionality_access_time, None);
    assert_eq!(update_last_access_time_impl(&mut data, owner, 6), Err("Canister not yet assigned".to_string()));
    assert_eq!(data.last_canister_functionality_access_time, Some(6));
    assert_eq!(get_last_access_time(&data), Err("Canister has not been assigned yet".to_string()));
    data.session_type = Some(SessionType::AnonymousSession);
    assert_eq!(update_last_access_time_impl(&mut data, owner, 7), Ok("Success".to_string()));
    assert_eq!(get_last_access_time(&data), Ok(7));
}

#[test]
fn devices_are_added_by_the_owner_with_millisecond_stamps() {
    let mut data = CanisterData::default();
    let owner = named("owner");
    assert!(add_device_id_impl(&mut data, owner, "d".to_string(), 5_000_000).is_err());
    data.profile.principal_id = Some(owner);
    assert_eq!(
        add_device_id_impl(&mut data, named("x"), "d".to_string(), 5_000_000),
        Err("Only the user whose profile details are stored in this canister can add a device id.".to_string())
    );
    assert_eq!(add_device_id_impl(&mut data, owner, "phone".to_string(), 5_999_999), Ok(true));
    assert_eq!(data.device_identities.len(), 1);
    assert_eq!(data.device_identities[0].device_id, "phone");
    assert_eq!(data.device_identities[0].timestamp, 5);
}

#[test]
fn cycles_returned_are_asked_or_the_excess() {
    assert_eq!(cycles_to_return(Some(7), 0, 100), Some(7));
    assert_eq!(cycles_to_return(None, 150, 100), Some(50));
    assert_eq!(cycles_to_return(None, 100, 100), None);
}

#[test]
fn backup_guards_and_restores() {
    let mut data = CanisterData::default();
    let index = named("index");
    let admin = named("admin");
    let backup = named("backup");
    data.known_principal_ids.insert(KnownPrincipalType::CanisterIdUserIndex, index);
    data.known_principal_ids.insert(KnownPrincipalType::UserIdGlobalSuperAdmin, admin);
    data.known_principal_ids.insert(KnownPrincipalType::CanisterIdDataBackup, backup);
    assert!(is_backup_requester(&data, index));
    assert!(is_backup_requester(&data, admin));
    assert!(!is_backup_requester(&data, backup));
    assert!(is_data_backup_canister(&data, backup));

    receive_my_utility_token_balance_from_data_backup_canister(&mut data, named("x"), 9);
    assert_eq!(data.my_token_balance.utility_token_balance, 0);
    receive_my_utility_token_balance_from_data_backup_canister(&mut data, backup, 9);
    assert_eq!(data.my_token_balance.utility_token_balance, 9);

    receive_principals_i_follow_from_data_backup_canister(&mut data, backup, vec![named("p"), named("q"), named("p")]);
    assert_eq!(data.principals_i_follow.len(), 2);
    assert!(data.principals_i_follow.contains(&named("q")));

    let profile = UserProfile {
        principal_id: Some(named("owner")),
        display_name: Some("Name".to_string()),
        profile_picture_url: None,
        unique_user_name: None,
    };
    assert!(profile_needs_backup(&profile));
    assert!(!profile_needs_backup(&UserProfile {
        principal_id: None,
        display_name: None,
        profile_picture_url: None,
        unique_user_name: Some("u".to_string())
    }));
    receive_my_profile_from_data_backup_canister(&mut data, backup, profile);
    assert_eq!(data.profile.display_name, Some("Name".to_string()));
    assert_eq!(metrics_canister_type(&data), "authenticated");
}

#[test]
fn chunks_cover_everything_in_order() {
    assert!(chunk_ranges(0, 10).is_empty());
    assert_eq!(chunk_ranges(10, 10), vec![(0, 10)]);
    assert_eq!(chunk_ranges(25, 10), vec![(0, 10), (10, 20), (20, 25)]);
}

#[test]
fn reset_forgets_everything() {
    let mut data = CanisterData::default();
    data.profile.principal_id = Some(named("a"));
    data.version_details.version_number = 3;
    assert_eq!(get_version_number(&data), 3);
    assert_eq!(metrics_canister_type(&data), "authenticated");
    reset_data(&mut data);
    assert_eq!(data.profile.principal_id, None);
    assert_eq!(get_version_number(&data), 0);
    assert_eq!(metrics_canister_type(&data), "anonymous");
}

#[test]
fn metrics_text_lists_every_measure_in_milliseconds() {
    let text = individual_user_template::management::metrics_text(
        "authenticated",
        1_234_567_890_123,
        65536,
        0,
        42,
        "2vxsx-fae",
        1_700_000_000_123_456_789,
    );
    assert_eq!(
        text,
        "cycle_balance{type=\"authenticated\"} 1234567890123 1700000000123\n\
         heap_size{type=\"authenticated\"} 65536 1700000000123\n\
         stable_size{type=\"authenticated\"} 0 1700000000123\n\
         version 42 1700000000123\n\
         profile{principal=\"2vxsx-fae\"} 1 1700000000123"
    );
}

#[test]
fn restoring_the_balance_keeps_the_token_history() {
    let backup = named("backup");
    let mut data = CanisterData::default();
    data.known_principal_ids.insert(KnownPrincipalType::CanisterIdDataBackup, backup);
    let event = TokenEvent {
        amount: 5,
        post_canister_id: named("post"),
        post_id: 1,
        slot_id: 1,
        room_id: 1,
        event_outcome: BetOutcomeForBetMaker::Won(5),
        timestamp: 7,
    };
    data.my_token_balance.utility_token_transaction_history.push((0, event));
    receive_my_utility_token_balance_from_data_backup_canister(&mut data, backup, 9);
    assert_eq!(data.my_token_balance.utility_token_balance, 9);
    assert_eq!(data.my_token_balance.utility_token_transaction_history.len(), 1);
    assert_eq!(data.my_token_balance.utility_token_transaction_history[0].1.amount, 5);
}
