use individual_user_template::canister_data::CanisterData;
use individual_user_template::lifecycle::{
    apply_upgrade_args, frame_upgrade_state, init_impl, migrate_excessive_tokens,
    read_upgrade_frame, IndividualUserTemplateInitArgs,
};
use individual_user_template::principal::Principal;
use individual_user_template::types::{KnownPrincipalMap, KnownPrincipalType};

fn named(name: &str) -> Principal {
    let c = candid::Principal::self_authenticating(name.as_bytes());
    Principal { len: c.len(), bytes: *c.as_fixed_bytes() }
}

#[test]
fn test_init_impl() {
    let mut known_principal_ids = KnownPrincipalMap::new();
    known_principal_ids.insert(KnownPrincipalType::UserIdGlobalSuperAdmin, named("global super admin"));
    known_principal_ids.insert(KnownPrincipalType::CanisterIdUserIndex, named("user index"));

    let init_args = IndividualUserTemplateInitArgs {
        known_principal_ids: Some(known_principal_ids),
        profile_owner: Some(named("alice")),
        upgrade_version_number: Some(0),
        url_to_send_canister_metrics_to: Some("http://metrics-url.com/receive-metrics".to_string()),
        version: String::from("v1.0.0"),
    };
    let mut data = CanisterData::default();

    init_impl(init_args, &mut data);

    assert_eq!(
        data.known_principal_ids.get(KnownPrincipalType::UserIdGlobalSuperAdmin).unwrap(),
        named("global super admin")
    );
    assert_eq!(
        data.known_principal_ids.get(KnownPrincipalType::CanisterIdUserIndex).unwrap(),
        named("user index")
    );
    assert_eq!(data.profile.principal_id, Some(named("alice")));
    assert_eq!(
        data.configuration.url_to_send_canister_metrics_to,
        Some("http://metrics-url.com/receive-metrics".to_string())
    );
    assert!(data.version_details.version.eq("v1.0.0"));
}

#[test]
fn init_defaults_version_number_and_keeps_registered_principals() {
    let mut data = CanisterData::default();
    data.known_principal_ids.insert(KnownPrincipalType::CanisterIdDataBackup, named("backup"));
    let mut given = KnownPrincipalMap::new();
    given.insert(KnownPrincipalType::CanisterIdUserIndex, named("index"));
    init_impl(
        IndividualUserTemplateInitArgs {
            known_principal_ids: Some(given),
            profile_owner: None,
            upgrade_version_number: None,
            url_to_send_canister_metrics_to: None,
            version: String::from("v2"),
        },
        &mut data,
    );
    assert_eq!(data.version_details.version_number, 0);
    assert_eq!(data.known_principal_ids.get(KnownPrincipalType::CanisterIdDataBackup), Some(named("backup")));
    assert_eq!(data.known_principal_ids.get(KnownPrincipalType::CanisterIdUserIndex), Some(named("index")));
    assert_eq!(data.profile.principal_id, None);
}

#[test]
fn upgrade_args_replace_only_what_is_given() {
    let mut data = CanisterData::default();
    data.profile.principal_id = Some(named("alice"));
    data.version_details.version_number = 4;
    data.known_principal_ids.insert(KnownPrincipalType::CanisterIdDataBackup, named("backup"));
    apply_upgrade_args(
        IndividualUserTemplateInitArgs {
            known_principal_ids: None,
            profile_owner: None,
            upgrade_version_number: Some(5),
            url_to_send_canister_metrics_to: None,
            version: String::from("v5"),
        },
        &mut data,
    );
    assert_eq!(data.profile.principal_id, Some(named("alice")));
    assert_eq!(data.version_details.version_number, 5);
    assert_eq!(data.version_details.version, "v5");
    assert_eq!(data.known_principal_ids.get(KnownPrincipalType::CanisterIdDataBackup), Some(named("backup")));

    let mut replacement = KnownPrincipalMap::new();
    replacement.insert(KnownPrincipalType::CanisterIdUserIndex, named("index"));
    apply_upgrade_args(
        IndividualUserTemplateInitArgs {
            known_principal_ids: Some(replacement),
            profile_owner: Some(named("bob")),
            upgrade_version_number: None,
            url_to_send_canister_metrics_to: None,
            version: String::from("v6"),
        },
        &mut data,
    );
    assert_eq!(data.profile.principal_id, Some(named("bob")));
    assert_eq!(data.version_details.version_number, 5);
    assert_eq!(data.known_principal_ids.get(KnownPrincipalType::CanisterIdDataBackup), None);
    assert_eq!(data.known_principal_ids.get(KnownPrincipalType::CanisterIdUserIndex), Some(named("index")));
}

#[test]
fn excessive_token_balance_is_reset_once() {
    let mut data = CanisterData::default();
    data.my_token_balance.utility_token_balance = 18_000_000_000_000_000_001;
    migrate_excessive_tokens(&mut data);
    assert_eq!(data.my_token_balance.utility_token_balance, 1000);
    migrate_excessive_tokens(&mut data);
    assert_eq!(data.my_token_balance.utility_token_balance, 1000);

    data.my_token_balance.utility_token_balance = 18_000_000_000_000_000_000;
    migrate_excessive_tokens(&mut data);
    assert_eq!(data.my_token_balance.utility_token_balance, 18_000_000_000_000_000_000);
}

#[test]
fn framed_state_reads_back() {
    let payload: Vec<u8> = (0..300u32).map(|i| (i % 251) as u8).collect();
    let mut memory = frame_upgrade_state(&payload);
    assert_eq!(&memory[0..4], &300u32.to_le_bytes());
    let second = vec![9u8, 8, 7];
    memory.extend(frame_upgrade_state(&second));
    memory.extend(vec![0u8; 16]);
    let (first_blob, next) = read_upgrade_frame(&memory, 0).unwrap();
    assert_eq!(first_blob, payload);
    assert_eq!(next, 304);
    let (second_blob, after) = read_upgrade_frame(&memory, next).unwrap();
    assert_eq!(second_blob, second);
    assert_eq!(after, 311);
    assert!(read_upgrade_frame(&memory, memory.len() - 2).is_none());
    let truncated = vec![10u8, 0, 0, 0, 1, 2];
    assert!(read_upgrade_frame(&truncated, 0).is_none());
}
