use individual_user_template::canister_data::CanisterData;
use individual_user_template::cdao::{
    append_empty_canisters, assign_sns_canister_roles, check_airdrop_balance,
    check_deploy_cdao_allowed, check_token_transfer_allowed, claim_airdrop,
    collect_transferred_roots, creator_dao_stats, finish_add_token, finish_airdrop_claim,
    governance_canisters, insert_airdrop_member, is_airdrop_claimed, is_anonymous_session,
    is_balance_enough_for_airdrop, is_swap_lifecycle_invalid, is_token_added,
    ledger_and_swap_controllers, ledger_of_token, record_deployed_cdao, remove_deployed_cdao,
    returnable_canisters, sns_controller_sets, start_airdrop_claim, swap_timestamps, token_owner,
    AirdropError, AirdropInfo, AirdropMember, CdaoDeployError, CdaoTokenError, ClaimStatus,
    DeployedCdaoCanisters, SnsCanisterRoles,
};
use individual_user_template::principal::Principal;
use individual_user_template::types::SessionType;

fn named(name: &str) -> Principal {
    let c = candid::Principal::self_authenticating(name.as_bytes());
    Principal { len: c.len(), bytes: *c.as_fixed_bytes() }
}

fn roles(tag: &str) -> SnsCanisterRoles {
    SnsCanisterRoles {
        governance: named(&format!("{tag} governance")),
        ledger: named(&format!("{tag} ledger")),
        root: named(&format!("{tag} root")),
        swap: named(&format!("{tag} swap")),
        index: named(&format!("{tag} index")),
    }
}

fn data_with_token(owner: Principal, tag: &str) -> CanisterData {
    let mut data = CanisterData::default();
    data.profile.principal_id = Some(owner);
    record_deployed_cdao(&mut data, roles(tag));
    data
}

#[test]
fn airdrop_claim_goes_from_claiming_to_claimed() {
    let owner = named("owner");
    let claimer = named("claimer");
    let mut data = data_with_token(owner, "t");
    let root = roles("t").root;

    assert_eq!(
        start_airdrop_claim(&mut data, named("someone"), claimer, root, 500),
        Err(AirdropError::CanisterPrincipalDoNotMatch)
    );
    assert_eq!(start_airdrop_claim(&mut data, claimer, claimer, named("nope"), 500), Err(AirdropError::InvalidRoot));
    assert_eq!(start_airdrop_claim(&mut data, claimer, claimer, root, 99), Err(AirdropError::RequestedAmountTooLow));

    let (index, amount) = start_airdrop_claim(&mut data, claimer, claimer, root, 5000).unwrap();
    assert_eq!(index, 0);
    assert_eq!(amount, 1000);
    assert_eq!(data.cdao_canisters[0].airdrop_info.get_status(&claimer), Some(ClaimStatus::Claiming));
    assert_eq!(start_airdrop_claim(&mut data, claimer, claimer, root, 500), Err(AirdropError::AlreadyClaimedAirdrop));

    assert_eq!(check_airdrop_balance(999, 1000), Err(AirdropError::NoBalance));
    assert_eq!(check_airdrop_balance(1000, 1000), Ok(()));

    assert_eq!(finish_airdrop_claim(&mut data, index, claimer, Err(AirdropError::NoBalance)), Err(AirdropError::NoBalance));
    assert_eq!(data.cdao_canisters[0].airdrop_info.get_status(&claimer), Some(ClaimStatus::Unclaimed));

    let (index, amount) = start_airdrop_claim(&mut data, claimer, claimer, root, 150).unwrap();
    assert_eq!(amount, 150);
    assert_eq!(finish_airdrop_claim(&mut data, index, claimer, Ok(())), Ok(()));
    assert_eq!(data.cdao_canisters[0].airdrop_info.get_status(&claimer), Some(ClaimStatus::Claimed));
    assert_eq!(start_airdrop_claim(&mut data, claimer, claimer, root, 500), Err(AirdropError::AlreadyClaimedAirdrop));
}

#[test]
fn airdrop_balance_covers_amount_and_fees() {
    assert_eq!(is_balance_enough_for_airdrop(10_000, 100_010_000, 1), Some(100_000_000));
    assert_eq!(is_balance_enough_for_airdrop(10_000, 100_009_999, 1), None);
    assert_eq!(is_balance_enough_for_airdrop(0, 299_999_999, 3), None);
    assert_eq!(is_balance_enough_for_airdrop(u128::MAX, 0, 0), Some(100_000_000));
    assert_eq!(is_balance_enough_for_airdrop(u128::MAX, u128::MAX, 1), None);
}

#[test]
fn airdrop_chain_members_are_added_once() {
    let mut data = CanisterData::default();
    let m = AirdropMember { user_principal: named("u"), user_canister: named("c") };
    assert!(insert_airdrop_member(&mut data, m));
    assert!(!insert_airdrop_member(&mut data, m));
    assert_eq!(data.airdrop.token_chain.len(), 1);
    let roots = collect_transferred_roots(&vec![
        Ok(Some(named("r1"))),
        Ok(None),
        Err("transfer failed".to_string()),
        Ok(Some(named("r2"))),
    ]);
    assert_eq!(roots, vec![named("r1"), named("r2")]);
}

#[test]
fn deployment_is_checked_and_recorded() {
    let owner = named("owner");
    let mut data = CanisterData::default();
    data.profile.principal_id = Some(owner);
    assert_eq!(check_deploy_cdao_allowed(&data, named("x"), 5), Err(CdaoDeployError::Unauthenticated));
    assert_eq!(check_deploy_cdao_allowed(&data, owner, 5), Ok(()));
    record_deployed_cdao(&mut data, roles("a"));
    assert_eq!(check_deploy_cdao_allowed(&data, owner, 1), Err(CdaoDeployError::TokenLimit(1)));
    assert!(is_token_added(&data, roles("a").root));
    assert_eq!(governance_canisters(&data), vec![roles("a").governance]);
    let (who, stats) = creator_dao_stats(&data);
    assert_eq!(who, owner);
    assert!(stats.contains(&roles("a").root));

    let ids = vec![named("1"), named("2"), named("3"), named("4"), named("5")];
    let r = assign_sns_canister_roles(&ids);
    assert_eq!(r.governance, named("1"));
    assert_eq!(r.index, named("5"));
    let admin = named("admin");
    let me = named("me");
    let nns = named("nns root");
    let sets = sns_controller_sets(admin, me, r, nns);
    assert_eq!(sets[0].1, vec![admin, me, r.root]);
    assert_eq!(sets[3].1, vec![admin, me, r.swap, nns]);
    assert_eq!(swap_timestamps(5_500_000_000, 60), (5, 65));
    let (ledger_ctrl, swap_ctrl) = ledger_and_swap_controllers(admin, me, r.root, nns);
    assert_eq!(ledger_ctrl, vec![admin, me, r.root]);
    assert_eq!(swap_ctrl, vec![admin, me, r.root, nns]);
}

#[test]
fn deleted_tokens_are_dropped() {
    let owner = named("owner");
    let mut data = data_with_token(owner, "a");
    record_deployed_cdao(&mut data, roles("b"));
    let a = roles("a");
    let deleted = DeployedCdaoCanisters {
        governance: a.governance,
        ledger: a.ledger,
        root: a.root,
        swap: a.swap,
        index: a.index,
        airdrop_info: AirdropInfo::new(),
    };
    remove_deployed_cdao(&mut data, &deleted);
    assert_eq!(data.cdao_canisters.len(), 1);
    assert_eq!(data.cdao_canisters[0].root, roles("b").root);

    assert!(is_swap_lifecycle_invalid(Ok(Some(4))));
    assert!(!is_swap_lifecycle_invalid(Ok(Some(3))));
    assert!(!is_swap_lifecycle_invalid(Ok(None)));
    assert!(!is_swap_lifecycle_invalid(Err("call failed".to_string())));
    assert!(is_anonymous_session(Some(SessionType::AnonymousSession)));
    assert!(!is_anonymous_session(Some(SessionType::RegisteredSession)));
    assert!(!is_anonymous_session(None));

    let ids = vec![named("1"), named("2"), named("3")];
    let back = returnable_canisters(&ids, &vec![named("2")]);
    assert_eq!(back, vec![named("1"), named("3")]);
    append_empty_canisters(&mut data, vec![named("2")]);
    assert_eq!(data.empty_canisters, vec![named("2")]);
}

#[test]
fn tokens_are_added_for_owners_holding_them() {
    let owner = named("owner");
    let mut data = CanisterData::default();
    assert_eq!(token_owner(&data), Err(CdaoTokenError::Unauthenticated));
    data.profile.principal_id = Some(owner);
    assert_eq!(token_owner(&data), Ok(owner));
    assert_eq!(ledger_of_token(None), Err(CdaoTokenError::InvalidRoot));
    assert_eq!(ledger_of_token(Some(named("l"))), Ok(named("l")));
    let root = named("root");
    assert!(!is_token_added(&data, root));
    assert_eq!(finish_add_token(&mut data, root, 0), Err(CdaoTokenError::NoBalance));
    assert!(!is_token_added(&data, root));
    assert_eq!(finish_add_token(&mut data, root, 12), Ok(true));
    assert!(is_token_added(&data, root));
    assert_eq!(check_token_transfer_allowed(&data, named("x")), Err(CdaoTokenError::Unauthenticated));
    assert_eq!(check_token_transfer_allowed(&data, owner), Ok(()));
    assert!(!is_airdrop_claimed(&data, root));
    claim_airdrop(&mut data, root);
    assert!(is_airdrop_claimed(&data, root));
}

#[test]
fn removing_a_deployment_keeps_the_others_in_order() {
    let mut data = CanisterData::default();
    for tag in ["a", "b", "c", "d"] {
        record_deployed_cdao(&mut data, roles(tag));
    }
    let b = roles("b");
    let deleted = DeployedCdaoCanisters {
        governance: b.governance,
        ledger: b.ledger,
        root: b.root,
        swap: b.swap,
        index: b.index,
        airdrop_info: AirdropInfo::new(),
    };
    remove_deployed_cdao(&mut data, &deleted);
    let roots: Vec<Principal> = data.cdao_canisters.iter().map(|d| d.root).collect();
    assert_eq!(roots, vec![roles("a").root, roles("c").root, roles("d").root]);
}
