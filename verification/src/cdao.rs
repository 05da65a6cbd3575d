//! Creator tokens (SNS deployments) of this user, their airdrops, and the
//! decisions taken while deploying, airdropping, swapping and deleting them.

use vstd::prelude::*;

use crate::assoc::{
    assoc_lookup, keys_distinct, lemma_assoc_lookup_at, lemma_assoc_lookup_cases,
    lemma_assoc_lookup_update, lemma_assoc_push,
};
use crate::canister_data::CanisterData;
use crate::principal::{Principal, PrincipalSet};
use crate::types::SessionType;

verus! {

/// Where a user stands in claiming a token's airdrop.
#[derive(Clone, Copy, Debug, PartialEq, Eq, Structural)]
pub enum ClaimStatus {
    Unclaimed,
    Claiming,
    Claimed,
}

/// Claim status of each user who asked for a token's airdrop.
#[derive(Debug)]
pub struct AirdropInfo {
    pub principals_who_successfully_claimed: Vec<(Principal, ClaimStatus)>,
}

impl View for AirdropInfo {
    type V = Seq<(Principal, ClaimStatus)>;

    open spec fn view(&self) -> Seq<(Principal, ClaimStatus)> {
        self.principals_who_successfully_claimed@
    }
}

impl AirdropInfo {
    pub open spec fn wf(&self) -> bool {
        keys_distinct(self@)
    }

    /// Claim status recorded for `p`.
    pub open spec fn status(&self, p: Principal) -> Option<ClaimStatus> {
        assoc_lookup(self@, p)
    }

    /// A user may still claim: nothing recorded, or marked unclaimed.
    pub open spec fn unclaimed(&self, p: Principal) -> bool {
        self.status(p) is None || self.status(p) == Some(ClaimStatus::Unclaimed)
    }

    pub fn new() -> (a: AirdropInfo)
        ensures
            a@ == Seq::<(Principal, ClaimStatus)>::empty(),
            a.wf(),
    {
        AirdropInfo { principals_who_successfully_claimed: Vec::new() }
    }

    pub fn get_status(&self, p: &Principal) -> (r: Option<ClaimStatus>)
        requires
            self.wf(),
        ensures
            r == self.status(*p),
    {
        proof {
            lemma_assoc_lookup_cases(self@, *p);
        }
        let mut i: usize = 0;
        while i < self.principals_who_successfully_claimed.len()
            invariant
                i <= self@.len(),
                self.wf(),
                forall|t: int| 0 <= t < i ==> #[trigger] self@[t].0 != *p,
            decreases self@.len() - i,
        {
            if self.principals_who_successfully_claimed[i].0 == *p {
                proof {
                    lemma_assoc_lookup_at(self@, i as int);
                }
                return Some(self.principals_who_successfully_claimed[i].1);
            }
            i = i + 1;
        }
        None
    }

    pub fn is_airdrop_unclaimed(&self, p: &Principal) -> (r: bool)
        requires
            self.wf(),
        ensures
            r == self.unclaimed(*p),
    {
        match self.get_status(p) {
            None => true,
            Some(ClaimStatus::Unclaimed) => true,
            Some(_) => false,
        }
    }

    /// Records `status` for `p`.
    pub fn set_status(&mut self, p: Principal, status: ClaimStatus)
        requires
            old(self).wf(),
        ensures
            final(self).wf(),
            forall|q: Principal| #[trigger] final(self).status(q) == if q == p {
                Some(status)
            } else {
                old(self).status(q)
            },
    {
        let mut i: usize = 0;
        while i < self.principals_who_successfully_claimed.len()
            invariant
                i <= self@.len(),
                self@ == old(self)@,
                old(self).wf(),
                forall|t: int| 0 <= t < i ==> #[trigger] self@[t].0 != p,
            decreases self@.len() - i,
        {
            if self.principals_who_successfully_claimed[i].0 == p {
                self.principals_who_successfully_claimed.set(i, (p, status));
                proof {
                    assert(self@ =~= old(self)@.update(i as int, (old(self)@[i as int].0, status)));
                    lemma_assoc_lookup_update(old(self)@, i as int, status, p);
                    assert forall|q: Principal| #[trigger] assoc_lookup(self@, q) == if q == p {
                        Some(status)
                    } else {
                        assoc_lookup(old(self)@, q)
                    } by {
                        lemma_assoc_lookup_update(old(self)@, i as int, status, q);
                    }
                }
                return;
            }
            i = i + 1;
        }
        proof {
            lemma_assoc_push(self@, p, status);
        }
        self.principals_who_successfully_claimed.push((p, status));
    }

    pub fn set_airdrop_claiming(&mut self, p: Principal)
        requires
            old(self).wf(),
        ensures
            final(self).wf(),
            forall|q: Principal| #[trigger] final(self).status(q) == if q == p {
                Some(ClaimStatus::Claiming)
            } else {
                old(self).status(q)
            },
    {
        self.set_status(p, ClaimStatus::Claiming)
    }

    pub fn set_airdrop_claimed(&mut self, p: Principal)
        requires
            old(self).wf(),
        ensures
            final(self).wf(),
            forall|q: Principal| #[trigger] final(self).status(q) == if q == p {
                Some(ClaimStatus::Claimed)
            } else {
                old(self).status(q)
            },
    {
        self.set_status(p, ClaimStatus::Claimed)
    }

    pub fn set_airdrop_unclaimed(&mut self, p: Principal)
        requires
            old(self).wf(),
        ensures
            final(self).wf(),
            forall|q: Principal| #[trigger] final(self).status(q) == if q == p {
                Some(ClaimStatus::Unclaimed)
            } else {
                old(self).status(q)
            },
    {
        self.set_status(p, ClaimStatus::Unclaimed)
    }
}

/// The canisters of one deployed creator token.
#[derive(Debug)]
pub struct DeployedCdaoCanisters {
    pub governance: Principal,
    pub ledger: Principal,
    pub root: Principal,
    pub swap: Principal,
    pub index: Principal,
    pub airdrop_info: AirdropInfo,
}

/// A member of the airdrop chain: a user and their canister.
#[derive(Clone, Copy, Debug)]
pub struct AirdropMember {
    pub user_principal: Principal,
    pub user_canister: Principal,
}

/// Users this canister airdrops its tokens to, and the chain it belongs to.
#[derive(Debug)]
pub struct AirdropData {
    pub token_chain: Vec<AirdropMember>,
    pub parent_chain: Vec<AirdropMember>,
}


/// Errors of an airdrop request.
#[derive(Clone, Copy, Debug, PartialEq, Eq, Structural)]
pub enum AirdropError {
    CanisterPrincipalDoNotMatch,
    AlreadyClaimedAirdrop,
    RequestedAmountTooLow,
    InvalidRoot,
    NoBalance,
    CallFailed,
    TransferFailed,
}

/// Most tokens handed out by one airdrop request.
pub const MAX_AIRDROP_AMOUNT: u128 = 1000;

/// Fewest tokens an airdrop request may ask for.
pub const MIN_AIRDROP_AMOUNT: u128 = 100;

/// Position of the first deployed token whose root is `root`.
pub open spec fn first_cdao_with_root(s: Seq<DeployedCdaoCanisters>, root: Principal) -> Option<int> {
    if exists|i: int| 0 <= i < s.len() && (#[trigger] s[i]).root == root {
        Some(choose|i: int| 0 <= i < s.len() && (#[trigger] s[i]).root == root && forall|j: int|
            0 <= j < i ==> (#[trigger] s[j]).root != root)
    } else {
        None
    }
}

/// Finds the first deployed token whose root is `root`.
pub fn position_of_root(canister_data: &CanisterData, root: Principal) -> (r: Option<usize>)
    ensures
        r is None ==> forall|i: int|
            0 <= i < canister_data.cdao_canisters@.len() ==> (
            #[trigger] canister_data.cdao_canisters@[i]).root != root,
        r matches Some(k) ==> k < canister_data.cdao_canisters@.len()
            && canister_data.cdao_canisters@[k as int].root == root && forall|j: int|
            0 <= j < k ==> (#[trigger] canister_data.cdao_canisters@[j]).root != root,
{
    let mut i: usize = 0;
    while i < canister_data.cdao_canisters.len()
        invariant
            i <= canister_data.cdao_canisters@.len(),
            forall|j: int| 0 <= j < i ==> (#[trigger] canister_data.cdao_canisters@[j]).root != root,
        decreases canister_data.cdao_canisters@.len() - i,
    {
        if canister_data.cdao_canisters[i].root == root {
            return Some(i);
        }
        i = i + 1;
    }
    None
}

/// First step of an airdrop request, once the requesting user's canister
/// named its owner: the owner must be the caller, the token must be one of
/// this user's, the caller must not have claimed it, and the amount, capped
/// at `MAX_AIRDROP_AMOUNT`, must reach `MIN_AIRDROP_AMOUNT`. On success the
/// caller is marked as claiming, and the token's position and the capped
/// amount are returned.
pub fn start_airdrop_claim(
    canister_data: &mut CanisterData,
    profile_owner: Principal,
    current_caller: Principal,
    token_root: Principal,
    amount: u128,
) -> (r: Result<(usize, u128), AirdropError>)
    requires
        old(canister_data).wf(),
    ensures
        final(canister_data).wf(),
        profile_owner != current_caller ==> r == Err::<(usize, u128), AirdropError>(
            AirdropError::CanisterPrincipalDoNotMatch,
        ),
        profile_owner == current_caller && (forall|i: int|
            0 <= i < old(canister_data).cdao_canisters@.len() ==> (#[trigger] old(canister_data).cdao_canisters@[i]).root != token_root) ==> r == Err::<(usize, u128), AirdropError>(
            AirdropError::InvalidRoot,
        ),
        forall|k: int|
            profile_owner == current_caller && 0 <= k < old(canister_data).cdao_canisters@.len() && (
            #[trigger] old(canister_data).cdao_canisters@[k]).root == token_root && (forall|j: int|
                0 <= j < k ==> (#[trigger] old(canister_data).cdao_canisters@[j]).root != token_root)
                ==> (!old(canister_data).cdao_canisters@[k].airdrop_info.unclaimed(current_caller)
                ==> r == Err::<(usize, u128), AirdropError>(AirdropError::AlreadyClaimedAirdrop)) && (
            old(canister_data).cdao_canisters@[k].airdrop_info.unclaimed(current_caller) && (if amount
                < MAX_AIRDROP_AMOUNT {
                amount
            } else {
                MAX_AIRDROP_AMOUNT
            }) < MIN_AIRDROP_AMOUNT ==> r == Err::<(usize, u128), AirdropError>(
                AirdropError::RequestedAmountTooLow,
            )) && (old(canister_data).cdao_canisters@[k].airdrop_info.unclaimed(current_caller) && (
            if amount < MAX_AIRDROP_AMOUNT {
                amount
            } else {
                MAX_AIRDROP_AMOUNT
            }) >= MIN_AIRDROP_AMOUNT ==> r == Ok::<(usize, u128), AirdropError>(
                (
                    k as usize,
                    if amount < MAX_AIRDROP_AMOUNT {
                        amount
                    } else {
                        MAX_AIRDROP_AMOUNT
                    },
                ),
            )),
        r is Err ==> *final(canister_data) == *old(canister_data),
        forall|k: usize, a: u128|
            r == Ok::<(usize, u128), AirdropError>((k, a)) ==> final(canister_data).cdao_canisters@.len()
                == old(canister_data).cdao_canisters@.len() && forall|q: Principal|
                #[trigger] final(canister_data).cdao_canisters@[k as int].airdrop_info.status(q) == if q
                    == current_caller {
                    Some(ClaimStatus::Claiming)
                } else {
                    old(canister_data).cdao_canisters@[k as int].airdrop_info.status(q)
                },
        forall|j: int|
            0 <= j < old(canister_data).cdao_canisters@.len() && (r matches Ok((k, _)) ==> j != k)
                ==> #[trigger] final(canister_data).cdao_canisters@[j] == old(canister_data).cdao_canisters@[j],
        r matches Ok((k, _)) ==> (final(canister_data).cdao_canisters@[k as int] == (DeployedCdaoCanisters {
            airdrop_info: final(canister_data).cdao_canisters@[k as int].airdrop_info,
            ..old(canister_data).cdao_canisters@[k as int]
        })),
        *final(canister_data) == (CanisterData {
            cdao_canisters: final(canister_data).cdao_canisters,
            ..*old(canister_data)
        }),
{
    if profile_owner != current_caller {
        return Err(AirdropError::CanisterPrincipalDoNotMatch);
    }
    let index = match position_of_root(canister_data, token_root) {
        None => return Err(AirdropError::InvalidRoot),
        Some(i) => i,
    };
    if !canister_data.cdao_canisters[index].airdrop_info.is_airdrop_unclaimed(&current_caller) {
        return Err(AirdropError::AlreadyClaimedAirdrop);
    }
    let capped = if amount < MAX_AIRDROP_AMOUNT {
        amount
    } else {
        MAX_AIRDROP_AMOUNT
    };
    if capped < MIN_AIRDROP_AMOUNT {
        return Err(AirdropError::RequestedAmountTooLow);
    }
    set_claim_status(canister_data, index, current_caller, ClaimStatus::Claiming);
    Ok((index, capped))
}

/// Records `status` for `p` in the airdrop of the token at `index`.
pub fn set_claim_status(
    canister_data: &mut CanisterData,
    index: usize,
    p: Principal,
    status: ClaimStatus,
)
    requires
        old(canister_data).wf(),
        index < old(canister_data).cdao_canisters@.len(),
    ensures
        final(canister_data).wf(),
        final(canister_data).cdao_canisters@.len() == old(canister_data).cdao_canisters@.len(),
        forall|q: Principal|
            #[trigger] final(canister_data).cdao_canisters@[index as int].airdrop_info.status(q) == if q
                == p {
                Some(status)
            } else {
                old(canister_data).cdao_canisters@[index as int].airdrop_info.status(q)
            },
        final(canister_data).cdao_canisters@[index as int] == (DeployedCdaoCanisters {
            airdrop_info: final(canister_data).cdao_canisters@[index as int].airdrop_info,
            ..old(canister_data).cdao_canisters@[index as int]
        }),
        forall|j: int|
            0 <= j < old(canister_data).cdao_canisters@.len() && j != index ==> #[trigger] final(canister_data).cdao_canisters@[j] == old(canister_data).cdao_canisters@[j],
        *final(canister_data) == (CanisterData {
            cdao_canisters: final(canister_data).cdao_canisters,
            ..*old(canister_data)
        }),
{
    let mut list: Vec<DeployedCdaoCanisters> = Vec::new();
    std::mem::swap(&mut list, &mut canister_data.cdao_canisters);
    let ghost before = list@;
    assert(before[index as int].airdrop_info.wf());
    let mut entry = list.remove(index);
    entry.airdrop_info.set_status(p, status);
    list.insert(index, entry);
    proof {
        assert forall|j: int| 0 <= j < list@.len() && j != index implies #[trigger] list@[j] == before[j] by {
            if j < index {
                assert(list@[j] == before[j]);
            } else {
                assert(list@[j] == before[j]);
            }
        }
    }
    canister_data.cdao_canisters = list;
    proof {
        assert forall|j: int| 0 <= j < canister_data.cdao_canisters@.len() implies (
        #[trigger] canister_data.cdao_canisters@[j]).airdrop_info.wf() by {
            if j != index {
                assert(canister_data.cdao_canisters@[j] == before[j]);
            }
        }
    }
}

/// Second step of an airdrop: this canister's balance of the token must
/// cover the amount.
pub fn check_airdrop_balance(balance: u128, amount: u128) -> (r: Result<(), AirdropError>)
    ensures
        balance < amount ==> r == Err::<(), AirdropError>(AirdropError::NoBalance),
        balance >= amount ==> r == Ok::<(), AirdropError>(()),
{
    if balance < amount {
        return Err(AirdropError::NoBalance);
    }
    Ok(())
}

/// Last step of an airdrop: a completed transfer marks the caller as having
/// claimed; a failure marks them unclaimed again and is passed on.
pub fn finish_airdrop_claim(
    canister_data: &mut CanisterData,
    index: usize,
    current_caller: Principal,
    result: Result<(), AirdropError>,
) -> (r: Result<(), AirdropError>)
    requires
        old(canister_data).wf(),
        index < old(canister_data).cdao_canisters@.len(),
    ensures
        final(canister_data).wf(),
        r == result,
        forall|q: Principal|
            #[trigger] final(canister_data).cdao_canisters@[index as int].airdrop_info.status(q) == if q
                == current_caller {
                Some(
                    if result is Ok {
                        ClaimStatus::Claimed
                    } else {
                        ClaimStatus::Unclaimed
                    },
                )
            } else {
                old(canister_data).cdao_canisters@[index as int].airdrop_info.status(q)
            },
        forall|j: int|
            0 <= j < old(canister_data).cdao_canisters@.len() && j != index ==> #[trigger] final(canister_data).cdao_canisters@[j] == old(canister_data).cdao_canisters@[j],
        final(canister_data).cdao_canisters@.len() == old(canister_data).cdao_canisters@.len(),
        final(canister_data).cdao_canisters@[index as int] == (DeployedCdaoCanisters {
            airdrop_info: final(canister_data).cdao_canisters@[index as int].airdrop_info,
            ..old(canister_data).cdao_canisters@[index as int]
        }),
        *final(canister_data) == (CanisterData {
            cdao_canisters: final(canister_data).cdao_canisters,
            ..*old(canister_data)
        }),
{
    if result.is_ok() {
        set_claim_status(canister_data, index, current_caller, ClaimStatus::Claimed);
    } else {
        set_claim_status(canister_data, index, current_caller, ClaimStatus::Unclaimed);
    }
    result
}

/// Units of a token (8 decimals) given to each airdrop chain member.
pub const AIRDROP_CHAIN_AMOUNT: u128 = 100_000_000;

/// The amount to give each of `transfer_cnt` members, if this canister's
/// `balance` covers that amount plus the ledger `fee` for every transfer.
pub fn is_balance_enough_for_airdrop(fee: u128, balance: u128, transfer_cnt: usize) -> (r: Option<u128>)
    ensures
        (AIRDROP_CHAIN_AMOUNT + fee) * transfer_cnt > balance ==> r is None,
        (AIRDROP_CHAIN_AMOUNT + fee) * transfer_cnt <= balance ==> r == Some(AIRDROP_CHAIN_AMOUNT),
{
    if transfer_cnt == 0 {
        return Some(AIRDROP_CHAIN_AMOUNT);
    }
    let per_transfer = match AIRDROP_CHAIN_AMOUNT.checked_add(fee) {
        Some(x) => x,
        None => {
            assert((AIRDROP_CHAIN_AMOUNT + fee) * transfer_cnt >= AIRDROP_CHAIN_AMOUNT + fee) by (nonlinear_arith)
                requires
                    transfer_cnt >= 1,
                    AIRDROP_CHAIN_AMOUNT + fee > 0,
            ;
            return None;
        },
    };
    let total = match per_transfer.checked_mul(transfer_cnt as u128) {
        Some(x) => x,
        None => {
            assert(per_transfer * transfer_cnt > u128::MAX) by (nonlinear_arith)
                requires
                    per_transfer * (transfer_cnt as u128) > u128::MAX,
            ;
            return None;
        },
    };
    if total > balance {
        return None;
    }
    Some(AIRDROP_CHAIN_AMOUNT)
}

/// Adds `member` to this user's airdrop chain; returns whether it was new.
pub fn insert_airdrop_member(canister_data: &mut CanisterData, member: AirdropMember) -> (inserted: bool)
    ensures
        inserted == !old(canister_data).airdrop.token_chain@.contains(member),
        inserted ==> final(canister_data).airdrop.token_chain@ == old(canister_data).airdrop.token_chain@.push(member),
        !inserted ==> final(canister_data).airdrop.token_chain@ == old(canister_data).airdrop.token_chain@,
        final(canister_data).airdrop.parent_chain@ == old(canister_data).airdrop.parent_chain@,
        *final(canister_data) == (CanisterData {
            airdrop: final(canister_data).airdrop,
            ..*old(canister_data)
        }),
{
    let mut i: usize = 0;
    while i < canister_data.airdrop.token_chain.len()
        invariant
            i <= canister_data.airdrop.token_chain@.len(),
            forall|t: int| 0 <= t < i ==> canister_data.airdrop.token_chain@[t] != member,
        decreases canister_data.airdrop.token_chain@.len() - i,
    {
        let m = canister_data.airdrop.token_chain[i];
        if m.user_principal == member.user_principal && m.user_canister == member.user_canister {
            return false;
        }
        i = i + 1;
    }
    canister_data.airdrop.token_chain.push(member);
    true
}

/// Roots of the tokens whose airdrop transfer went through.
pub open spec fn transferred_roots(results: Seq<Result<Option<Principal>, String>>) -> Seq<Principal>
    decreases results.len(),
{
    if results.len() == 0 {
        Seq::empty()
    } else {
        let rest = transferred_roots(results.drop_last());
        match results.last() {
            Ok(Some(root)) => rest.push(root),
            _ => rest,
        }
    }
}

/// Keeps the roots of the completed transfers, in the order given.
pub fn collect_transferred_roots(results: &Vec<Result<Option<Principal>, String>>) -> (r: Vec<Principal>)
    ensures
        r@ == transferred_roots(results@),
{
    let mut r: Vec<Principal> = Vec::new();
    let mut i: usize = 0;
    while i < results.len()
        invariant
            i <= results@.len(),
            r@ == transferred_roots(results@.take(i as int)),
        decreases results@.len() - i,
    {
        assert(results@.take(i + 1).drop_last() =~= results@.take(i as int));
        match &results[i] {
            Ok(Some(root)) => {
                r.push(*root);
            },
            _ => {},
        }
        i = i + 1;
    }
    assert(results@.take(results@.len() as int) =~= results@);
    r
}


/// Errors of deploying a creator token that the decisions here produce.
#[derive(Clone, Copy, Debug, PartialEq, Eq, Structural)]
pub enum CdaoDeployError {
    Unauthenticated,
    TokenLimit(usize),
}

/// Checks that the owner asks and that fewer than `max_tokens` tokens exist.
pub fn check_deploy_cdao_allowed(
    canister_data: &CanisterData,
    current_caller: Principal,
    max_tokens: usize,
) -> (r: Result<(), CdaoDeployError>)
    ensures
        canister_data.profile.principal_id != Some(current_caller) ==> r == Err::<(), CdaoDeployError>(
            CdaoDeployError::Unauthenticated,
        ),
        canister_data.profile.principal_id == Some(current_caller) && canister_data.cdao_canisters@.len()
            >= max_tokens ==> r == Err::<(), CdaoDeployError>(CdaoDeployError::TokenLimit(max_tokens)),
        canister_data.profile.principal_id == Some(current_caller) && canister_data.cdao_canisters@.len()
            < max_tokens ==> r == Ok::<(), CdaoDeployError>(()),
{
    match canister_data.profile.principal_id {
        None => return Err(CdaoDeployError::Unauthenticated),
        Some(p) => {
            if p != current_caller {
                return Err(CdaoDeployError::Unauthenticated);
            }
        },
    }
    if canister_data.cdao_canisters.len() >= max_tokens {
        return Err(CdaoDeployError::TokenLimit(max_tokens));
    }
    Ok(())
}

/// The five canisters of a token being deployed, by role.
#[derive(Clone, Copy, Debug)]
pub struct SnsCanisterRoles {
    pub governance: Principal,
    pub ledger: Principal,
    pub root: Principal,
    pub swap: Principal,
    pub index: Principal,
}

/// Gives roles to the empty canisters obtained, in this order: governance,
/// ledger, root, swap, index.
pub fn assign_sns_canister_roles(canister_ids: &Vec<Principal>) -> (r: SnsCanisterRoles)
    requires
        canister_ids@.len() >= 5,
    ensures
        r.governance == canister_ids@[0],
        r.ledger == canister_ids@[1],
        r.root == canister_ids@[2],
        r.swap == canister_ids@[3],
        r.index == canister_ids@[4],
{
    SnsCanisterRoles {
        governance: canister_ids[0],
        ledger: canister_ids[1],
        root: canister_ids[2],
        swap: canister_ids[3],
        index: canister_ids[4],
    }
}

/// Controllers given to each new canister: the super admin and this
/// canister everywhere, plus the root for governance and index, the
/// governance for root and ledger, and the swap itself and the NNS root for
/// the swap.
pub fn sns_controller_sets(
    admin: Principal,
    user_canister: Principal,
    roles: SnsCanisterRoles,
    nns_root: Principal,
) -> (r: Vec<(Principal, Vec<Principal>)>)
    ensures
        r@.len() == 5,
        r@[0].0 == roles.governance && r@[0].1@ == seq![admin, user_canister, roles.root],
        r@[1].0 == roles.root && r@[1].1@ == seq![admin, user_canister, roles.governance],
        r@[2].0 == roles.ledger && r@[2].1@ == seq![admin, user_canister, roles.governance],
        r@[3].0 == roles.swap && r@[3].1@ == seq![admin, user_canister, roles.swap, nns_root],
        r@[4].0 == roles.index && r@[4].1@ == seq![admin, user_canister, roles.root],
{
    let mut r: Vec<(Principal, Vec<Principal>)> = Vec::new();
    r.push((roles.governance, vec![admin, user_canister, roles.root]));
    r.push((roles.root, vec![admin, user_canister, roles.governance]));
    r.push((roles.ledger, vec![admin, user_canister, roles.governance]));
    r.push((roles.swap, vec![admin, user_canister, roles.swap, nns_root]));
    r.push((roles.index, vec![admin, user_canister, roles.root]));
    r
}

/// Start and due times (seconds) of a token swap opened at `now` (ns) for
/// `swap_time` seconds.
pub fn swap_timestamps(now: u64, swap_time: u64) -> (r: (u64, u64))
    requires
        now / 1_000_000_000 + swap_time <= u64::MAX,
    ensures
        r.0 == now / 1_000_000_000,
        r.1 == now / 1_000_000_000 + swap_time,
{
    let start = now / 1_000_000_000;
    (start, start + swap_time)
}

/// Records a deployed token: appended to the tokens, its root added to the
/// token roots.
pub fn record_deployed_cdao(canister_data: &mut CanisterData, roles: SnsCanisterRoles)
    requires
        old(canister_data).wf(),
    ensures
        final(canister_data).wf(),
        final(canister_data).cdao_canisters@.len() == old(canister_data).cdao_canisters@.len() + 1,
        forall|j: int|
            0 <= j < old(canister_data).cdao_canisters@.len() ==> #[trigger] final(canister_data).cdao_canisters@[j] == old(canister_data).cdao_canisters@[j],
        ({
            let d = final(canister_data).cdao_canisters@.last();
            &&& d.governance == roles.governance
            &&& d.ledger == roles.ledger
            &&& d.root == roles.root
            &&& d.swap == roles.swap
            &&& d.index == roles.index
            &&& d.airdrop_info@.len() == 0
        }),
        final(canister_data).token_roots@.contains(roles.root),
        forall|p: Principal|
            p != roles.root ==> (final(canister_data).token_roots@.contains(p) <==> old(canister_data).token_roots@.contains(p)),
        *final(canister_data) == (CanisterData {
            cdao_canisters: final(canister_data).cdao_canisters,
            token_roots: final(canister_data).token_roots,
            ..*old(canister_data)
        }),
{
    let deployed = DeployedCdaoCanisters {
        governance: roles.governance,
        ledger: roles.ledger,
        root: roles.root,
        swap: roles.swap,
        index: roles.index,
        airdrop_info: AirdropInfo::new(),
    };
    canister_data.cdao_canisters.push(deployed);
    let ghost before = canister_data.token_roots@;
    canister_data.token_roots.insert(roles.root);
    proof {
        let now = canister_data.token_roots@;
        assert forall|p: Principal| p != roles.root implies (now.contains(p) <==> before.contains(p)) by {
            if now.contains(p) {
                let j = choose|j: int| 0 <= j < now.len() && now[j] == p;
                if j < before.len() {
                    assert(before[j] == p);
                }
            }
            if before.contains(p) {
                let j = choose|j: int| 0 <= j < before.len() && before[j] == p;
                assert(now[j] == p);
            }
        }
        if !before.contains(roles.root) {
            assert(now[now.len() - 1] == roles.root);
        }
        assert forall|j: int| 0 <= j < canister_data.cdao_canisters@.len() implies (
        #[trigger] canister_data.cdao_canisters@[j]).airdrop_info.wf() by {
            if j < old(canister_data).cdao_canisters@.len() {
                assert(canister_data.cdao_canisters@[j] == old(canister_data).cdao_canisters@[j]);
            }
        }
    }
}

/// Lifecycle value the swap canister reports for an aborted swap.
pub const SWAP_LIFECYCLE_ABORTED: i32 = 4;

/// A token's swap is invalid when its lifecycle is known and aborted; an
/// unknown lifecycle or a failed call counts as valid.
pub fn is_swap_lifecycle_invalid(reply: Result<Option<i32>, String>) -> (r: bool)
    ensures
        r == (reply matches Ok(Some(l)) && l == SWAP_LIFECYCLE_ABORTED),
{
    match reply {
        Ok(Some(l)) => l == SWAP_LIFECYCLE_ABORTED,
        _ => false,
    }
}

/// Tokens of an anonymous session are always deleted.
pub fn is_anonymous_session(session_type: Option<SessionType>) -> (r: bool)
    ensures
        r == (session_type == Some(SessionType::AnonymousSession)),
{
    match session_type {
        Some(SessionType::AnonymousSession) => true,
        _ => false,
    }
}

/// Same claim status for every user.
pub open spec fn same_claims(a: AirdropInfo, b: AirdropInfo) -> bool {
    forall|p: Principal| #[trigger] a.status(p) == b.status(p)
}

/// Two deployments are the same: same canisters and same claims.
pub open spec fn same_deployment(a: DeployedCdaoCanisters, b: DeployedCdaoCanisters) -> bool {
    &&& a.governance == b.governance
    &&& a.ledger == b.ledger
    &&& a.root == b.root
    &&& a.swap == b.swap
    &&& a.index == b.index
    &&& same_claims(a.airdrop_info, b.airdrop_info)
}

/// Whether two airdrop records hold the same claim statuses.
pub fn claims_equal(a: &AirdropInfo, b: &AirdropInfo) -> (r: bool)
    requires
        a.wf(),
        b.wf(),
    ensures
        r == same_claims(*a, *b),
{
    let mut i: usize = 0;
    while i < a.principals_who_successfully_claimed.len()
        invariant
            i <= a@.len(),
            a.wf(),
            b.wf(),
            forall|t: int| 0 <= t < i ==> b.status(#[trigger] a@[t].0) == Some(a@[t].1),
        decreases a@.len() - i,
    {
        let (p, st) = a.principals_who_successfully_claimed[i];
        match b.get_status(&p) {
            Some(st2) => {
                if st2 != st {
                    proof {
                        lemma_assoc_lookup_at(a@, i as int);
                        assert(a.status(p) != b.status(p));
                    }
                    return false;
                }
            },
            None => {
                proof {
                    lemma_assoc_lookup_at(a@, i as int);
                    assert(a.status(p) != b.status(p));
                }
                return false;
            },
        }
        i = i + 1;
    }
    let mut j: usize = 0;
    while j < b.principals_who_successfully_claimed.len()
        invariant
            j <= b@.len(),
            a.wf(),
            b.wf(),
            forall|t: int| 0 <= t < a@.len() ==> b.status(#[trigger] a@[t].0) == Some(a@[t].1),
            forall|t: int| 0 <= t < j ==> a.status(#[trigger] b@[t].0) is Some,
        decreases b@.len() - j,
    {
        let p = b.principals_who_successfully_claimed[j].0;
        if a.get_status(&p).is_none() {
            proof {
                lemma_assoc_lookup_at(b@, j as int);
                assert(a.status(p) != b.status(p));
            }
            return false;
        }
        j = j + 1;
    }
    proof {
        assert forall|p: Principal| #[trigger] a.status(p) == b.status(p) by {
            lemma_assoc_lookup_cases(a@, p);
            lemma_assoc_lookup_cases(b@, p);
            if exists|t: int| 0 <= t < a@.len() && #[trigger] a@[t].0 == p {
                let t = choose|t: int| 0 <= t < a@.len() && #[trigger] a@[t].0 == p;
                assert(b.status(a@[t].0) == Some(a@[t].1));
            } else if exists|t: int| 0 <= t < b@.len() && #[trigger] b@[t].0 == p {
                let t = choose|t: int| 0 <= t < b@.len() && #[trigger] b@[t].0 == p;
                assert(a.status(b@[t].0) is Some);
            }
        }
    }
    true
}

/// Whether two deployments are the same.
pub fn deployments_equal(a: &DeployedCdaoCanisters, b: &DeployedCdaoCanisters) -> (r: bool)
    requires
        a.airdrop_info.wf(),
        b.airdrop_info.wf(),
    ensures
        r == same_deployment(*a, *b),
{
    a.governance == b.governance && a.ledger == b.ledger && a.root == b.root && a.swap == b.swap
        && a.index == b.index && claims_equal(&a.airdrop_info, &b.airdrop_info)
}

/// The deployments of `s` that are not the same as `deleted`, in order.
pub open spec fn kept_deployments(s: Seq<DeployedCdaoCanisters>, deleted: DeployedCdaoCanisters) -> Seq<
    DeployedCdaoCanisters,
>
    decreases s.len(),
{
    if s.len() == 0 {
        Seq::empty()
    } else if same_deployment(s.last(), deleted) {
        kept_deployments(s.drop_last(), deleted)
    } else {
        kept_deployments(s.drop_last(), deleted).push(s.last())
    }
}

/// Drops every recorded deployment that is the same as `deleted`, keeping
/// the others in order.
pub fn remove_deployed_cdao(canister_data: &mut CanisterData, deleted: &DeployedCdaoCanisters)
    requires
        old(canister_data).wf(),
        deleted.airdrop_info.wf(),
    ensures
        final(canister_data).wf(),
        final(canister_data).cdao_canisters@ == kept_deployments(old(canister_data).cdao_canisters@, *deleted),
        forall|i: int|
            0 <= i < final(canister_data).cdao_canisters@.len() ==> !same_deployment(
                #[trigger] final(canister_data).cdao_canisters@[i],
                *deleted,
            ),
        forall|i: int|
            0 <= i < old(canister_data).cdao_canisters@.len() && !same_deployment(
                #[trigger] old(canister_data).cdao_canisters@[i],
                *deleted,
            ) ==> final(canister_data).cdao_canisters@.contains(old(canister_data).cdao_canisters@[i]),
        forall|i: int|
            0 <= i < final(canister_data).cdao_canisters@.len() ==> old(canister_data).cdao_canisters@.contains(#[trigger] final(canister_data).cdao_canisters@[i]),
        *final(canister_data) == (CanisterData {
            cdao_canisters: final(canister_data).cdao_canisters,
            ..*old(canister_data)
        }),
{
    let mut old_list: Vec<DeployedCdaoCanisters> = Vec::new();
    std::mem::swap(&mut old_list, &mut canister_data.cdao_canisters);
    let total = old_list.len();
    let ghost src = old_list@;
    let mut kept: Vec<DeployedCdaoCanisters> = Vec::new();
    let mut taken: usize = 0;
    while old_list.len() > 0
        invariant
            taken + old_list@.len() == src.len(),
            src.len() == total,
            old_list@ == src.subrange(taken as int, src.len() as int),
            kept@ == kept_deployments(src.take(taken as int), *deleted),
            deleted.airdrop_info.wf(),
            forall|t: int| 0 <= t < src.len() ==> (#[trigger] src[t]).airdrop_info.wf(),
            forall|t: int| 0 <= t < kept@.len() ==> !same_deployment(#[trigger] kept@[t], *deleted),
            forall|t: int| 0 <= t < kept@.len() ==> src.contains(#[trigger] kept@[t]),
            forall|t: int|
                0 <= t < taken && !same_deployment(#[trigger] src[t], *deleted) ==> kept@.contains(src[t]),
        decreases old_list@.len(),
    {
        let d = old_list.remove(0);
        assert(d == src[taken as int]);
        assert(src.take(taken + 1).drop_last() =~= src.take(taken as int));
        let ghost before = kept@;
        if !deployments_equal(&d, deleted) {
            kept.push(d);
            proof {
                assert forall|t: int| 0 <= t < before.len() && before.contains(kept@[t]) implies kept@.contains(before[t]) by {}
                assert forall|t: int| 0 <= t < taken && !same_deployment(#[trigger] src[t], *deleted) implies kept@.contains(src[t]) by {
                    let a = choose|a: int| 0 <= a < before.len() && before[a] == src[t];
                    assert(kept@[a] == src[t]);
                }
                assert(kept@[kept@.len() - 1] == src[taken as int]);
            }
        }
        proof {
            assert(old_list@ =~= src.subrange(taken + 1, src.len() as int));
        }
        taken = taken + 1;
    }
    assert(src.take(src.len() as int) =~= src);
    canister_data.cdao_canisters = kept;
    proof {
        assert forall|i: int| 0 <= i < canister_data.cdao_canisters@.len() implies (
        #[trigger] canister_data.cdao_canisters@[i]).airdrop_info.wf() by {
            let x = canister_data.cdao_canisters@[i];
            assert(src.contains(x));
            let a = choose|a: int| 0 <= a < src.len() && src[a] == x;
            assert(src[a].airdrop_info.wf());
        }
    }
}

/// Controllers set on a kept token's ledger and swap: the super admin, this
/// canister and the token's root, plus the NNS root for the swap.
pub fn ledger_and_swap_controllers(
    admin: Principal,
    this_canister: Principal,
    root: Principal,
    nns_root: Principal,
) -> (r: (Vec<Principal>, Vec<Principal>))
    ensures
        r.0@ == seq![admin, this_canister, root],
        r.1@ == seq![admin, this_canister, root, nns_root],
{
    (vec![admin, this_canister, root], vec![admin, this_canister, root, nns_root])
}

/// Governance canisters of all deployed tokens, in order.
pub fn governance_canisters(canister_data: &CanisterData) -> (r: Vec<Principal>)
    ensures
        r@.len() == canister_data.cdao_canisters@.len(),
        forall|i: int| 0 <= i < r@.len() ==> #[trigger] r@[i] == canister_data.cdao_canisters@[i].governance,
{
    let mut r: Vec<Principal> = Vec::new();
    let mut i: usize = 0;
    while i < canister_data.cdao_canisters.len()
        invariant
            i <= canister_data.cdao_canisters@.len(),
            r@.len() == i,
            forall|t: int| 0 <= t < i ==> #[trigger] r@[t] == canister_data.cdao_canisters@[t].governance,
        decreases canister_data.cdao_canisters@.len() - i,
    {
        r.push(canister_data.cdao_canisters[i].governance);
        i = i + 1;
    }
    r
}

/// What the subnet orchestrator is told about this user's tokens: the owner
/// and the set of token roots.
pub fn creator_dao_stats(canister_data: &CanisterData) -> (r: (Principal, PrincipalSet))
    requires
        canister_data.profile.principal_id is Some,
    ensures
        Some(r.0) == canister_data.profile.principal_id,
        r.1.wf(),
        forall|p: Principal|
            r.1@.contains(p) <==> exists|i: int|
                0 <= i < canister_data.cdao_canisters@.len() && (
                #[trigger] canister_data.cdao_canisters@[i]).root == p,
{
    let mut roots = PrincipalSet::new();
    let mut i: usize = 0;
    while i < canister_data.cdao_canisters.len()
        invariant
            i <= canister_data.cdao_canisters@.len(),
            roots.wf(),
            forall|p: Principal|
                roots@.contains(p) <==> exists|t: int|
                    0 <= t < i && (#[trigger] canister_data.cdao_canisters@[t]).root == p,
        decreases canister_data.cdao_canisters@.len() - i,
    {
        let root = canister_data.cdao_canisters[i].root;
        let ghost before = roots@;
        roots.insert(root);
        proof {
            let now = roots@;
            assert forall|p: Principal| now.contains(p) <==> exists|t: int|
                0 <= t < i + 1 && (#[trigger] canister_data.cdao_canisters@[t]).root == p by {
                if now.contains(p) && p != root {
                    let j = choose|j: int| 0 <= j < now.len() && now[j] == p;
                    if j < before.len() {
                        assert(before[j] == p);
                    }
                }
                if before.contains(p) {
                    let j = choose|j: int| 0 <= j < before.len() && before[j] == p;
                    assert(now[j] == p);
                }
                if p == root {
                    if !before.contains(p) {
                        assert(now[now.len() - 1] == p);
                    }
                    assert(canister_data.cdao_canisters@[i as int].root == p);
                }
            }
        }
        i = i + 1;
    }
    (canister_data.profile.principal_id.unwrap(), roots)
}

/// Errors of adding or transferring a creator token that the decisions here
/// produce.
#[derive(Clone, Copy, Debug, PartialEq, Eq, Structural)]
pub enum CdaoTokenError {
    InvalidRoot,
    Unauthenticated,
    NoBalance,
}

/// Whether a token is already among this user's tokens.
pub fn is_token_added(canister_data: &CanisterData, root_canister: Principal) -> (r: bool)
    ensures
        r == canister_data.token_roots@.contains(root_canister),
{
    canister_data.token_roots.contains(&root_canister)
}

/// The ledger named by a token's root, or an invalid root.
pub fn ledger_of_token(ledger: Option<Principal>) -> (r: Result<Principal, CdaoTokenError>)
    ensures
        ledger is None ==> r == Err::<Principal, CdaoTokenError>(CdaoTokenError::InvalidRoot),
        forall|l: Principal| ledger == Some(l) ==> r == Ok::<Principal, CdaoTokenError>(l),
{
    match ledger {
        Some(l) => Ok(l),
        None => Err(CdaoTokenError::InvalidRoot),
    }
}

/// Whose balance decides: the owner's; without an owner the request is
/// unauthenticated.
pub fn token_owner(canister_data: &CanisterData) -> (r: Result<Principal, CdaoTokenError>)
    ensures
        canister_data.profile.principal_id is None ==> r == Err::<Principal, CdaoTokenError>(
            CdaoTokenError::Unauthenticated,
        ),
        forall|p: Principal|
            canister_data.profile.principal_id == Some(p) ==> r == Ok::<Principal, CdaoTokenError>(p),
{
    match canister_data.profile.principal_id {
        Some(p) => Ok(p),
        None => Err(CdaoTokenError::Unauthenticated),
    }
}

/// Last step of adding a token: an owner holding none of it is refused;
/// otherwise the root joins the token roots.
pub fn finish_add_token(canister_data: &mut CanisterData, root_canister: Principal, balance: u128) -> (r:
    Result<bool, CdaoTokenError>)
    requires
        old(canister_data).wf(),
    ensures
        final(canister_data).wf(),
        balance == 0 ==> r == Err::<bool, CdaoTokenError>(CdaoTokenError::NoBalance) && *final(canister_data) == *old(canister_data),
        balance != 0 ==> r == Ok::<bool, CdaoTokenError>(true) && final(canister_data).token_roots@.contains(root_canister),
        forall|p: Principal|
            p != root_canister ==> (final(canister_data).token_roots@.contains(p) <==> old(canister_data).token_roots@.contains(p)),
        *final(canister_data) == (CanisterData {
            token_roots: final(canister_data).token_roots,
            ..*old(canister_data)
        }),
{
    if balance == 0 {
        return Err(CdaoTokenError::NoBalance);
    }
    let ghost before = canister_data.token_roots@;
    canister_data.token_roots.insert(root_canister);
    proof {
        let now = canister_data.token_roots@;
        assert forall|p: Principal| p != root_canister implies (now.contains(p) <==> before.contains(p)) by {
            if now.contains(p) {
                let j = choose|j: int| 0 <= j < now.len() && now[j] == p;
                if j < before.len() {
                    assert(before[j] == p);
                }
            }
            if before.contains(p) {
                let j = choose|j: int| 0 <= j < before.len() && before[j] == p;
                assert(now[j] == p);
            }
        }
        if !before.contains(root_canister) {
            assert(now[now.len() - 1] == root_canister);
        }
    }
    Ok(true)
}

/// Only the owner may transfer this user's tokens.
pub fn check_token_transfer_allowed(canister_data: &CanisterData, current_caller: Principal) -> (r: Result<
    (),
    CdaoTokenError,
>)
    ensures
        r == if canister_data.profile.principal_id == Some(current_caller) {
            Ok::<(), CdaoTokenError>(())
        } else {
            Err::<(), CdaoTokenError>(CdaoTokenError::Unauthenticated)
        },
{
    match canister_data.profile.principal_id {
        Some(p) => {
            if p == current_caller {
                Ok(())
            } else {
                Err(CdaoTokenError::Unauthenticated)
            }
        },
        None => Err(CdaoTokenError::Unauthenticated),
    }
}

/// Whether this user already received the airdrop of a token.
pub fn is_airdrop_claimed(canister_data: &CanisterData, token_root: Principal) -> (r: bool)
    ensures
        r == canister_data.airdrop_claimed@.contains(token_root),
{
    canister_data.airdrop_claimed.contains(&token_root)
}

/// Notes that this user received the airdrop of a token.
pub fn claim_airdrop(canister_data: &mut CanisterData, token_root: Principal)
    requires
        old(canister_data).wf(),
    ensures
        final(canister_data).wf(),
        final(canister_data).airdrop_claimed@.contains(token_root),
        forall|p: Principal|
            p != token_root ==> (final(canister_data).airdrop_claimed@.contains(p) <==> old(canister_data).airdrop_claimed@.contains(p)),
        *final(canister_data) == (CanisterData {
            airdrop_claimed: final(canister_data).airdrop_claimed,
            ..*old(canister_data)
        }),
{
    let ghost before = canister_data.airdrop_claimed@;
    canister_data.airdrop_claimed.insert(token_root);
    proof {
        let now = canister_data.airdrop_claimed@;
        assert forall|p: Principal| p != token_root implies (now.contains(p) <==> before.contains(p)) by {
            if now.contains(p) {
                let j = choose|j: int| 0 <= j < now.len() && now[j] == p;
                if j < before.len() {
                    assert(before[j] == p);
                }
            }
            if before.contains(p) {
                let j = choose|j: int| 0 <= j < before.len() && before[j] == p;
                assert(now[j] == p);
            }
        }
        if !before.contains(token_root) {
            assert(now[now.len() - 1] == token_root);
        }
    }
}

/// The canisters of `s` that are not in `failed`, in their order.
pub open spec fn kept_canisters(s: Seq<Principal>, failed: Seq<Principal>) -> Seq<Principal>
    decreases s.len(),
{
    if s.len() == 0 {
        Seq::empty()
    } else if failed.contains(s.last()) {
        kept_canisters(s.drop_last(), failed)
    } else {
        kept_canisters(s.drop_last(), failed).push(s.last())
    }
}

/// The canisters that can go back to the subnet pool: those whose code
/// removal did not fail, in the order given.
pub fn returnable_canisters(canister_ids: &Vec<Principal>, failed: &Vec<Principal>) -> (r: Vec<Principal>)
    ensures
        r@ == kept_canisters(canister_ids@, failed@),
{
    let mut r: Vec<Principal> = Vec::new();
    let mut i: usize = 0;
    while i < canister_ids.len()
        invariant
            i <= canister_ids@.len(),
            r@ == kept_canisters(canister_ids@.take(i as int), failed@),
        decreases canister_ids@.len() - i,
    {
        let c = canister_ids[i];
        let mut is_failed = false;
        let mut k: usize = 0;
        while k < failed.len()
            invariant
                k <= failed@.len(),
                is_failed <==> exists|t: int| 0 <= t < k && failed@[t] == c,
            decreases failed@.len() - k,
        {
            if failed[k] == c {
                is_failed = true;
            }
            k = k + 1;
        }
        proof {
            let t = canister_ids@.take(i + 1);
            assert(t.drop_last() =~= canister_ids@.take(i as int));
            assert(t.last() == c);
            if failed@.contains(c) {
                let w = choose|w: int| 0 <= w < failed@.len() && failed@[w] == c;
                assert(is_failed);
            }
        }
        if !is_failed {
            r.push(c);
        }
        i = i + 1;
    }
    assert(canister_ids@.take(canister_ids@.len() as int) =~= canister_ids@);
    r
}

/// Keeps canisters that could not be returned, to reuse them later.
pub fn append_empty_canisters(canister_data: &mut CanisterData, canister_ids: Vec<Principal>)
    ensures
        final(canister_data).empty_canisters@ == old(canister_data).empty_canisters@ + canister_ids@,
        *final(canister_data) == (CanisterData {
            empty_canisters: final(canister_data).empty_canisters,
            ..*old(canister_data)
        }),
{
    let mut ids = canister_ids;
    canister_data.empty_canisters.append(&mut ids);
}


/// Once a user's claim went through, their status is claimed and a new
/// request is refused; after a failed claim the status is unclaimed again
/// and the user may retry.
pub proof fn lemma_airdrop_claim_lifecycle(info: AirdropInfo, p: Principal)
    ensures
        info.status(p) == Some(ClaimStatus::Claimed) ==> !info.unclaimed(p),
        info.status(p) == Some(ClaimStatus::Claiming) ==> !info.unclaimed(p),
        info.status(p) == Some(ClaimStatus::Unclaimed) ==> info.unclaimed(p),
        info.status(p) is None ==> info.unclaimed(p),
{
}

/// The canisters returned to the pool go one by one: for two lists one after
/// the other they are those of each, one after the other, and a single
/// canister is returned exactly when its code removal did not fail.
pub proof fn lemma_kept_canisters_split(a: Seq<Principal>, b: Seq<Principal>, x: Principal, failed: Seq<Principal>)
    ensures
        kept_canisters(a + b, failed) == kept_canisters(a, failed) + kept_canisters(b, failed),
        kept_canisters(seq![x], failed) == if failed.contains(x) { Seq::empty() } else { seq![x] },
    decreases b.len(),
{
    reveal_with_fuel(kept_canisters, 2);
    assert(seq![x].drop_last() =~= Seq::<Principal>::empty());
    assert(seq![x].last() == x);
    assert(seq![x].drop_last().len() == 0);
    if failed.contains(x) {
        assert(kept_canisters(seq![x], failed) =~= Seq::empty());
    } else {
        assert(kept_canisters(seq![x], failed) =~= seq![x]);
    }
    if b.len() == 0 {
        assert(a + b =~= a);
        assert(kept_canisters(a, failed) + kept_canisters(b, failed) =~= kept_canisters(a, failed));
    } else {
        assert((a + b).drop_last() =~= a + b.drop_last());
        assert((a + b).last() == b.last());
        lemma_kept_canisters_split(a, b.drop_last(), x, failed);
        assert(kept_canisters(a + b, failed) =~= kept_canisters(a, failed) + kept_canisters(b, failed));
    }
}

/// Deleting a deployment goes entry by entry: for two lists one after the
/// other the kept entries are those of each, one after the other, and a
/// single entry is kept exactly when it is not the deleted deployment.
pub proof fn lemma_kept_deployments_split(a: Seq<DeployedCdaoCanisters>, b: Seq<DeployedCdaoCanisters>, x: DeployedCdaoCanisters, deleted: DeployedCdaoCanisters)
    ensures
        kept_deployments(a + b, deleted) == kept_deployments(a, deleted) + kept_deployments(b, deleted),
        kept_deployments(seq![x], deleted) == if same_deployment(x, deleted) { Seq::empty() } else { seq![x] },
    decreases b.len(),
{
    reveal_with_fuel(kept_deployments, 2);
    assert(seq![x].drop_last() =~= Seq::<DeployedCdaoCanisters>::empty());
    assert(seq![x].last() == x);
    assert(seq![x].drop_last().len() == 0);
    if same_deployment(x, deleted) {
        assert(kept_deployments(seq![x], deleted) =~= Seq::empty());
    } else {
        assert(kept_deployments(seq![x], deleted) =~= seq![x]);
    }
    if b.len() == 0 {
        assert(a + b =~= a);
        assert(kept_deployments(a, deleted) + kept_deployments(b, deleted) =~= kept_deployments(a, deleted));
    } else {
        assert((a + b).drop_last() =~= a + b.drop_last());
        assert((a + b).last() == b.last());
        lemma_kept_deployments_split(a, b.drop_last(), x, deleted);
        assert(kept_deployments(a + b, deleted) =~= kept_deployments(a, deleted) + kept_deployments(b, deleted));
    }
}

/// The roots of the completed transfers go reply by reply: for two lists of
/// replies one after the other they are those of each, one after the
/// other, and a single reply yields its root exactly when the transfer went
/// through to a token.
pub proof fn lemma_transferred_roots_split(a: Seq<Result<Option<Principal>, String>>, b: Seq<Result<Option<Principal>, String>>, x: Result<Option<Principal>, String>)
    ensures
        transferred_roots(a + b) == transferred_roots(a) + transferred_roots(b),
        transferred_roots(seq![x]) == match x { Ok(Some(root)) => seq![root], _ => Seq::empty() },
    decreases b.len(),
{
    reveal_with_fuel(transferred_roots, 2);
    assert(seq![x].drop_last() =~= Seq::<Result<Option<Principal>, String>>::empty());
    assert(seq![x].last() == x);
    assert(seq![x].drop_last().len() == 0);
    match x {
        Ok(Some(root)) => {
            assert(transferred_roots(seq![x]) =~= seq![root]);
        },
        _ => {
            assert(transferred_roots(seq![x]) =~= Seq::<Principal>::empty());
        },
    }
    if b.len() == 0 {
        assert(a + b =~= a);
        assert(transferred_roots(a) + transferred_roots(b) =~= transferred_roots(a));
    } else {
        assert((a + b).drop_last() =~= a + b.drop_last());
        assert((a + b).last() == b.last());
        lemma_transferred_roots_split(a, b.drop_last(), x);
        assert(transferred_roots(a + b) =~= transferred_roots(a) + transferred_roots(b));
    }
}

} // verus!
