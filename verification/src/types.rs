//! Plain records held by a user's canister.

use vstd::prelude::*;

use crate::assoc::{
    assoc_lookup, keys_distinct, lemma_assoc_lookup_cases, lemma_assoc_lookup_update,
    lemma_assoc_push,
};
use crate::bets::BetOutcomeForBetMaker;
use crate::principal::Principal;

verus! {

/// Roles of well-known principals the canister talks to.
#[derive(Clone, Copy, Debug, PartialEq, Eq, Structural)]
pub enum KnownPrincipalType {
    UserIdGlobalSuperAdmin,
    CanisterIdUserIndex,
    CanisterIdDataBackup,
    CanisterIdSnsWasm,
}

/// Well-known principals by role.
#[derive(Debug)]
pub struct KnownPrincipalMap {
    pub entries: Vec<(KnownPrincipalType, Principal)>,
}

impl View for KnownPrincipalMap {
    type V = Seq<(KnownPrincipalType, Principal)>;

    open spec fn view(&self) -> Seq<(KnownPrincipalType, Principal)> {
        self.entries@
    }
}

impl KnownPrincipalMap {
    pub open spec fn wf(&self) -> bool {
        keys_distinct(self@)
    }

    /// Principal registered for `k`.
    pub open spec fn lookup(&self, k: KnownPrincipalType) -> Option<Principal> {
        assoc_lookup(self@, k)
    }

    pub fn new() -> (m: KnownPrincipalMap)
        ensures
            m@ == Seq::<(KnownPrincipalType, Principal)>::empty(),
            m.wf(),
            forall|k: KnownPrincipalType| m.lookup(k) == None::<Principal>,
    {
        KnownPrincipalMap { entries: Vec::new() }
    }

    pub fn get(&self, k: KnownPrincipalType) -> (r: Option<Principal>)
        requires
            self.wf(),
        ensures
            r == self.lookup(k),
    {
        proof {
            lemma_assoc_lookup_cases(self@, k);
        }
        let mut i: usize = 0;
        while i < self.entries.len()
            invariant
                i <= self@.len(),
                self.wf(),
                forall|t: int| 0 <= t < i ==> #[trigger] self@[t].0 != k,
            decreases self@.len() - i,
        {
            if self.entries[i].0 == k {
                proof {
                    crate::assoc::lemma_assoc_lookup_at(self@, i as int);
                }
                return Some(self.entries[i].1);
            }
            i = i + 1;
        }
        None
    }

    /// Registers `p` for `k`, replacing any earlier principal.
    pub fn insert(&mut self, k: KnownPrincipalType, p: Principal)
        requires
            old(self).wf(),
        ensures
            final(self).wf(),
            forall|k2: KnownPrincipalType| #[trigger] final(self).lookup(k2) == if k2 == k {
                Some(p)
            } else {
                old(self).lookup(k2)
            },
    {
        let mut i: usize = 0;
        while i < self.entries.len()
            invariant
                i <= self@.len(),
                self@ == old(self)@,
                old(self).wf(),
                forall|t: int| 0 <= t < i ==> #[trigger] self@[t].0 != k,
            decreases self@.len() - i,
        {
            if self.entries[i].0 == k {
                self.entries.set(i, (k, p));
                proof {
                    assert forall|k2: KnownPrincipalType| #[trigger] assoc_lookup(self@, k2) == if k2
                        == k {
                        Some(p)
                    } else {
                        assoc_lookup(old(self)@, k2)
                    } by {
                        lemma_assoc_lookup_update(old(self)@, i as int, p, k2);
                        assert(self@ =~= old(self)@.update(i as int, (old(self)@[i as int].0, p)));
                    }
                    lemma_assoc_lookup_update(old(self)@, i as int, p, k);
                }
                return;
            }
            i = i + 1;
        }
        proof {
            lemma_assoc_push(self@, k, p);
        }
        self.entries.push((k, p));
    }
}

/// Kind of session the canister is assigned to.
#[derive(Clone, Copy, Debug, PartialEq, Eq, Structural)]
pub enum SessionType {
    AnonymousSession,
    RegisteredSession,
}

/// Profile of the user who owns the canister.
#[derive(Debug)]
pub struct UserProfile {
    pub principal_id: Option<Principal>,
    pub display_name: Option<String>,
    pub profile_picture_url: Option<String>,
    pub unique_user_name: Option<String>,
}

/// Version of the code the canister runs.
#[derive(Debug)]
pub struct VersionDetails {
    pub version_number: u64,
    pub version: String,
}

/// Settings of the canister.
#[derive(Debug)]
pub struct CanisterConfiguration {
    pub url_to_send_canister_metrics_to: Option<String>,
}

/// A payout of utility tokens for the outcome of a bet this user placed:
/// the amount credited, the bet it settles and when it was credited (ns).
#[derive(Clone, Copy, Debug)]
pub struct TokenEvent {
    pub amount: u64,
    pub post_canister_id: Principal,
    pub post_id: u64,
    pub slot_id: u8,
    pub room_id: u64,
    pub event_outcome: BetOutcomeForBetMaker,
    pub timestamp: u64,
}

/// Utility token balance of the user and the events that changed it, each
/// under its number.
#[derive(Debug)]
pub struct TokenBalance {
    pub utility_token_balance: u64,
    pub utility_token_transaction_history: Vec<(u64, TokenEvent)>,
}

/// A device registered by the user, with the time (milliseconds) it was
/// added.
#[derive(Debug)]
pub struct DeviceIdentity {
    pub device_id: String,
    pub timestamp: u64,
}

} // verus!
