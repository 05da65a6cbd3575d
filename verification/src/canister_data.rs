//! Everything a user's canister keeps on the heap.

use vstd::prelude::*;

use crate::bets::PlacedBetBook;
use crate::cdao::{AirdropData, DeployedCdaoCanisters};
use crate::follow::FollowList;
use crate::ml::MLFeedCacheItem;
use crate::principal::{Principal, PrincipalSet};
use crate::types::{
    CanisterConfiguration, DeviceIdentity, KnownPrincipalMap, SessionType, TokenBalance,
    UserProfile, VersionDetails,
};

verus! {

/// Profiles this user follows and profiles following this user.
#[derive(Debug)]
pub struct FollowData {
    pub follower: FollowList,
    pub following: FollowList,
}

/// State of a user's canister. Times are nanoseconds since the Unix epoch.
#[derive(Debug)]
pub struct CanisterData {
    pub profile: UserProfile,
    pub follow_data: FollowData,
    pub principals_i_follow: PrincipalSet,
    pub principals_that_follow_me: PrincipalSet,
    pub known_principal_ids: KnownPrincipalMap,
    pub session_type: Option<SessionType>,
    pub last_access_time: Option<u64>,
    pub last_canister_functionality_access_time: Option<u64>,
    pub version_details: VersionDetails,
    pub configuration: CanisterConfiguration,
    pub my_token_balance: TokenBalance,
    pub device_identities: Vec<DeviceIdentity>,
    pub ml_feed_cache: Vec<MLFeedCacheItem>,
    pub cdao_canisters: Vec<DeployedCdaoCanisters>,
    pub token_roots: PrincipalSet,
    pub airdrop_claimed: PrincipalSet,
    pub airdrop: AirdropData,
    pub all_hot_or_not_bets_placed: PlacedBetBook,
    pub empty_canisters: Vec<Principal>,
}

impl CanisterData {
    /// The invariants of each collection.
    pub open spec fn wf(&self) -> bool {
        &&& self.follow_data.follower.wf()
        &&& self.follow_data.following.wf()
        &&& self.principals_i_follow.wf()
        &&& self.principals_that_follow_me.wf()
        &&& self.known_principal_ids.wf()
        &&& self.token_roots.wf()
        &&& self.airdrop_claimed.wf()
        &&& self.all_hot_or_not_bets_placed.wf()
        &&& forall|i: int|
            0 <= i < self.cdao_canisters@.len() ==> (#[trigger] self.cdao_canisters@[i]).airdrop_info.wf()
    }

    /// The state of a freshly installed canister: everything empty or unset.
    pub open spec fn is_fresh(&self) -> bool {
        &&& self.wf()
        &&& self.profile.principal_id is None
        &&& self.profile.display_name is None
        &&& self.profile.profile_picture_url is None
        &&& self.profile.unique_user_name is None
        &&& self.follow_data.follower@.len() == 0
        &&& self.follow_data.following@.len() == 0
        &&& self.principals_i_follow@.len() == 0
        &&& self.principals_that_follow_me@.len() == 0
        &&& self.known_principal_ids@.len() == 0
        &&& self.session_type is None
        &&& self.last_access_time is None
        &&& self.last_canister_functionality_access_time is None
        &&& self.version_details.version_number == 0
        &&& self.version_details.version@.len() == 0
        &&& self.configuration.url_to_send_canister_metrics_to is None
        &&& self.my_token_balance.utility_token_balance == 0
        &&& self.my_token_balance.utility_token_transaction_history@.len() == 0
        &&& self.device_identities@.len() == 0
        &&& self.ml_feed_cache@.len() == 0
        &&& self.cdao_canisters@.len() == 0
        &&& self.token_roots@.len() == 0
        &&& self.airdrop_claimed@.len() == 0
        &&& self.airdrop.token_chain@.len() == 0
        &&& self.airdrop.parent_chain@.len() == 0
        &&& self.all_hot_or_not_bets_placed@.len() == 0
        &&& self.empty_canisters@.len() == 0
    }
}

impl Default for CanisterData {
    fn default() -> (d: Self)
        ensures
            d.is_fresh(),
    {
        CanisterData {
            profile: UserProfile {
                principal_id: None,
                display_name: None,
                profile_picture_url: None,
                unique_user_name: None,
            },
            follow_data: FollowData { follower: FollowList::new(), following: FollowList::new() },
            principals_i_follow: PrincipalSet::new(),
            principals_that_follow_me: PrincipalSet::new(),
            known_principal_ids: KnownPrincipalMap::new(),
            session_type: None,
            last_access_time: None,
            last_canister_functionality_access_time: None,
            version_details: VersionDetails { version_number: 0, version: String::new() },
            configuration: CanisterConfiguration { url_to_send_canister_metrics_to: None },
            my_token_balance: TokenBalance { utility_token_balance: 0, utility_token_transaction_history: Vec::new() },
            device_identities: Vec::new(),
            ml_feed_cache: Vec::new(),
            cdao_canisters: Vec::new(),
            token_roots: PrincipalSet::new(),
            airdrop_claimed: PrincipalSet::new(),
            airdrop: AirdropData { token_chain: Vec::new(), parent_chain: Vec::new() },
            all_hot_or_not_bets_placed: PlacedBetBook::new(),
            empty_canisters: Vec::new(),
        }
    }
}

} // verus!
