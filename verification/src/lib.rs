//! Verified core of a user's canister: access rules, follow lists, bets,
//! caches and the bookkeeping around creator tokens.

pub mod principal;
pub mod follow;
pub mod assoc;
pub mod types;
pub mod bets;
pub mod cdao;
pub mod canister_data;
pub mod ml;
pub mod principal_follow;
pub mod lifecycle;
pub mod management;
