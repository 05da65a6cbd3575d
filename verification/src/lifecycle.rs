//! Installing and upgrading the canister: applying the install or upgrade
//! arguments, the token-balance repair after an upgrade, and the framing of
//! the state saved across an upgrade.

use vstd::prelude::*;

use crate::assoc::assoc_lookup;
use crate::canister_data::CanisterData;
use crate::principal::Principal;
use crate::types::{KnownPrincipalMap, KnownPrincipalType, TokenBalance, UserProfile};

verus! {

/// Arguments given when the canister is installed or upgraded.
#[derive(Debug)]
pub struct IndividualUserTemplateInitArgs {
    pub known_principal_ids: Option<KnownPrincipalMap>,
    pub profile_owner: Option<Principal>,
    pub upgrade_version_number: Option<u64>,
    pub url_to_send_canister_metrics_to: Option<String>,
    pub version: String,
}

/// Principal registered for `k` once the pairs of `given` are registered, one
/// after another, over `before`.
pub open spec fn lookup_after_registering(
    before: Option<Principal>,
    given: Seq<(KnownPrincipalType, Principal)>,
    k: KnownPrincipalType,
) -> Option<Principal> {
    match assoc_lookup(given, k) {
        Some(p) => Some(p),
        None => before,
    }
}

/// Applies the install arguments: registers the given well-known principals
/// over the existing ones, and sets the owner, the metrics URL, the version
/// number (0 when absent) and the version.
pub fn init_impl(init_args: IndividualUserTemplateInitArgs, data: &mut CanisterData)
    requires
        old(data).wf(),
        init_args.known_principal_ids matches Some(m) ==> m.wf(),
    ensures
        final(data).wf(),
        forall|k: KnownPrincipalType| #[trigger] final(data).known_principal_ids.lookup(k) == match init_args.known_principal_ids {
            Some(m) => lookup_after_registering(old(data).known_principal_ids.lookup(k), m@, k),
            None => old(data).known_principal_ids.lookup(k),
        },
        final(data).profile.principal_id == init_args.profile_owner,
        final(data).configuration.url_to_send_canister_metrics_to
            == init_args.url_to_send_canister_metrics_to,
        final(data).version_details.version_number == match init_args.upgrade_version_number {
            Some(n) => n,
            None => 0,
        },
        final(data).version_details.version == init_args.version,
        *final(data) == (CanisterData {
            known_principal_ids: final(data).known_principal_ids,
            profile: UserProfile { principal_id: final(data).profile.principal_id, ..old(data).profile },
            configuration: final(data).configuration,
            version_details: final(data).version_details,
            ..*old(data)
        }),
{
    match init_args.known_principal_ids {
        Some(m) => {
            let ghost before = data.known_principal_ids;
            let mut i: usize = 0;
            while i < m.entries.len()
                invariant
                    i <= m@.len(),
                    data.known_principal_ids.wf(),
                    old(data).wf(),
                    *data == (CanisterData { known_principal_ids: data.known_principal_ids, ..*old(data) }),
                    forall|k: KnownPrincipalType| #[trigger] data.known_principal_ids.lookup(k)
                        == lookup_after_registering(before.lookup(k), m@.take(i as int), k),
                decreases m@.len() - i,
            {
                let (k, p) = m.entries[i];
                data.known_principal_ids.insert(k, p);
                proof {
                    assert(m@.take(i + 1).drop_last() =~= m@.take(i as int));
                    assert forall|k2: KnownPrincipalType| #[trigger] data.known_principal_ids.lookup(k2)
                        == lookup_after_registering(before.lookup(k2), m@.take(i + 1), k2) by {}
                }
                i = i + 1;
            }
            assert(m@.take(m@.len() as int) =~= m@);
        },
        None => {},
    }
    data.profile.principal_id = init_args.profile_owner;
    data.configuration.url_to_send_canister_metrics_to = init_args.url_to_send_canister_metrics_to;
    data.version_details.version_number = match init_args.upgrade_version_number {
        Some(n) => n,
        None => 0,
    };
    data.version_details.version = init_args.version;
}

/// Applies the upgrade arguments: given well-known principals replace the
/// registered ones, a given owner and a given version number replace the
/// stored ones, and the version is always replaced.
pub fn apply_upgrade_args(upgrade_args: IndividualUserTemplateInitArgs, data: &mut CanisterData)
    requires
        old(data).wf(),
        upgrade_args.known_principal_ids matches Some(m) ==> m.wf(),
    ensures
        final(data).wf(),
        final(data).known_principal_ids@ == match upgrade_args.known_principal_ids {
            Some(m) => m@,
            None => old(data).known_principal_ids@,
        },
        final(data).profile.principal_id == match upgrade_args.profile_owner {
            Some(p) => Some(p),
            None => old(data).profile.principal_id,
        },
        final(data).version_details.version_number == match upgrade_args.upgrade_version_number {
            Some(n) => n,
            None => old(data).version_details.version_number,
        },
        final(data).version_details.version == upgrade_args.version,
        *final(data) == (CanisterData {
            known_principal_ids: final(data).known_principal_ids,
            profile: UserProfile { principal_id: final(data).profile.principal_id, ..old(data).profile },
            version_details: final(data).version_details,
            ..*old(data)
        }),
{
    if let Some(known_principal_ids) = upgrade_args.known_principal_ids {
        data.known_principal_ids = known_principal_ids;
    }
    if let Some(profile_owner) = upgrade_args.profile_owner {
        data.profile.principal_id = Some(profile_owner);
    }
    if let Some(upgrade_version_number) = upgrade_args.upgrade_version_number {
        data.version_details.version_number = upgrade_version_number;
    }
    data.version_details.version = upgrade_args.version;
}

/// A utility token balance above this is treated as corrupt.
pub const EXCESSIVE_TOKEN_BALANCE: u64 = 18_000_000_000_000_000_000;

/// Balance that replaces a corrupt one.
pub const RESET_TOKEN_BALANCE: u64 = 1000;

/// Resets a utility token balance above `EXCESSIVE_TOKEN_BALANCE` to
/// `RESET_TOKEN_BALANCE`; any other balance stays.
pub fn migrate_excessive_tokens(data: &mut CanisterData)
    ensures
        final(data).my_token_balance.utility_token_balance == migrated_balance(
            old(data).my_token_balance.utility_token_balance,
        ),
        *final(data) == (CanisterData {
            my_token_balance: TokenBalance {
                utility_token_balance: final(data).my_token_balance.utility_token_balance,
                ..old(data).my_token_balance
            },
            ..*old(data)
        }),
{
    if data.my_token_balance.utility_token_balance > EXCESSIVE_TOKEN_BALANCE {
        data.my_token_balance.utility_token_balance = RESET_TOKEN_BALANCE;
    }
}

/// Value of four bytes read as a little-endian unsigned number.
pub open spec fn le_u32_value(b: Seq<u8>) -> int {
    b[0] + 256 * b[1] + 65536 * b[2] + 16777216 * b[3]
}

/// The four little-endian bytes of `n`.
pub open spec fn le_u32_bytes(n: u32) -> Seq<u8> {
    seq![
        (n % 256) as u8,
        ((n / 256) % 256) as u8,
        ((n / 65536) % 256) as u8,
        (n / 16777216) as u8,
    ]
}

/// A saved blob: its length as four little-endian bytes, then its bytes.
pub open spec fn frame_spec(payload: Seq<u8>) -> Seq<u8> {
    le_u32_bytes(payload.len() as u32) + payload
}

pub proof fn lemma_le_u32_roundtrip(n: u32)
    ensures
        le_u32_bytes(n).len() == 4,
        le_u32_value(le_u32_bytes(n)) == n,
{
    assert((n % 256) + 256 * ((n / 256) % 256) + 65536 * ((n / 65536) % 256) + 16777216 * (n
        / 16777216) == n) by (bit_vector);
    assert(n / 16777216 < 256) by (bit_vector);
}

/// Frames the serialized state before it is written to stable memory.
pub fn frame_upgrade_state(payload: &Vec<u8>) -> (r: Vec<u8>)
    requires
        payload@.len() <= u32::MAX,
    ensures
        r@ == frame_spec(payload@),
{
    let n = payload.len() as u32;
    let mut r: Vec<u8> = Vec::new();
    r.push((n % 256) as u8);
    r.push(((n / 256) % 256) as u8);
    r.push(((n / 65536) % 256) as u8);
    r.push((n / 16777216) as u8);
    let mut i: usize = 0;
    while i < payload.len()
        invariant
            i <= payload@.len(),
            r@ == le_u32_bytes(n) + payload@.subrange(0, i as int),
        decreases payload@.len() - i,
    {
        r.push(payload[i]);
        i = i + 1;
        assert(r@ =~= le_u32_bytes(n) + payload@.subrange(0, i as int));
    }
    assert(payload@.subrange(0, payload@.len() as int) =~= payload@);
    r
}

/// Reads one framed blob starting at `offset`: four little-endian length
/// bytes, then that many bytes. Returns the blob and the offset after it, or
/// nothing when the memory ends first.
pub fn read_upgrade_frame(memory: &Vec<u8>, offset: usize) -> (r: Option<(Vec<u8>, usize)>)
    ensures
        offset + 4 > memory@.len() ==> r is None,
        offset + 4 <= memory@.len() ==> {
            let len = le_u32_value(memory@.subrange(offset as int, offset + 4));
            &&& offset + 4 + len > memory@.len() ==> r is None
            &&& offset + 4 + len <= memory@.len() ==> (r matches Some((blob, next)) && next == offset
                + 4 + len && blob@ == memory@.subrange(offset + 4, offset + 4 + len))
        },
{
    let n = memory.len();
    if offset > n || n - offset < 4 {
        return None;
    }
    let len: usize = memory[offset] as usize + 256 * (memory[offset + 1] as usize) + 65536 * (
    memory[offset + 2] as usize) + 16777216 * (memory[offset + 3] as usize);
    assert(len == le_u32_value(memory@.subrange(offset as int, offset + 4)));
    let start = offset + 4;
    if n - start < len {
        return None;
    }
    let mut blob: Vec<u8> = Vec::new();
    let mut i: usize = 0;
    while i < len
        invariant
            i <= len,
            start + len <= n,
            n == memory@.len(),
            blob@ == memory@.subrange(start as int, start + i),
        decreases len - i,
    {
        blob.push(memory[start + i]);
        i = i + 1;
        assert(blob@ =~= memory@.subrange(start as int, start + i));
    }
    Some((blob, start + len))
}


/// Reading a frame back gives what was framed: the first four bytes hold its
/// length, and the bytes after them are the payload, whatever follows.
pub proof fn lemma_frame_roundtrip(payload: Seq<u8>, rest: Seq<u8>)
    requires
        payload.len() <= u32::MAX,
    ensures
        ({
            let m = frame_spec(payload) + rest;
            &&& m.len() >= 4 + payload.len()
            &&& le_u32_value(m.subrange(0, 4)) == payload.len()
            &&& m.subrange(4, 4 + payload.len() as int) == payload
        }),
{
    let m = frame_spec(payload) + rest;
    lemma_le_u32_roundtrip(payload.len() as u32);
    assert(m.subrange(0, 4) =~= le_u32_bytes(payload.len() as u32));
    assert(m.subrange(4, 4 + payload.len() as int) =~= payload);
}

/// Balance after the repair of corrupt balances.
pub open spec fn migrated_balance(b: u64) -> u64 {
    if b > EXCESSIVE_TOKEN_BALANCE {
        RESET_TOKEN_BALANCE
    } else {
        b
    }
}

/// Only a corrupt balance is touched: a balance up to
/// 18_000_000_000_000_000_000 is kept as it is, and one above it becomes
/// 1000.
pub proof fn lemma_migrate_keeps_sound_balances(b: u64)
    ensures
        b <= 18_000_000_000_000_000_000u64 ==> migrated_balance(b) == b,
        b > 18_000_000_000_000_000_000u64 ==> migrated_balance(b) == 1000,
{
}

/// Repairing a balance twice is the same as once, and a repaired balance is
/// never above the corrupt threshold.
pub proof fn lemma_migrate_idempotent(b: u64)
    ensures
        migrated_balance(migrated_balance(b)) == migrated_balance(b),
        migrated_balance(b) <= EXCESSIVE_TOKEN_BALANCE,
{
}

} // verus!
