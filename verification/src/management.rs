//! Ownership, session and access-time bookkeeping, device identities, cycle
//! returns and the guards of the backup and restore endpoints.

use vstd::prelude::*;

use crate::canister_data::CanisterData;
use crate::principal::Principal;
use crate::types::{DeviceIdentity, KnownPrincipalType, SessionType, TokenBalance, UserProfile};

verus! {

/// Sets the owner of a canister that has none yet. Only a controller may do
/// so, and an owner once set is never replaced.
pub fn update_profile_owner_impl(
    canister_data: &mut CanisterData,
    caller_is_controller: bool,
    user_id: Option<Principal>,
) -> (r: Result<(), String>)
    ensures
        !caller_is_controller ==> (r matches Err(e) && e@ == "Unauthorised"@),
        caller_is_controller && old(canister_data).profile.principal_id is Some ==> (r matches Err(e)
            && e@ == "Canister Already has a profile Owner"@),
        caller_is_controller && old(canister_data).profile.principal_id is None ==> r is Ok
            && final(canister_data).profile.principal_id == user_id,
        r is Err ==> *final(canister_data) == *old(canister_data),
        *final(canister_data) == (CanisterData {
            profile: UserProfile { principal_id: final(canister_data).profile.principal_id, ..old(canister_data).profile },
            ..*old(canister_data)
        }),
{
    if !caller_is_controller {
        return Err(String::from_str("Unauthorised"));
    }
    if canister_data.profile.principal_id.is_some() {
        return Err(String::from_str("Canister Already has a profile Owner"));
    }
    canister_data.profile.principal_id = user_id;
    Ok(())
}

/// Sets the session type, once the caller passed the admin check. A
/// registered session is final.
pub fn update_session_type_impl(
    canister_data: &mut CanisterData,
    admin_check: Result<(), String>,
    session_type: SessionType,
) -> (r: Result<String, String>)
    ensures
        forall|e: String| admin_check == Err::<(), String>(e) ==> r == Err::<String, String>(e),
        admin_check is Ok && old(canister_data).session_type == Some(SessionType::RegisteredSession)
            ==> (r matches Err(e) && e@ == "Session Already marked as Registered Session"@),
        admin_check is Ok && old(canister_data).session_type != Some(SessionType::RegisteredSession)
            ==> (r matches Ok(m) && m@ == "Success"@) && final(canister_data).session_type == Some(
            session_type,
        ),
        r is Err ==> *final(canister_data) == *old(canister_data),
        *final(canister_data) == (CanisterData {
            session_type: final(canister_data).session_type,
            ..*old(canister_data)
        }),
{
    if let Err(e) = admin_check {
        return Err(e);
    }
    if let Some(SessionType::RegisteredSession) = canister_data.session_type {
        return Err(String::from_str("Session Already marked as Registered Session"));
    }
    canister_data.session_type = Some(session_type);
    Ok(String::from_str("Success"))
}

/// Records that a functionality of the canister was used at `now`.
pub fn update_last_canister_functionality_access_time(canister_data: &mut CanisterData, now: u64)
    ensures
        *final(canister_data) == (CanisterData {
            last_canister_functionality_access_time: Some(now),
            ..*old(canister_data)
        }),
{
    canister_data.last_canister_functionality_access_time = Some(now);
}

/// The owner reports activity at `now`. Others are refused; otherwise the
/// functionality access time is recorded, and the access time too once the
/// canister has a session.
pub fn update_last_access_time_impl(canister_data: &mut CanisterData, caller: Principal, now: u64) -> (r:
    Result<String, String>)
    requires
        old(canister_data).profile.principal_id is Some,
    ensures
        old(canister_data).profile.principal_id != Some(caller) ==> (r matches Err(e) && e@
            == "Unauthorized"@) && *final(canister_data) == *old(canister_data),
        old(canister_data).profile.principal_id == Some(caller) && old(canister_data).session_type is None
            ==> (r matches Err(e) && e@ == "Canister not yet assigned"@) && *final(canister_data) == (
        CanisterData { last_canister_functionality_access_time: Some(now), ..*old(canister_data) }),
        old(canister_data).profile.principal_id == Some(caller) && old(canister_data).session_type is Some
            ==> (r matches Ok(m) && m@ == "Success"@) && *final(canister_data) == (CanisterData {
            last_canister_functionality_access_time: Some(now),
            last_access_time: Some(now),
            ..*old(canister_data)
        }),
{
    let profile_owner = canister_data.profile.principal_id.unwrap();
    if profile_owner != caller {
        return Err(String::from_str("Unauthorized"));
    }
    update_last_canister_functionality_access_time(canister_data, now);
    if canister_data.session_type.is_none() {
        return Err(String::from_str("Canister not yet assigned"));
    }
    canister_data.last_access_time = Some(now);
    Ok(String::from_str("Success"))
}

pub fn get_last_access_time(canister_data: &CanisterData) -> (r: Result<u64, String>)
    ensures
        canister_data.last_access_time is None ==> (r matches Err(e) && e@
            == "Canister has not been assigned yet"@),
        forall|t: u64| canister_data.last_access_time == Some(t) ==> r == Ok::<u64, String>(t),
{
    match canister_data.last_access_time {
        Some(t) => Ok(t),
        None => Err(String::from_str("Canister has not been assigned yet")),
    }
}

pub fn get_session_type(canister_data: &CanisterData) -> (r: Result<SessionType, String>)
    ensures
        canister_data.session_type is None ==> (r matches Err(e) && e@
            == "Canister has not been assigned yet"@),
        forall|s: SessionType| canister_data.session_type == Some(s) ==> r == Ok::<SessionType, String>(s),
{
    match canister_data.session_type {
        Some(s) => Ok(s),
        None => Err(String::from_str("Canister has not been assigned yet")),
    }
}

pub fn get_version_number(canister_data: &CanisterData) -> (r: u64)
    ensures
        r == canister_data.version_details.version_number,
{
    canister_data.version_details.version_number
}

/// Forgets everything: the canister becomes as freshly installed.
pub fn reset_data(canister_data: &mut CanisterData)
    ensures
        final(canister_data).is_fresh(),
{
    *canister_data = CanisterData::default();
}

/// Nanoseconds per millisecond.
pub const NANOS_PER_MILLI: u64 = 1_000_000;

/// Registers a device of the owner at `now` (ns), stamped in milliseconds.
/// Only the owner may do so.
pub fn add_device_id_impl(
    canister_data: &mut CanisterData,
    caller: Principal,
    identity_token: String,
    now: u64,
) -> (r: Result<bool, String>)
    ensures
        old(canister_data).profile.principal_id != Some(caller) ==> (r matches Err(e) && e@
            == "Only the user whose profile details are stored in this canister can add a device id."@)
            && *final(canister_data) == *old(canister_data),
        old(canister_data).profile.principal_id == Some(caller) ==> r == Ok::<bool, String>(true)
            && final(canister_data).device_identities@ == old(canister_data).device_identities@.push(
            DeviceIdentity { device_id: identity_token, timestamp: now / NANOS_PER_MILLI },
        ),
        *final(canister_data) == (CanisterData {
            device_identities: final(canister_data).device_identities,
            ..*old(canister_data)
        }),
{
    match canister_data.profile.principal_id {
        Some(p) => {
            if p != caller {
                return Err(
                    String::from_str(
                        "Only the user whose profile details are stored in this canister can add a device id.",
                    ),
                );
            }
        },
        None => {
            return Err(
                String::from_str(
                    "Only the user whose profile details are stored in this canister can add a device id.",
                ),
            );
        },
    }
    let device_id = DeviceIdentity { device_id: identity_token, timestamp: now / NANOS_PER_MILLI };
    canister_data.device_identities.push(device_id);
    Ok(true)
}

/// Cycles to hand back to the user index: the amount asked for, or without
/// one, what exceeds the recharge amount; nothing when the balance does not
/// exceed it.
pub fn cycles_to_return(cycle_amount: Option<u128>, balance: u128, recharge_amount: u128) -> (r: Option<
    u128,
>)
    ensures
        forall|a: u128| cycle_amount == Some(a) ==> r == Some(a),
        cycle_amount is None && balance > recharge_amount ==> r == Some((balance - recharge_amount) as u128),
        cycle_amount is None && balance <= recharge_amount ==> r is None,
{
    match cycle_amount {
        Some(a) => Some(a),
        None => {
            if balance > recharge_amount {
                Some(balance - recharge_amount)
            } else {
                None
            }
        },
    }
}

/// Whether `caller` may trigger a backup: the user index or the global super
/// admin.
pub fn is_backup_requester(canister_data: &CanisterData, caller: Principal) -> (r: bool)
    requires
        canister_data.wf(),
        canister_data.known_principal_ids.lookup(KnownPrincipalType::CanisterIdUserIndex) is Some,
        canister_data.known_principal_ids.lookup(KnownPrincipalType::UserIdGlobalSuperAdmin) is Some,
    ensures
        r == (Some(caller) == canister_data.known_principal_ids.lookup(
            KnownPrincipalType::CanisterIdUserIndex,
        ) || Some(caller) == canister_data.known_principal_ids.lookup(
            KnownPrincipalType::UserIdGlobalSuperAdmin,
        )),
{
    let user_index = canister_data.known_principal_ids.get(KnownPrincipalType::CanisterIdUserIndex).unwrap();
    let admin = canister_data.known_principal_ids.get(KnownPrincipalType::UserIdGlobalSuperAdmin).unwrap();
    !(caller != user_index && caller != admin)
}

/// A profile is sent to the backup only if it has a display name or a
/// picture.
pub fn profile_needs_backup(profile: &UserProfile) -> (r: bool)
    ensures
        r == (profile.display_name is Some || profile.profile_picture_url is Some),
{
    !(profile.display_name.is_none() && profile.profile_picture_url.is_none())
}

/// Whether `caller` is the data backup canister.
pub fn is_data_backup_canister(canister_data: &CanisterData, caller: Principal) -> (r: bool)
    requires
        canister_data.wf(),
        canister_data.known_principal_ids.lookup(KnownPrincipalType::CanisterIdDataBackup) is Some,
    ensures
        r == (Some(caller) == canister_data.known_principal_ids.lookup(
            KnownPrincipalType::CanisterIdDataBackup,
        )),
{
    let backup = canister_data.known_principal_ids.get(KnownPrincipalType::CanisterIdDataBackup).unwrap();
    caller == backup
}

/// Restores the utility token balance, when the data backup canister sends
/// it; any other caller is ignored.
pub fn receive_my_utility_token_balance_from_data_backup_canister(
    canister_data: &mut CanisterData,
    caller: Principal,
    token_balance: u64,
)
    requires
        old(canister_data).wf(),
        old(canister_data).known_principal_ids.lookup(KnownPrincipalType::CanisterIdDataBackup) is Some,
    ensures
        Some(caller) != old(canister_data).known_principal_ids.lookup(
            KnownPrincipalType::CanisterIdDataBackup,
        ) ==> *final(canister_data) == *old(canister_data),
        Some(caller) == old(canister_data).known_principal_ids.lookup(
            KnownPrincipalType::CanisterIdDataBackup,
        ) ==> final(canister_data).my_token_balance.utility_token_balance == token_balance,
        *final(canister_data) == (CanisterData {
            my_token_balance: TokenBalance {
                utility_token_balance: final(canister_data).my_token_balance.utility_token_balance,
                ..old(canister_data).my_token_balance
            },
            ..*old(canister_data)
        }),
{
    if !is_data_backup_canister(canister_data, caller) {
        return;
    }
    canister_data.my_token_balance.utility_token_balance = token_balance;
}

/// Restores a chunk of the principals the owner follows, when the data
/// backup canister sends it; any other caller is ignored.
pub fn receive_principals_i_follow_from_data_backup_canister(
    canister_data: &mut CanisterData,
    caller: Principal,
    principals_i_follow_chunk_vec: Vec<Principal>,
)
    requires
        old(canister_data).wf(),
        old(canister_data).known_principal_ids.lookup(KnownPrincipalType::CanisterIdDataBackup) is Some,
    ensures
        final(canister_data).wf(),
        Some(caller) != old(canister_data).known_principal_ids.lookup(
            KnownPrincipalType::CanisterIdDataBackup,
        ) ==> *final(canister_data) == *old(canister_data),
        Some(caller) == old(canister_data).known_principal_ids.lookup(
            KnownPrincipalType::CanisterIdDataBackup,
        ) ==> forall|p: Principal|
            #[trigger] final(canister_data).principals_i_follow@.contains(p) <==> (old(
                canister_data,
            ).principals_i_follow@.contains(p) || principals_i_follow_chunk_vec@.contains(p)),
        *final(canister_data) == (CanisterData {
            principals_i_follow: final(canister_data).principals_i_follow,
            ..*old(canister_data)
        }),
{
    if !is_data_backup_canister(canister_data, caller) {
        return;
    }
    let mut i: usize = 0;
    while i < principals_i_follow_chunk_vec.len()
        invariant
            i <= principals_i_follow_chunk_vec@.len(),
            canister_data.principals_i_follow.wf(),
            old(canister_data).wf(),
            *canister_data == (CanisterData {
                principals_i_follow: canister_data.principals_i_follow,
                ..*old(canister_data)
            }),
            forall|p: Principal|
                #[trigger] canister_data.principals_i_follow@.contains(p) <==> (old(
                    canister_data,
                ).principals_i_follow@.contains(p) || principals_i_follow_chunk_vec@.take(
                    i as int,
                ).contains(p)),
        decreases principals_i_follow_chunk_vec@.len() - i,
    {
        let p = principals_i_follow_chunk_vec[i];
        let ghost before = canister_data.principals_i_follow@;
        canister_data.principals_i_follow.insert(p);
        proof {
            let t = principals_i_follow_chunk_vec@.take(i + 1);
            let t0 = principals_i_follow_chunk_vec@.take(i as int);
            assert(t =~= t0.push(p));
            assert forall|q: Principal| #[trigger] canister_data.principals_i_follow@.contains(q) <==> (
            before.contains(q) || q == p) by {
                let now = canister_data.principals_i_follow@;
                if now.contains(q) && q != p {
                    let j = choose|j: int| 0 <= j < now.len() && now[j] == q;
                    if now.len() > before.len() && j == now.len() - 1 {
                    } else {
                        assert(before[j] == q);
                    }
                }
                if before.contains(q) {
                    let j = choose|j: int| 0 <= j < before.len() && before[j] == q;
                    assert(now[j] == q);
                }
                if q == p && !before.contains(p) {
                    assert(now[now.len() - 1] == p);
                }
            }
            assert forall|q: Principal| t.contains(q) <==> (t0.contains(q) || q == p) by {
                if t.contains(q) {
                    let j = choose|j: int| 0 <= j < t.len() && t[j] == q;
                    if j < t0.len() {
                        assert(t0[j] == q);
                    }
                }
                if t0.contains(q) {
                    let j = choose|j: int| 0 <= j < t0.len() && t0[j] == q;
                    assert(t[j] == q);
                }
                if q == p {
                    assert(t[i as int] == p);
                }
            }
        }
        i = i + 1;
    }
    assert(principals_i_follow_chunk_vec@.take(principals_i_follow_chunk_vec@.len() as int)
        =~= principals_i_follow_chunk_vec@);
}

/// Number of items sent to the backup canister per call.
pub const BACKUP_CHUNK_SIZE: usize = 10;

/// Splits `0..len` into consecutive ranges `[start, end)`: every range but
/// the last holds exactly `chunk_size` items, the last holds between 1 and
/// `chunk_size`, and together they cover `0..len` in order.
pub fn chunk_ranges(len: usize, chunk_size: usize) -> (r: Vec<(usize, usize)>)
    requires
        chunk_size > 0,
    ensures
        len == 0 ==> r@.len() == 0,
        len > 0 ==> r@.len() > 0 && r@[0].0 == 0 && r@.last().1 == len,
        forall|i: int|
            0 <= i < r@.len() - 1 ==> (#[trigger] r@[i]).1 == r@[i + 1].0 && r@[i].1 - r@[i].0
                == chunk_size,
        forall|i: int|
            0 <= i < r@.len() ==> (#[trigger] r@[i]).0 < r@[i].1 && r@[i].1 <= r@[i].0 + chunk_size,
{
    let mut r: Vec<(usize, usize)> = Vec::new();
    let mut start: usize = 0;
    while start < len
        invariant
            chunk_size > 0,
            start <= len,
            r@.len() == 0 ==> start == 0,
            r@.len() > 0 ==> r@[0].0 == 0 && r@.last().1 == start,
            forall|i: int|
                0 <= i < r@.len() - 1 ==> (#[trigger] r@[i]).1 == r@[i + 1].0 && r@[i].1 - r@[i].0
                    == chunk_size,
            forall|i: int|
                0 <= i < r@.len() ==> (#[trigger] r@[i]).0 < r@[i].1 && r@[i].1 <= r@[i].0 + chunk_size,
            r@.len() > 0 && start < len ==> r@.last().1 - r@.last().0 == chunk_size,
        decreases len - start,
    {
        let end = if len - start > chunk_size {
            start + chunk_size
        } else {
            len
        };
        r.push((start, end));
        start = end;
    }
    r
}


/// Restores the profile, when the data backup canister sends it; any other
/// caller is ignored.
pub fn receive_my_profile_from_data_backup_canister(
    canister_data: &mut CanisterData,
    caller: Principal,
    profile: UserProfile,
)
    requires
        old(canister_data).wf(),
        old(canister_data).known_principal_ids.lookup(KnownPrincipalType::CanisterIdDataBackup) is Some,
    ensures
        Some(caller) != old(canister_data).known_principal_ids.lookup(
            KnownPrincipalType::CanisterIdDataBackup,
        ) ==> *final(canister_data) == *old(canister_data),
        Some(caller) == old(canister_data).known_principal_ids.lookup(
            KnownPrincipalType::CanisterIdDataBackup,
        ) ==> *final(canister_data) == (CanisterData { profile: profile, ..*old(canister_data) }),
{
    if !is_data_backup_canister(canister_data, caller) {
        return;
    }
    canister_data.profile = profile;
}

/// Label of the canister in its metrics: authenticated once it has an owner,
/// anonymous before.
pub fn metrics_canister_type(canister_data: &CanisterData) -> (r: String)
    ensures
        canister_data.profile.principal_id is Some ==> r@ == "authenticated"@,
        canister_data.profile.principal_id is None ==> r@ == "anonymous"@,
{
    match canister_data.profile.principal_id {
        Some(_) => String::from_str("authenticated"),
        None => String::from_str("anonymous"),
    }
}

/// The character of a decimal digit.
pub open spec fn digit_char(d: nat) -> char {
    if d == 0 {
        '0'
    } else if d == 1 {
        '1'
    } else if d == 2 {
        '2'
    } else if d == 3 {
        '3'
    } else if d == 4 {
        '4'
    } else if d == 5 {
        '5'
    } else if d == 6 {
        '6'
    } else if d == 7 {
        '7'
    } else if d == 8 {
        '8'
    } else {
        '9'
    }
}

/// The decimal digits of `n`, most significant first, without leading
/// zeros.
pub open spec fn decimal(n: nat) -> Seq<char>
    decreases n,
{
    if n < 10 {
        seq![digit_char(n)]
    } else {
        decimal(n / 10) + seq![digit_char(n % 10)]
    }
}

/// The value of a decimal digit character, and -1 for any other character.
pub open spec fn digit_value(c: char) -> int {
    if c == '0' {
        0
    } else if c == '1' {
        1
    } else if c == '2' {
        2
    } else if c == '3' {
        3
    } else if c == '4' {
        4
    } else if c == '5' {
        5
    } else if c == '6' {
        6
    } else if c == '7' {
        7
    } else if c == '8' {
        8
    } else if c == '9' {
        9
    } else {
        -1
    }
}

/// The number that a string of decimal digits writes, most significant
/// digit first.
pub open spec fn digits_value(s: Seq<char>) -> int
    decreases s.len(),
{
    if s.len() == 0 {
        0
    } else {
        digits_value(s.drop_last()) * 10 + digit_value(s.last())
    }
}

/// `decimal(n)` writes `n` in base ten: it is a non-empty string of decimal
/// digits whose value is `n`, with no leading zero.
pub proof fn lemma_decimal_writes_n(n: nat)
    ensures
        decimal(n).len() >= 1,
        forall|i: int| 0 <= i < decimal(n).len() ==> 0 <= #[trigger] digit_value(decimal(n)[i]) <= 9,
        digits_value(decimal(n)) == n,
        decimal(n).len() > 1 ==> decimal(n)[0] != '0',
    decreases n,
{
    reveal_with_fuel(digits_value, 2);
    let d = decimal(n);
    if n < 10 {
        assert(d.drop_last() =~= Seq::<char>::empty());
        assert(d.last() == digit_char(n));
        assert(digit_value(digit_char(n)) == n);
        assert(digits_value(d) == digits_value(d.drop_last()) * 10 + digit_value(d.last()));
    } else {
        lemma_decimal_writes_n(n / 10);
        let h = decimal(n / 10);
        assert(d.drop_last() =~= h);
        assert(d.last() == digit_char(n % 10));
        assert(digit_value(digit_char(n % 10)) == n % 10);
        assert(forall|i: int| 0 <= i < h.len() ==> d[i] == h[i]);
        assert(h.len() > 1 ==> h[0] != '0');
        assert(h.len() == 1 ==> n / 10 < 10) by {
            if h.len() == 1 && n / 10 >= 10 {
                assert(decimal(n / 10).len() == decimal(n / 10 / 10).len() + 1);
            }
        }
        assert((n / 10) * 10 + n % 10 == n);
        assert(digits_value(d) == digits_value(d.drop_last()) * 10 + digit_value(d.last()));
        assert(digits_value(d) == (n / 10) * 10 + n % 10);
    }
}

fn digit_str(d: u128) -> (s: &'static str)
    requires
        d < 10,
    ensures
        s@ == seq![digit_char(d as nat)],
{
    if d == 0 {
        proof {
            reveal_strlit("0");
        }
        "0"
    } else if d == 1 {
        proof {
            reveal_strlit("1");
        }
        "1"
    } else if d == 2 {
        proof {
            reveal_strlit("2");
        }
        "2"
    } else if d == 3 {
        proof {
            reveal_strlit("3");
        }
        "3"
    } else if d == 4 {
        proof {
            reveal_strlit("4");
        }
        "4"
    } else if d == 5 {
        proof {
            reveal_strlit("5");
        }
        "5"
    } else if d == 6 {
        proof {
            reveal_strlit("6");
        }
        "6"
    } else if d == 7 {
        proof {
            reveal_strlit("7");
        }
        "7"
    } else if d == 8 {
        proof {
            reveal_strlit("8");
        }
        "8"
    } else {
        proof {
            reveal_strlit("9");
        }
        "9"
    }
}

/// Appends the decimal digits of `n` to `s`.
fn push_decimal(s: &mut String, n: u128)
    ensures
        final(s)@ == old(s)@ + decimal(n as nat),
    decreases n,
{
    if n >= 10 {
        push_decimal(s, n / 10);
        s.append(digit_str(n % 10));
        proof {
            assert(final(s)@ =~= old(s)@ + decimal(n as nat));
        }
    } else {
        s.append(digit_str(n));
        proof {
            assert(final(s)@ =~= old(s)@ + decimal(n as nat));
        }
    }
}

/// The metrics of the canister in the Prometheus text format, one line per
/// measure, every line stamped with `ts` (milliseconds): the cycle balance,
/// the heap and stable memory sizes (labelled with the canister type), the
/// version, and the owner's principal.
pub open spec fn metrics_spec(
    canister_type: Seq<char>,
    cycle_balance: nat,
    heap_size: nat,
    stable_size: nat,
    version: nat,
    principal_text: Seq<char>,
    ts: nat,
) -> Seq<char> {
    "cycle_balance{type=\""@ + canister_type + "\"} "@ + decimal(cycle_balance) + " "@ + decimal(ts) + "\n"@
        + "heap_size{type=\""@ + canister_type + "\"} "@ + decimal(heap_size) + " "@ + decimal(ts) + "\n"@
        + "stable_size{type=\""@ + canister_type + "\"} "@ + decimal(stable_size) + " "@ + decimal(ts)
        + "\n"@ + "version "@ + decimal(version) + " "@ + decimal(ts) + "\n"@ + "profile{principal=\""@
        + principal_text + "\"} 1 "@ + decimal(ts)
}

/// Builds the metrics text at time `time_ns` (ns); the lines are stamped in
/// milliseconds.
pub fn metrics_text(
    canister_type: &str,
    cycle_balance: u128,
    heap_size: u64,
    stable_size: u64,
    version: u64,
    principal_text: &str,
    time_ns: u64,
) -> (r: String)
    ensures
        r@ == metrics_spec(
            canister_type@,
            cycle_balance as nat,
            heap_size as nat,
            stable_size as nat,
            version as nat,
            principal_text@,
            (time_ns / NANOS_PER_MILLI) as nat,
        ),
{
    let ts = (time_ns / NANOS_PER_MILLI) as u128;
    let mut r = String::new();
    r.append("cycle_balance{type=\"");
    r.append(canister_type);
    r.append("\"} ");
    push_decimal(&mut r, cycle_balance);
    r.append(" ");
    push_decimal(&mut r, ts);
    r.append("\n");
    r.append("heap_size{type=\"");
    r.append(canister_type);
    r.append("\"} ");
    push_decimal(&mut r, heap_size as u128);
    r.append(" ");
    push_decimal(&mut r, ts);
    r.append("\n");
    r.append("stable_size{type=\"");
    r.append(canister_type);
    r.append("\"} ");
    push_decimal(&mut r, stable_size as u128);
    r.append(" ");
    push_decimal(&mut r, ts);
    r.append("\n");
    r.append("version ");
    push_decimal(&mut r, version as u128);
    r.append(" ");
    push_decimal(&mut r, ts);
    r.append("\n");
    r.append("profile{principal=\"");
    r.append(principal_text);
    r.append("\"} 1 ");
    push_decimal(&mut r, ts);
    proof {
        assert(r@ =~= metrics_spec(
            canister_type@,
            cycle_balance as nat,
            heap_size as nat,
            stable_size as nat,
            version as nat,
            principal_text@,
            (time_ns / NANOS_PER_MILLI) as nat,
        ));
    }
    r
}

} // verus!
