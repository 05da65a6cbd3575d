//! Profiles this user follows and profiles that follow this user, each held
//! as a list of entries numbered in the order they were added.

use vstd::prelude::*;
use vstd::std_specs::cmp::PartialEqSpecImpl;

use crate::canister_data::{CanisterData, FollowData};
use crate::principal::{anonymous_spec, Principal};

verus! {

/// Most entries a follow list may hold before further requests are refused.
pub const MAX_USERS_IN_FOLLOWER_FOLLOWING_LIST: u64 = 10_000;

/// Number of entries returned by one page of followers.
pub const MAX_FOLLOW_ENTRIES_PER_PAGE: usize = 10;

/// Number given to an entry of a follow list.
pub type FollowEntryId = u64;

/// A followed or following profile: its owner and its canister.
#[derive(Clone, Copy, Debug)]
pub struct FollowEntryDetail {
    pub principal_id: Principal,
    pub canister_id: Principal,
}

impl PartialEq for FollowEntryDetail {
    fn eq(&self, other: &Self) -> (r: bool) {
        self.principal_id == other.principal_id && self.canister_id == other.canister_id
    }
}

impl PartialEqSpecImpl for FollowEntryDetail {
    open spec fn obeys_eq_spec() -> bool {
        true
    }

    open spec fn eq_spec(&self, other: &Self) -> bool {
        *self == *other
    }
}

impl Eq for FollowEntryDetail {
}

/// Argument naming a profile to follow or unfollow.
#[derive(Clone, Copy, Debug)]
pub struct FolloweeArg {
    pub followee_principal_id: Principal,
    pub followee_canister_id: Principal,
}

/// Argument sent to a followee's canister: who is following it.
#[derive(Clone, Copy, Debug)]
pub struct FollowerArg {
    pub follower_principal_id: Principal,
    pub follower_canister_id: Principal,
}

/// Ids that grow strictly along the sequence.
pub open spec fn ids_increasing(s: Seq<(u64, FollowEntryDetail)>) -> bool {
    forall|i: int, j: int| 0 <= i < j < s.len() ==> #[trigger] s[i].0 < #[trigger] s[j].0
}

/// No profile occurs twice.
pub open spec fn details_distinct(s: Seq<(u64, FollowEntryDetail)>) -> bool {
    forall|i: int, j: int| 0 <= i < s.len() && 0 <= j < s.len() && i != j ==> #[trigger] s[i].1 != #[trigger] s[j].1
}

/// Whether some entry holds `d`.
pub open spec fn seq_has_detail(s: Seq<(u64, FollowEntryDetail)>, d: FollowEntryDetail) -> bool {
    exists|i: int| 0 <= i < s.len() && #[trigger] s[i].1 == d
}

/// The id that the next added entry receives: one more than the last id, or
/// 0 for an empty list.
pub open spec fn next_follow_id(s: Seq<(u64, FollowEntryDetail)>) -> int {
    if s.len() == 0 {
        0
    } else {
        s.last().0 + 1
    }
}

/// Number of entries whose id is at most `bound`.
pub open spec fn count_ids_at_most(s: Seq<(u64, FollowEntryDetail)>, bound: u64) -> nat
    decreases s.len(),
{
    if s.len() == 0 {
        0
    } else {
        count_ids_at_most(s.drop_last(), bound) + if s.last().0 <= bound {
            1nat
        } else {
            0nat
        }
    }
}

/// The entries with id at most `bound`, newest (largest id) first, at most
/// `limit` of them.
pub open spec fn follow_page(s: Seq<(u64, FollowEntryDetail)>, bound: u64, limit: nat) -> Seq<
    (u64, FollowEntryDetail),
> {
    let k = count_ids_at_most(s, bound);
    let n = if limit < k {
        limit
    } else {
        k
    };
    Seq::new(n, |i: int| s[k - 1 - i])
}

/// When the ids at most `bound` are exactly those before position `j`, `j`
/// is their number.
pub proof fn lemma_count_ids_partition(s: Seq<(u64, FollowEntryDetail)>, bound: u64, j: int)
    requires
        0 <= j <= s.len(),
        forall|i: int| 0 <= i < j ==> #[trigger] s[i].0 <= bound,
        forall|i: int| j <= i < s.len() ==> #[trigger] s[i].0 > bound,
    ensures
        count_ids_at_most(s, bound) == j,
    decreases s.len(),
{
    if s.len() > 0 {
        let t = s.drop_last();
        if j == s.len() {
            assert forall|i: int| 0 <= i < j - 1 implies #[trigger] t[i].0 <= bound by {
                assert(s[i].0 <= bound);
            }
            lemma_count_ids_partition(t, bound, j - 1);
            assert(s[s.len() - 1].0 <= bound);
        } else {
            assert forall|i: int| 0 <= i < j implies #[trigger] t[i].0 <= bound by {
                assert(s[i].0 <= bound);
            }
            assert forall|i: int| j <= i < t.len() implies #[trigger] t[i].0 > bound by {
                assert(s[i].0 > bound);
            }
            lemma_count_ids_partition(t, bound, j);
            assert(s[s.len() - 1].0 > bound);
        }
    }
}

/// Position of the entry holding `d`.
pub open spec fn index_of_detail(s: Seq<(u64, FollowEntryDetail)>, d: FollowEntryDetail) -> int {
    choose|i: int| 0 <= i < s.len() && #[trigger] s[i].1 == d
}

/// The list after adding `d`: unchanged if `d` is there, else `d` appended
/// under the next id.
pub open spec fn follow_add_spec(s: Seq<(u64, FollowEntryDetail)>, d: FollowEntryDetail) -> Seq<
    (u64, FollowEntryDetail),
> {
    if seq_has_detail(s, d) {
        s
    } else {
        s.push((next_follow_id(s) as u64, d))
    }
}

/// The list after removing `d`: its entry taken out, or unchanged if absent.
pub open spec fn follow_remove_spec(s: Seq<(u64, FollowEntryDetail)>, d: FollowEntryDetail) -> Seq<
    (u64, FollowEntryDetail),
> {
    if seq_has_detail(s, d) {
        s.remove(index_of_detail(s, d))
    } else {
        s
    }
}

/// The list after toggling `d`: removed if present, added otherwise.
pub open spec fn follow_toggle_spec(s: Seq<(u64, FollowEntryDetail)>, d: FollowEntryDetail) -> Seq<
    (u64, FollowEntryDetail),
> {
    if seq_has_detail(s, d) {
        follow_remove_spec(s, d)
    } else {
        follow_add_spec(s, d)
    }
}

/// In a list without repeated profiles, the entry holding `d` is the only
/// one.
pub proof fn lemma_index_of_detail(s: Seq<(u64, FollowEntryDetail)>, d: FollowEntryDetail)
    requires
        details_distinct(s),
    ensures
        seq_has_detail(s, d) ==> 0 <= index_of_detail(s, d) < s.len() && s[index_of_detail(s, d)].1
            == d,
        forall|i: int| 0 <= i < s.len() && #[trigger] s[i].1 == d ==> i == index_of_detail(s, d),
{
    if seq_has_detail(s, d) {
        let k = index_of_detail(s, d);
        assert forall|i: int| 0 <= i < s.len() && #[trigger] s[i].1 == d implies i == k by {
            if i != k {
                assert(s[i].1 != s[k].1);
            }
        }
    }
}

/// One toggle flips whether `d` is followed and nothing else: an absent
/// profile is appended under an id above every id in the list, a present one
/// is taken out with its entry, and the list stays valid (ids growing, no
/// profile twice) whenever an id is free for an addition.
pub proof fn lemma_follow_toggle_once(s: Seq<(u64, FollowEntryDetail)>, d: FollowEntryDetail)
    requires
        ids_increasing(s),
        details_distinct(s),
        !seq_has_detail(s, d) ==> next_follow_id(s) <= u64::MAX,
    ensures
        seq_has_detail(follow_toggle_spec(s, d), d) == !seq_has_detail(s, d),
        forall|x: FollowEntryDetail| x != d ==> seq_has_detail(follow_toggle_spec(s, d), x) == seq_has_detail(s, x),
        ids_increasing(follow_toggle_spec(s, d)),
        details_distinct(follow_toggle_spec(s, d)),
        !seq_has_detail(s, d) ==> follow_toggle_spec(s, d).len() == s.len() + 1 && follow_toggle_spec(s, d).last().1 == d
            && (forall|i: int| 0 <= i < s.len() ==> #[trigger] s[i].0 < follow_toggle_spec(s, d).last().0)
            && follow_toggle_spec(s, d).drop_last() == s,
        seq_has_detail(s, d) ==> follow_toggle_spec(s, d).len() == s.len() - 1,
{
    lemma_index_of_detail(s, d);
    let r = follow_toggle_spec(s, d);
    if seq_has_detail(s, d) {
        let k = index_of_detail(s, d);
        assert(r == s.remove(k));
        assert(!seq_has_detail(r, d)) by {
            if seq_has_detail(r, d) {
                let j = choose|j: int| 0 <= j < r.len() && #[trigger] r[j].1 == d;
                let j2 = if j < k { j } else { j + 1 };
                assert(s[j2] == r[j]);
            }
        }
        assert forall|x: FollowEntryDetail| x != d implies seq_has_detail(r, x) == seq_has_detail(s, x) by {
            if seq_has_detail(s, x) {
                let j = choose|j: int| 0 <= j < s.len() && #[trigger] s[j].1 == x;
                assert(j != k);
                let j2 = if j < k { j } else { j - 1 };
                assert(r[j2] == s[j]);
            }
            if seq_has_detail(r, x) {
                let j = choose|j: int| 0 <= j < r.len() && #[trigger] r[j].1 == x;
                let j2 = if j < k { j } else { j + 1 };
                assert(s[j2] == r[j]);
            }
        }
        assert forall|a: int, b: int| 0 <= a < b < r.len() implies #[trigger] r[a].0 < #[trigger] r[b].0 by {
            let a2 = if a < k { a } else { a + 1 };
            let b2 = if b < k { b } else { b + 1 };
            assert(r[a] == s[a2]);
            assert(r[b] == s[b2]);
        }
        assert forall|a: int, b: int| 0 <= a < r.len() && 0 <= b < r.len() && a != b implies #[trigger] r[a].1
            != #[trigger] r[b].1 by {
            let a2 = if a < k { a } else { a + 1 };
            let b2 = if b < k { b } else { b + 1 };
            assert(r[a] == s[a2]);
            assert(r[b] == s[b2]);
        }
    } else {
        assert(r[r.len() - 1].1 == d);
        assert(r.drop_last() =~= s);
        assert forall|i: int| 0 <= i < s.len() implies #[trigger] s[i].0 < r.last().0 by {
            if i < s.len() - 1 {
                assert(s[i].0 < s[s.len() - 1].0);
            }
        }
        assert forall|x: FollowEntryDetail| x != d implies seq_has_detail(r, x) == seq_has_detail(s, x) by {
            if seq_has_detail(s, x) {
                let j = choose|j: int| 0 <= j < s.len() && #[trigger] s[j].1 == x;
                assert(r[j] == s[j]);
            }
            if seq_has_detail(r, x) {
                let j = choose|j: int| 0 <= j < r.len() && #[trigger] r[j].1 == x;
                assert(j < s.len());
                assert(s[j] == r[j]);
            }
        }
        assert forall|a: int, b: int| 0 <= a < b < r.len() implies #[trigger] r[a].0 < #[trigger] r[b].0 by {
            if b == r.len() - 1 {
                assert(r[a] == s[a]);
                if a < s.len() - 1 {
                    assert(s[a].0 < s[s.len() - 1].0);
                }
            } else {
                assert(r[a] == s[a]);
                assert(r[b] == s[b]);
            }
        }
        assert forall|a: int, b: int| 0 <= a < r.len() && 0 <= b < r.len() && a != b implies #[trigger] r[a].1
            != #[trigger] r[b].1 by {
            if a == r.len() - 1 {
                assert(r[b] == s[b]);
            } else if b == r.len() - 1 {
                assert(r[a] == s[a]);
            } else {
                assert(r[a] == s[a]);
                assert(r[b] == s[b]);
            }
        }
    }
}

/// Following a profile that is not in the list and then unfollowing it gives
/// back the list exactly as it was.
pub proof fn lemma_follow_add_then_remove(s: Seq<(u64, FollowEntryDetail)>, d: FollowEntryDetail)
    requires
        ids_increasing(s),
        details_distinct(s),
        !seq_has_detail(s, d),
    ensures
        follow_remove_spec(follow_add_spec(s, d), d) == s,
{
    lemma_follow_toggle_twice(s, d);
    let u = follow_add_spec(s, d);
    assert(u[u.len() - 1].1 == d);
    assert(seq_has_detail(u, d));
}

/// Toggling a profile twice leaves the same profiles in the list; when the
/// profile was absent, the list is exactly as before.
pub proof fn lemma_follow_toggle_twice(s: Seq<(u64, FollowEntryDetail)>, d: FollowEntryDetail)
    requires
        ids_increasing(s),
        details_distinct(s),
    ensures
        forall|x: FollowEntryDetail|
            seq_has_detail(follow_toggle_spec(follow_toggle_spec(s, d), d), x) == seq_has_detail(s, x),
        !seq_has_detail(s, d) ==> follow_toggle_spec(follow_toggle_spec(s, d), d) == s,
{
    lemma_index_of_detail(s, d);
    if seq_has_detail(s, d) {
        let k = index_of_detail(s, d);
        let t = s.remove(k);
        assert(!seq_has_detail(t, d)) by {
            if seq_has_detail(t, d) {
                let j = choose|j: int| 0 <= j < t.len() && #[trigger] t[j].1 == d;
                let j2 = if j < k { j } else { j + 1 };
                assert(s[j2] == t[j]);
            }
        }
        let u = t.push((next_follow_id(t) as u64, d));
        assert(follow_toggle_spec(t, d) == u);
        assert forall|x: FollowEntryDetail| seq_has_detail(u, x) == seq_has_detail(s, x) by {
            if x == d {
                assert(u[u.len() - 1].1 == d);
            } else {
                if seq_has_detail(s, x) {
                    let j = choose|j: int| 0 <= j < s.len() && #[trigger] s[j].1 == x;
                    assert(j != k);
                    let j2 = if j < k { j } else { j - 1 };
                    assert(t[j2] == s[j]);
                    assert(u[j2] == t[j2]);
                }
                if seq_has_detail(u, x) {
                    let j = choose|j: int| 0 <= j < u.len() && #[trigger] u[j].1 == x;
                    assert(j < t.len());
                    assert(u[j] == t[j]);
                    let j2 = if j < k { j } else { j + 1 };
                    assert(s[j2] == t[j]);
                }
            }
        }
    } else {
        let t = s.push((next_follow_id(s) as u64, d));
        assert(t[s.len() as int].1 == d);
        assert(seq_has_detail(t, d));
        assert(details_distinct(t)) by {
            assert forall|i: int, j: int|
                0 <= i < t.len() && 0 <= j < t.len() && i != j implies #[trigger] t[i].1
                != #[trigger] t[j].1 by {
                if i < s.len() && j < s.len() {
                    assert(t[i] == s[i] && t[j] == s[j]);
                } else if i < s.len() {
                    assert(t[i] == s[i]);
                } else {
                    assert(t[j] == s[j]);
                }
            }
        }
        lemma_index_of_detail(t, d);
        assert(index_of_detail(t, d) == s.len());
        assert(t.remove(s.len() as int) =~= s);
    }
}

/// In a list ordered by id, the entries with id at most `bound` are exactly
/// the first `count_ids_at_most(s, bound)`.
pub proof fn lemma_count_ids_sorted(s: Seq<(u64, FollowEntryDetail)>, bound: u64)
    requires
        ids_increasing(s),
    ensures
        count_ids_at_most(s, bound) <= s.len(),
        forall|t: int| 0 <= t < count_ids_at_most(s, bound) ==> #[trigger] s[t].0 <= bound,
        forall|t: int| count_ids_at_most(s, bound) <= t < s.len() ==> #[trigger] s[t].0 > bound,
    decreases s.len(),
{
    if s.len() > 0 {
        let t = s.drop_last();
        assert forall|i: int, j: int| 0 <= i < j < t.len() implies #[trigger] t[i].0 < #[trigger] t[j].0 by {
            assert(t[i] == s[i] && t[j] == s[j]);
        }
        lemma_count_ids_sorted(t, bound);
        let last = s.len() - 1;
        if s[last].0 <= bound {
            assert forall|i: int| 0 <= i < last implies #[trigger] s[i].0 <= bound by {
                assert(s[i].0 < s[last].0);
            }
            lemma_count_ids_partition(s, bound, s.len() as int);
        } else {
            assert forall|i: int| 0 <= i < count_ids_at_most(t, bound) implies #[trigger] s[i].0 <= bound by {
                assert(t[i] == s[i]);
            }
            assert forall|i: int| count_ids_at_most(t, bound) <= i < s.len() implies #[trigger] s[i].0 > bound by {
                if i < last {
                    assert(t[i] == s[i]);
                }
            }
            lemma_count_ids_partition(s, bound, count_ids_at_most(t, bound) as int);
        }
    }
}

/// A page of followers lists entries numbered at most the bound, newest
/// first, and skips none: every entry at most the bound that is left out is
/// older than every entry shown, and a page is short only when no older
/// entry remains.
pub proof fn lemma_follow_page_is_newest_first(s: Seq<(u64, FollowEntryDetail)>, bound: u64, limit: nat)
    requires
        ids_increasing(s),
    ensures
        follow_page(s, bound, limit).len() <= limit,
        forall|i: int|
            0 <= i < follow_page(s, bound, limit).len() ==> (#[trigger] follow_page(s, bound, limit)[i]).0
                <= bound && s.contains(follow_page(s, bound, limit)[i]),
        forall|i: int, j: int|
            0 <= i < j < follow_page(s, bound, limit).len() ==> (#[trigger] follow_page(
                s,
                bound,
                limit,
            )[i]).0 > (#[trigger] follow_page(s, bound, limit)[j]).0,
        forall|e: (u64, FollowEntryDetail)|
            s.contains(e) && e.0 <= bound && !follow_page(s, bound, limit).contains(e) ==> forall|i: int|
                0 <= i < follow_page(s, bound, limit).len() ==> e.0 < (#[trigger] follow_page(
                    s,
                    bound,
                    limit,
                )[i]).0,
        follow_page(s, bound, limit).len() < limit ==> forall|e: (u64, FollowEntryDetail)|
            s.contains(e) && e.0 <= bound ==> follow_page(s, bound, limit).contains(e),
{
    lemma_count_ids_sorted(s, bound);
    let k = count_ids_at_most(s, bound) as int;
    let page = follow_page(s, bound, limit);
    let n = page.len();
    assert forall|i: int| 0 <= i < n implies (#[trigger] page[i]).0 <= bound && s.contains(page[i]) by {
        assert(page[i] == s[k - 1 - i]);
    }
    assert forall|e: (u64, FollowEntryDetail)|
        s.contains(e) && e.0 <= bound && !page.contains(e) implies forall|i: int|
        0 <= i < n ==> e.0 < (#[trigger] page[i]).0 by {
        let j = choose|j: int| 0 <= j < s.len() && s[j] == e;
        assert(j < k);
        if j >= k - n {
            assert(page[k - 1 - j] == e);
        }
        assert forall|i: int| 0 <= i < n implies e.0 < (#[trigger] page[i]).0 by {
            assert(page[i] == s[k - 1 - i]);
        }
    }
    if n < limit {
        assert forall|e: (u64, FollowEntryDetail)| s.contains(e) && e.0 <= bound implies page.contains(e) by {
            let j = choose|j: int| 0 <= j < s.len() && s[j] == e;
            assert(j < k);
            assert(page[k - 1 - j] == e);
        }
    }
}

/// A list of followed or following profiles. Each entry gets the next id
/// when it is added, so the entries stay ordered by id.
#[derive(Debug)]
pub struct FollowList {
    pub entries: Vec<(FollowEntryId, FollowEntryDetail)>,
}

impl View for FollowList {
    type V = Seq<(u64, FollowEntryDetail)>;

    open spec fn view(&self) -> Seq<(u64, FollowEntryDetail)> {
        self.entries@
    }
}

impl FollowList {
    /// Ids increase along the list and no profile occurs twice.
    pub open spec fn wf(&self) -> bool {
        ids_increasing(self@) && details_distinct(self@)
    }

    /// Whether the list holds `d`.
    pub open spec fn has(&self, d: FollowEntryDetail) -> bool {
        seq_has_detail(self@, d)
    }

    /// An id is still free for the next entry.
    pub open spec fn can_add(&self) -> bool {
        next_follow_id(self@) <= u64::MAX
    }

    pub fn new() -> (l: FollowList)
        ensures
            l@ == Seq::<(u64, FollowEntryDetail)>::empty(),
            l.wf(),
    {
        FollowList { entries: Vec::new() }
    }

    pub fn len(&self) -> (n: usize)
        ensures
            n == self@.len(),
    {
        self.entries.len()
    }

    pub fn contains(&self, d: &FollowEntryDetail) -> (r: bool)
        ensures
            r == self.has(*d),
    {
        let mut i: usize = 0;
        while i < self.entries.len()
            invariant
                i <= self@.len(),
                forall|t: int| 0 <= t < i ==> self@[t].1 != *d,
            decreases self@.len() - i,
        {
            if self.entries[i].1 == *d {
                return true;
            }
            i = i + 1;
        }
        false
    }

    /// Rebuilds a list from stored entries: `None` unless the ids grow
    /// strictly and no profile occurs twice.
    pub fn from_entries(entries: Vec<(FollowEntryId, FollowEntryDetail)>) -> (r: Option<FollowList>)
        ensures
            r is Some <==> ids_increasing(entries@) && details_distinct(entries@),
            r matches Some(l) ==> l@ == entries@,
    {
        let mut l = FollowList::new();
        let mut i: usize = 0;
        while i < entries.len()
            invariant
                i <= entries@.len(),
                l.wf(),
                l@ == entries@.take(i as int),
            decreases entries@.len() - i,
        {
            let e = entries[i];
            if i > 0 && e.0 <= entries[i - 1].0 {
                assert(!(entries@[i - 1].0 < entries@[i as int].0));
                return None;
            }
            if l.contains(&e.1) {
                proof {
                    let t = choose|t: int| 0 <= t < l@.len() && #[trigger] l@[t].1 == e.1;
                    assert(entries@[t].1 == entries@[i as int].1);
                }
                return None;
            }
            let ghost before = l@;
            l.entries.push(e);
            proof {
                assert(l@ =~= entries@.take(i + 1));
                let s = l@;
                assert forall|a: int, b: int| 0 <= a < b < s.len() implies #[trigger] s[a].0
                    < #[trigger] s[b].0 by {
                    if b == s.len() - 1 && a < b - 1 {
                        assert(before[a].0 < before[b - 1].0);
                    }
                }
                assert forall|a: int, b: int|
                    0 <= a < s.len() && 0 <= b < s.len() && a != b implies #[trigger] s[a].1
                    != #[trigger] s[b].1 by {
                    if a == s.len() - 1 {
                        assert(before[b].1 != e.1);
                    } else if b == s.len() - 1 {
                        assert(before[a].1 != e.1);
                    }
                }
            }
            i = i + 1;
        }
        assert(entries@.take(entries@.len() as int) =~= entries@);
        Some(l)
    }

    /// Adds `d` under the next id unless it is already there.
    pub fn add(&mut self, d: FollowEntryDetail)
        requires
            old(self).wf(),
            !old(self).has(d) ==> old(self).can_add(),
        ensures
            final(self).wf(),
            old(self).has(d) ==> final(self)@ == old(self)@,
            !old(self).has(d) ==> final(self)@ == old(self)@.push(
                (next_follow_id(old(self)@) as u64, d),
            ),
            final(self)@ == follow_add_spec(old(self)@, d),
    {
        if self.contains(&d) {
            return;
        }
        let n = self.entries.len();
        let id: u64 = if n == 0 {
            0
        } else {
            self.entries[n - 1].0 + 1
        };
        self.entries.push((id, d));
        proof {
            let ghost s = self@;
            assert forall|i: int, j: int| 0 <= i < j < s.len() implies #[trigger] s[i].0
                < #[trigger] s[j].0 by {
                if j == s.len() - 1 && i < j {
                    if i < s.len() - 2 {
                        assert(old(self)@[i].0 < old(self)@[s.len() - 2].0);
                    }
                }
            }
        }
    }

    /// Removes the entry holding `d`, if there is one.
    pub fn remove(&mut self, d: &FollowEntryDetail)
        requires
            old(self).wf(),
        ensures
            final(self).wf(),
            !final(self).has(*d),
            !old(self).has(*d) ==> final(self)@ == old(self)@,
            forall|i: int|
                0 <= i < old(self)@.len() && #[trigger] old(self)@[i].1 == *d ==> final(self)@
                    == old(self)@.remove(i),
            final(self)@ == follow_remove_spec(old(self)@, *d),
    {
        proof {
            lemma_index_of_detail(old(self)@, *d);
        }
        let mut i: usize = 0;
        while i < self.entries.len()
            invariant
                i <= self@.len(),
                self@ == old(self)@,
                old(self).wf(),
                forall|t: int| 0 <= t < i ==> self@[t].1 != *d,
            decreases self@.len() - i,
        {
            if self.entries[i].1 == *d {
                self.entries.remove(i);
                proof {
                    let s = old(self)@;
                    let r = self@;
                    assert(r =~= s.remove(i as int));
                    assert forall|a: int, b: int| 0 <= a < b < r.len() implies #[trigger] r[a].0
                        < #[trigger] r[b].0 by {
                        let a2 = if a < i { a } else { a + 1 };
                        let b2 = if b < i { b } else { b + 1 };
                        assert(r[a] == s[a2]);
                        assert(r[b] == s[b2]);
                    }
                    assert forall|a: int, b: int|
                        0 <= a < r.len() && 0 <= b < r.len() && a != b implies #[trigger] r[a].1
                        != #[trigger] r[b].1 by {
                        let a2 = if a < i { a } else { a + 1 };
                        let b2 = if b < i { b } else { b + 1 };
                        assert(r[a] == s[a2]);
                        assert(r[b] == s[b2]);
                    }
                    assert forall|t: int| 0 <= t < r.len() implies #[trigger] r[t].1 != *d by {
                        let t2 = if t < i { t } else { t + 1 };
                        assert(r[t] == s[t2]);
                    }
                    assert forall|t: int|
                        0 <= t < s.len() && #[trigger] s[t].1 == *d implies t == i by {
                        if t != i {
                            assert(s[t].1 != s[i as int].1);
                        }
                    }
                }
                return;
            }
            i = i + 1;
        }
    }

    /// Largest id in the list, or 0 when it is empty.
    pub fn last_id(&self) -> (r: u64)
        ensures
            self@.len() == 0 ==> r == 0,
            self@.len() > 0 ==> r == self@.last().0,
    {
        let n = self.entries.len();
        if n == 0 {
            0
        } else {
            self.entries[n - 1].0
        }
    }

    /// The entries with id at most `bound`, largest id first, at most
    /// `limit` of them.
    pub fn page_up_to(&self, bound: u64, limit: usize) -> (r: Vec<(FollowEntryId, FollowEntryDetail)>)
        requires
            self.wf(),
        ensures
            r@ == follow_page(self@, bound, limit as nat),
    {
        let ghost s = self@;
        let n = self.entries.len();
        let mut k: usize = 0;
        while k < n
            invariant
                k <= n,
                n == s.len(),
                s == self@,
                forall|t: int| 0 <= t < k ==> #[trigger] s[t].0 <= bound,
            ensures
                k <= n,
                forall|t: int| 0 <= t < k ==> #[trigger] s[t].0 <= bound,
                k == n || s[k as int].0 > bound,
            decreases n - k,
        {
            if self.entries[k].0 > bound {
                break;
            }
            k = k + 1;
        }
        proof {
            assert forall|t: int| k <= t < s.len() implies #[trigger] s[t].0 > bound by {
                if t > k {
                    assert(s[k as int].0 < s[t].0);
                }
            }
            lemma_count_ids_partition(s, bound, k as int);
        }
        let take = if limit < k {
            limit
        } else {
            k
        };
        let mut r: Vec<(FollowEntryId, FollowEntryDetail)> = Vec::new();
        let mut j: usize = 0;
        while j < take
            invariant
                j <= take,
                take <= k,
                k <= n,
                n == s.len(),
                s == self@,
                r@.len() == j,
                forall|t: int| 0 <= t < j ==> r@[t] == s[k - 1 - t],
            decreases take - j,
        {
            r.push(self.entries[k - 1 - j]);
            j = j + 1;
        }
        assert(r@ =~= follow_page(s, bound, limit as nat));
        r
    }
}


/// Errors of following or unfollowing a profile.
#[derive(Clone, Copy, Debug, PartialEq, Eq, Structural)]
pub enum FollowAnotherUserProfileError {
    Unauthenticated,
    Unauthorized,
    UsersICanFollowListIsFull,
    UserITriedToFollowCrossCanisterCallFailed,
    UserITriedToFollowHasTheirFollowersListFull,
}

/// Errors of reading a page of followers.
#[derive(Clone, Copy, Debug, PartialEq, Eq, Structural)]
pub enum GetFollowerOrFollowingPageError {
    Unauthenticated,
    Unauthorized,
}

/// The profile stored under `arg`.
pub open spec fn followee_entry(arg: FolloweeArg) -> FollowEntryDetail {
    FollowEntryDetail { principal_id: arg.followee_principal_id, canister_id: arg.followee_canister_id }
}

/// The profile stored under `arg`.
pub open spec fn follower_entry(arg: FollowerArg) -> FollowEntryDetail {
    FollowEntryDetail { principal_id: arg.follower_principal_id, canister_id: arg.follower_canister_id }
}

/// A request of the owner can be told from others: the caller is anonymous
/// or the owner is known.
pub open spec fn owner_check_defined(canister_data: &CanisterData, caller: Principal) -> bool {
    caller == anonymous_spec() || canister_data.profile.principal_id is Some
}

/// Whether the owner follows the profile `arg`. The anonymous caller is
/// unauthenticated; any caller other than the owner is unauthorized.
pub fn do_i_follow_this_user_impl(
    canister_data: &CanisterData,
    arg: &FolloweeArg,
    current_caller: &Principal,
) -> (r: Result<bool, FollowAnotherUserProfileError>)
    requires
        owner_check_defined(canister_data, *current_caller),
    ensures
        *current_caller == anonymous_spec() ==> r == Err::<bool, FollowAnotherUserProfileError>(
            FollowAnotherUserProfileError::Unauthenticated,
        ),
        *current_caller != anonymous_spec() && canister_data.profile.principal_id != Some(
            *current_caller,
        ) ==> r == Err::<bool, FollowAnotherUserProfileError>(
            FollowAnotherUserProfileError::Unauthorized,
        ),
        *current_caller != anonymous_spec() && canister_data.profile.principal_id == Some(
            *current_caller,
        ) ==> r == Ok::<bool, FollowAnotherUserProfileError>(
            canister_data.follow_data.following.has(followee_entry(*arg)),
        ),
{
    if current_caller.is_anonymous() {
        return Err(FollowAnotherUserProfileError::Unauthenticated);
    }
    let my_principal_id = canister_data.profile.principal_id.unwrap();
    if my_principal_id != *current_caller {
        return Err(FollowAnotherUserProfileError::Unauthorized);
    }
    let follow_entry_detail = FollowEntryDetail {
        principal_id: arg.followee_principal_id,
        canister_id: arg.followee_canister_id,
    };
    Ok(canister_data.follow_data.following.contains(&follow_entry_detail))
}

/// Checks a follow request of the owner: the anonymous caller is
/// unauthenticated, a caller other than `my_principal_id` unauthorized, and
/// a following list longer than the limit is full.
pub fn validate_incoming_request(
    canister_data: &CanisterData,
    current_caller: &Principal,
    my_principal_id: &Principal,
) -> (r: Result<(), FollowAnotherUserProfileError>)
    ensures
        *current_caller == anonymous_spec() ==> r == Err::<(), FollowAnotherUserProfileError>(
            FollowAnotherUserProfileError::Unauthenticated,
        ),
        *current_caller != anonymous_spec() && *my_principal_id != *current_caller ==> r == Err::<
            (),
            FollowAnotherUserProfileError,
        >(FollowAnotherUserProfileError::Unauthorized),
        *current_caller != anonymous_spec() && *my_principal_id == *current_caller
            && canister_data.follow_data.following@.len() > MAX_USERS_IN_FOLLOWER_FOLLOWING_LIST
            ==> r == Err::<(), FollowAnotherUserProfileError>(
            FollowAnotherUserProfileError::UsersICanFollowListIsFull,
        ),
        *current_caller != anonymous_spec() && *my_principal_id == *current_caller
            && canister_data.follow_data.following@.len() <= MAX_USERS_IN_FOLLOWER_FOLLOWING_LIST
            ==> r == Ok::<(), FollowAnotherUserProfileError>(()),
{
    if current_caller.is_anonymous() {
        return Err(FollowAnotherUserProfileError::Unauthenticated);
    }
    if *my_principal_id != *current_caller {
        return Err(FollowAnotherUserProfileError::Unauthorized);
    }
    if canister_data.follow_data.following.len() as u64 > MAX_USERS_IN_FOLLOWER_FOLLOWING_LIST {
        return Err(FollowAnotherUserProfileError::UsersICanFollowListIsFull);
    }
    Ok(())
}

/// After the followee answered, adds it to the following list when the
/// answer is "now following" and removes it otherwise.
pub fn add_or_remove_followee_depending_on_follow_status(
    canister_data: &mut CanisterData,
    follow_status: &bool,
    followee_entry_detail: &FollowEntryDetail,
) -> (r: Result<(), FollowAnotherUserProfileError>)
    requires
        old(canister_data).wf(),
        *follow_status && !old(canister_data).follow_data.following.has(*followee_entry_detail)
            ==> old(canister_data).follow_data.following.can_add(),
    ensures
        final(canister_data).wf(),
        r == Ok::<(), FollowAnotherUserProfileError>(()),
        *follow_status ==> final(canister_data).follow_data.following.has(*followee_entry_detail),
        !*follow_status ==> !final(canister_data).follow_data.following.has(*followee_entry_detail),
        *follow_status && old(canister_data).follow_data.following.has(*followee_entry_detail)
            ==> final(canister_data).follow_data.following@ == old(canister_data).follow_data.following@,
        *follow_status && !old(canister_data).follow_data.following.has(*followee_entry_detail)
            ==> final(canister_data).follow_data.following@ == old(canister_data).follow_data.following@.push(
            (next_follow_id(old(canister_data).follow_data.following@) as u64, *followee_entry_detail),
        ),
        !*follow_status && !old(canister_data).follow_data.following.has(*followee_entry_detail)
            ==> final(canister_data).follow_data.following@ == old(canister_data).follow_data.following@,
        forall|i: int|
            !*follow_status && 0 <= i < old(canister_data).follow_data.following@.len() && (#[trigger] old(canister_data).follow_data.following@[i]).1 == *followee_entry_detail ==> final(canister_data).follow_data.following@ == old(canister_data).follow_data.following@.remove(i),
        final(canister_data).follow_data.follower@ == old(canister_data).follow_data.follower@,
        final(canister_data).follow_data.following@ == if *follow_status {
            follow_add_spec(old(canister_data).follow_data.following@, *followee_entry_detail)
        } else {
            follow_remove_spec(old(canister_data).follow_data.following@, *followee_entry_detail)
        },
        *final(canister_data) == (CanisterData {
            follow_data: FollowData {
                following: final(canister_data).follow_data.following,
                ..old(canister_data).follow_data
            },
            ..*old(canister_data)
        }),
{
    if *follow_status {
        canister_data.follow_data.following.add(*followee_entry_detail);
        proof {
            if !old(canister_data).follow_data.following.has(*followee_entry_detail) {
                let s = canister_data.follow_data.following@;
                assert(s[s.len() - 1].1 == *followee_entry_detail);
            }
        }
    } else {
        canister_data.follow_data.following.remove(followee_entry_detail);
    }
    Ok(())
}

/// Handles a followee-side request from `calling_canister_principal`: only
/// the follower's own canister may ask; a full follower list refuses; the
/// follower is then added (answer `true`) or, if present, removed (answer
/// `false`).
pub fn update_profiles_that_follow_me_toggle_list_with_specified_profile_impl(
    canister_data: &mut CanisterData,
    calling_canister_principal: &Principal,
    arg: &FollowerArg,
) -> (r: Result<bool, FollowAnotherUserProfileError>)
    requires
        old(canister_data).wf(),
        !old(canister_data).follow_data.follower.has(follower_entry(*arg)) ==> old(canister_data).follow_data.follower.can_add(),
    ensures
        final(canister_data).wf(),
        final(canister_data).follow_data.following@ == old(canister_data).follow_data.following@,
        *calling_canister_principal != arg.follower_canister_id ==> r == Err::<
            bool,
            FollowAnotherUserProfileError,
        >(FollowAnotherUserProfileError::Unauthorized),
        *calling_canister_principal == arg.follower_canister_id
            && old(canister_data).follow_data.follower@.len() > MAX_USERS_IN_FOLLOWER_FOLLOWING_LIST
            ==> r == Err::<bool, FollowAnotherUserProfileError>(
            FollowAnotherUserProfileError::UserITriedToFollowHasTheirFollowersListFull,
        ),
        r is Err ==> final(canister_data).follow_data.follower@ == old(canister_data).follow_data.follower@,
        *calling_canister_principal == arg.follower_canister_id
            && old(canister_data).follow_data.follower@.len() <= MAX_USERS_IN_FOLLOWER_FOLLOWING_LIST
            ==> r == Ok::<bool, FollowAnotherUserProfileError>(
            !old(canister_data).follow_data.follower.has(follower_entry(*arg)),
        ),
        r is Ok ==> final(canister_data).follow_data.follower@ == follow_toggle_spec(
            old(canister_data).follow_data.follower@,
            follower_entry(*arg),
        ),
        r == Ok::<bool, FollowAnotherUserProfileError>(true) ==> final(canister_data).follow_data.follower@ == old(canister_data).follow_data.follower@.push(
            (next_follow_id(old(canister_data).follow_data.follower@) as u64, follower_entry(*arg)),
        ),
        r == Ok::<bool, FollowAnotherUserProfileError>(false) ==> !final(canister_data).follow_data.follower.has(follower_entry(*arg)),
        forall|i: int|
            r == Ok::<bool, FollowAnotherUserProfileError>(false) && 0 <= i < old(canister_data).follow_data.follower@.len() && (#[trigger] old(canister_data).follow_data.follower@[i]).1
                == follower_entry(*arg) ==> final(canister_data).follow_data.follower@ == old(canister_data).follow_data.follower@.remove(i),
        r is Err ==> *final(canister_data) == *old(canister_data),
        *final(canister_data) == (CanisterData {
            follow_data: FollowData {
                follower: final(canister_data).follow_data.follower,
                ..old(canister_data).follow_data
            },
            ..*old(canister_data)
        }),
{
    if *calling_canister_principal != arg.follower_canister_id {
        return Err(FollowAnotherUserProfileError::Unauthorized);
    }
    if canister_data.follow_data.follower.len() as u64 > MAX_USERS_IN_FOLLOWER_FOLLOWING_LIST {
        return Err(FollowAnotherUserProfileError::UserITriedToFollowHasTheirFollowersListFull);
    }
    let follow_entry_detail = FollowEntryDetail {
        principal_id: arg.follower_principal_id,
        canister_id: arg.follower_canister_id,
    };
    if canister_data.follow_data.follower.contains(&follow_entry_detail) {
        canister_data.follow_data.follower.remove(&follow_entry_detail);
        Ok(false)
    } else {
        canister_data.follow_data.follower.add(follow_entry_detail);
        Ok(true)
    }
}

/// A page of the owner's followers, newest first: the followers numbered at
/// most `last_index_received` (or, without it, all of them), at most
/// `MAX_FOLLOW_ENTRIES_PER_PAGE` of them. The anonymous caller is
/// unauthenticated; any caller other than the owner is unauthorized.
pub fn get_profiles_that_follow_me_paginated_impl(
    canister_data: &CanisterData,
    last_index_received: Option<u64>,
    current_caller: &Principal,
) -> (r: Result<Vec<(FollowEntryId, FollowEntryDetail)>, GetFollowerOrFollowingPageError>)
    requires
        canister_data.wf(),
        owner_check_defined(canister_data, *current_caller),
    ensures
        *current_caller == anonymous_spec() ==> r matches Err(
            GetFollowerOrFollowingPageError::Unauthenticated,
        ),
        *current_caller != anonymous_spec() && canister_data.profile.principal_id != Some(
            *current_caller,
        ) ==> r matches Err(GetFollowerOrFollowingPageError::Unauthorized),
        *current_caller != anonymous_spec() && canister_data.profile.principal_id == Some(
            *current_caller,
        ) ==> (r matches Ok(page) && page@ == follow_page(
            canister_data.follow_data.follower@,
            match last_index_received {
                Some(i) => i,
                None => if canister_data.follow_data.follower@.len() == 0 {
                    0
                } else {
                    canister_data.follow_data.follower@.last().0
                },
            },
            MAX_FOLLOW_ENTRIES_PER_PAGE as nat,
        )),
{
    if current_caller.is_anonymous() {
        return Err(GetFollowerOrFollowingPageError::Unauthenticated);
    }
    let my_principal_id = canister_data.profile.principal_id.unwrap();
    if my_principal_id != *current_caller {
        return Err(GetFollowerOrFollowingPageError::Unauthorized);
    }
    let follower = &canister_data.follow_data.follower;
    let last_key = follower.last_id();
    let bound = match last_index_received {
        Some(i) => i,
        None => last_key,
    };
    Ok(follower.page_up_to(bound, MAX_FOLLOW_ENTRIES_PER_PAGE))
}

} // verus!
