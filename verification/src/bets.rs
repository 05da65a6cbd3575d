//! Hot-or-not bets: the bets this user placed on other users' posts, and the
//! outcomes and notifications computed for bets on this user's posts.

use vstd::prelude::*;

use crate::canister_data::CanisterData;
use crate::types::TokenEvent;
use crate::assoc::{assoc_lookup, keys_distinct, lemma_assoc_lookup_at, lemma_assoc_lookup_cases};
use crate::principal::{
    compare_principals, lemma_principal_lt_asymmetric, lemma_principal_lt_transitive,
    principal_lt, seq_window, KeyOrder, Principal,
};

verus! {

/// Side a bet is placed on.
#[derive(Clone, Copy, Debug, PartialEq, Eq, Structural)]
pub enum BetDirection {
    Hot,
    Not,
}

/// Outcome of a room of bets.
#[derive(Clone, Copy, Debug, PartialEq, Eq, Structural)]
pub enum RoomBetPossibleOutcomes {
    BetOngoing,
    HotWon,
    NotWon,
    Draw,
}

/// Payout of a single bet.
#[derive(Clone, Copy, Debug, PartialEq, Eq, Structural)]
pub enum BetPayout {
    NotCalculatedYet,
    Calculated(u64),
}

/// Outcome of a bet as seen by the user who placed it.
#[derive(Clone, Copy, Debug, PartialEq, Eq, Structural)]
pub enum BetOutcomeForBetMaker {
    AwaitingResult,
    Won(u64),
    Lost,
    Draw(u64),
}

impl Default for BetOutcomeForBetMaker {
    fn default() -> (r: Self)
        ensures
            r == BetOutcomeForBetMaker::AwaitingResult,
    {
        BetOutcomeForBetMaker::AwaitingResult
    }
}

/// A bet this user placed on another user's post.
#[derive(Clone, Copy, Debug)]
pub struct PlacedBetDetail {
    pub canister_id: Principal,
    pub post_id: u64,
    pub slot_id: u8,
    pub room_id: u64,
    pub amount_bet: u64,
    pub bet_direction: BetDirection,
    pub bet_placed_at: u64,
    pub outcome_received: BetOutcomeForBetMaker,
}

/// Key of a placed bet: the post's canister and the post's id.
pub type PlacedBetKey = (Principal, u64);

/// Order of placed-bet keys: by canister, then by post id.
pub open spec fn placed_key_lt(a: PlacedBetKey, b: PlacedBetKey) -> bool {
    principal_lt(a.0, b.0) || (a.0 == b.0 && a.1 < b.1)
}

pub proof fn lemma_placed_key_lt_transitive(a: PlacedBetKey, b: PlacedBetKey, c: PlacedBetKey)
    requires
        placed_key_lt(a, b),
        placed_key_lt(b, c),
    ensures
        placed_key_lt(a, c),
{
    if principal_lt(a.0, b.0) && principal_lt(b.0, c.0) {
        lemma_principal_lt_transitive(a.0, b.0, c.0);
    }
}

pub proof fn lemma_placed_key_lt_asymmetric(a: PlacedBetKey, b: PlacedBetKey)
    requires
        placed_key_lt(a, b),
    ensures
        !placed_key_lt(b, a),
        a != b,
{
    if principal_lt(a.0, b.0) {
        lemma_principal_lt_asymmetric(a.0, b.0);
    }
}

/// Compares two placed-bet keys in key order.
pub fn compare_placed_keys(a: &PlacedBetKey, b: &PlacedBetKey) -> (r: KeyOrder)
    ensures
        r == KeyOrder::Less <==> placed_key_lt(*a, *b),
        r == KeyOrder::Equal <==> *a == *b,
        r == KeyOrder::Greater <==> placed_key_lt(*b, *a),
{
    match compare_principals(&a.0, &b.0) {
        KeyOrder::Less => KeyOrder::Less,
        KeyOrder::Greater => KeyOrder::Greater,
        KeyOrder::Equal => {
            if a.1 < b.1 {
                KeyOrder::Less
            } else if a.1 > b.1 {
                KeyOrder::Greater
            } else {
                KeyOrder::Equal
            }
        },
    }
}

/// Keys grow strictly along the sequence.
pub open spec fn placed_keys_sorted(s: Seq<(PlacedBetKey, PlacedBetDetail)>) -> bool {
    forall|i: int, j: int| 0 <= i < j < s.len() ==> placed_key_lt(#[trigger] s[i].0, #[trigger] s[j].0)
}

/// The bets this user placed, by post, in key order.
#[derive(Debug)]
pub struct PlacedBetBook {
    pub entries: Vec<(PlacedBetKey, PlacedBetDetail)>,
}

impl View for PlacedBetBook {
    type V = Seq<(PlacedBetKey, PlacedBetDetail)>;

    open spec fn view(&self) -> Seq<(PlacedBetKey, PlacedBetDetail)> {
        self.entries@
    }
}

impl PlacedBetBook {
    pub open spec fn wf(&self) -> bool {
        placed_keys_sorted(self@)
    }

    /// Bet stored under `k`.
    pub open spec fn lookup(&self, k: PlacedBetKey) -> Option<PlacedBetDetail> {
        assoc_lookup(self@, k)
    }

    pub proof fn lemma_keys_distinct(&self)
        requires
            self.wf(),
        ensures
            keys_distinct(self@),
    {
        let s = self@;
        assert forall|i: int, j: int|
            0 <= i < s.len() && 0 <= j < s.len() && i != j implies #[trigger] s[i].0 != #[trigger] s[j].0 by {
            if i < j {
                lemma_placed_key_lt_asymmetric(s[i].0, s[j].0);
            } else {
                lemma_placed_key_lt_asymmetric(s[j].0, s[i].0);
            }
        }
    }

    pub fn new() -> (b: PlacedBetBook)
        ensures
            b@ == Seq::<(PlacedBetKey, PlacedBetDetail)>::empty(),
            b.wf(),
    {
        PlacedBetBook { entries: Vec::new() }
    }

    pub fn len(&self) -> (n: usize)
        ensures
            n == self@.len(),
    {
        self.entries.len()
    }

    pub fn get(&self, k: &PlacedBetKey) -> (r: Option<PlacedBetDetail>)
        requires
            self.wf(),
        ensures
            r == self.lookup(*k),
    {
        proof {
            self.lemma_keys_distinct();
            lemma_assoc_lookup_cases(self@, *k);
        }
        let mut i: usize = 0;
        while i < self.entries.len()
            invariant
                i <= self@.len(),
                keys_distinct(self@),
                forall|t: int| 0 <= t < i ==> #[trigger] self@[t].0 != *k,
            decreases self@.len() - i,
        {
            if compare_placed_keys(&self.entries[i].0, k) == KeyOrder::Equal {
                proof {
                    lemma_assoc_lookup_at(self@, i as int);
                }
                return Some(self.entries[i].1);
            }
            i = i + 1;
        }
        None
    }

    /// Stores `v` under `k`, replacing any earlier bet for that key, and keeps
    /// the key order.
    pub fn insert(&mut self, k: PlacedBetKey, v: PlacedBetDetail)
        requires
            old(self).wf(),
        ensures
            final(self).wf(),
            forall|k2: PlacedBetKey| #[trigger] final(self).lookup(k2) == if k2 == k {
                Some(v)
            } else {
                old(self).lookup(k2)
            },
    {
        let ghost s = self@;
        let n = self.entries.len();
        let mut i: usize = 0;
        while i < n
            invariant
                i <= n,
                n == s.len(),
                s == self@,
                forall|t: int| 0 <= t < i ==> placed_key_lt(#[trigger] s[t].0, k),
            ensures
                i <= n,
                forall|t: int| 0 <= t < i ==> placed_key_lt(#[trigger] s[t].0, k),
                i == n || !placed_key_lt(s[i as int].0, k),
            decreases n - i,
        {
            if compare_placed_keys(&self.entries[i].0, &k) != KeyOrder::Less {
                break;
            }
            i = i + 1;
        }
        proof {
            self.lemma_keys_distinct();
        }
        let c = if i < n {
            compare_placed_keys(&self.entries[i].0, &k)
        } else {
            KeyOrder::Less
        };
        if i < n && c == KeyOrder::Equal {
            self.entries.set(i, (k, v));
            proof {
                assert forall|k2: PlacedBetKey| #[trigger] assoc_lookup(self@, k2) == if k2 == k {
                    Some(v)
                } else {
                    assoc_lookup(s, k2)
                } by {
                    crate::assoc::lemma_assoc_lookup_update(s, i as int, v, k2);
                    assert(self@ =~= s.update(i as int, (s[i as int].0, v)));
                }
                let r = self@;
                assert forall|a: int, b: int| 0 <= a < b < r.len() implies placed_key_lt(
                    #[trigger] r[a].0,
                    #[trigger] r[b].0,
                ) by {
                    assert(r[a].0 == s[a].0);
                    assert(r[b].0 == s[b].0);
                }
            }
        } else {
            self.entries.insert(i, (k, v));
            proof {
                let r = self@;
                assert(r =~= s.insert(i as int, (k, v)));
                assert forall|a: int, b: int| 0 <= a < b < r.len() implies placed_key_lt(
                    #[trigger] r[a].0,
                    #[trigger] r[b].0,
                ) by {
                    if b < i {
                        assert(r[a] == s[a] && r[b] == s[b]);
                    } else if b == i {
                        assert(r[a] == s[a]);
                    } else if a < i {
                        assert(r[a] == s[a] && r[b] == s[b - 1]);
                        assert(placed_key_lt(k, s[i as int].0));
                        if b - 1 > i {
                            lemma_placed_key_lt_transitive(k, s[i as int].0, s[b - 1].0);
                        }
                        lemma_placed_key_lt_transitive(s[a].0, k, s[b - 1].0);
                    } else if a == i {
                        assert(r[b] == s[b - 1]);
                        assert(placed_key_lt(k, s[i as int].0));
                        if b - 1 > i {
                            lemma_placed_key_lt_transitive(k, s[i as int].0, s[b - 1].0);
                        }
                    } else {
                        assert(r[a] == s[a - 1] && r[b] == s[b - 1]);
                    }
                }
                assert forall|t: int| 0 <= t < s.len() implies #[trigger] s[t].0 != k by {
                    if t < i {
                        lemma_placed_key_lt_asymmetric(s[t].0, k);
                    } else {
                        assert(placed_key_lt(k, s[i as int].0));
                        if t > i {
                            lemma_placed_key_lt_transitive(k, s[i as int].0, s[t].0);
                        }
                        lemma_placed_key_lt_asymmetric(k, s[t].0);
                    }
                }
                self.lemma_keys_distinct();
                assert forall|k2: PlacedBetKey| #[trigger] assoc_lookup(r, k2) == if k2 == k {
                    Some(v)
                } else {
                    assoc_lookup(s, k2)
                } by {
                    lemma_assoc_lookup_cases(s, k2);
                    lemma_assoc_lookup_cases(r, k2);
                    if k2 == k {
                        assert(r[i as int].0 == k);
                    } else if exists|j: int| 0 <= j < s.len() && #[trigger] s[j].0 == k2 {
                        let j = choose|j: int| 0 <= j < s.len() && #[trigger] s[j].0 == k2;
                        if j < i {
                            assert(r[j] == s[j]);
                        } else {
                            assert(r[j + 1] == s[j]);
                        }
                    } else {
                        assert forall|j: int| 0 <= j < r.len() implies #[trigger] r[j].0 != k2 by {
                            if j < i {
                                assert(r[j] == s[j]);
                            } else if j > i {
                                assert(r[j] == s[j - 1]);
                            }
                        }
                    }
                }
            }
        }
    }

    /// Up to `take` bets, starting at position `skip` in key order.
    pub fn page(&self, skip: u64, take: u64) -> (r: Vec<PlacedBetDetail>)
        ensures
            r@ == seq_window(self@, skip as int, take as int).map_values(
                |e: (PlacedBetKey, PlacedBetDetail)| e.1,
            ),
    {
        let n = self.entries.len();
        let mut r: Vec<PlacedBetDetail> = Vec::new();
        if skip >= n as u64 {
            assert(r@ =~= seq_window(self@, skip as int, take as int).map_values(
                |e: (PlacedBetKey, PlacedBetDetail)| e.1,
            ));
            return r;
        }
        let start = skip as usize;
        let end: usize = if take >= (n - start) as u64 {
            n
        } else {
            start + take as usize
        };
        let mut i: usize = start;
        while i < end
            invariant
                start <= i <= end,
                end <= n,
                n == self@.len(),
                r@ == self@.subrange(start as int, i as int).map_values(
                    |e: (PlacedBetKey, PlacedBetDetail)| e.1,
                ),
            decreases end - i,
        {
            r.push(self.entries[i].1);
            i = i + 1;
            assert(r@ =~= self@.subrange(start as int, i as int).map_values(
                |e: (PlacedBetKey, PlacedBetDetail)| e.1,
            ));
        }
        r
    }
}


/// Identifies a room of bets: post id, slot id, room id.
#[derive(Clone, Copy, Debug, PartialEq, Eq, Structural)]
pub struct GlobalRoomId(pub u64, pub u8, pub u64);

/// Identifies a bet: its room and the user who placed it.
#[derive(Clone, Copy, Debug)]
pub struct GlobalBetId(pub GlobalRoomId, pub Principal);

/// State of a room of bets on one of this user's posts.
#[derive(Clone, Copy, Debug)]
pub struct RoomDetails {
    pub bet_outcome: RoomBetPossibleOutcomes,
    pub room_bets_total_pot: u64,
    pub total_hot_bets: u64,
    pub total_not_bets: u64,
}

/// A bet placed on one of this user's posts.
#[derive(Clone, Copy, Debug)]
pub struct BetDetails {
    pub amount: u64,
    pub bet_direction: BetDirection,
    pub payout: BetPayout,
    pub bet_maker_canister_id: Principal,
}

/// Amount of a calculated payout, 0 while it is not calculated.
pub open spec fn payout_amount(p: BetPayout) -> u64 {
    match p {
        BetPayout::Calculated(amount) => amount,
        BetPayout::NotCalculatedYet => 0,
    }
}

/// What a bet maker learns from a room's outcome: nothing yet while bets
/// are ongoing, the payout on a draw, the payout if their side won, and a
/// loss otherwise.
pub open spec fn outcome_for_bet_maker_spec(
    room: RoomBetPossibleOutcomes,
    direction: BetDirection,
    payout: BetPayout,
) -> BetOutcomeForBetMaker {
    match room {
        RoomBetPossibleOutcomes::BetOngoing => BetOutcomeForBetMaker::AwaitingResult,
        RoomBetPossibleOutcomes::Draw => BetOutcomeForBetMaker::Draw(payout_amount(payout)),
        RoomBetPossibleOutcomes::HotWon => match direction {
            BetDirection::Hot => BetOutcomeForBetMaker::Won(payout_amount(payout)),
            BetDirection::Not => BetOutcomeForBetMaker::Lost,
        },
        RoomBetPossibleOutcomes::NotWon => match direction {
            BetDirection::Hot => BetOutcomeForBetMaker::Lost,
            BetDirection::Not => BetOutcomeForBetMaker::Won(payout_amount(payout)),
        },
    }
}

pub fn outcome_for_bet_maker(
    room: RoomBetPossibleOutcomes,
    direction: BetDirection,
    payout: BetPayout,
) -> (r: BetOutcomeForBetMaker)
    ensures
        r == outcome_for_bet_maker_spec(room, direction, payout),
{
    let amount = match payout {
        BetPayout::Calculated(amount) => amount,
        BetPayout::NotCalculatedYet => 0,
    };
    match room {
        RoomBetPossibleOutcomes::BetOngoing => BetOutcomeForBetMaker::AwaitingResult,
        RoomBetPossibleOutcomes::Draw => BetOutcomeForBetMaker::Draw(amount),
        RoomBetPossibleOutcomes::HotWon => match direction {
            BetDirection::Hot => BetOutcomeForBetMaker::Won(amount),
            BetDirection::Not => BetOutcomeForBetMaker::Lost,
        },
        RoomBetPossibleOutcomes::NotWon => match direction {
            BetDirection::Hot => BetOutcomeForBetMaker::Lost,
            BetDirection::Not => BetOutcomeForBetMaker::Won(amount),
        },
    }
}

/// A message to send to a bet maker's canister: which post, which outcome.
#[derive(Clone, Copy, Debug)]
pub struct OutcomeNotification {
    pub bet_maker_canister_id: Principal,
    pub post_id: u64,
    pub outcome: BetOutcomeForBetMaker,
}

/// Notifications for the bets in `bets`, given one room's outcome: one per
/// bet whose outcome is known, in the order of the bets.
pub open spec fn room_notifications(
    room: RoomBetPossibleOutcomes,
    bets: Seq<BetDetails>,
    post_id: u64,
) -> Seq<OutcomeNotification>
    decreases bets.len(),
{
    if bets.len() == 0 {
        Seq::empty()
    } else {
        let b = bets.last();
        let o = outcome_for_bet_maker_spec(room, b.bet_direction, b.payout);
        let rest = room_notifications(room, bets.drop_last(), post_id);
        if o == BetOutcomeForBetMaker::AwaitingResult {
            rest
        } else {
            rest.push(
                OutcomeNotification { bet_maker_canister_id: b.bet_maker_canister_id, post_id, outcome: o },
            )
        }
    }
}

/// Notifications for a slot: for each room in order, the notifications of
/// every bet of the slot under that room's outcome.
pub open spec fn slot_notifications(
    rooms: Seq<RoomDetails>,
    bets: Seq<BetDetails>,
    post_id: u64,
) -> Seq<OutcomeNotification>
    decreases rooms.len(),
{
    if rooms.len() == 0 {
        Seq::empty()
    } else {
        slot_notifications(rooms.drop_last(), bets, post_id) + room_notifications(
            rooms.last().bet_outcome,
            bets,
            post_id,
        )
    }
}

/// First and one-past-last room ids of a slot's range: room 1 of the slot up
/// to room 1 of the next slot.
pub fn slot_room_range(post_id: u64, slot_id: u8) -> (r: (GlobalRoomId, GlobalRoomId))
    requires
        slot_id < 255,
    ensures
        r.0 == GlobalRoomId(post_id, slot_id, 1),
        r.1 == GlobalRoomId(post_id, (slot_id + 1) as u8, 1),
{
    (GlobalRoomId(post_id, slot_id, 1), GlobalRoomId(post_id, slot_id + 1, 1))
}

/// Order of room ids: by post, then slot, then room.
pub open spec fn room_lt(a: GlobalRoomId, b: GlobalRoomId) -> bool {
    a.0 < b.0 || (a.0 == b.0 && (a.1 < b.1 || (a.1 == b.1 && a.2 < b.2)))
}

fn room_less(a: &GlobalRoomId, b: &GlobalRoomId) -> (r: bool)
    ensures
        r == room_lt(*a, *b),
{
    a.0 < b.0 || (a.0 == b.0 && (a.1 < b.1 || (a.1 == b.1 && a.2 < b.2)))
}

/// Whether a room id lies in `[start, end)`.
pub open spec fn room_in_range(r: GlobalRoomId, start: GlobalRoomId, end: GlobalRoomId) -> bool {
    !room_lt(r, start) && room_lt(r, end)
}

/// Whether a bet id lies in `[(start, low), (end, low))`, bet ids being
/// ordered by room and then by bettor.
pub open spec fn bet_in_range(k: GlobalBetId, start: GlobalRoomId, end: GlobalRoomId, low: Principal) -> bool {
    &&& (room_lt(start, k.0) || (k.0 == start && !principal_lt(k.1, low)))
    &&& (room_lt(k.0, end) || (k.0 == end && principal_lt(k.1, low)))
}

/// The details of the rooms of `rooms` whose id lies in `[start, end)`, in
/// order.
pub open spec fn rooms_in_range(
    rooms: Seq<(GlobalRoomId, RoomDetails)>,
    start: GlobalRoomId,
    end: GlobalRoomId,
) -> Seq<RoomDetails>
    decreases rooms.len(),
{
    if rooms.len() == 0 {
        Seq::empty()
    } else if room_in_range(rooms.last().0, start, end) {
        rooms_in_range(rooms.drop_last(), start, end).push(rooms.last().1)
    } else {
        rooms_in_range(rooms.drop_last(), start, end)
    }
}

/// The details of the bets of `bets` whose id lies in
/// `[(start, low), (end, low))`, in order.
pub open spec fn bets_in_range(
    bets: Seq<(GlobalBetId, BetDetails)>,
    start: GlobalRoomId,
    end: GlobalRoomId,
    low: Principal,
) -> Seq<BetDetails>
    decreases bets.len(),
{
    if bets.len() == 0 {
        Seq::empty()
    } else if bet_in_range(bets.last().0, start, end, low) {
        bets_in_range(bets.drop_last(), start, end, low).push(bets.last().1)
    } else {
        bets_in_range(bets.drop_last(), start, end, low)
    }
}

/// The rooms of a slot of a post, out of all rooms of this user's posts
/// listed in key order: those in the slot's range of room ids.
pub fn select_slot_rooms(rooms: &Vec<(GlobalRoomId, RoomDetails)>, post_id: u64, slot_id: u8) -> (r: Vec<
    RoomDetails,
>)
    requires
        slot_id < 255,
    ensures
        r@ == rooms_in_range(rooms@, GlobalRoomId(post_id, slot_id, 1), GlobalRoomId(post_id, (slot_id + 1) as u8, 1)),
{
    let (start, end) = slot_room_range(post_id, slot_id);
    let mut r: Vec<RoomDetails> = Vec::new();
    let mut i: usize = 0;
    while i < rooms.len()
        invariant
            i <= rooms@.len(),
            start == GlobalRoomId(post_id, slot_id, 1),
            end == GlobalRoomId(post_id, (slot_id + 1) as u8, 1),
            r@ == rooms_in_range(rooms@.take(i as int), start, end),
        decreases rooms@.len() - i,
    {
        assert(rooms@.take(i + 1).drop_last() =~= rooms@.take(i as int));
        let (id, details) = rooms[i];
        if !room_less(&id, &start) && room_less(&id, &end) {
            r.push(details);
        }
        i = i + 1;
    }
    assert(rooms@.take(rooms@.len() as int) =~= rooms@);
    r
}

/// The bets of a slot of a post, out of all bets on this user's posts listed
/// in key order: those from the slot's first room, bettor `low`, up to the
/// next slot's first room, bettor `low`.
pub fn select_slot_bets(bets: &Vec<(GlobalBetId, BetDetails)>, post_id: u64, slot_id: u8, low: Principal) -> (r:
    Vec<BetDetails>)
    requires
        slot_id < 255,
    ensures
        r@ == bets_in_range(
            bets@,
            GlobalRoomId(post_id, slot_id, 1),
            GlobalRoomId(post_id, (slot_id + 1) as u8, 1),
            low,
        ),
{
    let (start, end) = slot_room_range(post_id, slot_id);
    let mut r: Vec<BetDetails> = Vec::new();
    let mut i: usize = 0;
    while i < bets.len()
        invariant
            i <= bets@.len(),
            start == GlobalRoomId(post_id, slot_id, 1),
            end == GlobalRoomId(post_id, (slot_id + 1) as u8, 1),
            r@ == bets_in_range(bets@.take(i as int), start, end, low),
        decreases bets@.len() - i,
    {
        assert(bets@.take(i + 1).drop_last() =~= bets@.take(i as int));
        let (id, details) = bets[i];
        let room = id.0;
        let after_start = room_less(&start, &room) || (room == start && !(compare_principals(&id.1, &low)
            == KeyOrder::Less));
        let before_end = room_less(&room, &end) || (room == end && compare_principals(&id.1, &low)
            == KeyOrder::Less);
        if after_start && before_end {
            r.push(details);
        }
        i = i + 1;
    }
    assert(bets@.take(bets@.len() as int) =~= bets@);
    r
}

/// Decides who is told what once a slot of a post has been tabulated. `rooms`
/// are the rooms of the slot's range and `bets` the bets of that range, each
/// in key order. A post without hot-or-not details informs nobody. Each room
/// yields, for every bet of the slot, the bet maker's outcome under that
/// room's result; bets whose outcome is still awaited are skipped.
pub fn inform_participants_of_outcome(
    has_hot_or_not_details: bool,
    post_id: u64,
    rooms: &Vec<RoomDetails>,
    bets: &Vec<BetDetails>,
) -> (r: Vec<OutcomeNotification>)
    ensures
        !has_hot_or_not_details ==> r@.len() == 0,
        has_hot_or_not_details ==> r@ == slot_notifications(rooms@, bets@, post_id),
{
    let mut r: Vec<OutcomeNotification> = Vec::new();
    if !has_hot_or_not_details {
        return r;
    }
    let mut i: usize = 0;
    while i < rooms.len()
        invariant
            i <= rooms@.len(),
            r@ == slot_notifications(rooms@.take(i as int), bets@, post_id),
        decreases rooms@.len() - i,
    {
        let room = rooms[i].bet_outcome;
        let ghost before = r@;
        let mut j: usize = 0;
        while j < bets.len()
            invariant
                j <= bets@.len(),
                i < rooms@.len(),
                room == rooms@[i as int].bet_outcome,
                r@ == before + room_notifications(room, bets@.take(j as int), post_id),
            decreases bets@.len() - j,
        {
            let b = bets[j];
            let o = outcome_for_bet_maker(room, b.bet_direction, b.payout);
            assert(bets@.take(j + 1).drop_last() =~= bets@.take(j as int));
            if o != BetOutcomeForBetMaker::AwaitingResult {
                r.push(
                    OutcomeNotification { bet_maker_canister_id: b.bet_maker_canister_id, post_id, outcome: o },
                );
                assert(r@ =~= before + room_notifications(room, bets@.take(j + 1), post_id));
            }
            j = j + 1;
        }
        assert(bets@.take(bets@.len() as int) =~= bets@);
        assert(rooms@.take(i + 1).drop_last() =~= rooms@.take(i as int));
        i = i + 1;
    }
    assert(rooms@.take(rooms@.len() as int) =~= rooms@);
    r
}


/// Length of a slot of a post's betting period.
pub const DURATION_OF_EACH_SLOT_IN_SECONDS: u64 = 60 * 60;

/// Nanoseconds in a second.
pub const NANOS_PER_SECOND: u64 = 1_000_000_000;

/// A slot counts as overdue once this many seconds per slot have passed since
/// the post was created (a slot plus five minutes of slack).
pub const OVERDUE_SLOT_SECONDS: u64 = 65 * 60;

/// Time (ns) still to wait until slot `slot_id` of a post created at
/// `created_at` ends, or 0 if it has already ended.
pub open spec fn slot_timer_delay_spec(created_at: u64, slot_id: u8, now: u64) -> int {
    let end = created_at + slot_id * DURATION_OF_EACH_SLOT_IN_SECONDS * NANOS_PER_SECOND;
    if end > now {
        end - now
    } else {
        0
    }
}

/// The timer of a slot fires when the slot ends, `slot_id` hours after the
/// post was created: waiting the delay from `now` reaches that moment
/// exactly, and a slot already over is tabulated at once.
pub proof fn lemma_slot_timer_delay(created_at: u64, slot_id: u8, now: u64)
    ensures
        slot_timer_delay_spec(created_at, slot_id, now) >= 0,
        created_at + slot_id * 3_600_000_000_000 > now ==> now + slot_timer_delay_spec(created_at, slot_id, now)
            == created_at + slot_id * 3_600_000_000_000,
        created_at + slot_id * 3_600_000_000_000 <= now ==> slot_timer_delay_spec(created_at, slot_id, now) == 0,
{
}

/// Delay (ns) of the timer that tabulates slot `slot_id` of a post created
/// at `created_at`, seen at time `now` (all times in ns).
pub fn slot_timer_delay(created_at: u64, slot_id: u8, now: u64) -> (d: u128)
    ensures
        d == slot_timer_delay_spec(created_at, slot_id, now),
{
    let end: u128 = created_at as u128 + (slot_id as u128) * (DURATION_OF_EACH_SLOT_IN_SECONDS as u128)
        * (NANOS_PER_SECOND as u128);
    if end > now as u128 {
        end - now as u128
    } else {
        0
    }
}

/// A room whose bets are still open although its slot ended more than the
/// overdue time ago, for a post that exists.
pub open spec fn room_is_overdue(
    room: (GlobalRoomId, RoomDetails),
    post_created_at: Seq<(u64, u64)>,
    now: u64,
) -> bool {
    &&& room.1.bet_outcome == RoomBetPossibleOutcomes::BetOngoing
    &&& match assoc_lookup(post_created_at, room.0.0) {
        Some(t) => t + room.0.1 * OVERDUE_SLOT_SECONDS * NANOS_PER_SECOND < now,
        None => false,
    }
}

/// A room is overdue exactly when its bets are still open, its post is
/// known, and more than 65 minutes per slot number have passed since the
/// post was created; a settled room or a room of an unknown post never is.
pub proof fn lemma_room_is_overdue(room: (GlobalRoomId, RoomDetails), post_created_at: Seq<(u64, u64)>, now: u64)
    ensures
        room.1.bet_outcome != RoomBetPossibleOutcomes::BetOngoing ==> !room_is_overdue(room, post_created_at, now),
        assoc_lookup(post_created_at, room.0.0) is None ==> !room_is_overdue(room, post_created_at, now),
        forall|t: u64|
            room.1.bet_outcome == RoomBetPossibleOutcomes::BetOngoing && assoc_lookup(post_created_at, room.0.0)
                == Some(t) ==> (room_is_overdue(room, post_created_at, now) <==> t + room.0.1 * 3_900_000_000_000
                < now),
{
}

/// Creation time of post `post_id`, from a list of (post id, creation time).
pub fn lookup_post_created_at(post_created_at: &Vec<(u64, u64)>, post_id: u64) -> (r: Option<u64>)
    requires
        keys_distinct(post_created_at@),
    ensures
        r == assoc_lookup(post_created_at@, post_id),
{
    proof {
        lemma_assoc_lookup_cases(post_created_at@, post_id);
    }
    let mut i: usize = 0;
    while i < post_created_at.len()
        invariant
            i <= post_created_at@.len(),
            keys_distinct(post_created_at@),
            forall|t: int| 0 <= t < i ==> #[trigger] post_created_at@[t].0 != post_id,
        decreases post_created_at@.len() - i,
    {
        if post_created_at[i].0 == post_id {
            proof {
                lemma_assoc_lookup_at(post_created_at@, i as int);
            }
            return Some(post_created_at[i].1);
        }
        i = i + 1;
    }
    None
}

/// The (post, slot) pairs that have an overdue room, each once.
/// `rooms` are all rooms of this user's posts; `post_created_at` gives each
/// post's creation time; `now` is the current time (all times in ns).
pub fn once_get_posts_that_have_pending_outcomes(
    rooms: &Vec<(GlobalRoomId, RoomDetails)>,
    post_created_at: &Vec<(u64, u64)>,
    now: u64,
) -> (r: Vec<(u64, u8)>)
    requires
        keys_distinct(post_created_at@),
    ensures
        forall|i: int, j: int| 0 <= i < j < r@.len() ==> #[trigger] r@[i] != #[trigger] r@[j],
        forall|x: (u64, u8)|
            r@.contains(x) <==> exists|i: int|
                0 <= i < rooms@.len() && room_is_overdue(#[trigger] rooms@[i], post_created_at@, now)
                    && (rooms@[i].0.0, rooms@[i].0.1) == x,
{
    let mut r: Vec<(u64, u8)> = Vec::new();
    let mut i: usize = 0;
    while i < rooms.len()
        invariant
            i <= rooms@.len(),
            keys_distinct(post_created_at@),
            forall|a: int, b: int| 0 <= a < b < r@.len() ==> #[trigger] r@[a] != #[trigger] r@[b],
            forall|x: (u64, u8)|
                r@.contains(x) <==> exists|t: int|
                    0 <= t < i && room_is_overdue(#[trigger] rooms@[t], post_created_at@, now) && (
                    rooms@[t].0.0, rooms@[t].0.1) == x,
        decreases rooms@.len() - i,
    {
        let (room_id, details) = rooms[i];
        let mut overdue = false;
        if details.bet_outcome == RoomBetPossibleOutcomes::BetOngoing {
            match lookup_post_created_at(post_created_at, room_id.0) {
                Some(t) => {
                    overdue = (t as u128) + (room_id.1 as u128) * (OVERDUE_SLOT_SECONDS as u128) * (
                    NANOS_PER_SECOND as u128) < now as u128;
                },
                None => {},
            }
        }
        let ghost before = r@;
        let key = (room_id.0, room_id.1);
        if overdue {
            let mut seen = false;
            let mut k: usize = 0;
            while k < r.len()
                invariant
                    k <= r@.len(),
                    seen <==> exists|t: int| 0 <= t < k && r@[t] == key,
                decreases r@.len() - k,
            {
                if r[k].0 == key.0 && r[k].1 == key.1 {
                    seen = true;
                }
                k = k + 1;
            }
            if !seen {
                r.push(key);
                proof {
                    assert forall|a: int, b: int| 0 <= a < b < r@.len() implies #[trigger] r@[a]
                        != #[trigger] r@[b] by {
                        if b == r@.len() - 1 {
                            assert(r@[a] == before[a]);
                        } else {
                            assert(r@[a] == before[a] && r@[b] == before[b]);
                        }
                    }
                }
            }
        }
        proof {
            assert(room_is_overdue(rooms@[i as int], post_created_at@, now) == overdue);
            assert forall|x: (u64, u8)| r@.contains(x) <==> exists|t: int|
                0 <= t < i + 1 && room_is_overdue(#[trigger] rooms@[t], post_created_at@, now) && (
                rooms@[t].0.0, rooms@[t].0.1) == x by {
                if r@.contains(x) {
                    let a = choose|a: int| 0 <= a < r@.len() && r@[a] == x;
                    if a < before.len() {
                        assert(before[a] == x);
                        assert(before.contains(x));
                    } else {
                        assert(room_is_overdue(rooms@[i as int], post_created_at@, now));
                    }
                }
                if exists|t: int|
                    0 <= t < i + 1 && room_is_overdue(#[trigger] rooms@[t], post_created_at@, now) && (
                    rooms@[t].0.0, rooms@[t].0.1) == x {
                    let t = choose|t: int|
                        0 <= t < i + 1 && room_is_overdue(#[trigger] rooms@[t], post_created_at@, now)
                            && (rooms@[t].0.0, rooms@[t].0.1) == x;
                    if t < i {
                        assert(before.contains(x));
                        let a = choose|a: int| 0 <= a < before.len() && before[a] == x;
                        assert(r@[a] == x);
                    } else if r@.len() > before.len() {
                        assert(r@[r@.len() - 1] == x);
                    } else {
                        let a = choose|a: int| 0 <= a < before.len() && before[a] == key;
                        assert(r@[a] == x);
                    }
                }
            }
        }
        i = i + 1;
    }
    r
}


/// Bets still waiting for their result, in the order of `s`.
pub open spec fn awaiting_bets(s: Seq<(PlacedBetKey, PlacedBetDetail)>) -> Seq<
    (PlacedBetKey, PlacedBetDetail),
>
    decreases s.len(),
{
    if s.len() == 0 {
        Seq::empty()
    } else {
        let rest = awaiting_bets(s.drop_last());
        if s.last().1.outcome_received == BetOutcomeForBetMaker::AwaitingResult {
            rest.push(s.last())
        } else {
            rest
        }
    }
}

/// Every bet in `awaiting_bets(s)` is one of `s` and awaits its result.
pub proof fn lemma_awaiting_bets_members(s: Seq<(PlacedBetKey, PlacedBetDetail)>)
    ensures
        forall|i: int|
            0 <= i < awaiting_bets(s).len() ==> s.contains(#[trigger] awaiting_bets(s)[i])
                && awaiting_bets(s)[i].1.outcome_received == BetOutcomeForBetMaker::AwaitingResult,
    decreases s.len(),
{
    if s.len() > 0 {
        let t = s.drop_last();
        lemma_awaiting_bets_members(t);
        assert forall|i: int| 0 <= i < awaiting_bets(s).len() implies s.contains(
            #[trigger] awaiting_bets(s)[i],
        ) && awaiting_bets(s)[i].1.outcome_received == BetOutcomeForBetMaker::AwaitingResult by {
            if i < awaiting_bets(t).len() {
                let e = awaiting_bets(t)[i];
                assert(awaiting_bets(s)[i] == e);
                let j = choose|j: int| 0 <= j < t.len() && t[j] == e;
                assert(s[j] == e);
            } else {
                assert(awaiting_bets(s)[i] == s[s.len() - 1]);
            }
        }
    }
}

/// The bets placed by this user whose outcome has not arrived yet.
pub fn pending_bets(book: &PlacedBetBook) -> (r: Vec<(PlacedBetKey, PlacedBetDetail)>)
    ensures
        r@ == awaiting_bets(book@),
{
    let mut r: Vec<(PlacedBetKey, PlacedBetDetail)> = Vec::new();
    let mut i: usize = 0;
    while i < book.entries.len()
        invariant
            i <= book@.len(),
            r@ == awaiting_bets(book@.take(i as int)),
        decreases book@.len() - i,
    {
        assert(book@.take(i + 1).drop_last() =~= book@.take(i as int));
        let e = book.entries[i];
        if e.1.outcome_received == BetOutcomeForBetMaker::AwaitingResult {
            r.push(e);
        }
        i = i + 1;
    }
    assert(book@.take(book@.len() as int) =~= book@);
    r
}

/// Id under which the post's canister stores a pending bet of `user`.
pub fn global_bet_id_of_placed_bet(key: &PlacedBetKey, bet: &PlacedBetDetail, user: Principal) -> (r:
    GlobalBetId)
    ensures
        r.0 == GlobalRoomId(key.1, bet.slot_id, bet.room_id),
        r.1 == user,
{
    GlobalBetId(GlobalRoomId(key.1, bet.slot_id, bet.room_id), user)
}

/// Tokens a bet maker receives for an outcome: the amount of a win or a draw,
/// nothing otherwise.
pub open spec fn winnings_of(o: BetOutcomeForBetMaker) -> u64 {
    match o {
        BetOutcomeForBetMaker::Draw(amount) => amount,
        BetOutcomeForBetMaker::Won(amount) => amount,
        _ => 0,
    }
}

pub fn winnings_of_outcome(o: BetOutcomeForBetMaker) -> (r: u64)
    ensures
        r == winnings_of(o),
{
    match o {
        BetOutcomeForBetMaker::Draw(amount) => amount,
        BetOutcomeForBetMaker::Won(amount) => amount,
        _ => 0,
    }
}

/// A placed bet with its outcome filled in.
pub open spec fn with_outcome(bet: PlacedBetDetail, o: BetOutcomeForBetMaker) -> PlacedBetDetail {
    PlacedBetDetail { outcome_received: o, ..bet }
}

/// Records the outcome of a bet that was pending: stores the pending bet
/// with its outcome under `key` and returns the winnings to credit.
pub fn record_bet_outcome(
    book: &mut PlacedBetBook,
    key: PlacedBetKey,
    pending: PlacedBetDetail,
    outcome: BetOutcomeForBetMaker,
) -> (winnings: u64)
    requires
        old(book).wf(),
    ensures
        final(book).wf(),
        winnings == winnings_of(outcome),
        forall|k2: PlacedBetKey| #[trigger] final(book).lookup(k2) == if k2 == key {
            Some(with_outcome(pending, outcome))
        } else {
            old(book).lookup(k2)
        },
{
    let updated = PlacedBetDetail { outcome_received: outcome, ..pending };
    book.insert(key, updated);
    winnings_of_outcome(outcome)
}

/// Finds the first bet, in key order, that `user` placed on post `post_id`.
pub fn get_bet_details_for_a_user_on_a_post(
    bets: &Vec<(GlobalBetId, BetDetails)>,
    user: Principal,
    post_id: u64,
) -> (r: Result<BetDetails, String>)
    ensures
        r is Ok <==> exists|i: int|
            0 <= i < bets@.len() && (#[trigger] bets@[i]).0.0.0 == post_id && bets@[i].0.1 == user,
        forall|d: BetDetails|
            r == Ok::<BetDetails, String>(d) ==> exists|i: int|
                0 <= i < bets@.len() && (#[trigger] bets@[i]).0.0.0 == post_id && bets@[i].0.1
                    == user && bets@[i].1 == d && forall|j: int|
                    0 <= j < i ==> !((#[trigger] bets@[j]).0.0.0 == post_id && bets@[j].0.1 == user),
        forall|e: String| r == Err::<BetDetails, String>(e) ==> e@ == "No Bets Found"@,
{
    let mut i: usize = 0;
    while i < bets.len()
        invariant
            i <= bets@.len(),
            forall|j: int| 0 <= j < i ==> !((#[trigger] bets@[j]).0.0.0 == post_id && bets@[j].0.1 == user),
        decreases bets@.len() - i,
    {
        let (id, details) = bets[i];
        if id.0.0 == post_id && id.1 == user {
            return Ok(details);
        }
        i = i + 1;
    }
    Err(String::from_str("No Bets Found"))
}

/// Number of placed bets returned by one page.
pub const PAGINATION_PAGE_SIZE: u64 = 10;

/// Up to ten placed bets, starting after the `last_index_sent` first ones.
pub fn get_hot_or_not_bets_placed_by_this_profile_with_pagination(
    book: &PlacedBetBook,
    last_index_sent: u64,
) -> (r: Vec<PlacedBetDetail>)
    ensures
        r@ == seq_window(book@, last_index_sent as int, PAGINATION_PAGE_SIZE as int).map_values(
            |e: (PlacedBetKey, PlacedBetDetail)| e.1,
        ),
{
    book.page(last_index_sent, PAGINATION_PAGE_SIZE)
}


/// Stored bet under `k` after recording the results in `results` one after
/// another over `before`, each result taking the pending bet of its key from
/// `pending`.
pub open spec fn lookup_after_results(
    before: Option<PlacedBetDetail>,
    pending: Seq<(PlacedBetKey, PlacedBetDetail)>,
    results: Seq<(PlacedBetKey, BetOutcomeForBetMaker)>,
    k: PlacedBetKey,
) -> Option<PlacedBetDetail>
    decreases results.len(),
{
    if results.len() == 0 {
        before
    } else if results.last().0 == k {
        Some(with_outcome(assoc_lookup(pending, k).unwrap(), results.last().1))
    } else {
        lookup_after_results(before, pending, results.drop_last(), k)
    }
}

/// Records a batch of bet results. `pending` holds the bets that were
/// awaiting results when they were asked for, `results` the outcomes that
/// came back, each for a key of `pending`. Each result stores the pending bet
/// with its outcome; the returned list gives, per result, the stored bet and
/// the winnings to credit.
pub fn apply_bet_results(
    book: &mut PlacedBetBook,
    pending: &Vec<(PlacedBetKey, PlacedBetDetail)>,
    results: &Vec<(PlacedBetKey, BetOutcomeForBetMaker)>,
) -> (credits: Vec<(PlacedBetKey, PlacedBetDetail, u64)>)
    requires
        old(book).wf(),
        keys_distinct(pending@),
        forall|i: int| 0 <= i < results@.len() ==> (#[trigger] assoc_lookup(pending@, results@[i].0)) is Some,
    ensures
        final(book).wf(),
        credits@.len() == results@.len(),
        forall|i: int|
            0 <= i < results@.len() ==> #[trigger] credits@[i] == (
                results@[i].0,
                with_outcome(assoc_lookup(pending@, results@[i].0).unwrap(), results@[i].1),
                winnings_of(results@[i].1),
            ),
        forall|k: PlacedBetKey| #[trigger] final(book).lookup(k) == lookup_after_results(
            old(book).lookup(k),
            pending@,
            results@,
            k,
        ),
{
    let mut credits: Vec<(PlacedBetKey, PlacedBetDetail, u64)> = Vec::new();
    let mut i: usize = 0;
    while i < results.len()
        invariant
            i <= results@.len(),
            book.wf(),
            keys_distinct(pending@),
            forall|t: int| 0 <= t < results@.len() ==> (#[trigger] assoc_lookup(pending@, results@[t].0)) is Some,
            credits@.len() == i,
            forall|t: int|
                0 <= t < i ==> #[trigger] credits@[t] == (
                    results@[t].0,
                    with_outcome(assoc_lookup(pending@, results@[t].0).unwrap(), results@[t].1),
                    winnings_of(results@[t].1),
                ),
            forall|k: PlacedBetKey| #[trigger] book.lookup(k) == lookup_after_results(
                old(book).lookup(k),
                pending@,
                results@.take(i as int),
                k,
            ),
        decreases results@.len() - i,
    {
        let (key, outcome) = results[i];
        assert(assoc_lookup(pending@, results@[i as int].0) is Some);
        let found = lookup_pending(pending, &key);
        let bet = found.unwrap();
        let ghost mid = *book;
        let winnings = record_bet_outcome(book, key, bet, outcome);
        credits.push((key, with_outcome_exec(bet, outcome), winnings));
        proof {
            assert(results@.take(i + 1).drop_last() =~= results@.take(i as int));
            assert forall|k: PlacedBetKey| #[trigger] book.lookup(k) == lookup_after_results(
                old(book).lookup(k),
                pending@,
                results@.take(i + 1),
                k,
            ) by {
                assert(book.lookup(k) == if k == key {
                    Some(with_outcome(bet, outcome))
                } else {
                    mid.lookup(k)
                });
            }
        }
        i = i + 1;
    }
    assert(results@.take(results@.len() as int) =~= results@);
    credits
}

/// Tokens owed for a batch of results: the winnings of each, added up.
pub open spec fn total_winnings(results: Seq<(PlacedBetKey, BetOutcomeForBetMaker)>) -> int
    decreases results.len(),
{
    if results.len() == 0 {
        0
    } else {
        total_winnings(results.drop_last()) + winnings_of(results.last().1)
    }
}

/// The winnings of a prefix of a batch never exceed those of the batch.
pub proof fn lemma_total_winnings_prefix(s: Seq<(PlacedBetKey, BetOutcomeForBetMaker)>, j: int)
    requires
        0 <= j <= s.len(),
    ensures
        total_winnings(s.take(j)) <= total_winnings(s),
    decreases s.len(),
{
    if j == s.len() {
        assert(s.take(j) =~= s);
    } else {
        assert(s.drop_last().take(j) =~= s.take(j));
        lemma_total_winnings_prefix(s.drop_last(), j);
    }
}

/// The payout event recorded at `now` for the result `o` of the bet `bet`
/// stored under `key`: the winnings, the bet's post, slot and room, and the
/// outcome.
pub open spec fn payout_event(
    key: PlacedBetKey,
    bet: PlacedBetDetail,
    o: BetOutcomeForBetMaker,
    now: u64,
) -> TokenEvent {
    TokenEvent {
        amount: winnings_of(o),
        post_canister_id: key.0,
        post_id: key.1,
        slot_id: bet.slot_id,
        room_id: bet.room_id,
        event_outcome: o,
        timestamp: now,
    }
}

/// Settles the bets whose results came back: each result stores its pending
/// bet with the outcome, credits the winnings to the utility token balance
/// and records one payout event, numbered after the events already there, in
/// the order of the results. Nothing else in the state changes.
pub fn resolve_pending_bets_with_results(
    canister_data: &mut CanisterData,
    pending: &Vec<(PlacedBetKey, PlacedBetDetail)>,
    results: &Vec<(PlacedBetKey, BetOutcomeForBetMaker)>,
    now: u64,
)
    requires
        old(canister_data).wf(),
        keys_distinct(pending@),
        forall|i: int| 0 <= i < results@.len() ==> (#[trigger] assoc_lookup(pending@, results@[i].0)) is Some,
        old(canister_data).my_token_balance.utility_token_balance + total_winnings(results@) <= u64::MAX,
        old(canister_data).my_token_balance.utility_token_transaction_history@.len() + results@.len()
            <= u64::MAX,
    ensures
        final(canister_data).wf(),
        forall|k: PlacedBetKey| #[trigger] final(canister_data).all_hot_or_not_bets_placed.lookup(k)
            == lookup_after_results(old(canister_data).all_hot_or_not_bets_placed.lookup(k), pending@, results@, k),
        final(canister_data).my_token_balance.utility_token_balance == old(canister_data).my_token_balance.utility_token_balance
            + total_winnings(results@),
        final(canister_data).my_token_balance.utility_token_transaction_history@.len()
            == old(canister_data).my_token_balance.utility_token_transaction_history@.len() + results@.len(),
        forall|i: int|
            0 <= i < old(canister_data).my_token_balance.utility_token_transaction_history@.len()
                ==> #[trigger] final(canister_data).my_token_balance.utility_token_transaction_history@[i]
                == old(canister_data).my_token_balance.utility_token_transaction_history@[i],
        forall|i: int|
            0 <= i < results@.len() ==> #[trigger] final(canister_data).my_token_balance.utility_token_transaction_history@[
                old(canister_data).my_token_balance.utility_token_transaction_history@.len() + i] == (
                (old(canister_data).my_token_balance.utility_token_transaction_history@.len() + i) as u64,
                payout_event(results@[i].0, assoc_lookup(pending@, results@[i].0).unwrap(), results@[i].1, now),
            ),
        *final(canister_data) == (CanisterData {
            all_hot_or_not_bets_placed: final(canister_data).all_hot_or_not_bets_placed,
            my_token_balance: final(canister_data).my_token_balance,
            ..*old(canister_data)
        }),
{
    let credits = apply_bet_results(&mut canister_data.all_hot_or_not_bets_placed, pending, results);
    let ghost base = old(canister_data).my_token_balance.utility_token_transaction_history@;
    let ghost start = old(canister_data).my_token_balance.utility_token_balance;
    let ghost mid = *canister_data;
    let mut i: usize = 0;
    while i < credits.len()
        invariant
            i <= credits@.len(),
            credits@.len() == results@.len(),
            forall|t: int|
                0 <= t < results@.len() ==> #[trigger] credits@[t] == (
                    results@[t].0,
                    with_outcome(assoc_lookup(pending@, results@[t].0).unwrap(), results@[t].1),
                    winnings_of(results@[t].1),
                ),
            start + total_winnings(results@) <= u64::MAX,
            base.len() + results@.len() <= u64::MAX,
            canister_data.my_token_balance.utility_token_balance == start + total_winnings(results@.take(i as int)),
            canister_data.my_token_balance.utility_token_transaction_history@.len() == base.len() + i,
            forall|t: int| 0 <= t < base.len() ==> #[trigger] canister_data.my_token_balance.utility_token_transaction_history@[t] == base[t],
            forall|t: int|
                0 <= t < i ==> #[trigger] canister_data.my_token_balance.utility_token_transaction_history@[base.len() + t] == (
                    (base.len() + t) as u64,
                    payout_event(results@[t].0, assoc_lookup(pending@, results@[t].0).unwrap(), results@[t].1, now),
                ),
            *canister_data == (CanisterData { my_token_balance: canister_data.my_token_balance, ..mid }),
        decreases credits@.len() - i,
    {
        let (key, bet, winnings) = credits[i];
        proof {
            assert(results@.take(i + 1).drop_last() =~= results@.take(i as int));
            lemma_total_winnings_prefix(results@, i + 1);
        }
        let id = canister_data.my_token_balance.utility_token_transaction_history.len() as u64;
        let event = TokenEvent {
            amount: winnings,
            post_canister_id: key.0,
            post_id: key.1,
            slot_id: bet.slot_id,
            room_id: bet.room_id,
            event_outcome: bet.outcome_received,
            timestamp: now,
        };
        canister_data.my_token_balance.utility_token_balance = canister_data.my_token_balance.utility_token_balance
            + winnings;
        canister_data.my_token_balance.utility_token_transaction_history.push((id, event));
        i = i + 1;
    }
    assert(results@.take(results@.len() as int) =~= results@);
}

fn with_outcome_exec(bet: PlacedBetDetail, o: BetOutcomeForBetMaker) -> (r: PlacedBetDetail)
    ensures
        r == with_outcome(bet, o),
{
    PlacedBetDetail { outcome_received: o, ..bet }
}

/// The pending bet stored under `k`.
fn lookup_pending(pending: &Vec<(PlacedBetKey, PlacedBetDetail)>, k: &PlacedBetKey) -> (r: Option<
    PlacedBetDetail,
>)
    requires
        keys_distinct(pending@),
    ensures
        r == assoc_lookup(pending@, *k),
{
    proof {
        lemma_assoc_lookup_cases(pending@, *k);
    }
    let mut i: usize = 0;
    while i < pending.len()
        invariant
            i <= pending@.len(),
            keys_distinct(pending@),
            forall|t: int| 0 <= t < i ==> #[trigger] pending@[t].0 != *k,
        decreases pending@.len() - i,
    {
        if compare_placed_keys(&pending[i].0, k) == KeyOrder::Equal {
            proof {
                lemma_assoc_lookup_at(pending@, i as int);
            }
            return Some(pending[i].1);
        }
        i = i + 1;
    }
    None
}


/// A bet maker wins exactly when the room's winning side is the side of the
/// bet, loses exactly when the other side won, and learns nothing while the
/// room is open; winners and draws receive the calculated payout.
pub proof fn lemma_outcome_for_bet_maker(
    room: RoomBetPossibleOutcomes,
    direction: BetDirection,
    payout: BetPayout,
)
    ensures
        (outcome_for_bet_maker_spec(room, direction, payout) is Won) <==> ((room
            == RoomBetPossibleOutcomes::HotWon && direction == BetDirection::Hot) || (room
            == RoomBetPossibleOutcomes::NotWon && direction == BetDirection::Not)),
        (outcome_for_bet_maker_spec(room, direction, payout) is Lost) <==> ((room
            == RoomBetPossibleOutcomes::HotWon && direction == BetDirection::Not) || (room
            == RoomBetPossibleOutcomes::NotWon && direction == BetDirection::Hot)),
        (outcome_for_bet_maker_spec(room, direction, payout) == BetOutcomeForBetMaker::AwaitingResult)
            <==> room == RoomBetPossibleOutcomes::BetOngoing,
        winnings_of(outcome_for_bet_maker_spec(room, direction, payout)) == if outcome_for_bet_maker_spec(
            room,
            direction,
            payout,
        ) is Won || room == RoomBetPossibleOutcomes::Draw {
            payout_amount(payout)
        } else {
            0
        },
{
}

/// What a settled room tells each of the bets: once a room is no longer
/// open, every bet of the slot yields exactly one notification, in the order
/// of the bets, to the bet's maker about this post; a draw pays the bet's
/// calculated payout back, the winning side gets its payout and the other
/// side learns it lost. An open room tells nobody anything.
pub proof fn lemma_room_notifications_settled(
    room: RoomBetPossibleOutcomes,
    bets: Seq<BetDetails>,
    post_id: u64,
)
    ensures
        room == RoomBetPossibleOutcomes::BetOngoing ==> room_notifications(room, bets, post_id).len() == 0,
        room != RoomBetPossibleOutcomes::BetOngoing ==> room_notifications(room, bets, post_id).len()
            == bets.len(),
        forall|i: int|
            room != RoomBetPossibleOutcomes::BetOngoing && 0 <= i < bets.len() ==> {
                let n = #[trigger] room_notifications(room, bets, post_id)[i];
                let amount = match bets[i].payout {
                    BetPayout::Calculated(a) => a,
                    BetPayout::NotCalculatedYet => 0u64,
                };
                &&& n.bet_maker_canister_id == bets[i].bet_maker_canister_id
                &&& n.post_id == post_id
                &&& n.outcome == match room {
                    RoomBetPossibleOutcomes::Draw => BetOutcomeForBetMaker::Draw(amount),
                    RoomBetPossibleOutcomes::HotWon => if bets[i].bet_direction == BetDirection::Hot {
                        BetOutcomeForBetMaker::Won(amount)
                    } else {
                        BetOutcomeForBetMaker::Lost
                    },
                    RoomBetPossibleOutcomes::NotWon => if bets[i].bet_direction == BetDirection::Not {
                        BetOutcomeForBetMaker::Won(amount)
                    } else {
                        BetOutcomeForBetMaker::Lost
                    },
                    RoomBetPossibleOutcomes::BetOngoing => BetOutcomeForBetMaker::AwaitingResult,
                }
            },
    decreases bets.len(),
{
    if bets.len() > 0 {
        lemma_room_notifications_settled(room, bets.drop_last(), post_id);
        let b = bets.last();
        lemma_outcome_for_bet_maker(room, b.bet_direction, b.payout);
        assert forall|i: int| room != RoomBetPossibleOutcomes::BetOngoing && 0 <= i < bets.len() - 1 implies
            #[trigger] room_notifications(room, bets, post_id)[i] == room_notifications(
            room,
            bets.drop_last(),
            post_id,
        )[i] by {}
    }
}

/// The pending bets are exactly the bets of the book still awaiting their
/// result, whatever their side or amount: each awaiting bet is among them,
/// and each of them is an awaiting bet of the book.
pub proof fn lemma_awaiting_bets_complete(s: Seq<(PlacedBetKey, PlacedBetDetail)>)
    ensures
        forall|i: int|
            0 <= i < s.len() && s[i].1.outcome_received == BetOutcomeForBetMaker::AwaitingResult
                ==> awaiting_bets(s).contains(#[trigger] s[i]),
        forall|e: (PlacedBetKey, PlacedBetDetail)|
            #[trigger] awaiting_bets(s).contains(e) <==> (s.contains(e) && e.1.outcome_received
                == BetOutcomeForBetMaker::AwaitingResult),
        awaiting_bets(s).len() <= s.len(),
    decreases s.len(),
{
    lemma_awaiting_bets_members(s);
    if s.len() > 0 {
        let t = s.drop_last();
        lemma_awaiting_bets_complete(t);
        let a = awaiting_bets(s);
        let at = awaiting_bets(t);
        assert forall|i: int|
            0 <= i < s.len() && s[i].1.outcome_received == BetOutcomeForBetMaker::AwaitingResult
                implies a.contains(#[trigger] s[i]) by {
            if i < s.len() - 1 {
                assert(t[i] == s[i]);
                assert(at.contains(t[i]));
                let j = choose|j: int| 0 <= j < at.len() && at[j] == t[i];
                assert(a[j] == at[j]);
            } else {
                assert(a[a.len() - 1] == s[i]);
            }
        }
        assert forall|e: (PlacedBetKey, PlacedBetDetail)|
            #[trigger] a.contains(e) <==> (s.contains(e) && e.1.outcome_received
                == BetOutcomeForBetMaker::AwaitingResult) by {
            if a.contains(e) {
                let j = choose|j: int| 0 <= j < a.len() && a[j] == e;
                assert(s.contains(a[j]));
            }
            if s.contains(e) && e.1.outcome_received == BetOutcomeForBetMaker::AwaitingResult {
                let j = choose|j: int| 0 <= j < s.len() && s[j] == e;
                assert(a.contains(s[j]));
            }
        }
    }
}

/// Selecting the rooms of a range works item by item: the selection of two
/// lists one after the other is the selections one after the other, and a
/// single room is kept, with its details, exactly when its id lies in
/// `[start, end)`.
pub proof fn lemma_rooms_in_range_split(a: Seq<(GlobalRoomId, RoomDetails)>, b: Seq<(GlobalRoomId, RoomDetails)>, x: (GlobalRoomId, RoomDetails), start: GlobalRoomId, end: GlobalRoomId)
    ensures
        rooms_in_range(a + b, start, end) == rooms_in_range(a, start, end) + rooms_in_range(b, start, end),
        rooms_in_range(seq![x], start, end) == if !room_lt(x.0, start) && room_lt(x.0, end) { seq![x.1] } else { Seq::empty() },
    decreases b.len(),
{
    reveal_with_fuel(rooms_in_range, 2);
    assert(seq![x].drop_last() =~= Seq::<(GlobalRoomId, RoomDetails)>::empty());
    assert(seq![x].last() == x);
    assert(seq![x].drop_last().len() == 0);
    if !room_lt(x.0, start) && room_lt(x.0, end) {
        assert(rooms_in_range(seq![x], start, end) =~= seq![x.1]);
    } else {
        assert(rooms_in_range(seq![x], start, end) =~= Seq::empty());
    }
    if b.len() == 0 {
        assert(a + b =~= a);
        assert(rooms_in_range(a, start, end) + rooms_in_range(b, start, end) =~= rooms_in_range(a, start, end));
    } else {
        assert((a + b).drop_last() =~= a + b.drop_last());
        assert((a + b).last() == b.last());
        lemma_rooms_in_range_split(a, b.drop_last(), x, start, end);
        assert(rooms_in_range(a + b, start, end) =~= rooms_in_range(a, start, end) + rooms_in_range(b, start, end));
    }
}

/// Selecting the bets of a range works item by item: the selection of two
/// lists one after the other is the selections one after the other, and a
/// single bet is kept, with its details, exactly when its id lies between
/// `(start, low)` included and `(end, low)` excluded.
pub proof fn lemma_bets_in_range_split(a: Seq<(GlobalBetId, BetDetails)>, b: Seq<(GlobalBetId, BetDetails)>, x: (GlobalBetId, BetDetails), start: GlobalRoomId, end: GlobalRoomId, low: Principal)
    ensures
        bets_in_range(a + b, start, end, low) == bets_in_range(a, start, end, low) + bets_in_range(b, start, end, low),
        bets_in_range(seq![x], start, end, low) == if (room_lt(start, x.0.0) || (x.0.0 == start && !principal_lt(x.0.1, low))) && (room_lt(x.0.0, end) || (x.0.0 == end && principal_lt(x.0.1, low))) { seq![x.1] } else { Seq::empty() },
    decreases b.len(),
{
    reveal_with_fuel(bets_in_range, 2);
    assert(seq![x].drop_last() =~= Seq::<(GlobalBetId, BetDetails)>::empty());
    assert(seq![x].last() == x);
    assert(seq![x].drop_last().len() == 0);
    if (room_lt(start, x.0.0) || (x.0.0 == start && !principal_lt(x.0.1, low))) && (room_lt(x.0.0, end) || (x.0.0 == end && principal_lt(x.0.1, low))) {
        assert(bets_in_range(seq![x], start, end, low) =~= seq![x.1]);
    } else {
        assert(bets_in_range(seq![x], start, end, low) =~= Seq::empty());
    }
    if b.len() == 0 {
        assert(a + b =~= a);
        assert(bets_in_range(a, start, end, low) + bets_in_range(b, start, end, low) =~= bets_in_range(a, start, end, low));
    } else {
        assert((a + b).drop_last() =~= a + b.drop_last());
        assert((a + b).last() == b.last());
        lemma_bets_in_range_split(a, b.drop_last(), x, start, end, low);
        assert(bets_in_range(a + b, start, end, low) =~= bets_in_range(a, start, end, low) + bets_in_range(b, start, end, low));
    }
}

/// Picking the pending bets works bet by bet: the pending bets of two lists
/// one after the other are those of each, one after the other, and a single
/// bet is pending exactly when it still awaits its result.
pub proof fn lemma_awaiting_bets_split(a: Seq<(PlacedBetKey, PlacedBetDetail)>, b: Seq<(PlacedBetKey, PlacedBetDetail)>, x: (PlacedBetKey, PlacedBetDetail))
    ensures
        awaiting_bets(a + b) == awaiting_bets(a) + awaiting_bets(b),
        awaiting_bets(seq![x]) == if x.1.outcome_received == BetOutcomeForBetMaker::AwaitingResult { seq![x] } else { Seq::empty() },
    decreases b.len(),
{
    reveal_with_fuel(awaiting_bets, 2);
    assert(seq![x].drop_last() =~= Seq::<(PlacedBetKey, PlacedBetDetail)>::empty());
    assert(seq![x].last() == x);
    assert(seq![x].drop_last().len() == 0);
    if x.1.outcome_received == BetOutcomeForBetMaker::AwaitingResult {
        assert(awaiting_bets(seq![x]) =~= seq![x]);
    } else {
        assert(awaiting_bets(seq![x]) =~= Seq::empty());
    }
    if b.len() == 0 {
        assert(a + b =~= a);
        assert(awaiting_bets(a) + awaiting_bets(b) =~= awaiting_bets(a));
    } else {
        assert((a + b).drop_last() =~= a + b.drop_last());
        assert((a + b).last() == b.last());
        lemma_awaiting_bets_split(a, b.drop_last(), x);
        assert(awaiting_bets(a + b) =~= awaiting_bets(a) + awaiting_bets(b));
    }
}

/// A room's notifications go bet by bet: those for two lists of bets one
/// after the other are those for each, one after the other; a single bet
/// yields one notification to its maker once the room is settled and none
/// while it is open.
pub proof fn lemma_room_notifications_split(a: Seq<BetDetails>, b: Seq<BetDetails>, x: BetDetails, room: RoomBetPossibleOutcomes, post_id: u64)
    ensures
        room_notifications(room, a + b, post_id) == room_notifications(room, a, post_id) + room_notifications(room, b, post_id),
        room_notifications(room, seq![x], post_id) == if room == RoomBetPossibleOutcomes::BetOngoing { Seq::empty() } else { seq![OutcomeNotification { bet_maker_canister_id: x.bet_maker_canister_id, post_id, outcome: outcome_for_bet_maker_spec(room, x.bet_direction, x.payout) }] },
    decreases b.len(),
{
    reveal_with_fuel(room_notifications, 2);
    assert(seq![x].drop_last() =~= Seq::<BetDetails>::empty());
    assert(seq![x].last() == x);
    assert(seq![x].drop_last().len() == 0);
    if room == RoomBetPossibleOutcomes::BetOngoing {
        assert(room_notifications(room, seq![x], post_id) =~= Seq::empty());
    } else {
        assert(room_notifications(room, seq![x], post_id) =~= seq![OutcomeNotification { bet_maker_canister_id: x.bet_maker_canister_id, post_id, outcome: outcome_for_bet_maker_spec(room, x.bet_direction, x.payout) }]);
    }
    if b.len() == 0 {
        assert(a + b =~= a);
        assert(room_notifications(room, a, post_id) + room_notifications(room, b, post_id) =~= room_notifications(room, a, post_id));
    } else {
        assert((a + b).drop_last() =~= a + b.drop_last());
        assert((a + b).last() == b.last());
        lemma_room_notifications_split(a, b.drop_last(), x, room, post_id);
        assert(room_notifications(room, a + b, post_id) =~= room_notifications(room, a, post_id) + room_notifications(room, b, post_id));
    }
}

/// The winnings of a batch add up result by result: those of two batches
/// one after the other are the sum of each, and a single result is worth
/// the amount of a win or a draw and nothing otherwise.
pub proof fn lemma_total_winnings_split(
    a: Seq<(PlacedBetKey, BetOutcomeForBetMaker)>,
    b: Seq<(PlacedBetKey, BetOutcomeForBetMaker)>,
    x: (PlacedBetKey, BetOutcomeForBetMaker),
)
    ensures
        total_winnings(a + b) == total_winnings(a) + total_winnings(b),
        total_winnings(seq![x]) == match x.1 {
            BetOutcomeForBetMaker::Won(amount) => amount as int,
            BetOutcomeForBetMaker::Draw(amount) => amount as int,
            _ => 0,
        },
    decreases b.len(),
{
    reveal_with_fuel(total_winnings, 2);
    assert(seq![x].drop_last().len() == 0);
    assert(seq![x].last() == x);
    if b.len() == 0 {
        assert(a + b =~= a);
    } else {
        assert((a + b).drop_last() =~= a + b.drop_last());
        assert((a + b).last() == b.last());
        lemma_total_winnings_split(a, b.drop_last(), x);
    }
}

/// A slot's notifications go room by room: those for two lists of rooms one
/// after the other are those of each, one after the other, and a single
/// room gives its notifications for every bet of the slot.
pub proof fn lemma_slot_notifications_split(
    a: Seq<RoomDetails>,
    b: Seq<RoomDetails>,
    x: RoomDetails,
    bets: Seq<BetDetails>,
    post_id: u64,
)
    ensures
        slot_notifications(a + b, bets, post_id) == slot_notifications(a, bets, post_id) + slot_notifications(
            b,
            bets,
            post_id,
        ),
        slot_notifications(seq![x], bets, post_id) == room_notifications(x.bet_outcome, bets, post_id),
    decreases b.len(),
{
    reveal_with_fuel(slot_notifications, 2);
    assert(seq![x].drop_last().len() == 0);
    assert(seq![x].last() == x);
    assert(slot_notifications(seq![x], bets, post_id) =~= room_notifications(x.bet_outcome, bets, post_id));
    if b.len() == 0 {
        assert(a + b =~= a);
        assert(slot_notifications(a, bets, post_id) + slot_notifications(b, bets, post_id) =~= slot_notifications(
            a,
            bets,
            post_id,
        ));
    } else {
        assert((a + b).drop_last() =~= a + b.drop_last());
        assert((a + b).last() == b.last());
        lemma_slot_notifications_split(a, b.drop_last(), x, bets, post_id);
        assert(slot_notifications(a + b, bets, post_id) =~= slot_notifications(a, bets, post_id)
            + slot_notifications(b, bets, post_id));
    }
}

/// After a batch of results, a key that no result names keeps what it held,
/// and a key that results name holds its pending bet with the outcome of the
/// last of those results.
pub proof fn lemma_lookup_after_results(
    before: Option<PlacedBetDetail>,
    pending: Seq<(PlacedBetKey, PlacedBetDetail)>,
    results: Seq<(PlacedBetKey, BetOutcomeForBetMaker)>,
    k: PlacedBetKey,
)
    ensures
        (forall|i: int| 0 <= i < results.len() ==> #[trigger] results[i].0 != k) ==> lookup_after_results(
            before,
            pending,
            results,
            k,
        ) == before,
        forall|j: int|
            0 <= j < results.len() && #[trigger] results[j].0 == k && (forall|i: int|
                j < i < results.len() ==> #[trigger] results[i].0 != k) ==> lookup_after_results(
                before,
                pending,
                results,
                k,
            ) == Some(PlacedBetDetail { outcome_received: results[j].1, ..assoc_lookup(pending, k).unwrap() }),
    decreases results.len(),
{
    if results.len() > 0 {
        let t = results.drop_last();
        lemma_lookup_after_results(before, pending, t, k);
        if results.last().0 != k {
            assert forall|j: int|
                0 <= j < results.len() && #[trigger] results[j].0 == k && (forall|i: int|
                    j < i < results.len() ==> #[trigger] results[i].0 != k) implies lookup_after_results(
                    before,
                    pending,
                    results,
                    k,
                ) == Some(PlacedBetDetail { outcome_received: results[j].1, ..assoc_lookup(pending, k).unwrap() }) by {
                assert(j != results.len() - 1);
                assert(t[j] == results[j]);
                assert forall|i: int| j < i < t.len() implies #[trigger] t[i].0 != k by {
                    assert(t[i] == results[i]);
                }
            }
            if forall|i: int| 0 <= i < results.len() ==> #[trigger] results[i].0 != k {
                assert forall|i: int| 0 <= i < t.len() implies #[trigger] t[i].0 != k by {
                    assert(t[i] == results[i]);
                }
            }
        } else {
            assert(results[results.len() - 1].0 == k);
        }
    }
}

/// The pending bets keep the key order of the book, so each post appears
/// at most once among them.
pub proof fn lemma_awaiting_bets_sorted(s: Seq<(PlacedBetKey, PlacedBetDetail)>)
    requires
        placed_keys_sorted(s),
    ensures
        placed_keys_sorted(awaiting_bets(s)),
        keys_distinct(awaiting_bets(s)),
    decreases s.len(),
{
    if s.len() > 0 {
        let t = s.drop_last();
        assert forall|i: int, j: int| 0 <= i < j < t.len() implies placed_key_lt(#[trigger] t[i].0, #[trigger] t[j].0) by {
            assert(t[i] == s[i] && t[j] == s[j]);
        }
        lemma_awaiting_bets_sorted(t);
        lemma_awaiting_bets_members(t);
        let a = awaiting_bets(s);
        let at = awaiting_bets(t);
        if s.last().1.outcome_received == BetOutcomeForBetMaker::AwaitingResult {
            assert forall|i: int, j: int| 0 <= i < j < a.len() implies placed_key_lt(#[trigger] a[i].0, #[trigger] a[j].0) by {
                if j == a.len() - 1 {
                    assert(a[i] == at[i]);
                    assert(t.contains(at[i]));
                    let k = choose|k: int| 0 <= k < t.len() && t[k] == at[i];
                    assert(s[k] == t[k]);
                    assert(placed_key_lt(s[k].0, s[s.len() - 1].0));
                } else {
                    assert(a[i] == at[i] && a[j] == at[j]);
                }
            }
        }
    }
    let a = awaiting_bets(s);
    assert forall|i: int, j: int|
        0 <= i < a.len() && 0 <= j < a.len() && i != j implies #[trigger] a[i].0 != #[trigger] a[j].0 by {
        if i < j {
            lemma_placed_key_lt_asymmetric(a[i].0, a[j].0);
        } else {
            lemma_placed_key_lt_asymmetric(a[j].0, a[i].0);
        }
    }
}

/// Stored bets are found again: a lookup after storing a bet under a key
/// returns that bet, and the bets under other keys stay.
pub proof fn lemma_placed_bet_read_after_write(
    before: Seq<(PlacedBetKey, PlacedBetDetail)>,
    after: Seq<(PlacedBetKey, PlacedBetDetail)>,
    k: PlacedBetKey,
    v: PlacedBetDetail,
)
    requires
        forall|k2: PlacedBetKey| #[trigger] assoc_lookup(after, k2) == if k2 == k {
            Some(v)
        } else {
            assoc_lookup(before, k2)
        },
    ensures
        assoc_lookup(after, k) == Some(v),
        forall|k2: PlacedBetKey| k2 != k ==> #[trigger] assoc_lookup(after, k2) == assoc_lookup(before, k2),
{
    assert(assoc_lookup(after, k) == Some(v));
}


/// The bet this user placed on post `post_id` of canister `canister_id`.
pub fn get_individual_hot_or_not_bet_placed_by_this_profile(
    canister_data: &CanisterData,
    canister_id: Principal,
    post_id: u64,
) -> (r: Option<PlacedBetDetail>)
    requires
        canister_data.wf(),
    ensures
        r == canister_data.all_hot_or_not_bets_placed.lookup((canister_id, post_id)),
{
    canister_data.all_hot_or_not_bets_placed.get(&(canister_id, post_id))
}

/// Stores a placed bet for post `post_id` of canister `post_canister_id`,
/// replacing any earlier one.
pub fn insert_in_all_hot_or_not_bets_placed(
    canister_data: &mut CanisterData,
    post_canister_id: Principal,
    post_id: u64,
    placed_bet_detail: PlacedBetDetail,
)
    requires
        old(canister_data).wf(),
    ensures
        final(canister_data).wf(),
        forall|k: PlacedBetKey| #[trigger] final(canister_data).all_hot_or_not_bets_placed.lookup(k) == if k
            == (post_canister_id, post_id) {
            Some(placed_bet_detail)
        } else {
            old(canister_data).all_hot_or_not_bets_placed.lookup(k)
        },
        *final(canister_data) == (CanisterData {
            all_hot_or_not_bets_placed: final(canister_data).all_hot_or_not_bets_placed,
            ..*old(canister_data)
        }),
{
    canister_data.all_hot_or_not_bets_placed.insert((post_canister_id, post_id), placed_bet_detail);
}

} // verus!
