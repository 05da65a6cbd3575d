use individual_user_template::bets::{
    apply_bet_results, get_bet_details_for_a_user_on_a_post,
    get_hot_or_not_bets_placed_by_this_profile_with_pagination, global_bet_id_of_placed_bet,
    inform_participants_of_outcome, once_get_posts_that_have_pending_outcomes,
    outcome_for_bet_maker, pending_bets, record_bet_outcome, resolve_pending_bets_with_results,
    select_slot_bets, select_slot_rooms, slot_room_range, slot_timer_delay,
    BetDetails, BetDirection, BetOutcomeForBetMaker, BetPayout, GlobalBetId, GlobalRoomId,
    PlacedBetBook, PlacedBetDetail, RoomBetPossibleOutcomes, RoomDetails,
};
use individual_user_template::canister_data::CanisterData;
use individual_user_template::principal::Principal;

const SECOND: u64 = 1_000_000_000;

fn named(name: &str) -> Principal {
    let c = candid::Principal::self_authenticating(name.as_bytes());
    Principal { len: c.len(), bytes: *c.as_fixed_bytes() }
}

fn from_slice(bytes: &[u8]) -> Principal {
    let c = candid::Principal::from_slice(bytes);
    Principal { len: c.len(), bytes: *c.as_fixed_bytes() }
}

fn bet(canister: Principal, post_id: u64, outcome: BetOutcomeForBetMaker) -> PlacedBetDetail {
    PlacedBetDetail {
        canister_id: canister,
        post_id,
        slot_id: 1,
        room_id: 1,
        amount_bet: 100,
        bet_direction: BetDirection::Hot,
        bet_placed_at: 0,
        outcome_received: outcome,
    }
}

fn room(outcome: RoomBetPossibleOutcomes) -> RoomDetails {
    RoomDetails { bet_outcome: outcome, room_bets_total_pot: 0, total_hot_bets: 0, total_not_bets: 0 }
}

fn bet_details(maker: Principal, direction: BetDirection, payout: BetPayout) -> BetDetails {
    BetDetails { amount: 100, bet_direction: direction, payout, bet_maker_canister_id: maker }
}

#[test]
fn outcome_follows_the_winning_side() {
    let paid = BetPayout::Calculated(180);
    assert_eq!(outcome_for_bet_maker(RoomBetPossibleOutcomes::HotWon, BetDirection::Hot, paid), BetOutcomeForBetMaker::Won(180));
    assert_eq!(outcome_for_bet_maker(RoomBetPossibleOutcomes::HotWon, BetDirection::Not, paid), BetOutcomeForBetMaker::Lost);
    assert_eq!(outcome_for_bet_maker(RoomBetPossibleOutcomes::NotWon, BetDirection::Not, paid), BetOutcomeForBetMaker::Won(180));
    assert_eq!(outcome_for_bet_maker(RoomBetPossibleOutcomes::NotWon, BetDirection::Hot, paid), BetOutcomeForBetMaker::Lost);
    assert_eq!(outcome_for_bet_maker(RoomBetPossibleOutcomes::Draw, BetDirection::Hot, paid), BetOutcomeForBetMaker::Draw(180));
    assert_eq!(
        outcome_for_bet_maker(RoomBetPossibleOutcomes::Draw, BetDirection::Not, BetPayout::NotCalculatedYet),
        BetOutcomeForBetMaker::Draw(0)
    );
    assert_eq!(
        outcome_for_bet_maker(RoomBetPossibleOutcomes::BetOngoing, BetDirection::Hot, paid),
        BetOutcomeForBetMaker::AwaitingResult
    );
}

#[test]
fn participants_are_informed_per_room_and_bet() {
    let a = named("a");
    let b = named("b");
    let rooms = vec![room(RoomBetPossibleOutcomes::HotWon), room(RoomBetPossibleOutcomes::BetOngoing)];
    let bets = vec![
        bet_details(a, BetDirection::Hot, BetPayout::Calculated(50)),
        bet_details(b, BetDirection::Not, BetPayout::NotCalculatedYet),
    ];
    let sent = inform_participants_of_outcome(true, 7, &rooms, &bets);
    assert_eq!(sent.len(), 2);
    assert_eq!(sent[0].bet_maker_canister_id, a);
    assert_eq!(sent[0].outcome, BetOutcomeForBetMaker::Won(50));
    assert_eq!(sent[0].post_id, 7);
    assert_eq!(sent[1].bet_maker_canister_id, b);
    assert_eq!(sent[1].outcome, BetOutcomeForBetMaker::Lost);
    assert!(inform_participants_of_outcome(false, 7, &rooms, &bets).is_empty());

    let (start, end) = slot_room_range(7, 3);
    assert_eq!(start, GlobalRoomId(7, 3, 1));
    assert_eq!(end, GlobalRoomId(7, 4, 1));
}

#[test]
fn overdue_slots_are_listed_once() {
    let created = 1_000 * SECOND;
    let overdue_room = (GlobalRoomId(1, 2, 1), room(RoomBetPossibleOutcomes::BetOngoing));
    let same_slot_other_room = (GlobalRoomId(1, 2, 2), room(RoomBetPossibleOutcomes::BetOngoing));
    let closed_room = (GlobalRoomId(1, 1, 1), room(RoomBetPossibleOutcomes::HotWon));
    let future_room = (GlobalRoomId(1, 9, 1), room(RoomBetPossibleOutcomes::BetOngoing));
    let unknown_post_room = (GlobalRoomId(5, 1, 1), room(RoomBetPossibleOutcomes::BetOngoing));
    let rooms = vec![overdue_room, same_slot_other_room, closed_room, future_room, unknown_post_room];
    let posts = vec![(1, created)];
    let now = created + 2 * 65 * 60 * SECOND + 1;
    let pending = once_get_posts_that_have_pending_outcomes(&rooms, &posts, now);
    assert_eq!(pending, vec![(1, 2)]);
    let exactly_at = created + 2 * 65 * 60 * SECOND;
    assert!(once_get_posts_that_have_pending_outcomes(&rooms, &posts, exactly_at).is_empty());
}

#[test]
fn slot_timer_waits_until_the_slot_ends() {
    let created = 10 * SECOND;
    assert_eq!(slot_timer_delay(created, 2, created), 2 * 3600 * SECOND as u128);
    assert_eq!(slot_timer_delay(created, 2, created + 3600 * SECOND), 3600 * SECOND as u128);
    assert_eq!(slot_timer_delay(created, 1, created + 7200 * SECOND), 0);
}

#[test]
fn placed_bets_are_kept_in_key_order() {
    let mut book = PlacedBetBook::new();
    let short = from_slice(&[1, 2]);
    let long_low = from_slice(&[0, 0, 0]);
    let long_high = from_slice(&[0, 0, 9]);
    book.insert((long_high, 1), bet(long_high, 1, BetOutcomeForBetMaker::AwaitingResult));
    book.insert((short, 5), bet(short, 5, BetOutcomeForBetMaker::Lost));
    book.insert((long_low, 2), bet(long_low, 2, BetOutcomeForBetMaker::AwaitingResult));
    book.insert((short, 3), bet(short, 3, BetOutcomeForBetMaker::AwaitingResult));
    let keys: Vec<_> = book.entries.iter().map(|e| e.0).collect();
    assert_eq!(keys, vec![(short, 3), (short, 5), (long_low, 2), (long_high, 1)]);

    book.insert((short, 5), bet(short, 5, BetOutcomeForBetMaker::Won(20)));
    assert_eq!(book.len(), 4);
    assert_eq!(book.get(&(short, 5)).unwrap().outcome_received, BetOutcomeForBetMaker::Won(20));
    assert!(book.get(&(short, 6)).is_none());

    let page = get_hot_or_not_bets_placed_by_this_profile_with_pagination(&book, 1);
    assert_eq!(page.iter().map(|b| b.post_id).collect::<Vec<_>>(), vec![5, 2, 1]);
    assert!(get_hot_or_not_bets_placed_by_this_profile_with_pagination(&book, 4).is_empty());
}

#[test]
fn pending_bets_are_resolved_and_credited() {
    let mut book = PlacedBetBook::new();
    let post_canister = named("post canister");
    book.insert((post_canister, 1), bet(post_canister, 1, BetOutcomeForBetMaker::AwaitingResult));
    book.insert((post_canister, 2), bet(post_canister, 2, BetOutcomeForBetMaker::Lost));
    book.insert((post_canister, 3), bet(post_canister, 3, BetOutcomeForBetMaker::AwaitingResult));
    let pending = pending_bets(&book);
    assert_eq!(pending.iter().map(|e| e.0 .1).collect::<Vec<_>>(), vec![1, 3]);

    let me = named("me");
    let id = global_bet_id_of_placed_bet(&pending[0].0, &pending[0].1, me);
    assert_eq!(id.0, GlobalRoomId(1, 1, 1));
    assert_eq!(id.1, me);

    let results = vec![((post_canister, 3), BetOutcomeForBetMaker::Draw(40))];
    let credits = apply_bet_results(&mut book, &pending, &results);
    assert_eq!(credits.len(), 1);
    assert_eq!(credits[0].2, 40);
    assert_eq!(book.get(&(post_canister, 3)).unwrap().outcome_received, BetOutcomeForBetMaker::Draw(40));
    assert_eq!(book.get(&(post_canister, 1)).unwrap().outcome_received, BetOutcomeForBetMaker::AwaitingResult);

    let winnings = record_bet_outcome(&mut book, (post_canister, 1), pending[0].1, BetOutcomeForBetMaker::Lost);
    assert_eq!(winnings, 0);
    assert!(pending_bets(&book).is_empty());
}

#[test]
fn bet_details_lookup_finds_first_matching_bet() {
    let user = named("user");
    let other = named("other");
    let bets = vec![
        (GlobalBetId(GlobalRoomId(1, 1, 1), other), bet_details(other, BetDirection::Hot, BetPayout::NotCalculatedYet)),
        (GlobalBetId(GlobalRoomId(2, 1, 1), user), bet_details(user, BetDirection::Not, BetPayout::Calculated(3))),
        (GlobalBetId(GlobalRoomId(2, 2, 1), user), bet_details(user, BetDirection::Hot, BetPayout::Calculated(9))),
    ];
    let found = get_bet_details_for_a_user_on_a_post(&bets, user, 2).unwrap();
    assert_eq!(found.bet_direction, BetDirection::Not);
    assert_eq!(get_bet_details_for_a_user_on_a_post(&bets, user, 1).unwrap_err(), "No Bets Found");
}

#[test]
fn resolving_bets_credits_winnings_and_records_payouts() {
    let c1 = named("post canister 1");
    let c2 = named("post canister 2");
    let mut data = CanisterData::default();
    data.my_token_balance.utility_token_balance = 1000;
    data.all_hot_or_not_bets_placed.insert((c1, 5), bet(c1, 5, BetOutcomeForBetMaker::AwaitingResult));
    data.all_hot_or_not_bets_placed.insert((c2, 6), bet(c2, 6, BetOutcomeForBetMaker::AwaitingResult));
    data.all_hot_or_not_bets_placed.insert((c2, 7), bet(c2, 7, BetOutcomeForBetMaker::AwaitingResult));
    let pending = pending_bets(&data.all_hot_or_not_bets_placed);
    let results = vec![
        ((c1, 5), BetOutcomeForBetMaker::Won(180)),
        ((c2, 6), BetOutcomeForBetMaker::Lost),
        ((c2, 7), BetOutcomeForBetMaker::Draw(95)),
    ];
    resolve_pending_bets_with_results(&mut data, &pending, &results, 42);
    assert_eq!(data.my_token_balance.utility_token_balance, 1000 + 180 + 95);
    let history = &data.my_token_balance.utility_token_transaction_history;
    assert_eq!(history.len(), 3);
    assert_eq!(history[0].0, 0);
    assert_eq!(history[0].1.amount, 180);
    assert_eq!(history[0].1.post_canister_id, c1);
    assert_eq!(history[0].1.post_id, 5);
    assert_eq!(history[0].1.event_outcome, BetOutcomeForBetMaker::Won(180));
    assert_eq!(history[0].1.timestamp, 42);
    assert_eq!(history[1].0, 1);
    assert_eq!(history[1].1.amount, 0);
    assert_eq!(history[2].0, 2);
    assert_eq!(history[2].1.amount, 95);
    assert_eq!(
        data.all_hot_or_not_bets_placed.get(&(c2, 7)).unwrap().outcome_received,
        BetOutcomeForBetMaker::Draw(95)
    );
    assert!(pending_bets(&data.all_hot_or_not_bets_placed).is_empty());
}

#[test]
fn slot_selection_keeps_the_slot_range_in_order() {
    let low = from_slice(&[]);
    let a = named("a");
    let b = named("b");
    let rooms = vec![
        (GlobalRoomId(4, 1, 3), room(RoomBetPossibleOutcomes::Draw)),
        (GlobalRoomId(4, 2, 0), room(RoomBetPossibleOutcomes::NotWon)),
        (GlobalRoomId(4, 2, 1), room(RoomBetPossibleOutcomes::HotWon)),
        (GlobalRoomId(4, 2, 7), room(RoomBetPossibleOutcomes::BetOngoing)),
        (GlobalRoomId(4, 3, 0), room(RoomBetPossibleOutcomes::Draw)),
        (GlobalRoomId(4, 3, 1), room(RoomBetPossibleOutcomes::NotWon)),
        (GlobalRoomId(5, 2, 1), room(RoomBetPossibleOutcomes::NotWon)),
    ];
    let picked = select_slot_rooms(&rooms, 4, 2);
    let outcomes: Vec<_> = picked.iter().map(|r| r.bet_outcome).collect();
    assert_eq!(
        outcomes,
        vec![RoomBetPossibleOutcomes::HotWon, RoomBetPossibleOutcomes::BetOngoing, RoomBetPossibleOutcomes::Draw]
    );

    let bets = vec![
        (GlobalBetId(GlobalRoomId(4, 2, 0), a), bet_details(a, BetDirection::Hot, BetPayout::Calculated(1))),
        (GlobalBetId(GlobalRoomId(4, 2, 1), a), bet_details(a, BetDirection::Hot, BetPayout::Calculated(2))),
        (GlobalBetId(GlobalRoomId(4, 2, 5), b), bet_details(b, BetDirection::Not, BetPayout::Calculated(3))),
        (GlobalBetId(GlobalRoomId(4, 3, 1), a), bet_details(a, BetDirection::Hot, BetPayout::Calculated(4))),
    ];
    let picked = select_slot_bets(&bets, 4, 2, low);
    let payouts: Vec<_> = picked.iter().map(|b| b.payout).collect();
    assert_eq!(payouts, vec![BetPayout::Calculated(2), BetPayout::Calculated(3)]);
}
