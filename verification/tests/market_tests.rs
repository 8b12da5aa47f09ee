use parimutuel::errors::MarketError;
use parimutuel::ledger::{StakeLedger, Wager};
use parimutuel::market::{MarketState, Stage};
use parimutuel::settlement::{aggregate_totals, settle, total_for_label, total_pool};

fn open_market(creator: &str, deadline: &str) -> MarketState {
    let mut m = MarketState::new(creator.to_string());
    let r = m.initialize(&creator.to_string(), &deadline.to_string());
    assert!(r.is_ok());
    m
}

#[test]
fn scenario_three_wagers_proportional_payout() {
    let mut m = open_market("creator", "");
    assert!(m.place_bet(&"Alice".to_string(), &"yes".to_string(), 100, 0).is_ok());
    assert!(m.place_bet(&"Bob".to_string(), &"yes".to_string(), 300, 0).is_ok());
    assert!(m.place_bet(&"Carol".to_string(), &"no".to_string(), 600, 0).is_ok());

    assert_eq!(total_pool(m.ledger.wagers()), 1000);
    assert_eq!(total_for_label(m.ledger.wagers(), &"yes".to_string()), 400);
    assert_eq!(total_for_label(m.ledger.wagers(), &"no".to_string()), 600);

    let payouts = m
        .close_market(&"creator".to_string(), &"yes".to_string(), 0)
        .expect("close must settle");
    assert_eq!(payouts.len(), 2);
    assert_eq!(payouts[0].bettor, "Alice");
    assert_eq!(payouts[0].amount, 250);
    assert_eq!(payouts[1].bettor, "Bob");
    assert_eq!(payouts[1].amount, 750);
    assert_eq!(m.stage, Stage::Closed);
}

#[test]
fn scenario_winning_label_without_stake_pays_nobody() {
    let mut m = open_market("creator", "");
    assert!(m.place_bet(&"Alice".to_string(), &"yes".to_string(), 100, 0).is_ok());
    assert_eq!(total_for_label(m.ledger.wagers(), &"no".to_string()), 0);
    let payouts = m
        .close_market(&"creator".to_string(), &"no".to_string(), 0)
        .expect("close must succeed even when nobody wins");
    assert!(payouts.is_empty());
    assert_eq!(m.stage, Stage::Closed);
}

#[test]
fn scenario_close_by_non_creator_rejected() {
    let mut m = open_market("creator", "");
    assert!(m.place_bet(&"Alice".to_string(), &"yes".to_string(), 100, 0).is_ok());
    let r = m.close_market(&"mallory".to_string(), &"yes".to_string(), 0);
    assert_eq!(r.unwrap_err(), MarketError::Unauthorized);
    assert_eq!(m.stage, Stage::Open);
    assert_eq!(m.ledger.wagers().len(), 1);
}

#[test]
fn scenario_late_bet_not_recorded_and_excluded_from_settlement() {
    // deadline 1970-01-01 01:00 UTC = epoch second 3600
    let mut m = open_market("creator", "1970-01-01 01:00");
    assert_eq!(m.deadline, 3600);
    assert!(m.place_bet(&"Alice".to_string(), &"yes".to_string(), 100, 100).is_ok());
    let late = m.place_bet(&"Bob".to_string(), &"yes".to_string(), 300, 4000);
    assert_eq!(late.unwrap_err(), MarketError::BettingClosed);
    assert_eq!(m.ledger.wagers().len(), 1);

    let payouts = m
        .close_market(&"creator".to_string(), &"yes".to_string(), 4000)
        .expect("close after deadline must settle");
    assert_eq!(payouts.len(), 1);
    assert_eq!(payouts[0].bettor, "Alice");
    assert_eq!(payouts[0].amount, 100);
}

#[test]
fn scenario_close_without_bets_rejected() {
    let mut m = open_market("creator", "");
    let r = m.close_market(&"creator".to_string(), &"yes".to_string(), 0);
    assert_eq!(r.unwrap_err(), MarketError::NoBets);
    // rejection is atomic: the market stays open rather than being marked
    // closed, so bets and a later close are still possible
    assert_eq!(m.stage, Stage::Open);
    assert!(m.place_bet(&"Alice".to_string(), &"yes".to_string(), 1, 0).is_ok());
    assert!(m.close_market(&"creator".to_string(), &"yes".to_string(), 0).is_ok());
}

#[test]
fn close_twice_rejects_second_call() {
    let mut m = open_market("creator", "");
    assert!(m.place_bet(&"Alice".to_string(), &"yes".to_string(), 100, 0).is_ok());
    assert!(m.close_market(&"creator".to_string(), &"yes".to_string(), 0).is_ok());
    let wagers_before: Vec<(String, u32, String)> = m
        .ledger
        .wagers()
        .iter()
        .map(|w| (w.bettor.clone(), w.amount, w.outcome.clone()))
        .collect();
    let r = m.close_market(&"creator".to_string(), &"yes".to_string(), 0);
    assert_eq!(r.unwrap_err(), MarketError::AlreadyClosed);
    let wagers_after: Vec<(String, u32, String)> = m
        .ledger
        .wagers()
        .iter()
        .map(|w| (w.bettor.clone(), w.amount, w.outcome.clone()))
        .collect();
    assert_eq!(wagers_before, wagers_after);
}

#[test]
fn no_deadline_accepts_bets_at_any_time() {
    let mut m = open_market("creator", "");
    assert_eq!(m.deadline, 0);
    assert!(m.place_bet(&"a".to_string(), &"yes".to_string(), 1, i64::MIN).is_ok());
    assert!(m.place_bet(&"b".to_string(), &"yes".to_string(), 1, i64::MAX).is_ok());
    assert!(m.place_bet(&"c".to_string(), &"yes".to_string(), 1, 0).is_ok());
    assert_eq!(m.ledger.wagers().len(), 3);
}

#[test]
fn rebetting_replaces_the_previous_wager() {
    let mut m = open_market("creator", "");
    assert!(m.place_bet(&"Alice".to_string(), &"yes".to_string(), 100, 0).is_ok());
    assert!(m.place_bet(&"Alice".to_string(), &"no".to_string(), 200, 0).is_ok());
    let wagers = m.ledger.wagers();
    assert_eq!(wagers.len(), 1);
    assert_eq!(wagers[0].bettor, "Alice");
    assert_eq!(wagers[0].amount, 200);
    assert_eq!(wagers[0].outcome, "no");
}

#[test]
fn malformed_deadline_rejected_and_market_stays_uninitialized() {
    let mut m = MarketState::new("creator".to_string());
    let r = m.initialize(&"creator".to_string(), &"not a date".to_string());
    assert_eq!(r.unwrap_err(), MarketError::BadDeadlineFormat);
    assert_eq!(m.stage, Stage::Uninitialized);
    // the market never opened, so betting is reported closed
    let b = m.place_bet(&"Alice".to_string(), &"yes".to_string(), 1, 0);
    assert_eq!(b.unwrap_err(), MarketError::BettingClosed);
}

#[test]
fn initialize_by_non_creator_rejected() {
    let mut m = MarketState::new("creator".to_string());
    let r = m.initialize(&"mallory".to_string(), &"".to_string());
    assert_eq!(r.unwrap_err(), MarketError::Unauthorized);
    assert_eq!(m.stage, Stage::Uninitialized);
}

#[test]
fn empty_labels_are_missing_parameters() {
    let mut m = open_market("creator", "");
    let b = m.place_bet(&"Alice".to_string(), &"".to_string(), 1, 0);
    assert_eq!(b.unwrap_err(), MarketError::MissingParameter);
    assert!(m.place_bet(&"Alice".to_string(), &"yes".to_string(), 1, 0).is_ok());
    let c = m.close_market(&"creator".to_string(), &"".to_string(), 0);
    assert_eq!(c.unwrap_err(), MarketError::MissingParameter);
    assert_eq!(m.stage, Stage::Open);
}

#[test]
fn close_before_deadline_is_too_early() {
    let mut m = open_market("creator", "1970-01-01 01:00");
    assert!(m.place_bet(&"Alice".to_string(), &"yes".to_string(), 1, 0).is_ok());
    // the deadline second itself still belongs to the betting window
    let r = m.close_market(&"creator".to_string(), &"yes".to_string(), 3600);
    assert_eq!(r.unwrap_err(), MarketError::TooEarly);
    assert_eq!(m.stage, Stage::Open);
    assert!(m.close_market(&"creator".to_string(), &"yes".to_string(), 3601).is_ok());
}

#[test]
fn deadline_string_parses_to_utc_epoch_seconds() {
    let m = open_market("creator", "2021-01-01 02:00");
    assert_eq!(m.deadline, 1_609_466_400);
    let m2 = open_market("creator", "1970-01-02 00:00");
    assert_eq!(m2.deadline, 86_400);
}

#[test]
fn bets_on_deadline_second_still_accepted() {
    let mut m = open_market("creator", "1970-01-01 01:00");
    assert!(m.place_bet(&"Alice".to_string(), &"yes".to_string(), 1, 3600).is_ok());
    let late = m.place_bet(&"Bob".to_string(), &"yes".to_string(), 1, 3601);
    assert_eq!(late.unwrap_err(), MarketError::BettingClosed);
}

#[test]
fn reinitializing_keeps_wagers_and_resets_deadline() {
    let mut m = open_market("creator", "1970-01-01 01:00");
    assert!(m.place_bet(&"Alice".to_string(), &"yes".to_string(), 5, 0).is_ok());
    assert!(m.initialize(&"creator".to_string(), &"".to_string()).is_ok());
    assert_eq!(m.deadline, 0);
    assert_eq!(m.ledger.wagers().len(), 1);
    // with the deadline gone, a formerly late bet is accepted
    assert!(m.place_bet(&"Bob".to_string(), &"no".to_string(), 5, 4000).is_ok());
}

#[test]
fn floor_policy_keeps_rounding_remainder_in_the_pool() {
    let mut m = open_market("creator", "");
    assert!(m.place_bet(&"Alice".to_string(), &"yes".to_string(), 1, 0).is_ok());
    assert!(m.place_bet(&"Bob".to_string(), &"yes".to_string(), 1, 0).is_ok());
    assert!(m.place_bet(&"Carol".to_string(), &"no".to_string(), 1, 0).is_ok());
    // pool = 3, staked on "yes" = 2: each winner gets floor(1 * 3 / 2) = 1,
    // the remainder of 1 stays with the market
    let payouts = m
        .close_market(&"creator".to_string(), &"yes".to_string(), 0)
        .expect("close must settle");
    assert_eq!(payouts.len(), 2);
    assert_eq!(payouts[0].amount, 1);
    assert_eq!(payouts[1].amount, 1);
    let paid: u128 = payouts.iter().map(|p| p.amount).sum();
    assert!(paid <= 3);
}

#[test]
fn zero_stake_winner_gets_no_instruction() {
    let wagers = vec![
        Wager { bettor: "Alice".to_string(), amount: 0, outcome: "yes".to_string() },
        Wager { bettor: "Bob".to_string(), amount: 100, outcome: "yes".to_string() },
    ];
    let payouts = settle(&wagers, &"yes".to_string());
    assert_eq!(payouts.len(), 1);
    assert_eq!(payouts[0].bettor, "Bob");
    assert_eq!(payouts[0].amount, 100);
}

#[test]
fn aggregate_reports_each_label_once_with_exact_totals() {
    let wagers = vec![
        Wager { bettor: "Alice".to_string(), amount: 100, outcome: "yes".to_string() },
        Wager { bettor: "Bob".to_string(), amount: 300, outcome: "yes".to_string() },
        Wager { bettor: "Carol".to_string(), amount: 600, outcome: "no".to_string() },
    ];
    let totals = aggregate_totals(&wagers);
    assert_eq!(totals.len(), 2);
    assert_eq!(totals[0].label, "yes");
    assert_eq!(totals[0].total, 400);
    assert_eq!(totals[1].label, "no");
    assert_eq!(totals[1].total, 600);
}

#[test]
fn ledger_rebuild_rejects_duplicate_bettors() {
    let entries = vec![
        Wager { bettor: "Alice".to_string(), amount: 1, outcome: "yes".to_string() },
        Wager { bettor: "Alice".to_string(), amount: 2, outcome: "no".to_string() },
    ];
    let r = StakeLedger::from_entries(entries);
    assert_eq!(r.err(), Some(MarketError::CorruptState));
}

#[test]
fn ledger_rebuild_accepts_distinct_bettors() {
    let entries = vec![
        Wager { bettor: "Alice".to_string(), amount: 1, outcome: "yes".to_string() },
        Wager { bettor: "Bob".to_string(), amount: 2, outcome: "no".to_string() },
    ];
    let l = StakeLedger::from_entries(entries).expect("distinct entries are valid");
    assert_eq!(l.wagers().len(), 2);
    assert_eq!(total_pool(l.wagers()), 3);
}

#[test]
fn betting_before_initialization_rejected() {
    let mut m = MarketState::new("creator".to_string());
    let b = m.place_bet(&"Alice".to_string(), &"yes".to_string(), 1, 0);
    assert_eq!(b.unwrap_err(), MarketError::BettingClosed);
    assert_eq!(m.ledger.wagers().len(), 0);
}

#[test]
fn closing_before_initialization_reports_already_closed() {
    let mut m = MarketState::new("creator".to_string());
    let r = m.close_market(&"creator".to_string(), &"yes".to_string(), 0);
    assert_eq!(r.unwrap_err(), MarketError::AlreadyClosed);
}

#[test]
fn large_stakes_settle_without_overflow() {
    let mut m = open_market("creator", "");
    assert!(m.place_bet(&"a".to_string(), &"yes".to_string(), u32::MAX, 0).is_ok());
    assert!(m.place_bet(&"b".to_string(), &"yes".to_string(), u32::MAX, 0).is_ok());
    assert!(m.place_bet(&"c".to_string(), &"no".to_string(), u32::MAX, 0).is_ok());
    let pool = 3 * (u32::MAX as u128);
    assert_eq!(total_pool(m.ledger.wagers()), pool);
    let payouts = m
        .close_market(&"creator".to_string(), &"yes".to_string(), 0)
        .expect("close must settle");
    // each of the two winners gets floor(max * 3max / 2max) = floor(3max/2)
    let each = (u32::MAX as u128) * pool / (2 * (u32::MAX as u128));
    assert_eq!(payouts.len(), 2);
    assert_eq!(payouts[0].amount, each);
    assert_eq!(payouts[1].amount, each);
    assert!(payouts[0].amount + payouts[1].amount <= pool);
}

#[test]
fn aggregate_with_one_label_has_one_entry() {
    let wagers = vec![
        Wager { bettor: "a".to_string(), amount: 1, outcome: "yes".to_string() },
        Wager { bettor: "b".to_string(), amount: 2, outcome: "yes".to_string() },
        Wager { bettor: "c".to_string(), amount: 3, outcome: "yes".to_string() },
    ];
    let totals = aggregate_totals(&wagers);
    assert_eq!(totals.len(), 1);
    assert_eq!(totals[0].label, "yes");
    assert_eq!(totals[0].total, 6);
}

#[test]
fn aggregate_of_no_wagers_is_empty() {
    let wagers: Vec<Wager> = Vec::new();
    assert!(aggregate_totals(&wagers).is_empty());
    assert_eq!(total_pool(&wagers), 0);
}
