use vstd::prelude::*;
use vstd::string::StrSliceExecFns;
use crate::clock;
use crate::errors::MarketError;
use crate::ledger::{StakeLedger, Wager};
use crate::settlement;
use crate::settlement::Payout;

verus! {

/// The lifecycle stage of the market. The market is created uninitialized,
/// opened exactly by `initialize`, and closed exactly by `close_market`;
/// closed is terminal.
#[derive(Clone, Copy, Debug, PartialEq, Eq, Structural)]
pub enum Stage {
    Uninitialized,
    Open,
    Closed,
}

/// The whole state of one prediction market: the fixed creator identity,
/// the betting deadline in UTC epoch seconds (0 when none is configured),
/// the lifecycle stage, and the ledger of recorded wagers.
pub struct MarketState {
    pub creator: String,
    pub deadline: i64,
    pub stage: Stage,
    pub ledger: StakeLedger,
}

impl MarketState {
    /// Well-formedness: the ledger holds one wager per bettor.
    pub open spec fn wf(self) -> bool {
        self.ledger.wf()
    }

    /// Betting is possible at `now`: the market is open and the deadline
    /// (if one is configured) has not passed.
    pub open spec fn betting_open_at(self, now: int) -> bool {
        self.stage is Open && clock::spec_betting_open(now, self.deadline as int)
    }

    /// Why a bet at `now` is rejected, or `None` when it is accepted.
    /// A late or out-of-lifecycle bet is reported as `BettingClosed`; an
    /// empty outcome label as `MissingParameter`.
    pub open spec fn bet_decision(self, outcome: Seq<char>, now: int) -> Option<MarketError> {
        if !self.betting_open_at(now) {
            Some(MarketError::BettingClosed)
        } else if outcome.len() == 0 {
            Some(MarketError::MissingParameter)
        } else {
            None
        }
    }

    /// Why an initialization attempt is rejected, or `None` when it
    /// succeeds: only the creator may initialize, and a non-empty deadline
    /// string must be well-formed.
    pub open spec fn init_decision(self, caller: Seq<char>, deadline_str: Seq<char>) -> Option<
        MarketError,
    > {
        if caller != self.creator@ {
            Some(MarketError::Unauthorized)
        } else if deadline_str.len() > 0 && clock::deadline_epoch_of(deadline_str) is None {
            Some(MarketError::BadDeadlineFormat)
        } else {
            None
        }
    }

    /// Why a close attempt is rejected, or `None` when settlement proceeds.
    /// The checks are made in this order: authorization, presence of the
    /// winning label, lifecycle stage, deadline, presence of bets.
    pub open spec fn close_decision(
        self,
        caller: Seq<char>,
        winning: Seq<char>,
        now: int,
    ) -> Option<MarketError> {
        if caller != self.creator@ {
            Some(MarketError::Unauthorized)
        } else if winning.len() == 0 {
            Some(MarketError::MissingParameter)
        } else if !(self.stage is Open) {
            Some(MarketError::AlreadyClosed)
        } else if !clock::spec_past_deadline(now, self.deadline as int) {
            Some(MarketError::TooEarly)
        } else if self.ledger@.len() == 0 {
            Some(MarketError::NoBets)
        } else {
            None
        }
    }

    /// A fresh market, owned by `creator`: uninitialized, no deadline, no
    /// wagers.
    pub fn new(creator: String) -> (r: MarketState)
        ensures
            r.creator@ == creator@,
            r.deadline == 0,
            r.stage is Uninitialized,
            r.ledger@ == Seq::<Wager>::empty(),
            r.wf(),
    {
        MarketState { creator, deadline: 0, stage: Stage::Uninitialized, ledger: StakeLedger::new() }
    }

    /// Opens the market. Only the creator may call this; a non-empty
    /// deadline string must match `YYYY-MM-DD HH:MM` (UTC) and becomes the
    /// betting deadline, while an empty one configures no deadline. On
    /// rejection nothing changes. Initializing again is permitted and
    /// resets the deadline and the stage while keeping recorded wagers.
    pub fn initialize(&mut self, caller: &String, deadline_str: &String) -> (r: Result<
        (),
        MarketError,
    >)
        requires
            old(self).wf(),
        ensures
            final(self).wf(),
            final(self).creator@ == old(self).creator@,
            final(self).ledger@ == old(self).ledger@,
            match old(self).init_decision(caller@, deadline_str@) {
                Some(e) => r == Err::<(), MarketError>(e) && final(self).deadline
                    == old(self).deadline && final(self).stage == old(self).stage,
                None => r == Ok::<(), MarketError>(()) && final(self).stage is Open && (
                deadline_str@.len() == 0 ==> final(self).deadline == 0) && (deadline_str@.len() > 0
                    ==> clock::deadline_epoch_of(deadline_str@) == Some(final(self).deadline)),
            },
    {
        if !(*caller == self.creator) {
            return Err(MarketError::Unauthorized);
        }
        if deadline_str.as_str().unicode_len() == 0 {
            self.deadline = 0;
            self.stage = Stage::Open;
            Ok(())
        } else {
            match clock::parse_deadline_utc(deadline_str.as_str()) {
                Some(t) => {
                    self.deadline = t;
                    self.stage = Stage::Open;
                    Ok(())
                },
                None => Err(MarketError::BadDeadlineFormat),
            }
        }
    }

    /// Records (or, for a re-betting bettor, replaces) a wager while the
    /// market is open for betting at `now`. A bet outside the betting
    /// window is softly rejected with `BettingClosed` and records nothing;
    /// an empty outcome label is rejected with `MissingParameter`. The
    /// stage, deadline and creator never change.
    pub fn place_bet(&mut self, caller: &String, outcome: &String, amount: u32, now: i64) -> (r:
        Result<(), MarketError>)
        requires
            old(self).wf(),
        ensures
            final(self).wf(),
            final(self).creator@ == old(self).creator@,
            final(self).deadline == old(self).deadline,
            final(self).stage == old(self).stage,
            match old(self).bet_decision(outcome@, now as int) {
                Some(e) => r == Err::<(), MarketError>(e) && final(self).ledger@
                    == old(self).ledger@,
                None => r == Ok::<(), MarketError>(()) && final(self).ledger.map_view()
                    == old(self).ledger.map_view().insert(
                    caller@,
                    (Wager { bettor: *caller, amount, outcome: *outcome }),
                ),
            },
    {
        if !(self.stage == Stage::Open && clock::is_betting_open(now, self.deadline)) {
            return Err(MarketError::BettingClosed);
        }
        if outcome.as_str().unicode_len() == 0 {
            return Err(MarketError::MissingParameter);
        }
        self.ledger.record_bet(caller.clone(), outcome.clone(), amount);
        Ok(())
    }

    /// Closes the market and settles it: only the creator may close, only
    /// with a winning label, only once, and only after the deadline (or at
    /// any time when none is configured); settlement requires at least one
    /// recorded wager. On success the returned payout instructions are the
    /// full pari-mutuel settlement of the ledger and the market becomes
    /// closed; on rejection nothing changes. The ledger is never modified.
    pub fn close_market(&mut self, caller: &String, winning: &String, now: i64) -> (r: Result<
        Vec<Payout>,
        MarketError,
    >)
        requires
            old(self).wf(),
        ensures
            final(self).wf(),
            final(self).creator@ == old(self).creator@,
            final(self).deadline == old(self).deadline,
            final(self).ledger@ == old(self).ledger@,
            match old(self).close_decision(caller@, winning@, now as int) {
                Some(e) => r matches Err(e2) && e2 == e && final(self).stage == old(self).stage,
                None => r matches Ok(p) && settlement::payouts_view(p@)
                    == settlement::settlement_of(old(self).ledger@, winning@)
                    && final(self).stage is Closed,
            },
    {
        if !(*caller == self.creator) {
            return Err(MarketError::Unauthorized);
        }
        if winning.as_str().unicode_len() == 0 {
            return Err(MarketError::MissingParameter);
        }
        if !(self.stage == Stage::Open) {
            return Err(MarketError::AlreadyClosed);
        }
        if !clock::is_past_deadline(now, self.deadline) {
            return Err(MarketError::TooEarly);
        }
        if self.ledger.len() == 0 {
            return Err(MarketError::NoBets);
        }
        let payouts = settlement::settle(self.ledger.wagers(), winning);
        self.stage = Stage::Closed;
        Ok(payouts)
    }
}

/// Closing twice always rejects: once the market is closed, a further close
/// attempt by the authorized creator with a winning label supplied is
/// decided as `AlreadyClosed` — and `close_market`'s contract then leaves
/// the whole state, the ledger included, unchanged.
pub proof fn lemma_close_twice_rejected(
    s: MarketState,
    caller: Seq<char>,
    winning: Seq<char>,
    now: int,
)
    requires
        s.stage is Closed,
        caller == s.creator@,
        winning.len() > 0,
    ensures
        s.close_decision(caller, winning, now) == Some(MarketError::AlreadyClosed),
{
}

/// With no deadline configured, a bet on an open market is never rejected
/// for timing reasons, whatever the current time is.
pub proof fn lemma_no_deadline_never_timing_rejected(
    s: MarketState,
    outcome: Seq<char>,
    now: int,
)
    requires
        s.deadline == 0,
        s.stage is Open,
    ensures
        s.bet_decision(outcome, now) != Some(MarketError::BettingClosed),
{
}

} // verus!
