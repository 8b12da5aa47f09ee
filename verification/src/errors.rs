use vstd::prelude::*;

verus! {

/// Every way a market call can be rejected.
///
/// All rejections except `BettingClosed` abort the triggering call atomically:
/// no state is mutated. `BettingClosed` is a soft rejection of a late (or
/// too-early) bet: the wager is simply not recorded.
#[derive(Clone, Copy, Debug, PartialEq, Eq, Structural)]
pub enum MarketError {
    /// A privileged call (initialize or close) came from someone other than
    /// the market creator.
    Unauthorized,
    /// A non-empty deadline string does not match the `YYYY-MM-DD HH:MM`
    /// (UTC) pattern.
    BadDeadlineFormat,
    /// A bet arrived while the market was not open for betting: before
    /// initialization, after the deadline, or after the market was closed.
    BettingClosed,
    /// A required outcome label was absent (empty).
    MissingParameter,
    /// The market was already closed (or never opened) when a close was
    /// attempted.
    AlreadyClosed,
    /// A close was attempted before the configured deadline had passed.
    TooEarly,
    /// A close was attempted with no wagers recorded; no settlement is
    /// possible.
    NoBets,
    /// A persisted wager listing failed validation when the ledger was
    /// rebuilt from it.
    CorruptState,
}

} // verus!
