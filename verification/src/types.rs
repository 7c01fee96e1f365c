//! Risk limits and kill-switch records of the desk's book.
use vstd::prelude::*;

verus! {

/// Risk/cap configuration of the book.
#[derive(Debug, Clone)]
pub struct Risk {
    /// Maximum absolute inventory (shares) allowed per token.
    pub max_inventory_shares_per_token: i64,
    /// Maximum quote size (shares) the desk will post.
    pub max_quote_size: i64,
    /// Maximum number of concurrently open markets.
    pub max_open_markets: i64,
    /// Maximum absolute notional USD exposure.
    pub max_notional_usd: i64,
    /// The book is considered stale when older than this many seconds.
    pub stale_after_seconds: i64,
    /// Conditions that trip the kill-switch automatically.
    pub kill_on: Vec<String>,
}

/// Kill-switch state of the book.
#[derive(Debug, Clone)]
pub struct KillSwitch {
    /// Whether the kill-switch is armed.
    pub armed: bool,
    /// Whether the kill-switch has tripped.
    pub tripped: bool,
    /// Reason given when it tripped.
    pub reason: Option<String>,
    /// When it tripped (UTC, RFC 3339).
    pub tripped_at: Option<String>,
}

} // verus!
