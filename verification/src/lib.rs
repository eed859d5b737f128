//! A token-distribution router: a ledger of beneficiary shares, expressed in
//! basis points, that splits an incoming token balance proportionally among
//! the configured beneficiaries.
//!
//! The ledger holds a mapping from beneficiary identifiers to percentages
//! (10000 basis points = 100%), a token identifier, a write-once lock flag,
//! and two distinguished identifiers: the minter, the only caller allowed to
//! trigger a payout, and the game contract, a beneficiary paid through a
//! routed deposit call instead of a direct transfer. The payout itself is
//! computed here as a list of payment actions; performing the transfers is
//! the host's business.

mod errors;
mod ledger;
mod payout;
mod router;

pub use errors::RouterError;
pub use ledger::DistributionEntry;
pub use ledger::TOTAL_BASIS_POINTS;
pub use payout::Game;
pub use payout::Payment;
pub use router::Router;
