use vstd::prelude::*;

verus! {

/// The reasons a router call can be rejected. Every rejection is synchronous
/// and leaves the ledger unchanged; the host reverts the whole transaction
/// carrying the reason string of [`RouterError::message`].
#[derive(Clone, Copy, Debug, PartialEq, Eq, Structural)]
pub enum RouterError {
    /// A configuration call came from a caller other than the owner.
    NotOwnerError,
    /// The distribution ledger is locked and can no longer be changed.
    LockedError,
    /// A percentage was zero or above 10000 basis points.
    InvalidPercentage,
    /// Adding the percentage would push the stored total above 10000.
    OverAllocation,
    /// A payout was triggered by a caller other than the configured minter.
    UnauthorizedCaller,
    /// The stored percentages do not add up to exactly 10000.
    IncompleteDistribution,
    /// The incoming payment carries a token other than the configured one.
    WrongTokenError,
}

impl RouterError {
    /// The human-readable reason string the aborted transaction reports.
    pub fn message(&self) -> (r: &'static str)
        ensures
            *self is NotOwnerError ==> r@ == "Endpoint can only be called by owner"@,
            *self is LockedError ==> r@ == "Distribution is locked"@,
            *self is InvalidPercentage ==> r@ == "Percentage must be between 1 and 10000"@,
            *self is OverAllocation ==> r@ == "Total percentage must be less than or equal to 10000"@,
            *self is UnauthorizedCaller ==> r@ == "Only the minter can call this function"@,
            *self is IncompleteDistribution ==> r@ == "Total percentage must be 10000"@,
            *self is WrongTokenError ==> r@ == "Invalid token"@,
    {
        match self {
            RouterError::NotOwnerError => "Endpoint can only be called by owner",
            RouterError::LockedError => "Distribution is locked",
            RouterError::InvalidPercentage => "Percentage must be between 1 and 10000",
            RouterError::OverAllocation => "Total percentage must be less than or equal to 10000",
            RouterError::UnauthorizedCaller => "Only the minter can call this function",
            RouterError::IncompleteDistribution => "Total percentage must be 10000",
            RouterError::WrongTokenError => "Invalid token",
        }
    }
}

} // verus!
