use vstd::prelude::*;

verus! {

/// Terminal, caller-visible failures.  Every guard check returns the first
/// violated error; nothing is silently swallowed.
#[derive(Clone, Copy, Debug, PartialEq, Eq, Structural)]
pub enum MarketplaceError {
    /// The caller lacks the role or identity the attempted transition requires.
    Unauthorized,
    /// The referenced deal, dispute or user does not exist.
    NotFound,
    /// Duplicate registration, re-dispute, or edit of an already-accepted deal.
    AlreadyExists,
    /// Zero amount, zero address, zero duration, empty proof, or no roles selected.
    InvalidInput,
    /// The operation was attempted from a state-machine state that forbids it.
    InvalidState,
    /// A withdrawal was attempted with a zero ledger balance.
    InsufficientBalance,
    /// An external collaborator call faulted or returned failure.  The engine
    /// itself never produces this; the hosting environment maps a failed token
    /// or arbitration call to it and rolls the whole operation back.
    CallFailed,
}

} // verus!
