use vstd::prelude::*;
use crate::table::TableEntry;

verus! {

/// A participant identity.  The value 0 is the zero address: no real
/// participant carries it, and an all-zero record is the sentinel for
/// "does not exist".
pub type Address = u64;

/// One deal-duration unit, in seconds.
pub const ONE_DAY: u64 = 86400;

/// Additional waiting time, in seconds, after a deal's stated duration before
/// the beneficiary may force payout without payer action.
pub const GRACE_PERIOD: u64 = 604800;

/// The fixed fee a dispute requester pays to the arbitration service.
pub const DISPUTE_FEE: u64 = 50;

/// A registered participant.  A record exists for an address iff its
/// `address` field equals its own lookup key; the all-zero record stands for
/// "not registered".
#[derive(Clone, Copy, Debug, PartialEq, Eq, Structural)]
pub struct User {
    pub address: Address,
    /// Withdrawable balance, mutated only by settlement operations and zeroed
    /// exactly when a withdrawal is issued.
    pub balance: u128,
    /// Reputation as counterparty; maintained outside this engine.
    pub reputation_as_user: i8,
    /// Reputation as arbitrator; maintained outside this engine.
    pub reputation_as_judge: i8,
    pub is_payer: bool,
    pub is_beneficiary: bool,
    pub is_judge: bool,
}

impl User {
    /// The sentinel record returned for an unregistered address.
    pub open spec fn absent() -> User {
        User {
            address: 0,
            balance: 0,
            reputation_as_user: 0,
            reputation_as_judge: 0,
            is_payer: false,
            is_beneficiary: false,
            is_judge: false,
        }
    }

    /// Runtime constructor for the sentinel record.
    pub fn sentinel() -> (r: User)
        ensures
            r == User::absent(),
    {
        User {
            address: 0,
            balance: 0,
            reputation_as_user: 0,
            reputation_as_judge: 0,
            is_payer: false,
            is_beneficiary: false,
            is_judge: false,
        }
    }
}

/// A deal between a payer and a beneficiary.  `amount == 0` is the sentinel
/// for "does not exist / was deleted"; a live deal always has `amount > 0`.
#[derive(Clone, Copy, Debug, PartialEq, Eq, Structural)]
pub struct Deal {
    pub deal_id: u64,
    pub payer: Address,
    pub beneficiary: Address,
    /// Escrowed value once the deal is accepted; strictly positive while the
    /// deal is live.
    pub amount: u64,
    /// Zero until the deal is accepted, then the acceptance timestamp.
    pub started_at: u64,
    /// Deal duration, counted in days.
    pub duration: u64,
    pub accepted: bool,
    pub disputed: bool,
}

impl Deal {
    /// The sentinel record returned for an absent or deleted deal.
    pub open spec fn absent() -> Deal {
        Deal {
            deal_id: 0,
            payer: 0,
            beneficiary: 0,
            amount: 0,
            started_at: 0,
            duration: 0,
            accepted: false,
            disputed: false,
        }
    }

    /// Runtime constructor for the sentinel record.
    pub fn sentinel() -> (r: Deal)
        ensures
            r == Deal::absent(),
    {
        Deal {
            deal_id: 0,
            payer: 0,
            beneficiary: 0,
            amount: 0,
            started_at: 0,
            duration: 0,
            accepted: false,
            disputed: false,
        }
    }
}

/// A dispute raised on a deal, keyed by an identifier the arbitration service
/// issued.  `deal_id == 0` is the sentinel for "does not exist".
#[derive(Clone, Copy, Debug, PartialEq, Eq, Structural)]
pub struct Dispute {
    pub deal_id: u64,
    /// The deal's payer, who raised the dispute.
    pub requester: Address,
    pub is_open: bool,
    pub waiting_for_judges: bool,
}

impl Dispute {
    /// The sentinel record returned for an absent or settled dispute.
    pub open spec fn absent() -> Dispute {
        Dispute { deal_id: 0, requester: 0, is_open: false, waiting_for_judges: false }
    }

    /// Runtime constructor for the sentinel record.
    pub fn sentinel() -> (r: Dispute)
        ensures
            r == Dispute::absent(),
    {
        Dispute { deal_id: 0, requester: 0, is_open: false, waiting_for_judges: false }
    }
}

/// A dispute together with the identifier the arbitration service issued for
/// it, as stored in the dispute ledger.
#[derive(Clone, Copy, Debug, PartialEq, Eq, Structural)]
pub struct DisputeEntry {
    pub dispute_id: u64,
    pub dispute: Dispute,
}

impl TableEntry for User {
    open spec fn key(self) -> u64 {
        self.address
    }

    /// A user's contribution to the conserved total: its withdrawable balance.
    open spec fn weight(self) -> int {
        self.balance as int
    }

    fn key_of(&self) -> u64 {
        self.address
    }
}

impl TableEntry for Deal {
    open spec fn key(self) -> u64 {
        self.deal_id
    }

    /// A deal's contribution to the conserved total: its escrowed value, held
    /// only once the deal has been accepted.
    open spec fn weight(self) -> int {
        if self.accepted {
            self.amount as int
        } else {
            0
        }
    }

    fn key_of(&self) -> u64 {
        self.deal_id
    }
}

impl TableEntry for DisputeEntry {
    open spec fn key(self) -> u64 {
        self.dispute_id
    }

    /// Disputes hold no value of their own; the escrow stays with the deal.
    open spec fn weight(self) -> int {
        0
    }

    fn key_of(&self) -> u64 {
        self.dispute_id
    }
}

} // verus!
