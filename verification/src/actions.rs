use vstd::prelude::*;
use crate::records::Address;

verus! {

/// A token-custodian call that the hosting environment must carry out after
/// an operation returns.  The engine has already committed its ledger
/// mutations when it hands one of these out; if the call fails, the
/// environment aborts the whole operation and discards the mutated state.
#[derive(Clone, Copy, Debug, PartialEq, Eq, Structural)]
pub enum TokenCall {
    /// `transfer_from(holder, engine, amount)`: pull escrow into the engine's
    /// own custody.
    PullToEscrow { holder: Address, amount: u128 },
    /// `transfer_from(holder, arbitration service, amount)`: pull the dispute
    /// fee straight to the arbitration service.
    PullToArbitration { holder: Address, amount: u128 },
    /// `transfer(recipient, amount)`: pay out of the engine's custody.
    PayOut { recipient: Address, amount: u128 },
}

/// An arbitration-service call that the hosting environment must carry out
/// after an operation returns.
#[derive(Clone, Debug)]
pub enum ArbitrationCall {
    /// `open_dispute(deal_id, requester, proof)`.
    OpenDispute { deal_id: u64, requester: Address, payload: Vec<u8> },
    /// `submit_payer_evidence(dispute_id, payer, proof)`.
    SubmitPayerEvidence { dispute_id: u64, payer: Address, payload: Vec<u8> },
    /// `submit_beneficiary_evidence(dispute_id, beneficiary, proof)`.
    SubmitBeneficiaryEvidence { dispute_id: u64, beneficiary: Address, payload: Vec<u8> },
    /// `resolve(dispute_id) -> bool`; the verdict favours the requester when
    /// true.
    Resolve { dispute_id: u64 },
}

/// The two external calls a granted dispute request hands to the environment:
/// first the fee transfer, then the handoff to the arbitration service.
#[derive(Clone, Debug)]
pub struct DisputeHandoff {
    pub fee: TokenCall,
    pub open: ArbitrationCall,
}

} // verus!
