use lancer::actions::{ArbitrationCall, TokenCall};
use lancer::errors::MarketplaceError;
use lancer::marketplace::Marketplace;
use lancer::records::DISPUTE_FEE;

const OWNER: u64 = 1;
const B: u64 = 10; // beneficiary
const P: u64 = 20; // payer

/// A marketplace with a 5% fee and one `Active` deal (id 1, amount 1000)
/// between beneficiary B and payer P.
fn setup_active() -> Marketplace {
    let mut m = Marketplace::init(OWNER, 5, 777, 888).unwrap();
    m.register_user(B, false, true, false).unwrap();
    m.register_user(P, true, false, false).unwrap();
    m.create_deal(B, P, 1000, 10).unwrap();
    m.accept_deal(P, 1, 100).unwrap();
    m
}

/// The same, with the deal disputed and recorded under dispute id 7.
fn setup_disputed() -> Marketplace {
    let mut m = setup_active();
    m.request_dispute(P, 1, b"claim".to_vec()).unwrap();
    m.record_dispute(7, 1).unwrap();
    m
}

#[test]
fn request_dispute_charges_fixed_fee_and_marks_deal() {
    let mut m = setup_active();
    let handoff = m.request_dispute(P, 1, b"claim".to_vec()).unwrap();
    assert_eq!(
        handoff.fee,
        TokenCall::PullToArbitration { holder: P, amount: DISPUTE_FEE as u128 }
    );
    assert_eq!(DISPUTE_FEE, 50);
    match handoff.open {
        ArbitrationCall::OpenDispute { deal_id, requester, payload } => {
            assert_eq!(deal_id, 1);
            assert_eq!(requester, P);
            assert_eq!(payload, b"claim".to_vec());
        }
        _ => panic!("expected an open-dispute handoff"),
    }
    assert!(m.get_deal(1).disputed);
}

#[test]
fn second_dispute_request_fails_already_exists() {
    let mut m = setup_active();
    m.request_dispute(P, 1, b"one".to_vec()).unwrap();
    assert!(matches!(
        m.request_dispute(P, 1, b"two".to_vec()),
        Err(MarketplaceError::AlreadyExists)
    ));
}

#[test]
fn request_dispute_guards() {
    let mut m = Marketplace::init(OWNER, 5, 777, 888).unwrap();
    m.register_user(B, false, true, false).unwrap();
    m.register_user(P, true, false, false).unwrap();
    m.create_deal(B, P, 1000, 10).unwrap();
    assert!(matches!(
        m.request_dispute(P, 9, b"x".to_vec()),
        Err(MarketplaceError::NotFound)
    ));
    assert!(matches!(
        m.request_dispute(B, 1, b"x".to_vec()),
        Err(MarketplaceError::Unauthorized)
    ));
    // Not yet accepted: wrong state.
    assert!(matches!(
        m.request_dispute(P, 1, b"x".to_vec()),
        Err(MarketplaceError::InvalidState)
    ));
}

#[test]
fn record_dispute_stores_service_identifier() {
    let mut m = setup_active();
    m.request_dispute(P, 1, b"claim".to_vec()).unwrap();
    assert_eq!(m.record_dispute(7, 1), Ok(()));
    let d = m.get_dispute(7);
    assert_eq!(d.deal_id, 1);
    assert_eq!(d.requester, P);
    assert!(d.is_open && d.waiting_for_judges);
}

#[test]
fn record_dispute_guards() {
    let mut m = setup_active();
    // The deal is not disputed yet.
    assert_eq!(m.record_dispute(7, 1), Err(MarketplaceError::InvalidState));
    assert_eq!(m.record_dispute(7, 9), Err(MarketplaceError::NotFound));
    m.request_dispute(P, 1, b"claim".to_vec()).unwrap();
    m.record_dispute(7, 1).unwrap();
    // The identifier is taken, and the deal already has its dispute.
    assert_eq!(m.record_dispute(7, 1), Err(MarketplaceError::AlreadyExists));
    assert_eq!(m.record_dispute(8, 1), Err(MarketplaceError::AlreadyExists));
}

#[test]
fn unknown_dispute_reads_as_sentinel() {
    let m = setup_active();
    let d = m.get_dispute(7);
    assert_eq!(d.deal_id, 0);
    assert!(!d.is_open);
}

#[test]
fn payer_evidence_is_requester_gated() {
    let m = setup_disputed();
    match m
        .add_dispute_evidence_for_payer(P, 7, b"more".to_vec())
        .unwrap()
    {
        ArbitrationCall::SubmitPayerEvidence { dispute_id, payer, payload } => {
            assert_eq!(dispute_id, 7);
            assert_eq!(payer, P);
            assert_eq!(payload, b"more".to_vec());
        }
        _ => panic!("expected payer-side evidence relay"),
    }
    assert!(matches!(
        m.add_dispute_evidence_for_payer(B, 7, b"x".to_vec()),
        Err(MarketplaceError::Unauthorized)
    ));
    assert!(matches!(
        m.add_dispute_evidence_for_payer(P, 9, b"x".to_vec()),
        Err(MarketplaceError::NotFound)
    ));
    assert!(matches!(
        m.add_dispute_evidence_for_payer(P, 7, Vec::new()),
        Err(MarketplaceError::InvalidInput)
    ));
}

#[test]
fn beneficiary_evidence_is_beneficiary_gated() {
    let m = setup_disputed();
    match m
        .add_dispute_evidence_for_beneficiary(B, 7, b"reply".to_vec())
        .unwrap()
    {
        ArbitrationCall::SubmitBeneficiaryEvidence { dispute_id, beneficiary, payload } => {
            assert_eq!(dispute_id, 7);
            assert_eq!(beneficiary, B);
            assert_eq!(payload, b"reply".to_vec());
        }
        _ => panic!("expected beneficiary-side evidence relay"),
    }
    assert!(matches!(
        m.add_dispute_evidence_for_beneficiary(P, 7, b"x".to_vec()),
        Err(MarketplaceError::Unauthorized)
    ));
    assert!(matches!(
        m.add_dispute_evidence_for_beneficiary(B, 9, b"x".to_vec()),
        Err(MarketplaceError::NotFound)
    ));
    assert!(matches!(
        m.add_dispute_evidence_for_beneficiary(B, 7, Vec::new()),
        Err(MarketplaceError::InvalidInput)
    ));
}

#[test]
fn apply_dispute_result_validates_and_hands_out_resolve() {
    let m = setup_disputed();
    match m.apply_dispute_result(P, 7, 1).unwrap() {
        ArbitrationCall::Resolve { dispute_id } => assert_eq!(dispute_id, 7),
        _ => panic!("expected a resolve request"),
    }
    // The beneficiary may also pull the result.
    assert!(m.apply_dispute_result(B, 7, 1).is_ok());
    assert!(matches!(
        m.apply_dispute_result(42, 7, 1),
        Err(MarketplaceError::Unauthorized)
    ));
    assert!(matches!(
        m.apply_dispute_result(P, 9, 1),
        Err(MarketplaceError::NotFound)
    ));
    // A deal identifier that does not belong to the dispute is refused.
    assert!(matches!(
        m.apply_dispute_result(P, 7, 2),
        Err(MarketplaceError::NotFound)
    ));
}

#[test]
fn verdict_for_requester_pays_the_payer() {
    let mut m = setup_disputed();
    assert_eq!(m.settle_dispute(P, 7, 1, true), Ok(()));
    // payout = 1000 - 5% = 950, credited to the requester (the payer).
    assert_eq!(m.get_user(P).balance, 950);
    assert_eq!(m.get_user(B).balance, 0);
    assert_eq!(m.get_deal(1).amount, 0);
    assert_eq!(m.get_dispute(7).deal_id, 0);
}

#[test]
fn verdict_against_requester_pays_the_beneficiary() {
    let mut m = setup_disputed();
    assert_eq!(m.settle_dispute(B, 7, 1, false), Ok(()));
    assert_eq!(m.get_user(B).balance, 950);
    assert_eq!(m.get_user(P).balance, 0);
    assert_eq!(m.get_deal(1).amount, 0);
    assert_eq!(m.get_dispute(7).deal_id, 0);
}

#[test]
fn settle_dispute_guards() {
    let mut m = setup_disputed();
    assert_eq!(m.settle_dispute(42, 7, 1, true), Err(MarketplaceError::Unauthorized));
    assert_eq!(m.settle_dispute(P, 9, 1, true), Err(MarketplaceError::NotFound));
    assert_eq!(m.settle_dispute(P, 7, 2, true), Err(MarketplaceError::NotFound));
    // The state is untouched by the failed attempts.
    assert!(m.get_deal(1).disputed);
    assert_eq!(m.get_dispute(7).deal_id, 1);
}

#[test]
fn disputed_deal_blocks_finish_and_timeout() {
    let mut m = setup_disputed();
    assert_eq!(m.finish_deal(P, 1), Err(MarketplaceError::InvalidState));
    assert_eq!(
        m.request_deal_payment(B, 1, u64::MAX),
        Err(MarketplaceError::InvalidState)
    );
}

#[test]
fn settled_dispute_conserves_escrow() {
    let mut m = setup_disputed();
    let escrow = m.get_deal(1).amount;
    m.settle_dispute(B, 7, 1, false).unwrap();
    let payout = m.get_user(B).balance;
    let fee = escrow as u128 - payout;
    assert_eq!(fee + payout, escrow as u128);
    assert_eq!(fee, 50);
    // Deposits are a high-water mark: balances never exceed them.
    assert!(m.get_user(B).balance + m.get_user(P).balance <= m.deposited_total());
}
