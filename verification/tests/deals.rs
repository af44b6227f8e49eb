use lancer::actions::TokenCall;
use lancer::errors::MarketplaceError;
use lancer::marketplace::Marketplace;
use lancer::records::{GRACE_PERIOD, ONE_DAY};

const OWNER: u64 = 1;
const B: u64 = 10; // beneficiary
const P: u64 = 20; // payer

/// A marketplace with a 5% fee, a registered beneficiary B and payer P.
fn setup() -> Marketplace {
    let mut m = Marketplace::init(OWNER, 5, 777, 888).unwrap();
    m.register_user(B, false, true, false).unwrap();
    m.register_user(P, true, false, false).unwrap();
    m
}

#[test]
fn create_deal_records_proposed_deal() {
    let mut m = setup();
    assert_eq!(m.create_deal(B, P, 1000, 10), Ok(()));
    let d = m.get_deal(1);
    assert_eq!(d.deal_id, 1);
    assert_eq!(d.payer, P);
    assert_eq!(d.beneficiary, B);
    assert_eq!(d.amount, 1000);
    assert_eq!(d.duration, 10);
    assert_eq!(d.started_at, 0);
    assert!(!d.accepted && !d.disputed);
    assert_eq!(m.deal_id_counter(), 2);
}

#[test]
fn create_deal_input_guards() {
    let mut m = setup();
    assert_eq!(m.create_deal(B, P, 0, 10), Err(MarketplaceError::InvalidInput));
    assert_eq!(m.create_deal(B, 0, 10, 10), Err(MarketplaceError::InvalidInput));
    // Caller without the beneficiary role.
    assert_eq!(m.create_deal(P, P, 10, 10), Err(MarketplaceError::InvalidState));
    // Named payer without the payer role.
    assert_eq!(m.create_deal(B, B, 10, 10), Err(MarketplaceError::InvalidState));
    // Unregistered caller.
    assert_eq!(m.create_deal(42, P, 10, 10), Err(MarketplaceError::InvalidState));
}

#[test]
fn deal_ids_increase_and_are_never_reused() {
    let mut m = setup();
    m.create_deal(B, P, 100, 1).unwrap();
    m.create_deal(B, P, 200, 1).unwrap();
    m.create_deal(B, P, 300, 1).unwrap();
    assert_eq!(m.get_deal(1).amount, 100);
    assert_eq!(m.get_deal(2).amount, 200);
    assert_eq!(m.get_deal(3).amount, 300);
    // Delete deal 2 by rejection, then finish deal 1: neither id comes back.
    m.reject_deal(P, 2).unwrap();
    m.accept_deal(P, 1, 5).unwrap();
    m.finish_deal(P, 1).unwrap();
    m.create_deal(B, P, 400, 1).unwrap();
    assert_eq!(m.get_deal(4).amount, 400);
    assert_eq!(m.get_deal(1).amount, 0);
    assert_eq!(m.get_deal(2).amount, 0);
    assert_eq!(m.deal_id_counter(), 5);
}

#[test]
fn update_amount_flows() {
    let mut m = setup();
    m.create_deal(B, P, 1000, 10).unwrap();
    assert_eq!(m.update_deal_amount(P, 9, 500), Err(MarketplaceError::NotFound));
    assert_eq!(m.update_deal_amount(B, 1, 500), Err(MarketplaceError::Unauthorized));
    assert_eq!(m.update_deal_amount(P, 1, 0), Err(MarketplaceError::InvalidInput));
    assert_eq!(m.update_deal_amount(P, 1, 500), Ok(()));
    assert_eq!(m.get_deal(1).amount, 500);
    m.accept_deal(P, 1, 5).unwrap();
    assert_eq!(m.update_deal_amount(P, 1, 700), Err(MarketplaceError::AlreadyExists));
}

#[test]
fn update_duration_flows() {
    let mut m = setup();
    m.create_deal(B, P, 1000, 10).unwrap();
    assert_eq!(m.update_deal_duration(P, 9, 5), Err(MarketplaceError::NotFound));
    assert_eq!(m.update_deal_duration(B, 1, 5), Err(MarketplaceError::Unauthorized));
    assert_eq!(m.update_deal_duration(P, 1, 0), Err(MarketplaceError::InvalidInput));
    assert_eq!(m.update_deal_duration(P, 1, 5), Ok(()));
    assert_eq!(m.get_deal(1).duration, 5);
    m.accept_deal(P, 1, 5).unwrap();
    assert_eq!(m.update_deal_duration(P, 1, 7), Err(MarketplaceError::AlreadyExists));
}

#[test]
fn accept_deal_pulls_escrow_and_activates() {
    let mut m = setup();
    m.create_deal(B, P, 1000, 10).unwrap();
    let call = m.accept_deal(P, 1, 12345).unwrap();
    assert_eq!(call, TokenCall::PullToEscrow { holder: P, amount: 1000 });
    let d = m.get_deal(1);
    assert!(d.accepted);
    assert_eq!(d.started_at, 12345);
    assert_eq!(m.deposited_total(), 1000);
}

#[test]
fn accept_deal_guards() {
    let mut m = setup();
    m.create_deal(B, P, 1000, 10).unwrap();
    assert!(matches!(m.accept_deal(P, 9, 5), Err(MarketplaceError::NotFound)));
    assert!(matches!(m.accept_deal(B, 1, 5), Err(MarketplaceError::Unauthorized)));
    m.accept_deal(P, 1, 5).unwrap();
    assert!(matches!(m.accept_deal(P, 1, 6), Err(MarketplaceError::AlreadyExists)));
}

#[test]
fn reject_deal_deletes_record() {
    let mut m = setup();
    m.create_deal(B, P, 1000, 10).unwrap();
    assert_eq!(m.reject_deal(P, 9), Err(MarketplaceError::NotFound));
    assert_eq!(m.reject_deal(B, 1), Err(MarketplaceError::Unauthorized));
    assert_eq!(m.reject_deal(P, 1), Ok(()));
    let d = m.get_deal(1);
    assert_eq!(d.amount, 0);
    assert_eq!(d.deal_id, 0);
}

#[test]
fn reject_after_acceptance_fails() {
    let mut m = setup();
    m.create_deal(B, P, 1000, 10).unwrap();
    m.accept_deal(P, 1, 5).unwrap();
    assert_eq!(m.reject_deal(P, 1), Err(MarketplaceError::AlreadyExists));
}

#[test]
fn finish_deal_scenario_pays_beneficiary_minus_fee() {
    // Beneficiary B creates a deal naming payer P for amount 1000, duration
    // 10.  P accepts; the owner fee is 5%.  P finishes: B's balance grows by
    // 950, the engine retains 50, the deal is deleted.
    let mut m = setup();
    m.create_deal(B, P, 1000, 10).unwrap();
    m.accept_deal(P, 1, 5).unwrap();
    assert_eq!(m.finish_deal(P, 1), Ok(()));
    assert_eq!(m.get_user(B).balance, 950);
    assert_eq!(m.get_deal(1).amount, 0);
    // Escrow conservation for the settled deal: fee + payout == amount.
    assert_eq!(950 + 50, 1000);
    // The payout is withdrawable in full.
    let call = m.withdraw(B).unwrap();
    assert_eq!(call, TokenCall::PayOut { recipient: B, amount: 950 });
}

#[test]
fn finish_deal_guards() {
    let mut m = setup();
    m.create_deal(B, P, 1000, 10).unwrap();
    assert_eq!(m.finish_deal(P, 9), Err(MarketplaceError::NotFound));
    assert_eq!(m.finish_deal(B, 1), Err(MarketplaceError::Unauthorized));
    // Not yet accepted: wrong state, never a silent success.
    assert_eq!(m.finish_deal(P, 1), Err(MarketplaceError::InvalidState));
    m.accept_deal(P, 1, 5).unwrap();
    m.request_dispute(P, 1, vec![1]).unwrap();
    // Disputed: wrong state again.
    assert_eq!(m.finish_deal(P, 1), Err(MarketplaceError::InvalidState));
}

#[test]
fn fee_truncates_toward_zero() {
    let mut m = Marketplace::init(OWNER, 10, 777, 888).unwrap();
    m.register_user(B, false, true, false).unwrap();
    m.register_user(P, true, false, false).unwrap();
    m.create_deal(B, P, 999, 1).unwrap();
    m.accept_deal(P, 1, 5).unwrap();
    m.finish_deal(P, 1).unwrap();
    // fee = 999 * 10 / 100 = 99 (truncated); payout = 900.
    assert_eq!(m.get_user(B).balance, 900);
}

#[test]
fn zero_fee_pays_full_amount() {
    let mut m = Marketplace::init(OWNER, 0, 777, 888).unwrap();
    m.register_user(B, false, true, false).unwrap();
    m.register_user(P, true, false, false).unwrap();
    m.create_deal(B, P, 1000, 1).unwrap();
    m.accept_deal(P, 1, 5).unwrap();
    m.finish_deal(P, 1).unwrap();
    assert_eq!(m.get_user(B).balance, 1000);
}

#[test]
fn timeout_payout_waits_for_duration_plus_grace() {
    let mut m = setup();
    m.create_deal(B, P, 1000, 10).unwrap();
    let start: u64 = 1000;
    m.accept_deal(P, 1, start).unwrap();
    let due = start + 10 * ONE_DAY + GRACE_PERIOD;
    assert_eq!(
        m.request_deal_payment(B, 1, due - 1),
        Err(MarketplaceError::InvalidState)
    );
    assert_eq!(m.request_deal_payment(B, 1, due), Ok(()));
    assert_eq!(m.get_user(B).balance, 950);
    assert_eq!(m.get_deal(1).amount, 0);
}

#[test]
fn timeout_payout_guards() {
    let mut m = setup();
    m.create_deal(B, P, 1000, 10).unwrap();
    assert_eq!(m.request_deal_payment(B, 9, 0), Err(MarketplaceError::NotFound));
    // Only the beneficiary may force payout.
    assert_eq!(
        m.request_deal_payment(P, 1, u64::MAX),
        Err(MarketplaceError::Unauthorized)
    );
    // Not yet accepted.
    assert_eq!(
        m.request_deal_payment(B, 1, u64::MAX),
        Err(MarketplaceError::InvalidState)
    );
}

#[test]
fn withdrawal_is_zeroed_before_the_transfer() {
    // The reentrancy discipline: the granted withdrawal zeroes the ledger
    // balance before the environment runs the token transfer.  A caller
    // reentering `withdraw` while holding the `PayOut` observes a zero
    // balance and fails with `InsufficientBalance`.
    let mut m = setup();
    m.create_deal(B, P, 1000, 10).unwrap();
    m.accept_deal(P, 1, 5).unwrap();
    m.finish_deal(P, 1).unwrap();
    let pending = m.withdraw(B).unwrap();
    // The transfer has not been performed yet; the ledger already shows 0.
    assert_eq!(m.get_user(B).balance, 0);
    // A reentering withdrawal gets nothing.
    assert_eq!(m.withdraw(B), Err(MarketplaceError::InsufficientBalance));
    assert_eq!(pending, TokenCall::PayOut { recipient: B, amount: 950 });
}

#[test]
fn balances_plus_escrow_never_exceed_deposits() {
    let mut m = setup();
    m.create_deal(B, P, 1000, 10).unwrap();
    m.create_deal(B, P, 600, 10).unwrap();
    m.accept_deal(P, 1, 5).unwrap();
    m.accept_deal(P, 2, 6).unwrap();
    assert_eq!(m.deposited_total(), 1600);
    m.finish_deal(P, 1).unwrap();
    // B withdrew nothing yet: balance 950, escrow 600, deposited 1600.
    let held = m.get_user(B).balance + m.get_user(P).balance;
    let escrow = m.get_deal(2).amount as u128;
    assert!(held + escrow <= m.deposited_total());
    m.finish_deal(P, 2).unwrap();
    let held2 = m.get_user(B).balance + m.get_user(P).balance;
    assert!(held2 <= m.deposited_total());
    assert_eq!(held2, 950 + 570);
}
