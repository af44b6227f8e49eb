use lancer::errors::MarketplaceError;
use lancer::marketplace::Marketplace;

const OWNER: u64 = 1;
const TOKEN: u64 = 777;
const ARBITER: u64 = 888;

fn fresh() -> Marketplace {
    Marketplace::init(OWNER, 5, TOKEN, ARBITER).unwrap()
}

#[test]
fn init_rejects_fee_over_100() {
    let r = Marketplace::init(OWNER, 101, TOKEN, ARBITER);
    assert!(matches!(r, Err(MarketplaceError::InvalidInput)));
}

#[test]
fn init_records_configuration() {
    let m = fresh();
    assert_eq!(m.protocol_address(), ARBITER);
    assert_eq!(m.deal_id_counter(), 1);
    assert_eq!(m.current_fee_percent(), 5);
    assert_eq!(m.deposited_total(), 0);
}

#[test]
fn register_and_fetch_user() {
    let mut m = fresh();
    assert_eq!(m.register_user(10, false, true, true), Ok(()));
    let u = m.get_user(10);
    assert_eq!(u.address, 10);
    assert_eq!(u.balance, 0);
    assert!(!u.is_payer);
    assert!(u.is_beneficiary);
    assert!(u.is_judge);
}

#[test]
fn unregistered_user_reads_as_sentinel() {
    let m = fresh();
    let u = m.get_user(42);
    assert_eq!(u.address, 0);
    assert_eq!(u.balance, 0);
    assert!(!u.is_payer && !u.is_beneficiary && !u.is_judge);
}

#[test]
fn register_twice_fails_already_exists() {
    let mut m = fresh();
    assert_eq!(m.register_user(10, true, false, false), Ok(()));
    assert_eq!(
        m.register_user(10, false, true, false),
        Err(MarketplaceError::AlreadyExists)
    );
}

#[test]
fn register_without_roles_is_invalid() {
    let mut m = fresh();
    assert_eq!(
        m.register_user(10, false, false, false),
        Err(MarketplaceError::InvalidInput)
    );
}

#[test]
fn register_zero_address_is_invalid() {
    let mut m = fresh();
    assert_eq!(
        m.register_user(0, true, false, false),
        Err(MarketplaceError::InvalidInput)
    );
}

#[test]
fn add_role_requires_registration() {
    let mut m = fresh();
    assert_eq!(
        m.add_role(10, true, false, false),
        Err(MarketplaceError::Unauthorized)
    );
}

#[test]
fn add_role_without_roles_is_invalid() {
    let mut m = fresh();
    m.register_user(10, true, false, false).unwrap();
    assert_eq!(
        m.add_role(10, false, false, false),
        Err(MarketplaceError::InvalidInput)
    );
}

#[test]
fn add_role_is_additive_and_idempotent() {
    let mut m = fresh();
    m.register_user(10, true, false, false).unwrap();
    assert_eq!(m.add_role(10, false, true, false), Ok(()));
    let u = m.get_user(10);
    assert!(u.is_payer && u.is_beneficiary && !u.is_judge);
    // Re-adding an already-held role is a no-op, not an error.
    assert_eq!(m.add_role(10, true, true, false), Ok(()));
    let u2 = m.get_user(10);
    assert!(u2.is_payer && u2.is_beneficiary && !u2.is_judge);
    assert_eq!(u2.balance, 0);
}

#[test]
fn withdraw_requires_registration() {
    let mut m = fresh();
    assert_eq!(m.withdraw(10), Err(MarketplaceError::Unauthorized));
}

#[test]
fn withdraw_with_zero_balance_is_insufficient() {
    let mut m = fresh();
    m.register_user(10, true, false, false).unwrap();
    assert_eq!(m.withdraw(10), Err(MarketplaceError::InsufficientBalance));
}

#[test]
fn set_fee_percent_is_owner_gated() {
    let mut m = fresh();
    assert_eq!(
        m.set_fee_percent(99, 10),
        Err(MarketplaceError::Unauthorized)
    );
    assert_eq!(m.set_fee_percent(OWNER, 10), Ok(()));
    assert_eq!(m.current_fee_percent(), 10);
}

#[test]
fn set_fee_percent_rejects_over_100() {
    let mut m = fresh();
    assert_eq!(
        m.set_fee_percent(OWNER, 101),
        Err(MarketplaceError::InvalidInput)
    );
    assert_eq!(m.current_fee_percent(), 5);
    assert_eq!(m.set_fee_percent(OWNER, 100), Ok(()));
    assert_eq!(m.current_fee_percent(), 100);
}
