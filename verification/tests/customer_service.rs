use thundershare::customer::Customer;
use thundershare::customer_service::CustomerServiceImpl;
use thundershare::errors::CustomerError;
use thundershare::identity::Identity;
use thundershare::memory::{InMemoryCustomerRepository, InMemoryUsedTokenRepository};
use thundershare::repository::FixedClock;

const FAKE_ISSUE_AT: i64 = 636422400;

fn fresh_service() -> CustomerServiceImpl<
    FixedClock,
    InMemoryCustomerRepository,
    InMemoryUsedTokenRepository,
> {
    CustomerServiceImpl::new(
        FixedClock::new(FAKE_ISSUE_AT),
        InMemoryCustomerRepository::new(),
        InMemoryUsedTokenRepository::new(),
    )
}

#[test]
fn test_customer_svc_signup() {
    // a free username signs up and is issued a ten-minute identity
    let mut svc = fresh_service();
    let identity = svc.customer_signup("mikejiang", "").expect("signup should succeed");
    assert_eq!(identity.token.iat, FAKE_ISSUE_AT);
    assert_eq!(identity.get_expireat(), FAKE_ISSUE_AT + 600);

    // a taken username is rejected and nothing more is written
    let mut svc = fresh_service();
    svc.customer_signup("brucewayne", "").expect("first signup should succeed");
    let result = svc.customer_signup("brucewayne", "");
    assert_eq!(result, Err(CustomerError::CustomerAlreadyExist));
}

#[test]
fn test_customer_svc_signin() {
    // the registered credential pair signs in
    let mut svc = fresh_service();
    svc.customer_signup("mikejiang", "").expect("signup should succeed");
    let identity = svc.customer_signin("mikejiang", "").expect("signin should succeed");
    assert_eq!(identity.token.iat, FAKE_ISSUE_AT);
    assert_eq!(identity.get_expireat(), FAKE_ISSUE_AT + 600);

    // an unknown credential pair is rejected
    let svc = fresh_service();
    let result = svc.customer_signin("brucewayne", "");
    assert_eq!(result, Err(CustomerError::CustomerInvalidCredential));
}

#[test]
fn test_customer_svc_signout() {
    let mut svc = fresh_service();
    let customer = Customer::new("mikejiang", "");
    let identity = Identity::new(&customer, FAKE_ISSUE_AT, 600);
    let result = svc.customer_signout(&identity);
    assert_eq!(result, Ok(()));
}

#[test]
fn test_customer_svc_get_customer_by_username() {
    // a registered username is found
    let mut svc = fresh_service();
    svc.customer_signup("mikejiang", "").expect("signup should succeed");
    let customer = svc.get_customer_by_username("mikejiang").expect("lookup should succeed");
    assert_eq!(customer.get_username(), "mikejiang".to_string());

    // an unknown username is not
    let svc = fresh_service();
    let result = svc.get_customer_by_username("mikejiang");
    assert_eq!(result, Err(CustomerError::CustomerNotFound));
}

#[test]
fn test_signup_subject_resolves_back() {
    let mut svc = fresh_service();
    let identity = svc.customer_signup("alice", "pw1").expect("signup should succeed");
    let customer = svc.get_customer_by_id(&identity.get_id()).expect("subject should resolve");
    assert_eq!(customer.get_username(), "alice".to_string());
    assert_eq!(customer.get_id(), identity.get_id());
}

#[test]
fn test_signout_records_token_in_ledger() {
    let mut svc = fresh_service();
    let identity = svc.customer_signup("carol", "pw").expect("signup should succeed");
    let token = identity.to_string().expect("serialization should succeed");
    assert!(!svc.is_token_revoked(&token));
    svc.customer_signout(&identity).expect("signout should succeed");
    assert!(svc.is_token_revoked(&token));
}
