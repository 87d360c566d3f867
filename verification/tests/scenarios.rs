use thundershare::customer_service::CustomerServiceImpl;
use thundershare::errors::{CustomerError, FileError};
use thundershare::file_service::FileServiceImpl;
use thundershare::memory::{
    InMemoryCustomerRepository, InMemoryFileMetaRepository, InMemoryFileSharingRepository,
    InMemoryUsedTokenRepository, NoopFileUploader,
};
use thundershare::repository::FixedClock;
use thundershare::uid::Uuid;

const NOW: i64 = 1700000000;

#[test]
fn test_signup_signin_scenario() {
    let mut svc = CustomerServiceImpl::new(
        FixedClock::new(NOW),
        InMemoryCustomerRepository::new(),
        InMemoryUsedTokenRepository::new(),
    );

    // create customer "alice"/"pw1": signup succeeds
    svc.customer_signup("alice", "pw1").expect("signup should succeed");

    // a second signup under the same username fails
    assert_eq!(
        svc.customer_signup("alice", "pw2"),
        Err(CustomerError::CustomerAlreadyExist)
    );

    // the right credentials sign in, the wrong ones do not
    let identity = svc.customer_signin("alice", "pw1").expect("signin should succeed");
    assert_eq!(identity.get_expireat(), NOW + 600);
    assert_eq!(
        svc.customer_signin("alice", "wrong"),
        Err(CustomerError::CustomerInvalidCredential)
    );
}

#[test]
fn test_expired_link_scenario() {
    let mut svc = FileServiceImpl::new(
        FixedClock::new(NOW),
        NoopFileUploader::new(),
        InMemoryFileMetaRepository::new(),
        InMemoryFileSharingRepository::new(),
    );

    // upload a file for customer X and share it with an expiry one second
    // in the past
    let owner = Uuid::from_u128(11);
    let meta = svc.file_upload(&owner, "upload.tmp").expect("upload should succeed");
    let link = svc
        .file_create_sharing_link(&meta.get_id(), NOW - 1, &None)
        .expect("link creation should succeed");

    // resolving the link fails as expired, password or not
    assert_eq!(
        svc.file_get_sharing_link_by_id(&link.get_id(), None),
        Err(FileError::FileSharingLinkExpired)
    );
    assert_eq!(
        svc.file_get_sharing_link_by_id(&link.get_id(), Some("anything".to_string())),
        Err(FileError::FileSharingLinkExpired)
    );
}

#[test]
fn test_ownership_scenario() {
    let mut svc = FileServiceImpl::new(
        FixedClock::new(NOW),
        NoopFileUploader::new(),
        InMemoryFileMetaRepository::new(),
        InMemoryFileSharingRepository::new(),
    );

    let owner_a = Uuid::from_u128(1);
    let customer_b = Uuid::from_u128(2);
    let meta = svc.file_upload(&owner_a, "a.bin").expect("upload should succeed");

    // requested by B it is refused, requested by A it succeeds
    assert_eq!(
        svc.file_read_by_id(&meta.get_id(), &customer_b),
        Err(FileError::FileNotBelongToCustomer)
    );
    assert_eq!(svc.file_read_by_id(&meta.get_id(), &owner_a), Ok(meta));
}

#[test]
fn test_orphaned_link_not_found() {
    let mut svc = FileServiceImpl::new(
        FixedClock::new(NOW),
        NoopFileUploader::new(),
        InMemoryFileMetaRepository::new(),
        InMemoryFileSharingRepository::new(),
    );

    // a link whose file was never recorded resolves to not-found
    let orphan_file = Uuid::from_u128(404);
    let link = svc
        .file_create_sharing_link(&orphan_file, NOW + 60, &None)
        .expect("link creation should succeed");
    assert_eq!(
        svc.file_get_sharing_link_by_id(&link.get_id(), None),
        Err(FileError::FileNotFound)
    );
}
