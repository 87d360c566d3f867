use thundershare::errors::FileError;
use thundershare::file_service::FileServiceImpl;
use thundershare::memory::{
    InMemoryFileMetaRepository, InMemoryFileSharingRepository, NoopFileUploader,
};
use thundershare::repository::FixedClock;
use thundershare::uid::Uuid;

const NOW: i64 = 1700000000;

fn fresh_service() -> FileServiceImpl<
    FixedClock,
    NoopFileUploader,
    InMemoryFileMetaRepository,
    InMemoryFileSharingRepository,
> {
    FileServiceImpl::new(
        FixedClock::new(NOW),
        NoopFileUploader::new(),
        InMemoryFileMetaRepository::new(),
        InMemoryFileSharingRepository::new(),
    )
}

fn other_customer() -> Uuid {
    Uuid::from_u128(uuid::Uuid::parse_str("67e55044-10b1-426f-9247-bb680e5fe0c8").unwrap().as_u128())
}

#[test]
fn test_file_svc_read_by_id() {
    // an existing file read by its owner is returned
    let mut svc = fresh_service();
    let owner = Uuid::from_u128(7);
    let meta = svc.file_upload(&owner, "").expect("upload should succeed");
    let read = svc.file_read_by_id(&meta.get_id(), &owner).expect("read should succeed");
    assert_eq!(read, meta);

    // a missing file is not found
    let svc = fresh_service();
    let result = svc.file_read_by_id(&Uuid::default(), &Uuid::default());
    assert_eq!(result, Err(FileError::FileNotFound));

    // an existing file read by another customer is refused
    let mut svc = fresh_service();
    let meta = svc.file_upload(&other_customer(), "").expect("upload should succeed");
    let result = svc.file_read_by_id(&meta.get_id(), &Uuid::default());
    assert_eq!(result, Err(FileError::FileNotBelongToCustomer));
}

#[test]
fn test_file_svc_list_by_customer_id() {
    // a customer with one file lists that one file
    let mut svc = fresh_service();
    let owner = Uuid::from_u128(5);
    let meta = svc.file_upload(&owner, "").expect("upload should succeed");
    let listed = svc.file_list_by_customer_id(&owner).expect("list should succeed");
    assert_eq!(listed, vec![meta]);

    // a customer with no files lists nothing
    let svc = fresh_service();
    let listed = svc.file_list_by_customer_id(&Uuid::default()).expect("list should succeed");
    assert_eq!(listed, vec![]);
}

#[test]
fn test_file_svc_file_upload() {
    let mut svc = fresh_service();
    let owner = Uuid::from_u128(9);
    let meta = svc.file_upload(&owner, "").expect("upload should succeed");
    assert_eq!(meta.get_customer_id(), owner);
}

#[test]
fn test_sharing_link_password_gate() {
    // a protected link rejects a wrong and an empty password, accepts the match
    let mut svc = fresh_service();
    let owner = Uuid::from_u128(3);
    let meta = svc.file_upload(&owner, "").expect("upload should succeed");
    let link = svc
        .file_create_sharing_link(&meta.get_id(), NOW + 60, &Some("s3cret".to_string()))
        .expect("link creation should succeed");

    let wrong = svc.file_get_sharing_link_by_id(&link.get_id(), Some("nope".to_string()));
    assert_eq!(wrong, Err(FileError::FileSharingLinkPasswordIncorrect));

    let empty = svc.file_get_sharing_link_by_id(&link.get_id(), Some(String::new()));
    assert_eq!(empty, Err(FileError::FileSharingLinkPasswordIncorrect));

    let missing = svc.file_get_sharing_link_by_id(&link.get_id(), None);
    assert_eq!(missing, Err(FileError::FileSharingLinkPasswordIncorrect));

    let right = svc.file_get_sharing_link_by_id(&link.get_id(), Some("s3cret".to_string()));
    assert_eq!(right, Ok(meta));
}

#[test]
fn test_sharing_link_without_password_accepts_empty() {
    let mut svc = fresh_service();
    let owner = Uuid::from_u128(4);
    let meta = svc.file_upload(&owner, "").expect("upload should succeed");
    let link = svc
        .file_create_sharing_link(&meta.get_id(), NOW + 60, &None)
        .expect("link creation should succeed");

    let with_none = svc.file_get_sharing_link_by_id(&link.get_id(), None);
    assert_eq!(with_none, Ok(meta.clone()));

    let with_empty = svc.file_get_sharing_link_by_id(&link.get_id(), Some(String::new()));
    assert_eq!(with_empty, Ok(meta));
}

#[test]
fn test_sharing_link_unknown_id_not_found() {
    let svc = fresh_service();
    let result = svc.file_get_sharing_link_by_id(&Uuid::from_u128(42), None);
    assert_eq!(result, Err(FileError::FileNotFound));
}
