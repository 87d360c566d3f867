//! The file service: upload bookkeeping, ownership-guarded reads, and the
//! sharing-link engine that gates public access by existence, expiry and
//! password, in that order.
use crate::errors::FileError;
use crate::file_meta::{password_accepted, FileMeta, FileModel, FileSharingMeta, SharingModel};
use crate::repository::{
    files_of_customer, files_with_id, fresh_file_id, fresh_link_id, links_with_id, ClockTrait,
    FileMetaRepositoryTrait, FileSharingRepositoryTrait, FileUploaderTrait, MAX_TIMESTAMP,
};
use crate::uid::Uuid;
use vstd::prelude::*;

verus! {

/// The outcome of a direct read: the file must exist and belong to the
/// requesting customer, checked in that order.
pub open spec fn read_file_spec(files: Seq<FileModel>, id: int, customer_id: int) -> Result<
    FileModel,
    FileError,
> {
    let matches = files_with_id(files, id);
    if matches.len() == 0 {
        Err(FileError::FileNotFound)
    } else if matches[0].customer_id != customer_id {
        Err(FileError::FileNotBelongToCustomer)
    } else {
        Ok(matches[0])
    }
}

/// The outcome of resolving a sharing link: existence, then expiry, then
/// password, then resolution of the underlying file. The order makes the
/// most specific failure win; an expired link never reveals whether a
/// password would have matched.
pub open spec fn resolve_link_spec(
    links: Seq<SharingModel>,
    files: Seq<FileModel>,
    id: int,
    supplied: Seq<char>,
    now: int,
) -> Result<FileModel, FileError> {
    let ls = links_with_id(links, id);
    if ls.len() == 0 {
        Err(FileError::FileNotFound)
    } else if ls[0].expireat < now {
        Err(FileError::FileSharingLinkExpired)
    } else if !password_accepted(ls[0].password, supplied) {
        Err(FileError::FileSharingLinkPasswordIncorrect)
    } else {
        let fs = files_with_id(files, ls[0].file_id);
        if fs.len() == 0 {
            Err(FileError::FileNotFound)
        } else {
            Ok(fs[0])
        }
    }
}

/// The password a caller supplied: a missing one counts as empty.
pub open spec fn supplied_password(password: Option<String>) -> Seq<char> {
    match password {
        Some(p) => p@,
        None => Seq::<char>::empty(),
    }
}

/// Relies on `uuid::Uuid::new_v4` and its hyphenated `Display` form: a
/// freshly drawn random locator string. Nothing is promised of its value;
/// two calls may differ.
#[verifier::external_body]
fn generate_locator() -> (r: String) {
    uuid::Uuid::new_v4().to_string()
}

/// Orchestrates uploads, reads and sharing links against the injected
/// clock, uploader and metadata stores.
pub struct FileServiceImpl<C: ClockTrait, U: FileUploaderTrait, M: FileMetaRepositoryTrait, S: FileSharingRepositoryTrait> {
    clock: C,
    file_uploader: U,
    file_meta_repository: M,
    file_sharing_meta_repository: S,
}

impl<
    C: ClockTrait,
    U: FileUploaderTrait,
    M: FileMetaRepositoryTrait,
    S: FileSharingRepositoryTrait,
> FileServiceImpl<C, U, M, S> {
    pub closed spec fn wf(&self) -> bool {
        &&& self.file_meta_repository.wf()
        &&& self.file_sharing_meta_repository.wf()
    }

    /// The file records the underlying store holds.
    pub closed spec fn files(&self) -> Seq<FileModel> {
        self.file_meta_repository.files()
    }

    /// The sharing-link records the underlying store holds.
    pub closed spec fn links(&self) -> Seq<SharingModel> {
        self.file_sharing_meta_repository.links()
    }

    pub fn new(
        clock: C,
        file_uploader: U,
        file_meta_repository: M,
        file_sharing_meta_repository: S,
    ) -> (r: Self)
        requires
            file_meta_repository.wf(),
            file_sharing_meta_repository.wf(),
        ensures
            r.wf(),
            r.files() == file_meta_repository.files(),
            r.links() == file_sharing_meta_repository.links(),
    {
        FileServiceImpl { clock, file_uploader, file_meta_repository, file_sharing_meta_repository }
    }

    /// A fresh storage locator for an uploaded file.
    fn fileid_generator(&self) -> String {
        generate_locator()
    }

    /// Moves the uploaded bytes into place and records the file for its
    /// owner. On an uploader failure nothing is recorded.
    pub fn file_upload(&mut self, customer_id: &Uuid, filename: &str) -> (r: Result<
        FileMeta,
        FileError,
    >)
        requires
            old(self).wf(),
        ensures
            final(self).wf(),
            final(self).links() == old(self).links(),
            match r {
                Ok(f) => {
                    &&& f@.customer_id == customer_id.value
                    &&& fresh_file_id(old(self).files(), f@.id)
                    &&& final(self).files() == old(self).files().push(f@)
                },
                Err(_) => final(self).files() == old(self).files(),
            },
    {
        let dest_filename = self.fileid_generator();
        let url = dest_filename.clone();
        match self.file_uploader.upload(filename, dest_filename.as_str()) {
            Ok(_) => {},
            Err(e) => {
                return Err(e);
            },
        }
        let file_meta = self.file_meta_repository.create(customer_id, url.as_str());
        Ok(file_meta)
    }

    /// Reads a file's record: it must exist and belong to the requesting
    /// customer.
    pub fn file_read_by_id(&self, id: &Uuid, customer_id: &Uuid) -> (r: Result<
        FileMeta,
        FileError,
    >)
        requires
            self.wf(),
        ensures
            match r {
                Ok(f) => read_file_spec(self.files(), id.value as int, customer_id.value as int)
                    == Ok::<FileModel, FileError>(f@),
                Err(e) => read_file_spec(self.files(), id.value as int, customer_id.value as int)
                    == Err::<FileModel, FileError>(e),
            },
    {
        let file_meta_list = self.file_meta_repository.get_file_meta_by_id(id);
        if file_meta_list.len() == 0 {
            return Err(FileError::FileNotFound);
        }
        let file_meta = file_meta_list[0].clone();
        if file_meta.get_customer_id().as_u128() != customer_id.as_u128() {
            return Err(FileError::FileNotBelongToCustomer);
        }
        Ok(file_meta)
    }

    /// All files of one customer, in store order.
    pub fn file_list_by_customer_id(&self, customer_id: &Uuid) -> (r: Result<
        Vec<FileMeta>,
        FileError,
    >)
        requires
            self.wf(),
        ensures
            r matches Ok(v) && v@.map_values(|f: FileMeta| f@) == files_of_customer(
                self.files(),
                customer_id.value as int,
            ),
    {
        let file_meta_list = self.file_meta_repository.list_file_meta_by_customer_id(customer_id);
        Ok(file_meta_list)
    }

    /// Creates a sharing link for a file, with an expiry timestamp and an
    /// optional password. The link token is freshly generated. Ownership of
    /// `file_id` is not checked here; a caller that requires it can first
    /// check with `file_read_by_id`.
    pub fn file_create_sharing_link(
        &mut self,
        file_id: &Uuid,
        expireat: i64,
        password: &Option<String>,
    ) -> (r: Result<FileSharingMeta, FileError>)
        requires
            old(self).wf(),
        ensures
            final(self).wf(),
            final(self).files() == old(self).files(),
            r matches Ok(m) && {
                &&& m@.file_id == file_id.value
                &&& m@.expireat == expireat
                &&& m@.password == (match *password {
                    Some(p) => Some(p@),
                    None => None::<Seq<char>>,
                })
                &&& fresh_link_id(old(self).links(), m@.id)
                &&& final(self).links() == old(self).links().push(m@)
            },
    {
        let link = self.fileid_generator();
        let file_sharing_meta = self.file_sharing_meta_repository.create(
            file_id,
            link.as_str(),
            expireat,
            password,
        );
        Ok(file_sharing_meta)
    }

    /// Resolves a sharing link against the current time: existence, expiry,
    /// password, then the underlying file, in that order. A missing supplied
    /// password counts as the empty string.
    pub fn file_get_sharing_link_by_id(&self, id: &Uuid, password: Option<String>) -> (r: Result<
        FileMeta,
        FileError,
    >)
        requires
            self.wf(),
        ensures
            exists|now: int|
                {
                    &&& 0 <= now <= MAX_TIMESTAMP
                    &&& (match r {
                        Ok(f) => #[trigger] resolve_link_spec(
                            self.links(),
                            self.files(),
                            id.value as int,
                            supplied_password(password),
                            now,
                        ) == Ok::<FileModel, FileError>(f@),
                        Err(e) => resolve_link_spec(
                            self.links(),
                            self.files(),
                            id.value as int,
                            supplied_password(password),
                            now,
                        ) == Err::<FileModel, FileError>(e),
                    })
                },
    {
        let ghost supplied: Seq<char> = supplied_password(password);
        let file_sharing_meta_list = self.file_sharing_meta_repository.get_by_id(id);
        let curr_time = self.clock.current_time();
        if file_sharing_meta_list.len() == 0 {
            proof {
                assert(resolve_link_spec(
                    self.links(),
                    self.files(),
                    id.value as int,
                    supplied,
                    curr_time as int,
                ) == Err::<FileModel, FileError>(FileError::FileNotFound));
            }
            return Err(FileError::FileNotFound);
        }
        let file_sharing_meta = file_sharing_meta_list[0].clone();
        if file_sharing_meta.is_expired(curr_time) {
            proof {
                assert(resolve_link_spec(
                    self.links(),
                    self.files(),
                    id.value as int,
                    supplied,
                    curr_time as int,
                ) == Err::<FileModel, FileError>(FileError::FileSharingLinkExpired));
            }
            return Err(FileError::FileSharingLinkExpired);
        }
        let pw_ok = match &password {
            Some(p) => file_sharing_meta.is_password_correct(p.as_str()),
            None => file_sharing_meta.is_password_correct(""),
        };
        if !pw_ok {
            proof {
                reveal_strlit("");
                assert(""@ =~= Seq::<char>::empty());
                assert(resolve_link_spec(
                    self.links(),
                    self.files(),
                    id.value as int,
                    supplied,
                    curr_time as int,
                ) == Err::<FileModel, FileError>(FileError::FileSharingLinkPasswordIncorrect));
            }
            return Err(FileError::FileSharingLinkPasswordIncorrect);
        }
        proof {
            reveal_strlit("");
            assert(""@ =~= Seq::<char>::empty());
        }
        let file_id = file_sharing_meta.get_file_id();
        let file_meta_list = self.file_meta_repository.get_file_meta_by_id(&file_id);
        if file_meta_list.len() == 0 {
            proof {
                assert(resolve_link_spec(
                    self.links(),
                    self.files(),
                    id.value as int,
                    supplied,
                    curr_time as int,
                ) == Err::<FileModel, FileError>(FileError::FileNotFound));
            }
            return Err(FileError::FileNotFound);
        }
        let file_meta = file_meta_list[0].clone();
        proof {
            assert(resolve_link_spec(
                self.links(),
                self.files(),
                id.value as int,
                supplied,
                curr_time as int,
            ) == Ok::<FileModel, FileError>(file_meta@));
        }
        Ok(file_meta)
    }
}

// ---------------------------------------------------------------------------
// laws of the sharing-link engine and the ownership guard
// ---------------------------------------------------------------------------

/// A link whose expiry lies before the current time fails with
/// `FileSharingLinkExpired`, whatever password is supplied: the expiry
/// check precedes the password check.
pub proof fn lemma_expired_link_rejected(
    links: Seq<SharingModel>,
    files: Seq<FileModel>,
    id: int,
    supplied: Seq<char>,
    now: int,
)
    requires
        links_with_id(links, id).len() != 0,
        links_with_id(links, id)[0].expireat < now,
    ensures
        resolve_link_spec(links, files, id, supplied, now) == Err::<FileModel, FileError>(
            FileError::FileSharingLinkExpired,
        ),
{
}

/// A live link with no stored password accepts resolution with the empty
/// supplied password: the outcome is exactly the underlying file lookup.
pub proof fn lemma_unprotected_link_accepts_empty(
    links: Seq<SharingModel>,
    files: Seq<FileModel>,
    id: int,
    now: int,
)
    requires
        links_with_id(links, id).len() != 0,
        !(links_with_id(links, id)[0].expireat < now),
        links_with_id(links, id)[0].password is None,
    ensures
        resolve_link_spec(links, files, id, Seq::<char>::empty(), now) == ({
            let fs = files_with_id(files, links_with_id(links, id)[0].file_id);
            if fs.len() == 0 {
                Err::<FileModel, FileError>(FileError::FileNotFound)
            } else {
                Ok::<FileModel, FileError>(fs[0])
            }
        }),
{
}

/// A live link with a stored password rejects any non-matching supplied
/// password, the empty string included.
pub proof fn lemma_protected_link_rejects_wrong(
    links: Seq<SharingModel>,
    files: Seq<FileModel>,
    id: int,
    supplied: Seq<char>,
    now: int,
)
    requires
        links_with_id(links, id).len() != 0,
        !(links_with_id(links, id)[0].expireat < now),
        links_with_id(links, id)[0].password matches Some(p) && p != supplied,
    ensures
        resolve_link_spec(links, files, id, supplied, now) == Err::<FileModel, FileError>(
            FileError::FileSharingLinkPasswordIncorrect,
        ),
{
}

/// The ownership guard: an existing file read by its owner succeeds with
/// that record; read by anyone else it fails with `FileNotBelongToCustomer`.
pub proof fn lemma_file_read_ownership(files: Seq<FileModel>, id: int, requester: int)
    requires
        files_with_id(files, id).len() != 0,
    ensures
        files_with_id(files, id)[0].customer_id == requester ==> read_file_spec(files, id, requester)
            == Ok::<FileModel, FileError>(files_with_id(files, id)[0]),
        files_with_id(files, id)[0].customer_id != requester ==> read_file_spec(files, id, requester)
            == Err::<FileModel, FileError>(FileError::FileNotBelongToCustomer),
{
}

} // verus!
