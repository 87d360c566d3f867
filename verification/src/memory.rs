//! In-memory implementations of the stores: the swappable test doubles the
//! services run against, verified against the same contracts the real
//! stores are trusted to meet.
use crate::customer::{Customer, CustomerModel};
use crate::errors::{CustomerError, FileError};
use crate::file_meta::{FileMeta, FileModel, FileSharingMeta, SharingModel};
use crate::repository::{
    customers_with_credential, customers_with_id, customers_with_username, files_of_customer,
    files_with_id, lemma_filter_take_step, links_with_id, CustomerRepositoryTrait,
    FileMetaRepositoryTrait, FileSharingRepositoryTrait, FileUploaderTrait,
    UsedTokenRepositoryTrait,
};
use crate::text::str_eq;
use crate::uid::Uuid;
use vstd::prelude::*;
use vstd::string::StringExecFns;

verus! {

/// Uploader that moves nothing and always reports success: the in-memory
/// stand-in for a blob store.
pub struct NoopFileUploader {}

impl NoopFileUploader {
    pub fn new() -> NoopFileUploader {
        NoopFileUploader {}
    }
}

impl FileUploaderTrait for NoopFileUploader {
    fn upload(&self, src_filename: &str, dest_filename: &str) -> (r: Result<(), FileError>) {
        Ok(())
    }
}

// ---------------------------------------------------------------------------
// customers
// ---------------------------------------------------------------------------

/// Customer store backed by a vector; ids are assigned from a counter.
pub struct InMemoryCustomerRepository {
    customers: Vec<Customer>,
    next_id: u128,
}

impl InMemoryCustomerRepository {
    pub fn new() -> (r: InMemoryCustomerRepository)
        ensures
            r.wf(),
            r.customers() == Seq::<CustomerModel>::empty(),
    {
        let r = InMemoryCustomerRepository { customers: Vec::new(), next_id: 1 };
        proof {
            assert(r.customers() =~= Seq::<CustomerModel>::empty());
        }
        r
    }
}

impl CustomerRepositoryTrait for InMemoryCustomerRepository {
    closed spec fn customers(&self) -> Seq<CustomerModel> {
        self.customers@.map_values(|c: Customer| c@)
    }

    closed spec fn wf(&self) -> bool {
        &&& 1 <= self.next_id
        &&& self.next_id <= self.customers@.len() + 1
        &&& forall|i: int|
            0 <= i < self.customers@.len() ==> 0 < (#[trigger] self.customers@[i])@.id
                < self.next_id
    }

    fn create_customer(&mut self, username: &str, password: &str) -> (r: Result<
        Customer,
        CustomerError,
    >) {
        let existing = self.get_customer_by_username(username);
        if existing.len() > 0 {
            return Err(CustomerError::CustomerAlreadyExist);
        }
        let n = self.customers.len();
        proof {
            assert(self.customers@.len() == n);
        }
        let id = Uuid::from_u128(self.next_id);
        let c = Customer::new_with_id(&id, username, password);
        let ghost before = self.customers();
        self.customers.push(c.clone());
        self.next_id = self.next_id + 1;
        proof {
            assert(self.customers() =~= before.push(c@));
        }
        Ok(c)
    }

    fn get_customer_by_username(&self, username: &str) -> (r: Vec<Customer>) {
        let ghost s = self.customers();
        let ghost pred = |c: CustomerModel| c.username == username@;
        let mut out: Vec<Customer> = Vec::new();
        let mut i: usize = 0;
        proof {
            assert(s.take(0).filter(pred) =~= Seq::<CustomerModel>::empty());
            assert(out@.map_values(|c: Customer| c@) =~= Seq::<CustomerModel>::empty());
        }
        while i < self.customers.len()
            invariant
                i <= self.customers@.len(),
                s == self.customers(),
                pred == (|c: CustomerModel| c.username == username@),
                out@.map_values(|c: Customer| c@) == s.take(i as int).filter(pred),
            decreases self.customers@.len() - i,
        {
            let hit = {
                let cand = &self.customers[i];
                str_eq(cand.get_username().as_str(), username)
            };
            proof {
                lemma_filter_take_step(s, pred, i as int);
                assert(s[i as int] == self.customers@[i as int]@);
            }
            if hit {
                let ghost out0 = out@;
                out.push(self.customers[i].clone());
                proof {
                    assert(out@.map_values(|c: Customer| c@) =~= out0.map_values(
                        |c: Customer| c@,
                    ).push(self.customers@[i as int]@));
                }
            }
            i = i + 1;
        }
        proof {
            assert(s.take(s.len() as int) =~= s);
        }
        out
    }

    fn get_customer_by_id(&self, id: &Uuid) -> (r: Vec<Customer>) {
        let ghost s = self.customers();
        let ghost pred = |c: CustomerModel| c.id == id.value as int;
        let mut out: Vec<Customer> = Vec::new();
        let mut i: usize = 0;
        proof {
            assert(s.take(0).filter(pred) =~= Seq::<CustomerModel>::empty());
            assert(out@.map_values(|c: Customer| c@) =~= Seq::<CustomerModel>::empty());
        }
        while i < self.customers.len()
            invariant
                i <= self.customers@.len(),
                s == self.customers(),
                pred == (|c: CustomerModel| c.id == id.value as int),
                out@.map_values(|c: Customer| c@) == s.take(i as int).filter(pred),
            decreases self.customers@.len() - i,
        {
            let hit = {
                let cand = &self.customers[i];
                cand.get_id().as_u128() == id.as_u128()
            };
            proof {
                lemma_filter_take_step(s, pred, i as int);
                assert(s[i as int] == self.customers@[i as int]@);
            }
            if hit {
                let ghost out0 = out@;
                out.push(self.customers[i].clone());
                proof {
                    assert(out@.map_values(|c: Customer| c@) =~= out0.map_values(
                        |c: Customer| c@,
                    ).push(self.customers@[i as int]@));
                }
            }
            i = i + 1;
        }
        proof {
            assert(s.take(s.len() as int) =~= s);
        }
        out
    }

    fn get_customer_by_credential(&self, username: &str, password: &str) -> (r: Vec<Customer>) {
        let ghost s = self.customers();
        let ghost pred = |c: CustomerModel| c.username == username@ && c.password == password@;
        let mut out: Vec<Customer> = Vec::new();
        let mut i: usize = 0;
        proof {
            assert(s.take(0).filter(pred) =~= Seq::<CustomerModel>::empty());
            assert(out@.map_values(|c: Customer| c@) =~= Seq::<CustomerModel>::empty());
        }
        while i < self.customers.len()
            invariant
                i <= self.customers@.len(),
                s == self.customers(),
                pred == (|c: CustomerModel| c.username == username@ && c.password == password@),
                out@.map_values(|c: Customer| c@) == s.take(i as int).filter(pred),
            decreases self.customers@.len() - i,
        {
            let hit = {
                let cand = &self.customers[i];
                str_eq(cand.get_username().as_str(), username) && str_eq(
                    cand.get_password().as_str(),
                    password,
                )
            };
            proof {
                lemma_filter_take_step(s, pred, i as int);
                assert(s[i as int] == self.customers@[i as int]@);
            }
            if hit {
                let ghost out0 = out@;
                out.push(self.customers[i].clone());
                proof {
                    assert(out@.map_values(|c: Customer| c@) =~= out0.map_values(
                        |c: Customer| c@,
                    ).push(self.customers@[i as int]@));
                }
            }
            i = i + 1;
        }
        proof {
            assert(s.take(s.len() as int) =~= s);
        }
        out
    }
}

// ---------------------------------------------------------------------------
// used tokens
// ---------------------------------------------------------------------------

/// Used-token ledger backed by a vector.
pub struct InMemoryUsedTokenRepository {
    tokens: Vec<(String, i64)>,
}

impl InMemoryUsedTokenRepository {
    pub fn new() -> (r: InMemoryUsedTokenRepository)
        ensures
            r.used_tokens() == Seq::<(Seq<char>, int)>::empty(),
    {
        let r = InMemoryUsedTokenRepository { tokens: Vec::new() };
        proof {
            assert(r.used_tokens() =~= Seq::<(Seq<char>, int)>::empty());
        }
        r
    }
}

impl UsedTokenRepositoryTrait for InMemoryUsedTokenRepository {
    closed spec fn used_tokens(&self) -> Seq<(Seq<char>, int)> {
        self.tokens@.map_values(|p: (String, i64)| (p.0@, p.1 as int))
    }

    fn create_used_token(&mut self, token: &str, expire_time: i64) {
        let ghost before = self.used_tokens();
        self.tokens.push((String::from_str(token), expire_time));
        proof {
            assert(self.used_tokens() =~= before.push((token@, expire_time as int)));
        }
    }

    fn contains_token(&self, token: &str) -> (r: bool) {
        let mut i: usize = 0;
        while i < self.tokens.len()
            invariant
                i <= self.tokens@.len(),
                forall|q: int|
                    0 <= q < i ==> (#[trigger] self.used_tokens()[q]).0 != token@,
            decreases self.tokens@.len() - i,
        {
            let hit = {
                let cand = &self.tokens[i];
                str_eq(cand.0.as_str(), token)
            };
            if hit {
                proof {
                    assert((self.used_tokens()[i as int]).0 == token@);
                }
                return true;
            }
            proof {
                assert((self.used_tokens()[i as int]).0 == self.tokens@[i as int].0@);
            }
            i = i + 1;
        }
        false
    }
}

// ---------------------------------------------------------------------------
// files
// ---------------------------------------------------------------------------

/// File metadata store backed by a vector; ids are assigned from a counter.
pub struct InMemoryFileMetaRepository {
    files: Vec<FileMeta>,
    next_id: u128,
}

impl InMemoryFileMetaRepository {
    pub fn new() -> (r: InMemoryFileMetaRepository)
        ensures
            r.wf(),
            r.files() == Seq::<FileModel>::empty(),
    {
        let r = InMemoryFileMetaRepository { files: Vec::new(), next_id: 1 };
        proof {
            assert(r.files() =~= Seq::<FileModel>::empty());
        }
        r
    }
}

impl FileMetaRepositoryTrait for InMemoryFileMetaRepository {
    closed spec fn files(&self) -> Seq<FileModel> {
        self.files@.map_values(|f: FileMeta| f@)
    }

    closed spec fn wf(&self) -> bool {
        &&& 1 <= self.next_id
        &&& self.next_id <= self.files@.len() + 1
        &&& forall|i: int|
            0 <= i < self.files@.len() ==> 0 < (#[trigger] self.files@[i])@.id < self.next_id
    }

    fn create(&mut self, customer_id: &Uuid, url: &str) -> (r: FileMeta) {
        let n = self.files.len();
        proof {
            assert(self.files@.len() == n);
        }
        let id = Uuid::from_u128(self.next_id);
        let f = FileMeta::new_full(&id, customer_id, url);
        let ghost before = self.files();
        self.files.push(f.clone());
        self.next_id = self.next_id + 1;
        proof {
            assert(self.files() =~= before.push(f@));
        }
        f
    }

    fn get_file_meta_by_id(&self, id: &Uuid) -> (r: Vec<FileMeta>) {
        let ghost s = self.files();
        let ghost pred = |f: FileModel| f.id == id.value as int;
        let mut out: Vec<FileMeta> = Vec::new();
        let mut i: usize = 0;
        proof {
            assert(s.take(0).filter(pred) =~= Seq::<FileModel>::empty());
            assert(out@.map_values(|f: FileMeta| f@) =~= Seq::<FileModel>::empty());
        }
        while i < self.files.len()
            invariant
                i <= self.files@.len(),
                s == self.files(),
                pred == (|f: FileModel| f.id == id.value as int),
                out@.map_values(|f: FileMeta| f@) == s.take(i as int).filter(pred),
            decreases self.files@.len() - i,
        {
            let hit = {
                let cand = &self.files[i];
                cand.get_id().as_u128() == id.as_u128()
            };
            proof {
                lemma_filter_take_step(s, pred, i as int);
                assert(s[i as int] == self.files@[i as int]@);
            }
            if hit {
                let ghost out0 = out@;
                out.push(self.files[i].clone());
                proof {
                    assert(out@.map_values(|f: FileMeta| f@) =~= out0.map_values(
                        |f: FileMeta| f@,
                    ).push(self.files@[i as int]@));
                }
            }
            i = i + 1;
        }
        proof {
            assert(s.take(s.len() as int) =~= s);
        }
        out
    }

    fn list_file_meta_by_customer_id(&self, customer_id: &Uuid) -> (r: Vec<FileMeta>) {
        let ghost s = self.files();
        let ghost pred = |f: FileModel| f.customer_id == customer_id.value as int;
        let mut out: Vec<FileMeta> = Vec::new();
        let mut i: usize = 0;
        proof {
            assert(s.take(0).filter(pred) =~= Seq::<FileModel>::empty());
            assert(out@.map_values(|f: FileMeta| f@) =~= Seq::<FileModel>::empty());
        }
        while i < self.files.len()
            invariant
                i <= self.files@.len(),
                s == self.files(),
                pred == (|f: FileModel| f.customer_id == customer_id.value as int),
                out@.map_values(|f: FileMeta| f@) == s.take(i as int).filter(pred),
            decreases self.files@.len() - i,
        {
            let hit = {
                let cand = &self.files[i];
                cand.get_customer_id().as_u128() == customer_id.as_u128()
            };
            proof {
                lemma_filter_take_step(s, pred, i as int);
                assert(s[i as int] == self.files@[i as int]@);
            }
            if hit {
                let ghost out0 = out@;
                out.push(self.files[i].clone());
                proof {
                    assert(out@.map_values(|f: FileMeta| f@) =~= out0.map_values(
                        |f: FileMeta| f@,
                    ).push(self.files@[i as int]@));
                }
            }
            i = i + 1;
        }
        proof {
            assert(s.take(s.len() as int) =~= s);
        }
        out
    }
}

// ---------------------------------------------------------------------------
// sharing links
// ---------------------------------------------------------------------------

/// Sharing-link store backed by a vector; ids are assigned from a counter.
pub struct InMemoryFileSharingRepository {
    links: Vec<FileSharingMeta>,
    next_id: u128,
}

impl InMemoryFileSharingRepository {
    pub fn new() -> (r: InMemoryFileSharingRepository)
        ensures
            r.wf(),
            r.links() == Seq::<SharingModel>::empty(),
    {
        let r = InMemoryFileSharingRepository { links: Vec::new(), next_id: 1 };
        proof {
            assert(r.links() =~= Seq::<SharingModel>::empty());
        }
        r
    }
}

impl FileSharingRepositoryTrait for InMemoryFileSharingRepository {
    closed spec fn links(&self) -> Seq<SharingModel> {
        self.links@.map_values(|l: FileSharingMeta| l@)
    }

    closed spec fn wf(&self) -> bool {
        &&& 1 <= self.next_id
        &&& self.next_id <= self.links@.len() + 1
        &&& forall|i: int|
            0 <= i < self.links@.len() ==> 0 < (#[trigger] self.links@[i])@.id < self.next_id
    }

    fn create(
        &mut self,
        file_id: &Uuid,
        link: &str,
        expireat: i64,
        password: &Option<String>,
    ) -> (r: FileSharingMeta) {
        let n = self.links.len();
        proof {
            assert(self.links@.len() == n);
        }
        let id = Uuid::from_u128(self.next_id);
        let m = FileSharingMeta::new_full(&id, file_id, link, expireat, password);
        let ghost before = self.links();
        self.links.push(m.clone());
        self.next_id = self.next_id + 1;
        proof {
            assert(self.links() =~= before.push(m@));
        }
        m
    }

    fn get_by_id(&self, id: &Uuid) -> (r: Vec<FileSharingMeta>) {
        let ghost s = self.links();
        let ghost pred = |l: SharingModel| l.id == id.value as int;
        let mut out: Vec<FileSharingMeta> = Vec::new();
        let mut i: usize = 0;
        proof {
            assert(s.take(0).filter(pred) =~= Seq::<SharingModel>::empty());
            assert(out@.map_values(|l: FileSharingMeta| l@) =~= Seq::<SharingModel>::empty());
        }
        while i < self.links.len()
            invariant
                i <= self.links@.len(),
                s == self.links(),
                pred == (|l: SharingModel| l.id == id.value as int),
                out@.map_values(|l: FileSharingMeta| l@) == s.take(i as int).filter(pred),
            decreases self.links@.len() - i,
        {
            let hit = {
                let cand = &self.links[i];
                cand.get_id().as_u128() == id.as_u128()
            };
            proof {
                lemma_filter_take_step(s, pred, i as int);
                assert(s[i as int] == self.links@[i as int]@);
            }
            if hit {
                let ghost out0 = out@;
                out.push(self.links[i].clone());
                proof {
                    assert(out@.map_values(|l: FileSharingMeta| l@) =~= out0.map_values(
                        |l: FileSharingMeta| l@,
                    ).push(self.links@[i as int]@));
                }
            }
            i = i + 1;
        }
        proof {
            assert(s.take(s.len() as int) =~= s);
        }
        out
    }
}

} // verus!
