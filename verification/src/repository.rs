//! The collaborator contracts the services are verified against: credential
//! store, used-token ledger, file metadata store, sharing metadata store,
//! blob uploader, and the injected clock. Every lookup is modelled as a
//! filter over the records the store holds, in insertion order.
use crate::customer::{Customer, CustomerModel};
use crate::errors::{CustomerError, FileError};
use crate::file_meta::{FileMeta, FileModel, FileSharingMeta, SharingModel};
use crate::uid::Uuid;
use vstd::prelude::*;

verus! {

/// Upper bound promised by clocks: the end of year 9999, in Unix seconds.
/// It keeps expiry arithmetic within `i64`.
pub const MAX_TIMESTAMP: i64 = 253402300799;

/// The injected clock capability: the one ambient effect the services use.
pub trait ClockTrait {
    /// The current Unix time in seconds. Nothing relates two calls: the
    /// clock may move freely within its bounds.
    fn current_time(&self) -> (t: i64)
        ensures
            0 <= t <= MAX_TIMESTAMP,
    ;
}

/// A fixed clock, for deterministic use.
pub struct FixedClock {
    t: i64,
}

impl FixedClock {
    pub fn new(t: i64) -> (r: FixedClock)
        requires
            0 <= t <= MAX_TIMESTAMP,
        ensures
            r.spec_time() == t,
    {
        FixedClock { t }
    }

    /// The time this clock reports: its parameter, clamped into range.
    pub closed spec fn spec_time(&self) -> i64 {
        if self.t < 0 {
            0
        } else if self.t > MAX_TIMESTAMP {
            MAX_TIMESTAMP
        } else {
            self.t
        }
    }
}

impl ClockTrait for FixedClock {
    fn current_time(&self) -> (t: i64)
        ensures
            0 <= t <= MAX_TIMESTAMP,
            t == self.spec_time(),
    {
        if self.t < 0 {
            0
        } else if self.t > MAX_TIMESTAMP {
            MAX_TIMESTAMP
        } else {
            self.t
        }
    }
}

// ---------------------------------------------------------------------------
// lookups as filters
// ---------------------------------------------------------------------------

pub open spec fn customers_with_username(s: Seq<CustomerModel>, username: Seq<char>) -> Seq<
    CustomerModel,
> {
    s.filter(|c: CustomerModel| c.username == username)
}

pub open spec fn customers_with_credential(
    s: Seq<CustomerModel>,
    username: Seq<char>,
    password: Seq<char>,
) -> Seq<CustomerModel> {
    s.filter(|c: CustomerModel| c.username == username && c.password == password)
}

pub open spec fn customers_with_id(s: Seq<CustomerModel>, id: int) -> Seq<CustomerModel> {
    s.filter(|c: CustomerModel| c.id == id)
}

pub open spec fn files_with_id(s: Seq<FileModel>, id: int) -> Seq<FileModel> {
    s.filter(|f: FileModel| f.id == id)
}

pub open spec fn files_of_customer(s: Seq<FileModel>, customer_id: int) -> Seq<FileModel> {
    s.filter(|f: FileModel| f.customer_id == customer_id)
}

pub open spec fn links_with_id(s: Seq<SharingModel>, id: int) -> Seq<SharingModel> {
    s.filter(|l: SharingModel| l.id == id)
}

pub open spec fn fresh_customer_id(s: Seq<CustomerModel>, id: int) -> bool {
    forall|i: int| 0 <= i < s.len() ==> (#[trigger] s[i]).id != id
}

pub open spec fn fresh_file_id(s: Seq<FileModel>, id: int) -> bool {
    forall|i: int| 0 <= i < s.len() ==> (#[trigger] s[i]).id != id
}

pub open spec fn fresh_link_id(s: Seq<SharingModel>, id: int) -> bool {
    forall|i: int| 0 <= i < s.len() ==> (#[trigger] s[i]).id != id
}

/// One filtering step: extending the scanned prefix by one record extends
/// the matches exactly when the record satisfies the predicate.
pub proof fn lemma_filter_take_step<A>(s: Seq<A>, pred: spec_fn(A) -> bool, i: int)
    requires
        0 <= i < s.len(),
    ensures
        s.take(i + 1).filter(pred) == (if pred(s[i]) {
            s.take(i).filter(pred).push(s[i])
        } else {
            s.take(i).filter(pred)
        }),
{
    assert(s.take(i + 1).drop_last() =~= s.take(i));
    assert(s.take(i + 1).last() == s[i]);
    reveal(Seq::filter);
}

/// A predicate that no element satisfies filters to the empty sequence.
pub proof fn lemma_filter_none<A>(s: Seq<A>, pred: spec_fn(A) -> bool)
    requires
        forall|i: int| 0 <= i < s.len() ==> !pred(#[trigger] s[i]),
    ensures
        s.filter(pred) == Seq::<A>::empty(),
    decreases s.len(),
{
    reveal(Seq::filter);
    if s.len() > 0 {
        assert(forall|i: int| 0 <= i < s.drop_last().len() ==> !pred(#[trigger] s.drop_last()[i]));
        lemma_filter_none(s.drop_last(), pred);
    }
}

/// Filtering a single record keeps it exactly when it matches.
pub proof fn lemma_filter_singleton<A>(x: A, pred: spec_fn(A) -> bool)
    ensures
        seq![x].filter(pred) == (if pred(x) {
            seq![x]
        } else {
            Seq::<A>::empty()
        }),
{
    reveal(Seq::filter);
    assert(seq![x].drop_last() =~= Seq::<A>::empty());
    assert(seq![x].last() == x);
    assert(Seq::<A>::empty().filter(pred) =~= Seq::<A>::empty());
    if pred(x) {
        assert(seq![x].filter(pred) =~= Seq::<A>::empty().push(x));
        assert(Seq::<A>::empty().push(x) =~= seq![x]);
    }
}

// ---------------------------------------------------------------------------
// stores
// ---------------------------------------------------------------------------

/// Persists customer records; authoritative for username uniqueness.
pub trait CustomerRepositoryTrait: Sized {
    /// The records the store holds, in insertion order. An implementation
    /// outside the library leaves this abstract.
    open spec fn customers(&self) -> Seq<CustomerModel> {
        vstd::pervasive::arbitrary()
    }

    /// The store's internal well-formedness. An implementation outside the
    /// library leaves this abstract.
    open spec fn wf(&self) -> bool {
        vstd::pervasive::arbitrary()
    }

    /// Creates a customer. Creation succeeds exactly when the username is
    /// free; the new record carries a fresh id and the given credentials.
    fn create_customer(&mut self, username: &str, password: &str) -> (r: Result<
        Customer,
        CustomerError,
    >)
        requires
            old(self).wf(),
        ensures
            final(self).wf(),
            match r {
                Ok(c) => {
                    &&& customers_with_username(old(self).customers(), username@).len() == 0
                    &&& c@.username == username@
                    &&& c@.password == password@
                    &&& fresh_customer_id(old(self).customers(), c@.id)
                    &&& final(self).customers() == old(self).customers().push(c@)
                },
                Err(e) => {
                    &&& e == CustomerError::CustomerAlreadyExist
                    &&& customers_with_username(old(self).customers(), username@).len() != 0
                    &&& final(self).customers() == old(self).customers()
                },
            },
    ;

    /// All records with the given username, in store order.
    fn get_customer_by_username(&self, username: &str) -> (r: Vec<Customer>)
        requires
            self.wf(),
        ensures
            r@.map_values(|c: Customer| c@) == customers_with_username(self.customers(), username@),
    ;

    /// All records with the given id, in store order.
    fn get_customer_by_id(&self, id: &Uuid) -> (r: Vec<Customer>)
        requires
            self.wf(),
        ensures
            r@.map_values(|c: Customer| c@) == customers_with_id(
                self.customers(),
                id.value as int,
            ),
    ;

    /// All records matching the username/password pair, in store order.
    fn get_customer_by_credential(&self, username: &str, password: &str) -> (r: Vec<Customer>)
        requires
            self.wf(),
        ensures
            r@.map_values(|c: Customer| c@) == customers_with_credential(
                self.customers(),
                username@,
                password@,
            ),
    ;
}

/// Records invalidated session tokens: an append-only denylist.
pub trait UsedTokenRepositoryTrait: Sized {
    /// The denylisted tokens with their expiry, in insertion order. An
    /// implementation outside the library leaves this abstract.
    open spec fn used_tokens(&self) -> Seq<(Seq<char>, int)> {
        vstd::pervasive::arbitrary()
    }

    /// Appends a token and its expiry to the denylist.
    fn create_used_token(&mut self, token: &str, expire_time: i64)
        ensures
            final(self).used_tokens() == old(self).used_tokens().push(
                (token@, expire_time as int),
            ),
    ;

    /// Whether a token is on the denylist. The validation path may consult
    /// this to enforce sign-out before natural expiry.
    fn contains_token(&self, token: &str) -> (r: bool)
        ensures
            r == exists|i: int|
                0 <= i < self.used_tokens().len() && (#[trigger] self.used_tokens()[i]).0
                    == token@,
    ;
}

/// Persists file records.
pub trait FileMetaRepositoryTrait: Sized {
    /// The records the store holds, in insertion order. An implementation
    /// outside the library leaves this abstract.
    open spec fn files(&self) -> Seq<FileModel> {
        vstd::pervasive::arbitrary()
    }

    /// The store's internal well-formedness. An implementation outside the
    /// library leaves this abstract.
    open spec fn wf(&self) -> bool {
        vstd::pervasive::arbitrary()
    }

    /// Creates a file record with a fresh id for the given owner and
    /// storage locator.
    fn create(&mut self, customer_id: &Uuid, url: &str) -> (r: FileMeta)
        requires
            old(self).wf(),
        ensures
            final(self).wf(),
            r@.customer_id == customer_id.value,
            r@.url == url@,
            fresh_file_id(old(self).files(), r@.id),
            final(self).files() == old(self).files().push(r@),
    ;

    /// All records with the given id, in store order.
    fn get_file_meta_by_id(&self, id: &Uuid) -> (r: Vec<FileMeta>)
        requires
            self.wf(),
        ensures
            r@.map_values(|f: FileMeta| f@) == files_with_id(self.files(), id.value as int),
    ;

    /// All records owned by the given customer, in store order.
    fn list_file_meta_by_customer_id(&self, customer_id: &Uuid) -> (r: Vec<FileMeta>)
        requires
            self.wf(),
        ensures
            r@.map_values(|f: FileMeta| f@) == files_of_customer(
                self.files(),
                customer_id.value as int,
            ),
    ;
}

/// Persists sharing-link records.
pub trait FileSharingRepositoryTrait: Sized {
    /// The records the store holds, in insertion order. An implementation
    /// outside the library leaves this abstract.
    open spec fn links(&self) -> Seq<SharingModel> {
        vstd::pervasive::arbitrary()
    }

    /// The store's internal well-formedness. An implementation outside the
    /// library leaves this abstract.
    open spec fn wf(&self) -> bool {
        vstd::pervasive::arbitrary()
    }

    /// Creates a sharing-link record with a fresh id.
    fn create(
        &mut self,
        file_id: &Uuid,
        link: &str,
        expireat: i64,
        password: &Option<String>,
    ) -> (r: FileSharingMeta)
        requires
            old(self).wf(),
        ensures
            final(self).wf(),
            r@.file_id == file_id.value,
            r@.link == link@,
            r@.expireat == expireat,
            r@.password == (match *password {
                Some(p) => Some(p@),
                None => None::<Seq<char>>,
            }),
            fresh_link_id(old(self).links(), r@.id),
            final(self).links() == old(self).links().push(r@),
    ;

    /// All records with the given id, in store order.
    fn get_by_id(&self, id: &Uuid) -> (r: Vec<FileSharingMeta>)
        requires
            self.wf(),
        ensures
            r@.map_values(|l: FileSharingMeta| l@) == links_with_id(
                self.links(),
                id.value as int,
            ),
    ;
}

/// Moves uploaded bytes to durable storage. Implementations do I/O, so they
/// live with the callers outside the library; nothing is promised of the
/// outcome beyond the reported result.
pub trait FileUploaderTrait {
    /// Moves the file at `src_filename` to `dest_filename`.
    fn upload(&self, src_filename: &str, dest_filename: &str) -> (r: Result<(), FileError>);
}

} // verus!
