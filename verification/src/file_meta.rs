//! File metadata and sharing-link records, with the expiry and password
//! predicates the sharing-link engine decides by.
use crate::text::str_eq;
use crate::uid::Uuid;
use vstd::prelude::*;
use vstd::string::StringExecFns;

verus! {

/// Mathematical view of a file record.
pub struct FileModel {
    pub id: int,
    pub customer_id: int,
    pub url: Seq<char>,
}

#[derive(Debug, PartialEq)]
pub struct FileMeta {
    id: Uuid,
    customer_id: Uuid,
    url: String,
}

impl View for FileMeta {
    type V = FileModel;

    closed spec fn view(&self) -> FileModel {
        FileModel {
            id: self.id.value as int,
            customer_id: self.customer_id.value as int,
            url: self.url@,
        }
    }
}

impl Clone for FileMeta {
    fn clone(&self) -> (r: Self)
        ensures
            r == *self,
    {
        FileMeta { id: self.id, customer_id: self.customer_id, url: self.url.clone() }
    }
}

impl FileMeta {
    /// A record not yet persisted: the store assigns the real ids.
    pub fn new(url: &str) -> (r: FileMeta)
        ensures
            r@.id == 0,
            r@.customer_id == 0,
            r@.url == url@,
    {
        FileMeta {
            id: Uuid::from_u128(0),
            customer_id: Uuid::from_u128(0),
            url: String::from_str(url),
        }
    }

    /// A record as the store holds it.
    pub fn new_full(id: &Uuid, customer_id: &Uuid, url: &str) -> (r: FileMeta)
        ensures
            r@.id == id.value,
            r@.customer_id == customer_id.value,
            r@.url == url@,
    {
        FileMeta { id: *id, customer_id: *customer_id, url: String::from_str(url) }
    }

    pub fn get_id(&self) -> (r: Uuid)
        ensures
            r.value == self@.id,
    {
        self.id
    }

    pub fn get_customer_id(&self) -> (r: Uuid)
        ensures
            r.value == self@.customer_id,
    {
        self.customer_id
    }

    pub fn get_url(&self) -> (r: String)
        ensures
            r@ == self@.url,
    {
        self.url.clone()
    }
}

/// Mathematical view of a sharing-link record.
pub struct SharingModel {
    pub id: int,
    pub file_id: int,
    pub link: Seq<char>,
    pub expireat: int,
    pub password: Option<Seq<char>>,
}

/// Whether a supplied password opens a link: an unprotected link accepts
/// anything, a protected one requires an exact match.
pub open spec fn password_accepted(stored: Option<Seq<char>>, supplied: Seq<char>) -> bool {
    match stored {
        Some(p) => p == supplied,
        None => true,
    }
}

#[derive(Debug, PartialEq)]
pub struct FileSharingMeta {
    id: Uuid,
    file_id: Uuid,
    link: String,
    expireat: i64,
    password: Option<String>,
}

impl View for FileSharingMeta {
    type V = SharingModel;

    closed spec fn view(&self) -> SharingModel {
        SharingModel {
            id: self.id.value as int,
            file_id: self.file_id.value as int,
            link: self.link@,
            expireat: self.expireat as int,
            password: match self.password {
                Some(p) => Some(p@),
                None => None,
            },
        }
    }
}

impl Clone for FileSharingMeta {
    fn clone(&self) -> (r: Self)
        ensures
            r == *self,
    {
        let pw: Option<String> = match &self.password {
            Some(p) => Some(p.clone()),
            None => None,
        };
        FileSharingMeta {
            id: self.id,
            file_id: self.file_id,
            link: self.link.clone(),
            expireat: self.expireat,
            password: pw,
        }
    }
}

impl FileSharingMeta {
    /// A record as the store holds it. `expireat` is a Unix timestamp in
    /// seconds.
    pub fn new_full(
        id: &Uuid,
        file_id: &Uuid,
        link: &str,
        expireat: i64,
        password: &Option<String>,
    ) -> (r: FileSharingMeta)
        ensures
            r@.id == id.value,
            r@.file_id == file_id.value,
            r@.link == link@,
            r@.expireat == expireat,
            r@.password == (match *password {
                Some(p) => Some(p@),
                None => None::<Seq<char>>,
            }),
    {
        let pw: Option<String> = match password {
            Some(p) => Some(p.clone()),
            None => None,
        };
        FileSharingMeta {
            id: *id,
            file_id: *file_id,
            link: String::from_str(link),
            expireat,
            password: pw,
        }
    }

    pub fn get_id(&self) -> (r: Uuid)
        ensures
            r.value == self@.id,
    {
        self.id
    }

    pub fn get_file_id(&self) -> (r: Uuid)
        ensures
            r.value == self@.file_id,
    {
        self.file_id
    }

    pub fn get_link(&self) -> (r: String)
        ensures
            r@ == self@.link,
    {
        self.link.clone()
    }

    pub fn get_expireat(&self) -> (r: i64)
        ensures
            r == self@.expireat,
    {
        self.expireat
    }

    /// A link is expired when its expiry lies strictly before the current
    /// time.
    pub fn is_expired(&self, curr_time: i64) -> (r: bool)
        ensures
            r == (self@.expireat < curr_time),
    {
        self.expireat < curr_time
    }

    /// Whether the supplied password opens this link.
    pub fn is_password_correct(&self, password: &str) -> (r: bool)
        ensures
            r == password_accepted(self@.password, password@),
    {
        match &self.password {
            Some(p) => str_eq(p.as_str(), password),
            None => true,
        }
    }
}

} // verus!
