//! The customer record: an id, a unique username, and credential material.
use crate::uid::Uuid;
use vstd::prelude::*;
use vstd::string::StringExecFns;

verus! {

/// Mathematical view of a customer record.
pub struct CustomerModel {
    pub id: int,
    pub username: Seq<char>,
    pub password: Seq<char>,
}

#[derive(Debug, PartialEq)]
pub struct Customer {
    id: Uuid,
    username: String,
    password: String,
}

impl View for Customer {
    type V = CustomerModel;

    closed spec fn view(&self) -> CustomerModel {
        CustomerModel {
            id: self.id.value as int,
            username: self.username@,
            password: self.password@,
        }
    }
}

impl Clone for Customer {
    fn clone(&self) -> (r: Self)
        ensures
            r == *self,
    {
        Customer {
            id: self.id,
            username: self.username.clone(),
            password: self.password.clone(),
        }
    }
}

impl Customer {
    /// A record not yet persisted: the store assigns the real id.
    pub fn new(username: &str, password: &str) -> (r: Customer)
        ensures
            r@.id == 0,
            r@.username == username@,
            r@.password == password@,
    {
        Customer {
            id: Uuid::from_u128(0),
            username: String::from_str(username),
            password: String::from_str(password),
        }
    }

    /// A record as the store holds it.
    pub fn new_with_id(id: &Uuid, username: &str, password: &str) -> (r: Customer)
        ensures
            r@.id == id.value,
            r@.username == username@,
            r@.password == password@,
    {
        Customer {
            id: *id,
            username: String::from_str(username),
            password: String::from_str(password),
        }
    }

    pub fn get_id(&self) -> (r: Uuid)
        ensures
            r.value == self@.id,
    {
        self.id
    }

    pub fn get_username(&self) -> (r: String)
        ensures
            r@ == self@.username,
    {
        self.username.clone()
    }

    pub fn get_password(&self) -> (r: String)
        ensures
            r@ == self@.password,
    {
        self.password.clone()
    }
}

} // verus!
