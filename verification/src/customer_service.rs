//! The customer service: signup, signin and signout over a credential store
//! and a used-token ledger, issuing identities with a ten-minute lifetime.
use crate::customer::{Customer, CustomerModel};
use crate::errors::{CustomerError, IdentityError};
use crate::identity::{token_chars_of, Identity};
use crate::repository::{
    customers_with_credential, customers_with_id, customers_with_username, fresh_customer_id,
    lemma_filter_none, lemma_filter_singleton, ClockTrait, CustomerRepositoryTrait,
    UsedTokenRepositoryTrait, MAX_TIMESTAMP,
};
use crate::uid::Uuid;
use vstd::prelude::*;
use vstd::seq_lib::group_seq_properties;

verus! {

/// Session lifetime: ten minutes, in seconds.
pub const SESSION_TTL_SECONDS: i64 = 600;

/// Orchestrates signup, signin and signout against the injected clock,
/// credential store and used-token ledger.
pub struct CustomerServiceImpl<C: ClockTrait, R: CustomerRepositoryTrait, L: UsedTokenRepositoryTrait> {
    clock: C,
    customer_repository: R,
    used_token_repository: L,
}

impl<C: ClockTrait, R: CustomerRepositoryTrait, L: UsedTokenRepositoryTrait> CustomerServiceImpl<
    C,
    R,
    L,
> {
    pub closed spec fn wf(&self) -> bool {
        self.customer_repository.wf()
    }

    /// The customer records the underlying store holds.
    pub closed spec fn customers(&self) -> Seq<CustomerModel> {
        self.customer_repository.customers()
    }

    /// The denylisted tokens the underlying ledger holds.
    pub closed spec fn used_tokens(&self) -> Seq<(Seq<char>, int)> {
        self.used_token_repository.used_tokens()
    }

    pub fn new(clock: C, customer_repository: R, used_token_repository: L) -> (r: Self)
        requires
            customer_repository.wf(),
        ensures
            r.wf(),
            r.customers() == customer_repository.customers(),
            r.used_tokens() == used_token_repository.used_tokens(),
    {
        CustomerServiceImpl { clock, customer_repository, used_token_repository }
    }

    /// Registers a new customer and signs it in. Succeeds exactly when the
    /// username is not yet taken; on failure nothing is written.
    pub fn customer_signup(&mut self, username: &str, password: &str) -> (r: Result<
        Identity,
        CustomerError,
    >)
        requires
            old(self).wf(),
        ensures
            final(self).wf(),
            final(self).used_tokens() == old(self).used_tokens(),
            r is Ok <==> customers_with_username(old(self).customers(), username@).len() == 0,
            match r {
                Ok(ident) => {
                    &&& final(self).customers() == old(self).customers().push(
                        final(self).customers().last(),
                    )
                    &&& final(self).customers().last().username == username@
                    &&& final(self).customers().last().password == password@
                    &&& fresh_customer_id(old(self).customers(), final(self).customers().last().id)
                    &&& ident@.sub == final(self).customers().last().id
                    &&& ident@.exp == ident@.iat + SESSION_TTL_SECONDS
                    &&& 0 <= ident@.iat <= MAX_TIMESTAMP
                },
                Err(e) => {
                    &&& e == CustomerError::CustomerAlreadyExist
                    &&& final(self).customers() == old(self).customers()
                },
            },
    {
        let customer_list = self.customer_repository.get_customer_by_username(username);
        if customer_list.len() != 0 {
            return Err(CustomerError::CustomerAlreadyExist);
        }
        let customer = match self.customer_repository.create_customer(username, password) {
            Ok(c) => c,
            Err(e) => {
                return Err(e);
            },
        };
        let issueat = self.clock.current_time();
        let identity = Identity::new(&customer, issueat, SESSION_TTL_SECONDS);
        Ok(identity)
    }

    /// Signs a customer in. Succeeds exactly when the credential pair is in
    /// the store, issuing an identity for the first match.
    pub fn customer_signin(&self, username: &str, password: &str) -> (r: Result<
        Identity,
        CustomerError,
    >)
        requires
            self.wf(),
        ensures
            r is Ok <==> customers_with_credential(self.customers(), username@, password@).len()
                != 0,
            match r {
                Ok(ident) => {
                    &&& ident@.sub == customers_with_credential(
                        self.customers(),
                        username@,
                        password@,
                    )[0].id
                    &&& ident@.exp == ident@.iat + SESSION_TTL_SECONDS
                    &&& 0 <= ident@.iat <= MAX_TIMESTAMP
                },
                Err(e) => e == CustomerError::CustomerInvalidCredential,
            },
    {
        let customer_list = self.customer_repository.get_customer_by_credential(
            username,
            password,
        );
        if customer_list.len() == 0 {
            return Err(CustomerError::CustomerInvalidCredential);
        }
        let issueat = self.clock.current_time();
        let identity = Identity::new(&customer_list[0], issueat, SESSION_TTL_SECONDS);
        Ok(identity)
    }

    /// Invalidates an identity by writing its serialized token and expiry
    /// into the used-token ledger. Fails only when serialization fails, in
    /// which case nothing is written.
    pub fn customer_signout(&mut self, identity: &Identity) -> (r: Result<(), IdentityError>)
        requires
            old(self).wf(),
        ensures
            final(self).wf(),
            final(self).customers() == old(self).customers(),
            match r {
                Ok(_) => final(self).used_tokens() == old(self).used_tokens().push(
                    (token_chars_of(identity@), identity@.exp),
                ),
                Err(e) => {
                    &&& e == IdentityError::EncodingError
                    &&& final(self).used_tokens() == old(self).used_tokens()
                },
            },
    {
        let token_str = match identity.to_string() {
            Ok(s) => s,
            Err(e) => {
                return Err(e);
            },
        };
        self.used_token_repository.create_used_token(token_str.as_str(), identity.get_expireat());
        Ok(())
    }

    /// Whether a presented token has been invalidated by an earlier
    /// signout. The token-validation path may consult this to enforce
    /// signout before natural expiry; signup and signin never do, so
    /// enforcement stays the integrator's explicit choice.
    pub fn is_token_revoked(&self, token: &str) -> (r: bool)
        ensures
            r == exists|i: int|
                0 <= i < self.used_tokens().len() && (#[trigger] self.used_tokens()[i]).0
                    == token@,
    {
        let r = self.used_token_repository.contains_token(token);
        proof {
            let repo_tokens = self.used_token_repository.used_tokens();
            if exists|i: int|
                0 <= i < repo_tokens.len() && (#[trigger] repo_tokens[i]).0 == token@ {
                let i = choose|i: int|
                    0 <= i < repo_tokens.len() && (#[trigger] repo_tokens[i]).0 == token@;
                assert((self.used_tokens()[i]).0 == token@);
            }
            if exists|i: int|
                0 <= i < self.used_tokens().len() && (#[trigger] self.used_tokens()[i]).0
                    == token@ {
                let i = choose|i: int|
                    0 <= i < self.used_tokens().len() && (#[trigger] self.used_tokens()[i]).0
                        == token@;
                assert((repo_tokens[i]).0 == token@);
            }
        }
        r
    }

    /// Looks a customer up by username; the first match, or
    /// `CustomerNotFound` when there is none.
    pub fn get_customer_by_username(&self, username: &str) -> (r: Result<Customer, CustomerError>)
        requires
            self.wf(),
        ensures
            r is Ok <==> customers_with_username(self.customers(), username@).len() != 0,
            match r {
                Ok(c) => c@ == customers_with_username(self.customers(), username@)[0],
                Err(e) => e == CustomerError::CustomerNotFound,
            },
    {
        let customer_list = self.customer_repository.get_customer_by_username(username);
        if customer_list.len() == 0 {
            return Err(CustomerError::CustomerNotFound);
        }
        let c = customer_list[0].clone();
        Ok(c)
    }

    /// Looks a customer up by id; the first match, or `CustomerNotFound`
    /// when there is none.
    pub fn get_customer_by_id(&self, id: &Uuid) -> (r: Result<Customer, CustomerError>)
        requires
            self.wf(),
        ensures
            r is Ok <==> customers_with_id(self.customers(), id.value as int).len() != 0,
            match r {
                Ok(c) => c@ == customers_with_id(self.customers(), id.value as int)[0],
                Err(e) => e == CustomerError::CustomerNotFound,
            },
    {
        let customer_list = self.customer_repository.get_customer_by_id(id);
        if customer_list.len() == 0 {
            return Err(CustomerError::CustomerNotFound);
        }
        let c = customer_list[0].clone();
        Ok(c)
    }
}

/// After a successful signup, looking the store up by the new identity's
/// subject yields exactly the new record, whose username is the one signed
/// up with: the identity's subject resolves back to that username.
pub proof fn lemma_signup_subject_resolves(before: Seq<CustomerModel>, c: CustomerModel)
    requires
        fresh_customer_id(before, c.id),
    ensures
        customers_with_id(before.push(c), c.id) == seq![c],
{
    broadcast use group_seq_properties;

    let pred = |m: CustomerModel| m.id == c.id;
    assert(before.push(c) =~= before + seq![c]);
    Seq::<CustomerModel>::filter_distributes_over_add(before, seq![c], pred);
    assert(forall|i: int| 0 <= i < before.len() ==> !pred(#[trigger] before[i]));
    lemma_filter_none(before, pred);
    lemma_filter_singleton(c, pred);
    assert(customers_with_id(before.push(c), c.id) =~= seq![c]);
}

} // verus!
