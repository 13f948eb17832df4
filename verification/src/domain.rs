//! Domains and the accounts that live in them.

use vstd::prelude::*;
use crate::id::{AccountId, AccountIdView, DomainId};
use crate::registry::Entity;

verus! {

/// A domain as plain values.
pub struct DomainView {
    pub id: Seq<char>,
    pub owned_by: AccountIdView,
}

/// A named space for accounts, asset definitions and NFTs.
#[derive(Debug, PartialEq, Eq)]
pub struct Domain {
    pub id: DomainId,
    /// The account that owns this domain.
    pub owned_by: AccountId,
}

impl View for Domain {
    type V = DomainView;

    open spec fn view(&self) -> DomainView {
        DomainView { id: self.id@, owned_by: self.owned_by@ }
    }
}

impl Domain {
    pub fn new(id: DomainId, owned_by: AccountId) -> (r: Domain)
        ensures
            r@ == (DomainView { id: id@, owned_by: owned_by@ }),
    {
        Domain { id, owned_by }
    }
}

impl Clone for Domain {
    fn clone(&self) -> (r: Domain)
        ensures
            r@ == self@,
    {
        Domain { id: self.id.clone(), owned_by: self.owned_by.clone() }
    }
}

impl Entity for Domain {
    type Id = DomainId;

    open spec fn id_of(v: DomainView) -> Seq<char> {
        v.id
    }

    fn id(&self) -> (r: &DomainId) {
        &self.id
    }

    fn duplicate(&self) -> (r: Domain) {
        self.clone()
    }
}

/// An account as plain values.
pub struct AccountView {
    pub id: AccountIdView,
}

/// An identity that holds assets and owns entities.
#[derive(Debug, PartialEq, Eq)]
pub struct Account {
    pub id: AccountId,
}

impl View for Account {
    type V = AccountView;

    open spec fn view(&self) -> AccountView {
        AccountView { id: self.id@ }
    }
}

impl Account {
    pub fn new(id: AccountId) -> (r: Account)
        ensures
            r@ == (AccountView { id: id@ }),
    {
        Account { id }
    }
}

impl Clone for Account {
    fn clone(&self) -> (r: Account)
        ensures
            r@ == self@,
    {
        Account { id: self.id.clone() }
    }
}

impl Entity for Account {
    type Id = AccountId;

    open spec fn id_of(v: AccountView) -> AccountIdView {
        v.id
    }

    fn id(&self) -> (r: &AccountId) {
        &self.id
    }

    fn duplicate(&self) -> (r: Account) {
        self.clone()
    }
}

} // verus!
