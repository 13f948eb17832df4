//! Non-fungible tokens.

use vstd::prelude::*;
use crate::id::{AccountId, AccountIdView, NftId, NftIdView};
use crate::metadata::Metadata;
use crate::registry::Entity;

verus! {

/// An NFT as plain values.
pub struct NftView {
    pub id: NftIdView,
    pub content: Map<Seq<char>, Seq<char>>,
    pub owned_by: AccountIdView,
}

/// Non fungible asset, represents some unique value.
#[derive(Debug, PartialEq, Eq)]
pub struct Nft {
    /// An identification of the NFT.
    pub id: NftId,
    /// Content of the NFT, as a key-value store.
    pub content: Metadata,
    /// The account that owns this NFT.
    pub owned_by: AccountId,
}

impl View for Nft {
    type V = NftView;

    open spec fn view(&self) -> NftView {
        NftView { id: self.id@, content: self.content@, owned_by: self.owned_by@ }
    }
}

/// A new NFT as plain values.
pub struct NewNftView {
    pub id: NftIdView,
    pub content: Map<Seq<char>, Seq<char>>,
}

/// Builder which can be submitted in a transaction to create a new [`Nft`].
#[derive(Debug, PartialEq, Eq)]
pub struct NewNft {
    /// An identification of the NFT.
    pub id: NftId,
    /// Content of the NFT, as a key-value store.
    pub content: Metadata,
}

impl View for NewNft {
    type V = NewNftView;

    open spec fn view(&self) -> NewNftView {
        NewNftView { id: self.id@, content: self.content@ }
    }
}

impl NewNftView {
    /// The NFT that registering this builds for `authority`.
    pub open spec fn built(self, authority: AccountIdView) -> NftView {
        NftView { id: self.id, content: self.content, owned_by: authority }
    }
}

impl Nft {
    /// Constructor
    pub fn new(id: NftId, content: Metadata) -> (r: NewNft)
        ensures
            r@ == (NewNftView { id: id@, content: content@ }),
    {
        NewNft { id, content }
    }

    pub fn id(&self) -> (r: &NftId)
        ensures
            r@ == self@.id,
    {
        &self.id
    }

    pub fn content(&self) -> (r: &Metadata)
        ensures
            r@ == self@.content,
    {
        &self.content
    }

    pub fn owned_by(&self) -> (r: &AccountId)
        ensures
            r@ == self@.owned_by,
    {
        &self.owned_by
    }
}

impl NewNft {
    /// The NFT owned by the account that registers it.
    pub fn build(self, authority: &AccountId) -> (r: Nft)
        ensures
            r@ == self@.built(authority@),
    {
        Nft { id: self.id, content: self.content, owned_by: authority.clone() }
    }
}

impl Clone for Nft {
    fn clone(&self) -> (r: Nft)
        ensures
            r@ == self@,
    {
        Nft { id: self.id.clone(), content: self.content.clone(), owned_by: self.owned_by.clone() }
    }
}

impl Clone for NewNft {
    fn clone(&self) -> (r: NewNft)
        ensures
            r@ == self@,
    {
        NewNft { id: self.id.clone(), content: self.content.clone() }
    }
}

impl Entity for Nft {
    type Id = NftId;

    open spec fn id_of(v: NftView) -> NftIdView {
        v.id
    }

    fn id(&self) -> (r: &NftId) {
        &self.id
    }

    fn duplicate(&self) -> (r: Nft) {
        self.clone()
    }
}

} // verus!
