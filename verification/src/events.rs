//! The change events that instructions emit.

use vstd::prelude::*;
use crate::id::{AccountId, AccountIdView, AssetDefinitionId, AssetDefinitionIdView, AssetId, AssetIdView, DomainId, NftId, NftIdView};
use crate::name::{Json, Name};
use crate::nft::{Nft, NftView};
use crate::numeric::Numeric;

verus! {

/// An event as plain values.
pub enum EventView {
    DomainCreated(Seq<char>),
    AccountCreated(AccountIdView),
    AssetDefinitionCreated(AssetDefinitionIdView),
    AssetDefinitionDeleted(AssetDefinitionIdView),
    AssetDefinitionMintabilityChanged(AssetDefinitionIdView),
    AssetAdded { asset: AssetIdView, amount: Numeric },
    AssetRemoved { asset: AssetIdView, amount: Numeric },
    NftCreated(NftView),
    NftDeleted(NftIdView),
    NftOwnerChanged { nft: NftIdView, new_owner: AccountIdView },
    NftMetadataInserted { target: NftIdView, key: Seq<char>, value: Seq<char> },
    NftMetadataRemoved { target: NftIdView, key: Seq<char>, value: Seq<char> },
}

/// A change of the world state, as told to subscribers.
#[derive(Debug, PartialEq, Eq)]
pub enum Event {
    /// A domain was registered.
    DomainCreated(DomainId),
    /// An account was registered.
    AccountCreated(AccountId),
    /// An asset definition was registered.
    AssetDefinitionCreated(AssetDefinitionId),
    /// An asset definition was unregistered, and its assets with it.
    AssetDefinitionDeleted(AssetDefinitionId),
    /// An asset definition that could be minted once has been minted.
    AssetDefinitionMintabilityChanged(AssetDefinitionId),
    /// An asset grew by `amount`.
    AssetAdded { asset: AssetId, amount: Numeric },
    /// An asset shrank by `amount`.
    AssetRemoved { asset: AssetId, amount: Numeric },
    /// An NFT was registered.
    NftCreated(Nft),
    /// An NFT was unregistered.
    NftDeleted(NftId),
    /// An NFT went to a new owner.
    NftOwnerChanged { nft: NftId, new_owner: AccountId },
    /// A value was stored in the content of an NFT.
    NftMetadataInserted { target: NftId, key: Name, value: Json },
    /// A value, the one carried here, was taken out of the content of an NFT.
    NftMetadataRemoved { target: NftId, key: Name, value: Json },
}

impl View for Event {
    type V = EventView;

    open spec fn view(&self) -> EventView {
        match self {
            Event::DomainCreated(id) => EventView::DomainCreated(id@),
            Event::AccountCreated(id) => EventView::AccountCreated(id@),
            Event::AssetDefinitionCreated(id) => EventView::AssetDefinitionCreated(id@),
            Event::AssetDefinitionDeleted(id) => EventView::AssetDefinitionDeleted(id@),
            Event::AssetDefinitionMintabilityChanged(id) => EventView::AssetDefinitionMintabilityChanged(
                id@,
            ),
            Event::AssetAdded { asset, amount } => EventView::AssetAdded {
                asset: asset@,
                amount: *amount,
            },
            Event::AssetRemoved { asset, amount } => EventView::AssetRemoved {
                asset: asset@,
                amount: *amount,
            },
            Event::NftCreated(nft) => EventView::NftCreated(nft@),
            Event::NftDeleted(id) => EventView::NftDeleted(id@),
            Event::NftOwnerChanged { nft, new_owner } => EventView::NftOwnerChanged {
                nft: nft@,
                new_owner: new_owner@,
            },
            Event::NftMetadataInserted { target, key, value } => EventView::NftMetadataInserted {
                target: target@,
                key: key@,
                value: value@,
            },
            Event::NftMetadataRemoved { target, key, value } => EventView::NftMetadataRemoved {
                target: target@,
                key: key@,
                value: value@,
            },
        }
    }
}

impl Clone for Event {
    fn clone(&self) -> (r: Event)
        ensures
            r@ == self@,
    {
        match self {
            Event::DomainCreated(id) => Event::DomainCreated(id.clone()),
            Event::AccountCreated(id) => Event::AccountCreated(id.clone()),
            Event::AssetDefinitionCreated(id) => Event::AssetDefinitionCreated(id.clone()),
            Event::AssetDefinitionDeleted(id) => Event::AssetDefinitionDeleted(id.clone()),
            Event::AssetDefinitionMintabilityChanged(id) => Event::AssetDefinitionMintabilityChanged(
                id.clone(),
            ),
            Event::AssetAdded { asset, amount } => Event::AssetAdded {
                asset: asset.clone(),
                amount: *amount,
            },
            Event::AssetRemoved { asset, amount } => Event::AssetRemoved {
                asset: asset.clone(),
                amount: *amount,
            },
            Event::NftCreated(nft) => Event::NftCreated(nft.clone()),
            Event::NftDeleted(id) => Event::NftDeleted(id.clone()),
            Event::NftOwnerChanged { nft, new_owner } => Event::NftOwnerChanged {
                nft: nft.clone(),
                new_owner: new_owner.clone(),
            },
            Event::NftMetadataInserted { target, key, value } => Event::NftMetadataInserted {
                target: target.clone(),
                key: key.clone(),
                value: value.clone(),
            },
            Event::NftMetadataRemoved { target, key, value } => Event::NftMetadataRemoved {
                target: target.clone(),
                key: key.clone(),
                value: value.clone(),
            },
        }
    }
}

/// The events of `events` as plain values, in order.
pub open spec fn views_of(events: Seq<Event>) -> Seq<EventView> {
    Seq::new(events.len(), |i: int| events[i]@)
}

/// Appending an event appends its view.
pub proof fn lemma_views_push(events: Seq<Event>, e: Event)
    ensures
        views_of(events.push(e)) == views_of(events).push(e@),
{
    assert(views_of(events.push(e)) =~= views_of(events).push(e@));
}

/// The views of a concatenation are the concatenation of the views.
pub proof fn lemma_views_concat(a: Seq<Event>, b: Seq<Event>)
    ensures
        views_of(a + b) == views_of(a) + views_of(b),
{
    assert(views_of(a + b) =~= views_of(a) + views_of(b));
}

} // verus!
