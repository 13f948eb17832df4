//! Instructions on NFTs: registering and unregistering them, writing their
//! content, and handing them to a new owner.

use vstd::prelude::*;
use vstd::string::*;
use crate::error::{Error, ErrorView, FindError, FindErrorView, IdBox, IdBoxView, InstructionType, RepetitionError, RepetitionErrorView};
use crate::events::{Event, EventView};
use crate::id::{AccountId, AccountIdView, NftId, NftIdView};
use crate::isi::Execute;
use crate::name::{Json, Name};
use crate::nft::{NewNft, Nft, NftView};
use crate::registry::lemma_row_in_map;
use crate::state::{StateTransaction, TxView};
use crate::world::WorldView;

verus! {

/// Registers the NFT `object`, owned by the authority.
#[derive(Debug, PartialEq, Eq)]
pub struct Register {
    pub object: NewNft,
}

/// Unregisters the NFT `object`.
#[derive(Debug, PartialEq, Eq)]
pub struct Unregister {
    pub object: NftId,
}

/// Stores `value` under `key` in the content of the NFT `object`.
#[derive(Debug, PartialEq, Eq)]
pub struct SetKeyValue {
    pub object: NftId,
    pub key: Name,
    pub value: Json,
}

/// Takes the entry under `key` out of the content of the NFT `object`.
#[derive(Debug, PartialEq, Eq)]
pub struct RemoveKeyValue {
    pub object: NftId,
    pub key: Name,
}

/// Hands the NFT `object` from its owner `source` to `destination`.
#[derive(Debug, PartialEq, Eq)]
pub struct Transfer {
    pub source: AccountId,
    pub object: NftId,
    pub destination: AccountId,
}

impl Clone for Register {
    fn clone(&self) -> (r: Register)
        ensures
            r.object@ == self.object@,
    {
        Register { object: self.object.clone() }
    }
}

impl Clone for Unregister {
    fn clone(&self) -> (r: Unregister)
        ensures
            r.object@ == self.object@,
    {
        Unregister { object: self.object.clone() }
    }
}

impl Clone for SetKeyValue {
    fn clone(&self) -> (r: SetKeyValue)
        ensures
            r.object@ == self.object@,
            r.key@ == self.key@,
            r.value@ == self.value@,
    {
        SetKeyValue { object: self.object.clone(), key: self.key.clone(), value: self.value.clone() }
    }
}

impl Clone for RemoveKeyValue {
    fn clone(&self) -> (r: RemoveKeyValue)
        ensures
            r.object@ == self.object@,
            r.key@ == self.key@,
    {
        RemoveKeyValue { object: self.object.clone(), key: self.key.clone() }
    }
}

impl Clone for Transfer {
    fn clone(&self) -> (r: Transfer)
        ensures
            r.source@ == self.source@,
            r.object@ == self.object@,
            r.destination@ == self.destination@,
    {
        Transfer {
            source: self.source.clone(),
            object: self.object.clone(),
            destination: self.destination.clone(),
        }
    }
}

impl Register {
    pub fn nft(object: NewNft) -> (r: Register)
        ensures
            r.object == object,
    {
        Register { object }
    }
}

impl Unregister {
    pub fn nft(object: NftId) -> (r: Unregister)
        ensures
            r.object == object,
    {
        Unregister { object }
    }
}

impl SetKeyValue {
    pub fn nft(object: NftId, key: Name, value: Json) -> (r: SetKeyValue)
        ensures
            r.object == object,
            r.key == key,
            r.value == value,
    {
        SetKeyValue { object, key, value }
    }
}

impl RemoveKeyValue {
    pub fn nft(object: NftId, key: Name) -> (r: RemoveKeyValue)
        ensures
            r.object == object,
            r.key == key,
    {
        RemoveKeyValue { object, key }
    }
}

impl Transfer {
    pub fn nft(source: AccountId, object: NftId, destination: AccountId) -> (r: Transfer)
        ensures
            r.source == source,
            r.object == object,
            r.destination == destination,
    {
        Transfer { source, object, destination }
    }
}

/// The error of registering an NFT under an identifier that is taken.
pub open spec fn nft_repetition(id: NftIdView) -> ErrorView {
    ErrorView::Repetition(
        RepetitionErrorView { instruction: InstructionType::Register, id: IdBoxView::NftId(id) },
    )
}

impl Execute for Register {
    open spec fn admissible(&self) -> bool {
        true
    }

    /// The identifier must be free and its domain must exist; the NFT is
    /// then there, owned by the authority.
    open spec fn step(&self, state: TxView, authority: AccountIdView) -> Result<TxView, ErrorView> {
        let world = state.world;
        let nft = self.object@.built(authority);
        if world.nfts.contains_key(nft.id) {
            Err(nft_repetition(nft.id))
        } else if !world.domains.contains_key(nft.id.domain) {
            Err(ErrorView::Find(FindErrorView::Domain(nft.id.domain)))
        } else {
            Ok(
                TxView {
                    world: WorldView { nfts: world.nfts.insert(nft.id, nft), ..world },
                    events: state.events.push(EventView::NftCreated(nft)),
                },
            )
        }
    }

    fn execute(self, authority: &AccountId, state_transaction: &mut StateTransaction) -> (r: Result<
        (),
        Error,
    >) {
        let nft = self.object.build(authority);
        let nft_id = nft.id.clone();

        if state_transaction.world.nft(&nft_id).is_ok() {
            return Err(
                Error::Repetition(
                    RepetitionError {
                        instruction: InstructionType::Register,
                        id: IdBox::NftId(nft_id),
                    },
                ),
            );
        }
        match state_transaction.world.domain(&nft_id.domain) {
            Ok(_) => {},
            Err(e) => {
                return Err(Error::Find(e));
            },
        }
        let _ = state_transaction.world.nfts.insert(nft.clone());
        state_transaction.emit(Event::NftCreated(nft));
        Ok(())
    }
}

impl Execute for Unregister {
    open spec fn admissible(&self) -> bool {
        true
    }

    /// The NFT must exist; it is then gone.
    open spec fn step(&self, state: TxView, authority: AccountIdView) -> Result<TxView, ErrorView> {
        let world = state.world;
        let id = self.object@;
        if !world.nfts.contains_key(id) {
            Err(ErrorView::Find(FindErrorView::Nft(id)))
        } else {
            Ok(
                TxView {
                    world: WorldView { nfts: world.nfts.remove(id), ..world },
                    events: state.events.push(EventView::NftDeleted(id)),
                },
            )
        }
    }

    fn execute(self, authority: &AccountId, state_transaction: &mut StateTransaction) -> (r: Result<
        (),
        Error,
    >) {
        let nft_id = self.object;
        match state_transaction.world.nfts.remove(&nft_id) {
            Some(_) => {},
            None => {
                return Err(Error::Find(FindError::Nft(nft_id)));
            },
        }
        state_transaction.emit(Event::NftDeleted(nft_id));
        Ok(())
    }
}

impl Execute for SetKeyValue {
    open spec fn admissible(&self) -> bool {
        true
    }

    /// The NFT must exist; its content then holds the value under the key.
    /// The event carries the value that was stored.
    open spec fn step(&self, state: TxView, authority: AccountIdView) -> Result<TxView, ErrorView> {
        let world = state.world;
        let id = self.object@;
        if !world.nfts.contains_key(id) {
            Err(ErrorView::Find(FindErrorView::Nft(id)))
        } else {
            let nft = world.nfts[id];
            Ok(
                TxView {
                    world: WorldView {
                        nfts: world.nfts.insert(
                            id,
                            NftView { content: nft.content.insert(self.key@, self.value@), ..nft },
                        ),
                        ..world
                    },
                    events: state.events.push(
                        EventView::NftMetadataInserted {
                            target: id,
                            key: self.key@,
                            value: self.value@,
                        },
                    ),
                },
            )
        }
    }

    fn execute(self, authority: &AccountId, state_transaction: &mut StateTransaction) -> (r: Result<
        (),
        Error,
    >) {
        let nft_id = self.object;
        let i = match state_transaction.world.nfts.find(&nft_id) {
            Ok(i) => i,
            Err(_) => {
                return Err(Error::Find(FindError::Nft(nft_id)));
            },
        };
        proof {
            lemma_row_in_map::<Nft>(state_transaction.world.nfts.rows(), i as int);
        }
        let mut nft = state_transaction.world.nfts.remove_row(i);
        let _ = nft.content.insert(self.key.clone(), self.value.clone());
        let _ = state_transaction.world.nfts.insert(nft);
        state_transaction.emit(
            Event::NftMetadataInserted { target: nft_id, key: self.key, value: self.value },
        );
        proof {
            let before = old(state_transaction)@.world.nfts;
            assert(state_transaction@.world.nfts =~= before.insert(
                nft_id@,
                NftView {
                    content: before[nft_id@].content.insert(self.key@, self.value@),
                    ..before[nft_id@]
                },
            ));
        }
        Ok(())
    }
}

impl Execute for RemoveKeyValue {
    open spec fn admissible(&self) -> bool {
        true
    }

    /// The NFT must exist and its content must hold the key; the entry is
    /// then gone. The event carries the value that was taken out.
    open spec fn step(&self, state: TxView, authority: AccountIdView) -> Result<TxView, ErrorView> {
        let world = state.world;
        let id = self.object@;
        if !world.nfts.contains_key(id) {
            Err(ErrorView::Find(FindErrorView::Nft(id)))
        } else {
            let nft = world.nfts[id];
            if !nft.content.contains_key(self.key@) {
                Err(ErrorView::Find(FindErrorView::MetadataKey(self.key@)))
            } else {
                Ok(
                    TxView {
                        world: WorldView {
                            nfts: world.nfts.insert(
                                id,
                                NftView { content: nft.content.remove(self.key@), ..nft },
                            ),
                            ..world
                        },
                        events: state.events.push(
                            EventView::NftMetadataRemoved {
                                target: id,
                                key: self.key@,
                                value: nft.content[self.key@],
                            },
                        ),
                    },
                )
            }
        }
    }

    fn execute(self, authority: &AccountId, state_transaction: &mut StateTransaction) -> (r: Result<
        (),
        Error,
    >) {
        let nft_id = self.object;
        let i = match state_transaction.world.nfts.find(&nft_id) {
            Ok(i) => i,
            Err(_) => {
                return Err(Error::Find(FindError::Nft(nft_id)));
            },
        };
        proof {
            lemma_row_in_map::<Nft>(state_transaction.world.nfts.rows(), i as int);
        }
        if !state_transaction.world.nfts.row(i).content.contains(&self.key) {
            return Err(Error::Find(FindError::MetadataKey(self.key)));
        }
        let mut nft = state_transaction.world.nfts.remove_row(i);
        let value = match nft.content.remove(&self.key) {
            Some(value) => value,
            None => vstd::pervasive::unreached(),
        };
        let _ = state_transaction.world.nfts.insert(nft);
        state_transaction.emit(Event::NftMetadataRemoved { target: nft_id, key: self.key, value });
        proof {
            let before = old(state_transaction)@.world.nfts;
            assert(state_transaction@.world.nfts =~= before.insert(
                nft_id@,
                NftView { content: before[nft_id@].content.remove(self.key@), ..before[nft_id@] },
            ));
        }
        Ok(())
    }
}

/// The words that refuse the transfer of an NFT by an account that does not
/// own it.
pub open spec fn not_owner_text(nft: NftIdView, source: AccountIdView) -> Seq<char> {
    "Can't transfer NFT "@ + nft.text() + " since "@ + source.text() + " doesn't own it"@
}

impl Execute for Transfer {
    open spec fn admissible(&self) -> bool {
        true
    }

    /// Both accounts and the NFT must exist, and the source must be the
    /// owner of the NFT: that it is not is an invariant violation, not a
    /// missing entity. The NFT is then owned by the destination.
    open spec fn step(&self, state: TxView, authority: AccountIdView) -> Result<TxView, ErrorView> {
        let world = state.world;
        let id = self.object@;
        if !world.accounts.contains_key(self.source@) {
            Err(ErrorView::Find(FindErrorView::Account(self.source@)))
        } else if !world.accounts.contains_key(self.destination@) {
            Err(ErrorView::Find(FindErrorView::Account(self.destination@)))
        } else if !world.nfts.contains_key(id) {
            Err(ErrorView::Find(FindErrorView::Nft(id)))
        } else if world.nfts[id].owned_by != self.source@ {
            Err(ErrorView::InvariantViolation(not_owner_text(id, self.source@)))
        } else {
            Ok(
                TxView {
                    world: WorldView {
                        nfts: world.nfts.insert(
                            id,
                            NftView { owned_by: self.destination@, ..world.nfts[id] },
                        ),
                        ..world
                    },
                    events: state.events.push(
                        EventView::NftOwnerChanged { nft: id, new_owner: self.destination@ },
                    ),
                },
            )
        }
    }

    fn execute(self, authority: &AccountId, state_transaction: &mut StateTransaction) -> (r: Result<
        (),
        Error,
    >) {
        let Transfer { source, object, destination } = self;

        match state_transaction.world.account(&source) {
            Ok(_) => {},
            Err(e) => {
                return Err(Error::Find(e));
            },
        }
        match state_transaction.world.account(&destination) {
            Ok(_) => {},
            Err(e) => {
                return Err(Error::Find(e));
            },
        }
        let i = match state_transaction.world.nfts.find(&object) {
            Ok(i) => i,
            Err(_) => {
                return Err(Error::Find(FindError::Nft(object)));
            },
        };
        proof {
            lemma_row_in_map::<Nft>(state_transaction.world.nfts.rows(), i as int);
        }
        if !state_transaction.world.nfts.row(i).owned_by.same(&source) {
            let mut text = String::from_str("Can't transfer NFT ");
            text.append(object.to_string().as_str());
            text.append(" since ");
            text.append(source.to_string().as_str());
            text.append(" doesn't own it");
            return Err(Error::InvariantViolation(text));
        }
        let mut nft = state_transaction.world.nfts.remove_row(i);
        nft.owned_by = destination.clone();
        let _ = state_transaction.world.nfts.insert(nft);
        state_transaction.emit(Event::NftOwnerChanged { nft: object, new_owner: destination });
        proof {
            let before = old(state_transaction)@.world.nfts;
            assert(state_transaction@.world.nfts =~= before.insert(
                object@,
                NftView { owned_by: destination@, ..before[object@] },
            ));
        }
        Ok(())
    }
}

/// Registering an NFT a second time fails with a repetition error, whoever
/// asks and whatever content the second registration carries.
pub proof fn lemma_register_twice_fails(
    first: Register,
    second: Register,
    state: TxView,
    authority: AccountIdView,
    other: AccountIdView,
    after: TxView,
)
    requires
        first.object@.id == second.object@.id,
        first.step(state, authority) == Ok::<TxView, ErrorView>(after),
    ensures
        second.step(after, other) == Err::<TxView, ErrorView>(nft_repetition(first.object@.id)),
{
}

/// After an NFT has been unregistered it is not found, and unregistering it
/// again fails for that reason.
pub proof fn lemma_unregistered_is_gone(
    unregister: Unregister,
    state: TxView,
    authority: AccountIdView,
    after: TxView,
)
    requires
        unregister.step(state, authority) == Ok::<TxView, ErrorView>(after),
    ensures
        !after.world.nfts.contains_key(unregister.object@),
        unregister.step(after, authority) == Err::<TxView, ErrorView>(
            ErrorView::Find(FindErrorView::Nft(unregister.object@)),
        ),
{
}

} // verus!
