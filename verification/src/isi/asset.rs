//! Instructions on assets: minting, burning and transferring quantities.

use vstd::prelude::*;
use crate::asset::{AssetDefinition, AssetDefinitionView, Mintable};
use crate::error::{Error, ErrorView, FindError, FindErrorView, MathError, MintabilityError, Mismatch};
use crate::events::{Event, EventView};
use crate::id::{AccountId, AccountIdView, AssetDefinitionIdView, AssetId, AssetIdView};
use crate::isi::Execute;
use crate::numeric::{Numeric, NumericSpec};
use crate::registry::lemma_row_in_map;
use crate::state::{StateTransaction, TxView};
use crate::world::{balance_in, balanced, defined, lemma_put, put, quantity_in, WorldView};

verus! {

/// Creates `object` units of an asset in the holding `destination`.
#[derive(Debug, PartialEq, Eq)]
pub struct Mint {
    pub object: Numeric,
    pub destination: AssetId,
}

/// Destroys `object` units of an asset in the holding `destination`.
#[derive(Debug, PartialEq, Eq)]
pub struct Burn {
    pub object: Numeric,
    pub destination: AssetId,
}

/// Moves `object` units of an asset from the holding `source` to the
/// holding of the account `destination` under the same definition.
#[derive(Debug, PartialEq, Eq)]
pub struct Transfer {
    pub source: AssetId,
    pub object: Numeric,
    pub destination: AccountId,
}

impl Clone for Mint {
    fn clone(&self) -> (r: Mint)
        ensures
            r.object == self.object,
            r.destination@ == self.destination@,
    {
        Mint { object: self.object, destination: self.destination.clone() }
    }
}

impl Clone for Burn {
    fn clone(&self) -> (r: Burn)
        ensures
            r.object == self.object,
            r.destination@ == self.destination@,
    {
        Burn { object: self.object, destination: self.destination.clone() }
    }
}

impl Clone for Transfer {
    fn clone(&self) -> (r: Transfer)
        ensures
            r.object == self.object,
            r.source@ == self.source@,
            r.destination@ == self.destination@,
    {
        Transfer {
            source: self.source.clone(),
            object: self.object,
            destination: self.destination.clone(),
        }
    }
}

impl Mint {
    pub fn asset_numeric(object: Numeric, destination: AssetId) -> (r: Mint)
        ensures
            r.object == object,
            r.destination == destination,
    {
        Mint { object, destination }
    }
}

impl Burn {
    pub fn asset_numeric(object: Numeric, destination: AssetId) -> (r: Burn)
        ensures
            r.object == object,
            r.destination == destination,
    {
        Burn { object, destination }
    }
}

impl Transfer {
    pub fn asset_numeric(source: AssetId, object: Numeric, destination: AccountId) -> (r: Transfer)
        ensures
            r.source == source,
            r.object == object,
            r.destination == destination,
    {
        Transfer { source, object, destination }
    }
}

/// The error of a quantity that does not meet the constraint `expected`.
pub open spec fn mismatch(expected: NumericSpec, object: Numeric) -> ErrorView {
    ErrorView::Type(Mismatch { expected, actual: NumericSpec::Fractional(object.scale) })
}

/// Assert that `object` satisfies the constraint of the asset definition.
pub fn assert_numeric_spec(object: &Numeric, asset_definition: &AssetDefinition) -> (r: Result<
    NumericSpec,
    Error,
>)
    ensures
        match r {
            Ok(spec) => asset_definition.spec.admits(*object) && spec == asset_definition.spec,
            Err(e) => !asset_definition.spec.admits(*object) && e@ == mismatch(
                asset_definition.spec,
                *object,
            ),
        },
{
    let object_spec = NumericSpec::fractional(object.scale());
    let asset_spec = asset_definition.spec;
    match asset_spec.check(object) {
        Ok(()) => Ok(asset_spec),
        Err(_) => Err(Error::Type(Mismatch { expected: asset_spec, actual: object_spec })),
    }
}

/// The definition `id` with minting forbidden from now on.
pub open spec fn minting_forbidden(
    definitions: Map<AssetDefinitionIdView, AssetDefinitionView>,
    id: AssetDefinitionIdView,
) -> Map<AssetDefinitionIdView, AssetDefinitionView> {
    definitions.insert(id, AssetDefinitionView { mintable: Mintable::Not, ..definitions[id] })
}

/// The rule of [`assert_can_mint`]: a definition that is mintable
/// infinitely passes; one that is not mintable fails; one that is mintable
/// once passes, and from then on the world holds it as not mintable, which
/// an event tells.
pub open spec fn can_mint(state: TxView, definition: AssetDefinitionView) -> Result<
    TxView,
    ErrorView,
> {
    match definition.mintable {
        Mintable::Infinitely => Ok(state),
        Mintable::Not => Err(ErrorView::Mintability(MintabilityError::MintUnmintable)),
        Mintable::Once => if !state.world.asset_definitions.contains_key(definition.id) {
            Err(ErrorView::Find(FindErrorView::AssetDefinition(definition.id)))
        } else if state.world.asset_definitions[definition.id].mintable != Mintable::Once {
            Err(ErrorView::Mintability(MintabilityError::ForbidMintOnMintable))
        } else {
            Ok(
                TxView {
                    world: WorldView {
                        asset_definitions: minting_forbidden(
                            state.world.asset_definitions,
                            definition.id,
                        ),
                        ..state.world
                    },
                    events: state.events.push(
                        EventView::AssetDefinitionMintabilityChanged(definition.id),
                    ),
                },
            )
        },
    }
}

/// Forbids further minting of a definition that could be minted once.
pub fn forbid_minting(definition: &mut AssetDefinition) -> (r: Result<(), Error>)
    ensures
        match r {
            Ok(()) => old(definition).mintable == Mintable::Once && final(definition)@ == (
            AssetDefinitionView { mintable: Mintable::Not, ..old(definition)@ }),
            Err(e) => old(definition).mintable != Mintable::Once && *final(definition) == *old(
                definition,
            ) && e@ == ErrorView::Mintability(MintabilityError::ForbidMintOnMintable),
        },
{
    match definition.mintable {
        Mintable::Once => {
            definition.mintable = Mintable::Not;
            Ok(())
        },
        _ => Err(Error::Mintability(MintabilityError::ForbidMintOnMintable)),
    }
}

/// Assert that this asset is `mintable`.
pub fn assert_can_mint(
    asset_definition: &AssetDefinition,
    state_transaction: &mut StateTransaction,
) -> (r: Result<(), Error>)
    requires
        old(state_transaction).world.ordered(),
    ensures
        final(state_transaction).world.ordered(),
        old(state_transaction).wf() ==> final(state_transaction).wf(),
        final(state_transaction).world.domains == old(state_transaction).world.domains,
        final(state_transaction).world.accounts == old(state_transaction).world.accounts,
        final(state_transaction).world.assets == old(state_transaction).world.assets,
        final(state_transaction).world.nfts == old(state_transaction).world.nfts,
        match r {
            Ok(()) => can_mint(old(state_transaction)@, asset_definition@) == Ok::<
                TxView,
                ErrorView,
            >(final(state_transaction)@),
            Err(e) => can_mint(old(state_transaction)@, asset_definition@) == Err::<
                TxView,
                ErrorView,
            >(e@) && *final(state_transaction) == *old(state_transaction),
        },
{
    match asset_definition.mintable {
        Mintable::Infinitely => Ok(()),
        Mintable::Not => Err(Error::Mintability(MintabilityError::MintUnmintable)),
        Mintable::Once => {
            let asset_definition_id = asset_definition.id.clone();
            let i = match state_transaction.world.asset_definitions.find(&asset_definition_id) {
                Ok(i) => i,
                Err(_) => {
                    return Err(Error::Find(FindError::AssetDefinition(asset_definition_id)));
                },
            };
            proof {
                lemma_row_in_map::<AssetDefinition>(
                    state_transaction.world.asset_definitions.rows(),
                    i as int,
                );
            }
            match state_transaction.world.asset_definitions.row(i).mintable {
                Mintable::Once => {},
                _ => {
                    return Err(Error::Mintability(MintabilityError::ForbidMintOnMintable));
                },
            }
            let mut entry = state_transaction.world.asset_definitions.remove_row(i);
            match forbid_minting(&mut entry) {
                Ok(()) => {},
                Err(_) => vstd::pervasive::unreached(),
            }
            let _ = state_transaction.world.asset_definitions.insert(entry);
            state_transaction.emit(Event::AssetDefinitionMintabilityChanged(asset_definition_id));
            proof {
                let before = old(state_transaction).world.asset_definitions@;
                let after = state_transaction.world.asset_definitions@;
                let id = asset_definition@.id;
                assert(after =~= minting_forbidden(before, id));
                if old(state_transaction).wf() {
                    let rows = state_transaction.world.assets.rows();
                    assert(defined(rows, after));
                    assert(balanced(after, rows)) by {
                        assert forall|d: AssetDefinitionIdView| #[trigger]
                            after.contains_key(d) implies after[d].total_quantity.wf()
                            && after[d].total_quantity.units() == crate::asset::held(rows, d) by {
                            assert(before.contains_key(d));
                        }
                    }
                }
            }
            Ok(())
        },
    }
}

/// The mintability of a definition after it has been minted.
pub open spec fn after_mint(mintable: Mintable) -> Mintable {
    match mintable {
        Mintable::Once => Mintable::Not,
        other => other,
    }
}

impl Execute for Mint {
    open spec fn admissible(&self) -> bool {
        self.object.wf()
    }

    /// The definition must exist, admit the quantity and be mintable; the
    /// account must exist; the holding and the total quantity of the
    /// definition both grow by the quantity, and neither may overflow. A
    /// definition that was mintable once is not mintable afterwards.
    open spec fn step(&self, state: TxView, authority: AccountIdView) -> Result<TxView, ErrorView> {
        let world = state.world;
        let id = self.destination@;
        if !world.asset_definitions.contains_key(id.definition) {
            Err(ErrorView::Find(FindErrorView::AssetDefinition(id.definition)))
        } else {
            let definition = world.asset_definitions[id.definition];
            if !definition.spec.admits(self.object) {
                Err(mismatch(definition.spec, self.object))
            } else if definition.mintable == Mintable::Not {
                Err(ErrorView::Mintability(MintabilityError::MintUnmintable))
            } else if !world.accounts.contains_key(id.account) {
                Err(ErrorView::Find(FindErrorView::Account(id.account)))
            } else {
                match (
                    world.quantity(id).add_spec(self.object),
                    definition.total_quantity.add_spec(self.object),
                ) {
                    (Some(value), Some(total)) => Ok(
                        TxView {
                            world: WorldView {
                                assets: put(world.assets, id, value),
                                asset_definitions: world.asset_definitions.insert(
                                    id.definition,
                                    AssetDefinitionView {
                                        total_quantity: total,
                                        mintable: after_mint(definition.mintable),
                                        ..definition
                                    },
                                ),
                                ..world
                            },
                            events: if definition.mintable == Mintable::Once {
                                state.events.push(
                                    EventView::AssetDefinitionMintabilityChanged(id.definition),
                                ).push(EventView::AssetAdded { asset: id, amount: self.object })
                            } else {
                                state.events.push(
                                    EventView::AssetAdded { asset: id, amount: self.object },
                                )
                            },
                        },
                    ),
                    _ => Err(ErrorView::Math(MathError::Overflow)),
                }
            }
        }
    }

    fn execute(self, authority: &AccountId, state_transaction: &mut StateTransaction) -> (r: Result<
        (),
        Error,
    >) {
        let asset_id = self.destination;
        let ghost before = *old(state_transaction);
        let ghost rows0 = before.world.assets.rows();
        let ghost defs0 = before.world.asset_definitions@;
        let ghost d0 = asset_id@.definition;

        let asset_definition = match state_transaction.world.asset_definition(&asset_id.definition) {
            Ok(definition) => definition.clone(),
            Err(e) => {
                return Err(Error::Find(e));
            },
        };
        match assert_numeric_spec(&self.object, &asset_definition) {
            Ok(_) => {},
            Err(e) => {
                return Err(e);
            },
        }
        match asset_definition.mintable {
            Mintable::Not => {
                return Err(Error::Mintability(MintabilityError::MintUnmintable));
            },
            _ => {},
        }
        match state_transaction.world.account(&asset_id.account) {
            Ok(_) => {},
            Err(e) => {
                return Err(Error::Find(e));
            },
        }
        let held_before = state_transaction.world.quantity(&asset_id);
        proof {
            if before.world@.assets.contains_key(asset_id@) {
                crate::registry::lemma_map_in_rows::<crate::asset::Asset>(rows0, asset_id@);
            }
            crate::numeric::lemma_units_zero(held_before);
            assert(held_before.wf());
            assert(held_before.units() == before.world@.balance(asset_id@));
        }
        let value = match held_before.checked_add(self.object) {
            Some(value) => value,
            None => {
                return Err(Error::Math(MathError::Overflow));
            },
        };
        match state_transaction.world.increase_asset_total_amount(&asset_id.definition, self.object) {
            Ok(()) => {},
            Err(e) => {
                return Err(e);
            },
        }
        let ghost total = defs0[d0].total_quantity.add_spec(self.object)->0;
        proof {
            crate::numeric::lemma_add_units(defs0[d0].total_quantity, self.object);
        }
        match assert_can_mint(&asset_definition, state_transaction) {
            Ok(()) => {},
            Err(e) => {
                return Err(e);
            },
        }
        state_transaction.world.put_asset(&asset_id, value);
        state_transaction.emit(Event::AssetAdded { asset: asset_id, amount: self.object });
        proof {
            let rows = state_transaction.world.assets.rows();
            let defs = state_transaction.world.asset_definitions@;
            lemma_put(rows0, rows, asset_id@, value);
            assert(defs =~= defs0.insert(
                d0,
                AssetDefinitionView {
                    total_quantity: total,
                    mintable: after_mint(defs0[d0].mintable),
                    ..defs0[d0]
                },
            ));
            assert(defined(rows0, defs)) by {
                assert forall|i: int| 0 <= i < rows0.len() implies defs.contains_key(
                    (#[trigger] rows0[i]).id.definition,
                ) by {
                    assert(defs0.contains_key(rows0[i].id.definition));
                }
            }
            assert(defined(rows, defs));
            assert(balanced(defs, rows)) by {
                assert forall|d: AssetDefinitionIdView| #[trigger] defs.contains_key(d) implies defs[d].total_quantity.wf()
                    && defs[d].total_quantity.units() == crate::asset::held(rows, d) by {
                    assert(defs0.contains_key(d));
                }
            }
        }
        Ok(())
    }
}

impl Execute for Burn {
    open spec fn admissible(&self) -> bool {
        self.object.wf()
    }

    /// The definition must exist and admit the quantity; the holding must
    /// exist; the holding and the total quantity of the definition both
    /// shrink by the quantity, and neither may fall below zero. A holding
    /// that reaches zero is no longer there.
    open spec fn step(&self, state: TxView, authority: AccountIdView) -> Result<TxView, ErrorView> {
        let world = state.world;
        let id = self.destination@;
        if !world.asset_definitions.contains_key(id.definition) {
            Err(ErrorView::Find(FindErrorView::AssetDefinition(id.definition)))
        } else {
            let definition = world.asset_definitions[id.definition];
            if !definition.spec.admits(self.object) {
                Err(mismatch(definition.spec, self.object))
            } else if !world.assets.contains_key(id) {
                Err(ErrorView::Find(FindErrorView::Asset(id)))
            } else {
                match (
                    world.assets[id].value.sub_spec(self.object),
                    definition.total_quantity.sub_spec(self.object),
                ) {
                    (Some(value), Some(total)) => Ok(
                        TxView {
                            world: WorldView {
                                assets: put(world.assets, id, value),
                                asset_definitions: world.asset_definitions.insert(
                                    id.definition,
                                    AssetDefinitionView { total_quantity: total, ..definition },
                                ),
                                ..world
                            },
                            events: state.events.push(
                                EventView::AssetRemoved { asset: id, amount: self.object },
                            ),
                        },
                    ),
                    _ => Err(ErrorView::Math(MathError::NotEnoughQuantity)),
                }
            }
        }
    }

    fn execute(self, authority: &AccountId, state_transaction: &mut StateTransaction) -> (r: Result<
        (),
        Error,
    >) {
        let asset_id = self.destination;
        let ghost before = *old(state_transaction);
        let ghost rows0 = before.world.assets.rows();
        let ghost defs0 = before.world.asset_definitions@;
        let ghost d0 = asset_id@.definition;

        match state_transaction.world.asset_definition(&asset_id.definition) {
            Ok(asset_definition) => match assert_numeric_spec(&self.object, asset_definition) {
                Ok(_) => {},
                Err(e) => {
                    return Err(e);
                },
            },
            Err(e) => {
                return Err(Error::Find(e));
            },
        }
        let held_before = match state_transaction.world.asset(&asset_id) {
            Ok(asset) => asset.value,
            Err(e) => {
                return Err(Error::Find(e));
            },
        };
        proof {
            crate::registry::lemma_map_in_rows::<crate::asset::Asset>(rows0, asset_id@);
        }
        let value = match held_before.checked_sub(self.object) {
            Some(value) => value,
            None => {
                return Err(Error::Math(MathError::NotEnoughQuantity));
            },
        };
        match state_transaction.world.decrease_asset_total_amount(&asset_id.definition, self.object) {
            Ok(()) => {},
            Err(e) => {
                return Err(e);
            },
        }
        let ghost total = defs0[d0].total_quantity.sub_spec(self.object)->0;
        proof {
            crate::numeric::lemma_sub_units(defs0[d0].total_quantity, self.object);
            crate::numeric::lemma_sub_units(held_before, self.object);
        }
        state_transaction.world.put_asset(&asset_id, value);
        state_transaction.emit(Event::AssetRemoved { asset: asset_id, amount: self.object });
        proof {
            let rows = state_transaction.world.assets.rows();
            let defs = state_transaction.world.asset_definitions@;
            lemma_put(rows0, rows, asset_id@, value);
            assert(defined(rows0, defs)) by {
                assert forall|i: int| 0 <= i < rows0.len() implies defs.contains_key(
                    (#[trigger] rows0[i]).id.definition,
                ) by {
                    assert(defs0.contains_key(rows0[i].id.definition));
                }
            }
            assert(defined(rows, defs));
            assert(balanced(defs, rows)) by {
                assert forall|d: AssetDefinitionIdView| #[trigger] defs.contains_key(d) implies defs[d].total_quantity.wf()
                    && defs[d].total_quantity.units() == crate::asset::held(rows, d) by {
                    assert(defs0.contains_key(d));
                }
            }
        }
        Ok(())
    }
}

impl Transfer {
    /// The holding that receives: the destination account's holding under
    /// the definition of the source.
    pub open spec fn receiver(&self) -> AssetIdView {
        AssetIdView { account: self.destination@, definition: self.source@.definition }
    }
}

impl Execute for Transfer {
    open spec fn admissible(&self) -> bool {
        self.object.wf()
    }

    /// The definition must exist and admit the quantity; the source holding
    /// must exist and hold at least the quantity; the destination account
    /// must exist. The source is debited first, then the receiving holding
    /// is credited, which may not overflow. The total quantity and the
    /// mintability of the definition are not touched.
    open spec fn step(&self, state: TxView, authority: AccountIdView) -> Result<TxView, ErrorView> {
        let world = state.world;
        let source = self.source@;
        let receiver = self.receiver();
        if !world.asset_definitions.contains_key(source.definition) {
            Err(ErrorView::Find(FindErrorView::AssetDefinition(source.definition)))
        } else if !world.asset_definitions[source.definition].spec.admits(self.object) {
            Err(mismatch(world.asset_definitions[source.definition].spec, self.object))
        } else if !world.assets.contains_key(source) {
            Err(ErrorView::Find(FindErrorView::Asset(source)))
        } else {
            match world.assets[source].value.sub_spec(self.object) {
                None => Err(ErrorView::Math(MathError::NotEnoughQuantity)),
                Some(rest) => if !world.accounts.contains_key(receiver.account) {
                    Err(ErrorView::Find(FindErrorView::Account(receiver.account)))
                } else {
                    let debited = put(world.assets, source, rest);
                    match quantity_in(debited, receiver).add_spec(self.object) {
                        None => Err(ErrorView::Math(MathError::Overflow)),
                        Some(sum) => Ok(
                            TxView {
                                world: WorldView { assets: put(debited, receiver, sum), ..world },
                                events: state.events.push(
                                    EventView::AssetRemoved { asset: source, amount: self.object },
                                ).push(
                                    EventView::AssetAdded { asset: receiver, amount: self.object },
                                ),
                            },
                        ),
                    }
                },
            }
        }
    }

    fn execute(self, authority: &AccountId, state_transaction: &mut StateTransaction) -> (r: Result<
        (),
        Error,
    >) {
        let ghost receiver = self.receiver();
        let source_id = self.source;
        let destination_id = AssetId::new(source_id.definition.clone(), self.destination.clone());
        let ghost before = *old(state_transaction);
        let ghost rows0 = before.world.assets.rows();
        let ghost defs0 = before.world.asset_definitions@;
        let ghost d0 = source_id@.definition;
        assert(destination_id@ == receiver);

        match state_transaction.world.asset_definition(&source_id.definition) {
            Ok(asset_definition) => match assert_numeric_spec(&self.object, asset_definition) {
                Ok(_) => {},
                Err(e) => {
                    return Err(e);
                },
            },
            Err(e) => {
                return Err(Error::Find(e));
            },
        }
        let held_before = match state_transaction.world.asset(&source_id) {
            Ok(asset) => asset.value,
            Err(e) => {
                return Err(Error::Find(e));
            },
        };
        proof {
            crate::registry::lemma_map_in_rows::<crate::asset::Asset>(rows0, source_id@);
        }
        let rest = match held_before.checked_sub(self.object) {
            Some(rest) => rest,
            None => {
                return Err(Error::Math(MathError::NotEnoughQuantity));
            },
        };
        match state_transaction.world.account(&destination_id.account) {
            Ok(_) => {},
            Err(e) => {
                return Err(Error::Find(e));
            },
        }
        let received_before = if destination_id.same(&source_id) {
            if rest.is_zero() {
                Numeric::zero()
            } else {
                rest
            }
        } else {
            state_transaction.world.quantity(&destination_id)
        };
        proof {
            let debited = put(before.world@.assets, source_id@, rest);
            assert(received_before == quantity_in(debited, receiver));
            if before.world@.assets.contains_key(receiver) {
                crate::registry::lemma_map_in_rows::<crate::asset::Asset>(rows0, receiver);
            }
            assert(received_before.wf());
        }
        let sum = match received_before.checked_add(self.object) {
            Some(sum) => sum,
            None => {
                return Err(Error::Math(MathError::Overflow));
            },
        };
        state_transaction.world.put_asset(&source_id, rest);
        let ghost rows1 = state_transaction.world.assets.rows();
        let ghost assets1 = state_transaction.world.assets@;
        proof {
            lemma_put(rows0, rows1, source_id@, rest);
            crate::numeric::lemma_units_zero(rest);
            crate::numeric::lemma_units_zero(received_before);
            assert(assets1 == put(before.world@.assets, source_id@, rest));
            assert(balance_in(assets1, receiver) == received_before.units());
        }
        state_transaction.world.put_asset(&destination_id, sum);
        state_transaction.emit(Event::AssetRemoved { asset: source_id, amount: self.object });
        state_transaction.emit(Event::AssetAdded { asset: destination_id, amount: self.object });
        proof {
            let rows = state_transaction.world.assets.rows();
            let defs = state_transaction.world.asset_definitions@;
            lemma_put(rows1, rows, receiver, sum);
            assert(defined(rows1, defs0));
            assert(defined(rows, defs0));
            assert(balanced(defs, rows)) by {
                assert forall|d: AssetDefinitionIdView| #[trigger] defs.contains_key(d) implies defs[d].total_quantity.wf()
                    && defs[d].total_quantity.units() == crate::asset::held(rows, d) by {
                    if d != d0 {
                        assert(crate::asset::held(rows1, d) == crate::asset::held(rows0, d));
                        assert(crate::asset::held(rows, d) == crate::asset::held(rows1, d));
                    }
                }
            }
        }
        Ok(())
    }
}

/// A transfer between two different holdings leaves the sum of what they
/// hold unchanged, a transfer of a holding to itself leaves what it holds
/// unchanged, and neither touches any asset definition, so that every total
/// quantity stays what it was.
pub proof fn lemma_transfer_conserves(
    transfer: Transfer,
    state: TxView,
    authority: AccountIdView,
    after: TxView,
)
    requires
        transfer.admissible(),
        state.world.quantity(transfer.source@).wf(),
        state.world.quantity(transfer.receiver()).wf(),
        transfer.step(state, authority) == Ok::<TxView, ErrorView>(after),
    ensures
        after.world.asset_definitions == state.world.asset_definitions,
        transfer.source@ != transfer.receiver() ==> after.world.balance(transfer.source@)
            + after.world.balance(transfer.receiver()) == state.world.balance(transfer.source@)
            + state.world.balance(transfer.receiver()),
        transfer.source@ == transfer.receiver() ==> after.world.balance(transfer.source@)
            == state.world.balance(transfer.source@),
        forall|other: AssetIdView|
            other != transfer.source@ && other != transfer.receiver() ==> after.world.balance(other)
                == state.world.balance(other),
{
    let source = transfer.source@;
    let receiver = transfer.receiver();
    let held_before = state.world.assets[source].value;
    let rest = held_before.sub_spec(transfer.object)->0;
    let debited = put(state.world.assets, source, rest);
    let sum = quantity_in(debited, receiver).add_spec(transfer.object)->0;
    let received_before = quantity_in(debited, receiver);
    crate::numeric::lemma_sub_units(held_before, transfer.object);
    crate::numeric::lemma_units_zero(rest);
    crate::numeric::lemma_units_zero(Numeric { mantissa: 0, scale: 0 });
    assert(received_before.wf());
    crate::numeric::lemma_add_units(received_before, transfer.object);
    crate::numeric::lemma_units_zero(sum);
    assert(after.world.assets == put(debited, receiver, sum));
    assert(balance_in(debited, source) == rest.units());
    assert(balance_in(after.world.assets, receiver) == sum.units());
    if source != receiver {
        assert(received_before == state.world.quantity(receiver));
        assert(received_before.units() == state.world.balance(receiver));
        assert(balance_in(after.world.assets, source) == rest.units());
    } else {
        assert(received_before.units() == rest.units());
    }
}

} // verus!
