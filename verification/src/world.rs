//! The world state: every entity on the ledger, found by its identifier.

use vstd::prelude::*;
use crate::asset::{held, lemma_held_insert, lemma_held_remove, lemma_held_update, share, Asset, AssetDefinition, AssetDefinitionView, AssetView};
use crate::domain::{Account, AccountView, Domain, DomainView};
use crate::error::{Error, ErrorView, FindError, FindErrorView, MathError};
use crate::id::{AccountId, AccountIdView, AssetDefinitionId, AssetDefinitionIdView, AssetId, AssetIdView, DomainId, NftId, NftIdView};
use crate::nft::{Nft, NftView};
use crate::numeric::Numeric;
use crate::registry::{as_map, ascending, lemma_map_in_rows, lemma_row_in_map, row_inserted, row_removed, row_replaced, Registry};

verus! {

/// The world state as plain values: each kind of entity by identifier.
pub struct WorldView {
    pub domains: Map<Seq<char>, DomainView>,
    pub accounts: Map<AccountIdView, AccountView>,
    pub asset_definitions: Map<AssetDefinitionIdView, AssetDefinitionView>,
    pub assets: Map<AssetIdView, AssetView>,
    pub nfts: Map<NftIdView, NftView>,
}

/// Every entity of the ledger. Entities refer to each other by identifier
/// only; each registry is walked in the order of its identifiers.
#[derive(Debug, PartialEq, Eq)]
pub struct World {
    pub domains: Registry<Domain>,
    pub accounts: Registry<Account>,
    pub asset_definitions: Registry<AssetDefinition>,
    pub assets: Registry<Asset>,
    pub nfts: Registry<Nft>,
}

impl View for World {
    type V = WorldView;

    open spec fn view(&self) -> WorldView {
        WorldView {
            domains: self.domains@,
            accounts: self.accounts@,
            asset_definitions: self.asset_definitions@,
            assets: self.assets@,
            nfts: self.nfts@,
        }
    }
}

/// No row holds a zero quantity, and every quantity is well formed.
pub open spec fn materialized(rows: Seq<AssetView>) -> bool {
    forall|i: int|
        0 <= i < rows.len() ==> (#[trigger] rows[i]).value.wf() && rows[i].value.mantissa > 0
}

/// Every row belongs to a definition that exists.
pub open spec fn defined(
    rows: Seq<AssetView>,
    definitions: Map<AssetDefinitionIdView, AssetDefinitionView>,
) -> bool {
    forall|i: int|
        0 <= i < rows.len() ==> definitions.contains_key((#[trigger] rows[i]).id.definition)
}

/// The total quantity of every definition is the sum of the assets held under it.
pub open spec fn balanced(
    definitions: Map<AssetDefinitionIdView, AssetDefinitionView>,
    rows: Seq<AssetView>,
) -> bool {
    forall|d: AssetDefinitionIdView| #[trigger]
        definitions.contains_key(d) ==> definitions[d].total_quantity.wf()
            && definitions[d].total_quantity.units() == held(rows, d)
}

/// The assets after `id` has been set to hold `value`: its row is written
/// where `value` is not zero, and absent where it is.
pub open spec fn put(assets: Map<AssetIdView, AssetView>, id: AssetIdView, value: Numeric) -> Map<
    AssetIdView,
    AssetView,
> {
    if value.mantissa == 0 {
        assets.remove(id)
    } else {
        assets.insert(id, AssetView { id, value })
    }
}

/// The same change as [`put`], told of the rows in their order.
pub open spec fn rows_put(
    before: Seq<AssetView>,
    after: Seq<AssetView>,
    id: AssetIdView,
    value: Numeric,
) -> bool {
    let present = as_map::<Asset>(before).contains_key(id);
    let row = AssetView { id, value };
    if value.mantissa != 0 {
        if present {
            row_replaced::<Asset>(before, after, row)
        } else {
            row_inserted::<Asset>(before, after, row)
        }
    } else {
        if present {
            row_removed::<Asset>(before, after, as_map::<Asset>(before)[id])
        } else {
            after == before
        }
    }
}

/// The quantity that `id` holds among `assets`: zero where there is no row.
pub open spec fn quantity_in(assets: Map<AssetIdView, AssetView>, id: AssetIdView) -> Numeric {
    if assets.contains_key(id) {
        assets[id].value
    } else {
        Numeric { mantissa: 0, scale: 0 }
    }
}

/// What `id` holds among `assets`, in units.
pub open spec fn balance_in(assets: Map<AssetIdView, AssetView>, id: AssetIdView) -> nat {
    if assets.contains_key(id) {
        assets[id].value.units()
    } else {
        0
    }
}

/// Setting what one asset holds changes what is held under its definition
/// by the difference, and nothing under any other definition; and it keeps
/// the rows free of zeros and within the definitions.
pub proof fn lemma_put(
    before: Seq<AssetView>,
    after: Seq<AssetView>,
    id: AssetIdView,
    value: Numeric,
)
    requires
        ascending::<Asset>(before),
        rows_put(before, after, id, value),
        value.wf(),
    ensures
        held(after, id.definition) + balance_in(as_map::<Asset>(before), id) == held(
            before,
            id.definition,
        ) + value.units(),
        forall|d: AssetDefinitionIdView| d != id.definition ==> held(after, d) == held(before, d),
        materialized(before) ==> materialized(after),
        forall|definitions: Map<AssetDefinitionIdView, AssetDefinitionView>|
            #![trigger defined(after, definitions)]
            defined(before, definitions) && definitions.contains_key(id.definition) ==> defined(
                after,
                definitions,
            ),
{
    let row = AssetView { id, value };
    let m = as_map::<Asset>(before);
    crate::numeric::lemma_units_zero(value);
    if value.mantissa != 0 {
        if m.contains_key(id) {
            let i = choose|i: int|
                0 <= i < before.len() && before[i].id == row.id && after == #[trigger] before.update(
                    i,
                    row,
                );
            lemma_row_in_map::<Asset>(before, i);
            assert forall|d: AssetDefinitionIdView| true implies held(after, d) + share(
                before[i],
                d,
            ) == held(before, d) + share(row, d) by {
                lemma_held_update(before, i, row, d);
            }
            assert(held(after, id.definition) + share(before[i], id.definition) == held(
                before,
                id.definition,
            ) + share(row, id.definition));
            assert forall|d: AssetDefinitionIdView| d != id.definition implies held(after, d)
                == held(before, d) by {
                assert(held(after, d) + share(before[i], d) == held(before, d) + share(row, d));
            }
            assert forall|k: int| 0 <= k < after.len() implies (#[trigger] after[k] == row
                || after[k] == before[k]) by {}
        } else {
            let p = choose|p: int| 0 <= p <= before.len() && after == #[trigger] before.insert(p, row);
            assert forall|d: AssetDefinitionIdView| true implies held(after, d) == held(before, d)
                + share(row, d) by {
                lemma_held_insert(before, p, row, d);
            }
            assert(held(after, id.definition) == held(before, id.definition) + share(
                row,
                id.definition,
            ));
            assert forall|d: AssetDefinitionIdView| d != id.definition implies held(after, d)
                == held(before, d) by {
                assert(held(after, d) == held(before, d) + share(row, d));
            }
            assert forall|k: int| 0 <= k < after.len() implies (#[trigger] after[k] == row || (k < p
                && after[k] == before[k]) || (k > p && after[k] == before[k - 1])) by {}
        }
    } else {
        if m.contains_key(id) {
            let gone = m[id];
            let i = choose|i: int|
                0 <= i < before.len() && before[i] == gone && after == #[trigger] before.remove(i);
            lemma_map_in_rows::<Asset>(before, id);
            assert forall|d: AssetDefinitionIdView| true implies held(after, d) + share(
                before[i],
                d,
            ) == held(before, d) by {
                lemma_held_remove(before, i, d);
            }
            assert(held(after, id.definition) + share(before[i], id.definition) == held(
                before,
                id.definition,
            ));
            assert forall|d: AssetDefinitionIdView| d != id.definition implies held(after, d)
                == held(before, d) by {
                assert(held(after, d) + share(before[i], d) == held(before, d));
            }
            assert forall|k: int| 0 <= k < after.len() implies ((k < i && #[trigger] after[k]
                == before[k]) || (k >= i && after[k] == before[k + 1])) by {}
        }
    }
}

impl WorldView {
    /// What `id` holds, in units: nothing where there is no row.
    pub open spec fn balance(self, id: AssetIdView) -> nat {
        balance_in(self.assets, id)
    }

    /// The quantity that `id` holds: zero where there is no row.
    pub open spec fn quantity(self, id: AssetIdView) -> Numeric {
        quantity_in(self.assets, id)
    }
}

impl World {
    /// The empty world as plain values.
    pub open spec fn new_view() -> WorldView {
        WorldView {
            domains: Map::empty(),
            accounts: Map::empty(),
            asset_definitions: Map::empty(),
            assets: Map::empty(),
            nfts: Map::empty(),
        }
    }

    /// Every registry is in the order of its identifiers.
    pub open spec fn ordered(&self) -> bool {
        &&& self.domains.wf()
        &&& self.accounts.wf()
        &&& self.asset_definitions.wf()
        &&& self.assets.wf()
        &&& self.nfts.wf()
    }

    /// The registries are ordered; no asset row holds zero; every asset row
    /// belongs to an existing definition; and the total quantity of every
    /// definition is the sum of the assets held under it.
    pub open spec fn wf(&self) -> bool {
        &&& self.ordered()
        &&& materialized(self.assets.rows())
        &&& defined(self.assets.rows(), self.asset_definitions@)
        &&& balanced(self.asset_definitions@, self.assets.rows())
    }

    /// The empty world: no registry holds a row.
    pub fn new() -> (r: World)
        ensures
            r.wf(),
            r@ == World::new_view(),
            r.domains.rows() == Seq::<DomainView>::empty(),
            r.accounts.rows() == Seq::<AccountView>::empty(),
            r.asset_definitions.rows() == Seq::<AssetDefinitionView>::empty(),
            r.assets.rows() == Seq::<AssetView>::empty(),
            r.nfts.rows() == Seq::<NftView>::empty(),
    {
        World {
            domains: Registry::new(),
            accounts: Registry::new(),
            asset_definitions: Registry::new(),
            assets: Registry::new(),
            nfts: Registry::new(),
        }
    }

    /// A copy with the same rows in every registry.
    pub fn duplicate(&self) -> (r: World)
        ensures
            r@ == self@,
            r.domains.rows() == self.domains.rows(),
            r.accounts.rows() == self.accounts.rows(),
            r.asset_definitions.rows() == self.asset_definitions.rows(),
            r.assets.rows() == self.assets.rows(),
            r.nfts.rows() == self.nfts.rows(),
            r.ordered() == self.ordered(),
            r.wf() == self.wf(),
    {
        World {
            domains: self.domains.duplicate(),
            accounts: self.accounts.duplicate(),
            asset_definitions: self.asset_definitions.duplicate(),
            assets: self.assets.duplicate(),
            nfts: self.nfts.duplicate(),
        }
    }

    /// The domain `id`.
    pub fn domain(&self, id: &DomainId) -> (r: Result<&Domain, FindError>)
        requires
            self.ordered(),
        ensures
            match r {
                Ok(domain) => self@.domains.contains_key(id@) && domain@ == self@.domains[id@],
                Err(e) => !self@.domains.contains_key(id@) && e@ == FindErrorView::Domain(id@),
            },
    {
        match self.domains.get(id) {
            Some(domain) => Ok(domain),
            None => Err(FindError::Domain(id.clone())),
        }
    }

    /// The account `id`.
    pub fn account(&self, id: &AccountId) -> (r: Result<&Account, FindError>)
        requires
            self.ordered(),
        ensures
            match r {
                Ok(account) => self@.accounts.contains_key(id@) && account@ == self@.accounts[id@],
                Err(e) => !self@.accounts.contains_key(id@) && e@ == FindErrorView::Account(id@),
            },
    {
        match self.accounts.get(id) {
            Some(account) => Ok(account),
            None => Err(FindError::Account(id.clone())),
        }
    }

    /// The asset definition `id`.
    pub fn asset_definition(&self, id: &AssetDefinitionId) -> (r: Result<
        &AssetDefinition,
        FindError,
    >)
        requires
            self.ordered(),
        ensures
            match r {
                Ok(definition) => self@.asset_definitions.contains_key(id@) && definition@
                    == self@.asset_definitions[id@],
                Err(e) => !self@.asset_definitions.contains_key(id@) && e@
                    == FindErrorView::AssetDefinition(id@),
            },
    {
        match self.asset_definitions.get(id) {
            Some(definition) => Ok(definition),
            None => Err(FindError::AssetDefinition(id.clone())),
        }
    }

    /// The asset `id`.
    pub fn asset(&self, id: &AssetId) -> (r: Result<&Asset, FindError>)
        requires
            self.ordered(),
        ensures
            match r {
                Ok(asset) => self@.assets.contains_key(id@) && asset@ == self@.assets[id@],
                Err(e) => !self@.assets.contains_key(id@) && e@ == FindErrorView::Asset(id@),
            },
    {
        match self.assets.get(id) {
            Some(asset) => Ok(asset),
            None => Err(FindError::Asset(id.clone())),
        }
    }

    /// The NFT `id`.
    pub fn nft(&self, id: &NftId) -> (r: Result<&Nft, FindError>)
        requires
            self.ordered(),
        ensures
            match r {
                Ok(nft) => self@.nfts.contains_key(id@) && nft@ == self@.nfts[id@],
                Err(e) => !self@.nfts.contains_key(id@) && e@ == FindErrorView::Nft(id@),
            },
    {
        match self.nfts.get(id) {
            Some(nft) => Ok(nft),
            None => Err(FindError::Nft(id.clone())),
        }
    }

    /// The quantity that `id` holds: zero where there is no row.
    pub fn quantity(&self, id: &AssetId) -> (r: Numeric)
        requires
            self.ordered(),
        ensures
            r == self@.quantity(id@),
    {
        match self.assets.get(id) {
            Some(asset) => asset.value,
            None => Numeric::zero(),
        }
    }

    /// The quantity of the asset `id`, after a row holding `default` has
    /// been put in where there was none. Fails, and changes nothing, where
    /// the account or the asset definition of `id` does not exist.
    pub fn asset_or_insert(&mut self, id: &AssetId, default: Numeric) -> (r: Result<Numeric, Error>)
        requires
            old(self).ordered(),
        ensures
            final(self).ordered(),
            final(self).domains == old(self).domains,
            final(self).accounts == old(self).accounts,
            final(self).asset_definitions == old(self).asset_definitions,
            final(self).nfts == old(self).nfts,
            match r {
                Ok(value) => {
                    &&& old(self)@.accounts.contains_key(id@.account)
                    &&& old(self)@.asset_definitions.contains_key(id@.definition)
                    &&& if old(self)@.assets.contains_key(id@) {
                        value == old(self)@.assets[id@].value && final(self).assets == old(
                            self,
                        ).assets
                    } else {
                        value == default && final(self)@.assets == old(self)@.assets.insert(
                            id@,
                            AssetView { id: id@, value: default },
                        ) && row_inserted::<Asset>(
                            old(self).assets.rows(),
                            final(self).assets.rows(),
                            AssetView { id: id@, value: default },
                        )
                    }
                },
                Err(e) => final(self).assets == old(self).assets && if !old(
                    self,
                )@.accounts.contains_key(id@.account) {
                    e@ == ErrorView::Find(FindErrorView::Account(id@.account))
                } else {
                    !old(self)@.asset_definitions.contains_key(id@.definition) && e@
                        == ErrorView::Find(FindErrorView::AssetDefinition(id@.definition))
                },
            },
    {
        if !self.accounts.contains(&id.account) {
            return Err(Error::Find(FindError::Account(id.account.clone())));
        }
        if !self.asset_definitions.contains(&id.definition) {
            return Err(Error::Find(FindError::AssetDefinition(id.definition.clone())));
        }
        match self.assets.get(id) {
            Some(asset) => Ok(asset.value),
            None => {
                self.assets.insert(Asset { id: id.clone(), value: default });
                Ok(default)
            },
        }
    }

    /// Sets what `id` holds to `value`: the row is written where `value` is
    /// not zero, and taken out where it is.
    pub fn put_asset(&mut self, id: &AssetId, value: Numeric)
        requires
            old(self).ordered(),
        ensures
            final(self).ordered(),
            final(self).domains == old(self).domains,
            final(self).accounts == old(self).accounts,
            final(self).asset_definitions == old(self).asset_definitions,
            final(self).nfts == old(self).nfts,
            final(self)@.assets == put(old(self)@.assets, id@, value),
            rows_put(old(self).assets.rows(), final(self).assets.rows(), id@, value),
    {
        if value.is_zero() {
            let _ = self.assets.remove(id);
        } else {
            let _ = self.assets.insert(Asset { id: id.clone(), value });
        }
    }

    /// Adds `delta` to the total quantity of `definition`. Fails, and
    /// changes nothing, where the definition does not exist or the sum
    /// cannot be represented.
    pub fn increase_asset_total_amount(
        &mut self,
        definition: &AssetDefinitionId,
        delta: Numeric,
    ) -> (r: Result<(), Error>)
        requires
            old(self).ordered(),
        ensures
            final(self).ordered(),
            final(self).domains == old(self).domains,
            final(self).accounts == old(self).accounts,
            final(self).assets == old(self).assets,
            final(self).nfts == old(self).nfts,
            match r {
                Ok(()) => {
                    &&& old(self)@.asset_definitions.contains_key(definition@)
                    &&& old(self)@.asset_definitions[definition@].total_quantity.add_spec(delta)
                        is Some
                    &&& final(self)@.asset_definitions == old(self)@.asset_definitions.insert(
                        definition@,
                        AssetDefinitionView {
                            total_quantity: old(
                                self,
                            )@.asset_definitions[definition@].total_quantity.add_spec(delta)->0,
                            ..old(self)@.asset_definitions[definition@]
                        },
                    )
                },
                Err(e) => final(self).asset_definitions == old(self).asset_definitions && if !old(
                    self,
                )@.asset_definitions.contains_key(definition@) {
                    e@ == ErrorView::Find(FindErrorView::AssetDefinition(definition@))
                } else {
                    old(self)@.asset_definitions[definition@].total_quantity.add_spec(delta)
                        is None && e@ == ErrorView::Math(MathError::Overflow)
                },
            },
    {
        let i = match self.asset_definitions.find(definition) {
            Ok(i) => i,
            Err(_) => {
                return Err(Error::Find(FindError::AssetDefinition(definition.clone())));
            },
        };
        proof {
            crate::registry::lemma_row_in_map::<AssetDefinition>(
                self.asset_definitions.rows(),
                i as int,
            );
        }
        let total = match self.asset_definitions.row(i).total_quantity.checked_add(delta) {
            Some(total) => total,
            None => {
                return Err(Error::Math(MathError::Overflow));
            },
        };
        let mut entry = self.asset_definitions.remove_row(i);
        entry.total_quantity = total;
        let _ = self.asset_definitions.insert(entry);
        proof {
            assert(self@.asset_definitions =~= old(self)@.asset_definitions.insert(
                definition@,
                AssetDefinitionView {
                    total_quantity: total,
                    ..old(self)@.asset_definitions[definition@]
                },
            ));
        }
        Ok(())
    }

    /// Takes `delta` from the total quantity of `definition`. Fails, and
    /// changes nothing, where the definition does not exist or the
    /// difference cannot be represented.
    pub fn decrease_asset_total_amount(
        &mut self,
        definition: &AssetDefinitionId,
        delta: Numeric,
    ) -> (r: Result<(), Error>)
        requires
            old(self).ordered(),
        ensures
            final(self).ordered(),
            final(self).domains == old(self).domains,
            final(self).accounts == old(self).accounts,
            final(self).assets == old(self).assets,
            final(self).nfts == old(self).nfts,
            match r {
                Ok(()) => {
                    &&& old(self)@.asset_definitions.contains_key(definition@)
                    &&& old(self)@.asset_definitions[definition@].total_quantity.sub_spec(delta)
                        is Some
                    &&& final(self)@.asset_definitions == old(self)@.asset_definitions.insert(
                        definition@,
                        AssetDefinitionView {
                            total_quantity: old(
                                self,
                            )@.asset_definitions[definition@].total_quantity.sub_spec(delta)->0,
                            ..old(self)@.asset_definitions[definition@]
                        },
                    )
                },
                Err(e) => final(self).asset_definitions == old(self).asset_definitions && if !old(
                    self,
                )@.asset_definitions.contains_key(definition@) {
                    e@ == ErrorView::Find(FindErrorView::AssetDefinition(definition@))
                } else {
                    old(self)@.asset_definitions[definition@].total_quantity.sub_spec(delta)
                        is None && e@ == ErrorView::Math(MathError::NotEnoughQuantity)
                },
            },
    {
        let i = match self.asset_definitions.find(definition) {
            Ok(i) => i,
            Err(_) => {
                return Err(Error::Find(FindError::AssetDefinition(definition.clone())));
            },
        };
        proof {
            crate::registry::lemma_row_in_map::<AssetDefinition>(
                self.asset_definitions.rows(),
                i as int,
            );
        }
        let total = match self.asset_definitions.row(i).total_quantity.checked_sub(delta) {
            Some(total) => total,
            None => {
                return Err(Error::Math(MathError::NotEnoughQuantity));
            },
        };
        let mut entry = self.asset_definitions.remove_row(i);
        entry.total_quantity = total;
        let _ = self.asset_definitions.insert(entry);
        proof {
            assert(self@.asset_definitions =~= old(self)@.asset_definitions.insert(
                definition@,
                AssetDefinitionView {
                    total_quantity: total,
                    ..old(self)@.asset_definitions[definition@]
                },
            ));
        }
        Ok(())
    }
}

/// In a well-formed world the total quantity of every asset definition is
/// the sum of the assets held under it.
pub proof fn lemma_total_is_sum(world: World, definition: AssetDefinitionIdView)
    requires
        world.wf(),
        world@.asset_definitions.contains_key(definition),
    ensures
        world@.asset_definitions[definition].total_quantity.units() == held(
            world.assets.rows(),
            definition,
        ),
{
}

/// In a well-formed world every asset that is there holds more than
/// nothing, under a definition that is there.
pub proof fn lemma_assets_hold_something(world: World, id: AssetIdView)
    requires
        world.wf(),
        world@.assets.contains_key(id),
    ensures
        world@.assets[id].value.mantissa > 0,
        world@.balance(id) > 0,
        world@.asset_definitions.contains_key(id.definition),
{
    lemma_map_in_rows::<Asset>(world.assets.rows(), id);
    let row = world@.assets[id];
    crate::numeric::lemma_units_zero(row.value);
}

} // verus!
