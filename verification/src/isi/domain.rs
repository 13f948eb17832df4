//! Instructions that register domains and what lives in them: accounts and
//! asset definitions.

use vstd::prelude::*;
use crate::asset::{held, lemma_held_none, lemma_held_remove, Asset, AssetDefinition, AssetView, NewAssetDefinition};
use crate::domain::{Account, AccountView, Domain, DomainView};
use crate::error::{Error, ErrorView, FindError, FindErrorView, IdBox, IdBoxView, InstructionType, RepetitionError, RepetitionErrorView};
use crate::events::{Event, EventView};
use crate::id::{AccountId, AccountIdView, AssetDefinitionId, AssetDefinitionIdView, AssetIdView, DomainId};
use crate::isi::Execute;
use crate::registry::{lemma_map_in_rows, lemma_row_in_map};
use crate::state::{StateTransaction, TxView};
use crate::world::{balanced, defined, materialized, World, WorldView};

verus! {

/// Registers the domain `object`, owned by the authority.
#[derive(Debug, PartialEq, Eq)]
pub struct RegisterDomain {
    pub object: DomainId,
}

/// Registers the account `object`.
#[derive(Debug, PartialEq, Eq)]
pub struct RegisterAccount {
    pub object: AccountId,
}

/// Registers the asset definition `object`, owned by the authority.
#[derive(Debug, PartialEq, Eq)]
pub struct RegisterAssetDefinition {
    pub object: NewAssetDefinition,
}

/// Unregisters the asset definition `object` and every asset held under it.
#[derive(Debug, PartialEq, Eq)]
pub struct UnregisterAssetDefinition {
    pub object: AssetDefinitionId,
}

impl Clone for RegisterDomain {
    fn clone(&self) -> (r: RegisterDomain)
        ensures
            r.object@ == self.object@,
    {
        RegisterDomain { object: self.object.clone() }
    }
}

impl Clone for RegisterAccount {
    fn clone(&self) -> (r: RegisterAccount)
        ensures
            r.object@ == self.object@,
    {
        RegisterAccount { object: self.object.clone() }
    }
}

impl Clone for RegisterAssetDefinition {
    fn clone(&self) -> (r: RegisterAssetDefinition)
        ensures
            r.object@ == self.object@,
    {
        RegisterAssetDefinition { object: self.object.clone() }
    }
}

impl Clone for UnregisterAssetDefinition {
    fn clone(&self) -> (r: UnregisterAssetDefinition)
        ensures
            r.object@ == self.object@,
    {
        UnregisterAssetDefinition { object: self.object.clone() }
    }
}

impl RegisterDomain {
    pub fn domain(object: DomainId) -> (r: RegisterDomain)
        ensures
            r.object == object,
    {
        RegisterDomain { object }
    }
}

impl RegisterAccount {
    pub fn account(object: AccountId) -> (r: RegisterAccount)
        ensures
            r.object == object,
    {
        RegisterAccount { object }
    }
}

impl RegisterAssetDefinition {
    pub fn asset_definition(object: NewAssetDefinition) -> (r: RegisterAssetDefinition)
        ensures
            r.object == object,
    {
        RegisterAssetDefinition { object }
    }
}

impl UnregisterAssetDefinition {
    pub fn asset_definition(object: AssetDefinitionId) -> (r: UnregisterAssetDefinition)
        ensures
            r.object == object,
    {
        UnregisterAssetDefinition { object }
    }
}

/// The error of registering under an identifier that is taken.
pub open spec fn repetition(id: IdBoxView) -> ErrorView {
    ErrorView::Repetition(RepetitionErrorView { instruction: InstructionType::Register, id })
}

impl Execute for RegisterDomain {
    open spec fn admissible(&self) -> bool {
        true
    }

    /// The identifier must be free; the domain is then there, owned by the
    /// authority.
    open spec fn step(&self, state: TxView, authority: AccountIdView) -> Result<TxView, ErrorView> {
        let world = state.world;
        let id = self.object@;
        if world.domains.contains_key(id) {
            Err(repetition(IdBoxView::DomainId(id)))
        } else {
            Ok(
                TxView {
                    world: WorldView {
                        domains: world.domains.insert(id, DomainView { id, owned_by: authority }),
                        ..world
                    },
                    events: state.events.push(EventView::DomainCreated(id)),
                },
            )
        }
    }

    fn execute(self, authority: &AccountId, state_transaction: &mut StateTransaction) -> (r: Result<
        (),
        Error,
    >) {
        let id = self.object;
        if state_transaction.world.domains.contains(&id) {
            return Err(
                Error::Repetition(
                    RepetitionError { instruction: InstructionType::Register, id: IdBox::DomainId(id) },
                ),
            );
        }
        let _ = state_transaction.world.domains.insert(Domain::new(id.clone(), authority.clone()));
        state_transaction.emit(Event::DomainCreated(id));
        Ok(())
    }
}

impl Execute for RegisterAccount {
    open spec fn admissible(&self) -> bool {
        true
    }

    /// The identifier must be free and its domain must exist; the account
    /// is then there.
    open spec fn step(&self, state: TxView, authority: AccountIdView) -> Result<TxView, ErrorView> {
        let world = state.world;
        let id = self.object@;
        if world.accounts.contains_key(id) {
            Err(repetition(IdBoxView::AccountId(id)))
        } else if !world.domains.contains_key(id.domain) {
            Err(ErrorView::Find(FindErrorView::Domain(id.domain)))
        } else {
            Ok(
                TxView {
                    world: WorldView {
                        accounts: world.accounts.insert(id, AccountView { id }),
                        ..world
                    },
                    events: state.events.push(EventView::AccountCreated(id)),
                },
            )
        }
    }

    fn execute(self, authority: &AccountId, state_transaction: &mut StateTransaction) -> (r: Result<
        (),
        Error,
    >) {
        let id = self.object;
        if state_transaction.world.accounts.contains(&id) {
            return Err(
                Error::Repetition(
                    RepetitionError {
                        instruction: InstructionType::Register,
                        id: IdBox::AccountId(id),
                    },
                ),
            );
        }
        match state_transaction.world.domain(&id.domain) {
            Ok(_) => {},
            Err(e) => {
                return Err(Error::Find(e));
            },
        }
        let _ = state_transaction.world.accounts.insert(Account::new(id.clone()));
        state_transaction.emit(Event::AccountCreated(id));
        Ok(())
    }
}

impl Execute for RegisterAssetDefinition {
    open spec fn admissible(&self) -> bool {
        true
    }

    /// The identifier must be free and its domain must exist; the
    /// definition is then there, owned by the authority, with a total
    /// quantity of zero.
    open spec fn step(&self, state: TxView, authority: AccountIdView) -> Result<TxView, ErrorView> {
        let world = state.world;
        let definition = self.object@.built(authority);
        if world.asset_definitions.contains_key(definition.id) {
            Err(repetition(IdBoxView::AssetDefinitionId(definition.id)))
        } else if !world.domains.contains_key(definition.id.domain) {
            Err(ErrorView::Find(FindErrorView::Domain(definition.id.domain)))
        } else {
            Ok(
                TxView {
                    world: WorldView {
                        asset_definitions: world.asset_definitions.insert(definition.id, definition),
                        ..world
                    },
                    events: state.events.push(EventView::AssetDefinitionCreated(definition.id)),
                },
            )
        }
    }

    fn execute(self, authority: &AccountId, state_transaction: &mut StateTransaction) -> (r: Result<
        (),
        Error,
    >) {
        let definition = self.object.build(authority);
        let id = definition.id.clone();
        if state_transaction.world.asset_definitions.contains(&id) {
            return Err(
                Error::Repetition(
                    RepetitionError {
                        instruction: InstructionType::Register,
                        id: IdBox::AssetDefinitionId(id),
                    },
                ),
            );
        }
        match state_transaction.world.domain(&id.domain) {
            Ok(_) => {},
            Err(e) => {
                return Err(Error::Find(e));
            },
        }
        let ghost defs0 = state_transaction.world.asset_definitions@;
        let _ = state_transaction.world.asset_definitions.insert(definition);
        state_transaction.emit(Event::AssetDefinitionCreated(id));
        proof {
            let rows = state_transaction.world.assets.rows();
            let defs = state_transaction.world.asset_definitions@;
            assert(defined(rows, defs)) by {
                assert forall|i: int| 0 <= i < rows.len() implies defs.contains_key(
                    (#[trigger] rows[i]).id.definition,
                ) by {
                    assert(defs0.contains_key(rows[i].id.definition));
                }
            }
            assert(balanced(defs, rows)) by {
                assert forall|d: AssetDefinitionIdView| #[trigger] defs.contains_key(d) implies defs[d].total_quantity.wf()
                    && defs[d].total_quantity.units() == held(rows, d) by {
                    if d == id@ {
                        assert forall|i: int| 0 <= i < rows.len() implies (#[trigger] rows[i]).id.definition
                            != d by {
                            assert(defs0.contains_key(rows[i].id.definition));
                        }
                        lemma_held_none(rows, d);
                        crate::numeric::lemma_units_zero(defs[d].total_quantity);
                    } else {
                        assert(defs0.contains_key(d));
                    }
                }
            }
        }
        Ok(())
    }
}

/// The assets that are not held under `definition`.
pub open spec fn without_definition(
    assets: Map<AssetIdView, AssetView>,
    definition: AssetDefinitionIdView,
) -> Map<AssetIdView, AssetView> {
    Map::new(
        |id: AssetIdView| assets.contains_key(id) && id.definition != definition,
        |id: AssetIdView| assets[id],
    )
}

/// Takes every asset held under `definition` out of the world.
fn remove_assets_of(world: &mut World, definition: &AssetDefinitionId)
    requires
        old(world).ordered(),
        materialized(old(world).assets.rows()),
    ensures
        final(world).ordered(),
        final(world).domains == old(world).domains,
        final(world).accounts == old(world).accounts,
        final(world).asset_definitions == old(world).asset_definitions,
        final(world).nfts == old(world).nfts,
        final(world)@.assets == without_definition(old(world)@.assets, definition@),
        materialized(final(world).assets.rows()),
        forall|i: int|
            0 <= i < final(world).assets.rows().len()
                ==> (#[trigger] final(world).assets.rows()[i]).id.definition != definition@,
        forall|i: int|
            0 <= i < final(world).assets.rows().len() ==> old(world)@.assets.contains_key(
                (#[trigger] final(world).assets.rows()[i]).id,
            ),
        forall|d: AssetDefinitionIdView|
            d != definition@ ==> held(final(world).assets.rows(), d) == held(
                old(world).assets.rows(),
                d,
            ),
{
    let ghost assets0 = world@.assets;
    let ghost rows0 = world.assets.rows();
    let mut i: usize = 0;
    proof {
        assert forall|k: int| 0 <= k < rows0.len() implies assets0.contains_key(
            (#[trigger] rows0[k]).id,
        ) by {
            lemma_row_in_map::<Asset>(rows0, k);
        }
    }
    while i < world.assets.len()
        invariant
            world.ordered(),
            world.domains == old(world).domains,
            world.accounts == old(world).accounts,
            world.asset_definitions == old(world).asset_definitions,
            world.nfts == old(world).nfts,
            i <= world.assets.rows().len(),
            materialized(world.assets.rows()),
            forall|id: AssetIdView| #[trigger]
                world@.assets.contains_key(id) ==> assets0.contains_key(id) && world@.assets[id]
                    == assets0[id],
            forall|id: AssetIdView|
                assets0.contains_key(id) && id.definition != definition@
                    ==> #[trigger] world@.assets.contains_key(id),
            forall|k: int|
                0 <= k < i ==> (#[trigger] world.assets.rows()[k]).id.definition != definition@,
            forall|k: int|
                0 <= k < world.assets.rows().len() ==> assets0.contains_key(
                    (#[trigger] world.assets.rows()[k]).id,
                ),
            forall|d: AssetDefinitionIdView|
                d != definition@ ==> held(world.assets.rows(), d) == held(rows0, d),
        decreases world.assets.rows().len() - i,
    {
        if world.assets.row(i).id.definition.same(definition) {
            let ghost rows = world.assets.rows();
            let ghost prev = world@.assets;
            let gone = world.assets.remove_row(i);
            proof {
                assert(gone@ == rows[i as int]);
                assert(gone@.id.definition == definition@);
                assert(world@.assets == prev.remove(gone@.id));
                assert forall|id: AssetIdView| #[trigger]
                    world@.assets.contains_key(id) implies assets0.contains_key(id)
                    && world@.assets[id] == assets0[id] by {
                    assert(prev.contains_key(id));
                }
                assert forall|id: AssetIdView|
                    assets0.contains_key(id) && id.definition
                        != definition@ implies #[trigger] world@.assets.contains_key(id) by {
                    assert(prev.contains_key(id));
                }
                assert forall|d: AssetDefinitionIdView| d != definition@ implies held(
                    world.assets.rows(),
                    d,
                ) == held(rows0, d) by {
                    lemma_held_remove(rows, i as int, d);
                }
                assert forall|k: int| 0 <= k < world.assets.rows().len() implies (
                #[trigger] world.assets.rows()[k] == rows[k] || world.assets.rows()[k] == rows[k
                    + 1]) by {}
            }
        } else {
            i = i + 1;
        }
    }
    proof {
        let rows = world.assets.rows();
        assert forall|id: AssetIdView| #[trigger]
            world@.assets.contains_key(id) implies id.definition != definition@ by {
            lemma_map_in_rows::<Asset>(rows, id);
        }
        assert(world@.assets =~= without_definition(assets0, definition@));
    }
}

impl Execute for UnregisterAssetDefinition {
    open spec fn admissible(&self) -> bool {
        true
    }

    /// The definition must exist; it is then gone, and with it every asset
    /// held under it.
    open spec fn step(&self, state: TxView, authority: AccountIdView) -> Result<TxView, ErrorView> {
        let world = state.world;
        let id = self.object@;
        if !world.asset_definitions.contains_key(id) {
            Err(ErrorView::Find(FindErrorView::AssetDefinition(id)))
        } else {
            Ok(
                TxView {
                    world: WorldView {
                        asset_definitions: world.asset_definitions.remove(id),
                        assets: without_definition(world.assets, id),
                        ..world
                    },
                    events: state.events.push(EventView::AssetDefinitionDeleted(id)),
                },
            )
        }
    }

    fn execute(self, authority: &AccountId, state_transaction: &mut StateTransaction) -> (r: Result<
        (),
        Error,
    >) {
        let id = self.object;
        if !state_transaction.world.asset_definitions.contains(&id) {
            return Err(Error::Find(FindError::AssetDefinition(id)));
        }
        let ghost defs0 = state_transaction.world.asset_definitions@;
        let ghost assets0 = state_transaction.world@.assets;
        let ghost rows0 = state_transaction.world.assets.rows();
        remove_assets_of(&mut state_transaction.world, &id);
        let _ = state_transaction.world.asset_definitions.remove(&id);
        state_transaction.emit(Event::AssetDefinitionDeleted(id));
        proof {
            let rows = state_transaction.world.assets.rows();
            let defs = state_transaction.world.asset_definitions@;
            assert(defined(rows, defs)) by {
                assert forall|i: int| 0 <= i < rows.len() implies defs.contains_key(
                    (#[trigger] rows[i]).id.definition,
                ) by {
                    let key = rows[i].id;
                    assert(assets0.contains_key(key));
                    lemma_map_in_rows::<Asset>(rows0, key);
                    let k = crate::registry::index_of::<Asset>(rows0, key);
                    assert(defs0.contains_key(rows0[k].id.definition));
                }
            }
            assert(balanced(defs, rows)) by {
                assert forall|d: AssetDefinitionIdView| #[trigger] defs.contains_key(d) implies defs[d].total_quantity.wf()
                    && defs[d].total_quantity.units() == held(rows, d) by {
                    assert(defs0.contains_key(d));
                }
            }
        }
        Ok(())
    }
}

/// After an asset definition has been unregistered it is not found, no
/// asset is held under it any more, and unregistering it again fails.
pub proof fn lemma_unregistered_definition_is_gone(
    unregister: UnregisterAssetDefinition,
    state: TxView,
    authority: AccountIdView,
    after: TxView,
)
    requires
        unregister.step(state, authority) == Ok::<TxView, ErrorView>(after),
    ensures
        !after.world.asset_definitions.contains_key(unregister.object@),
        forall|id: AssetIdView| #[trigger]
            after.world.assets.contains_key(id) ==> id.definition != unregister.object@,
        unregister.step(after, authority) == Err::<TxView, ErrorView>(
            ErrorView::Find(FindErrorView::AssetDefinition(unregister.object@)),
        ),
{
}

/// Registering a domain a second time fails with a repetition error,
/// whoever asks.
pub proof fn lemma_register_domain_twice_fails(
    first: RegisterDomain,
    second: RegisterDomain,
    state: TxView,
    authority: AccountIdView,
    other: AccountIdView,
    after: TxView,
)
    requires
        first.object@ == second.object@,
        first.step(state, authority) == Ok::<TxView, ErrorView>(after),
    ensures
        second.step(after, other) == Err::<TxView, ErrorView>(
            repetition(IdBoxView::DomainId(first.object@)),
        ),
{
}

/// Registering an account a second time fails with a repetition error,
/// whoever asks.
pub proof fn lemma_register_account_twice_fails(
    first: RegisterAccount,
    second: RegisterAccount,
    state: TxView,
    authority: AccountIdView,
    other: AccountIdView,
    after: TxView,
)
    requires
        first.object@ == second.object@,
        first.step(state, authority) == Ok::<TxView, ErrorView>(after),
    ensures
        second.step(after, other) == Err::<TxView, ErrorView>(
            repetition(IdBoxView::AccountId(first.object@)),
        ),
{
}

/// Registering an asset definition a second time fails with a repetition
/// error, whoever asks and whatever the second registration says of the
/// definition.
pub proof fn lemma_register_definition_twice_fails(
    first: RegisterAssetDefinition,
    second: RegisterAssetDefinition,
    state: TxView,
    authority: AccountIdView,
    other: AccountIdView,
    after: TxView,
)
    requires
        first.object@.id == second.object@.id,
        first.step(state, authority) == Ok::<TxView, ErrorView>(after),
    ensures
        second.step(after, other) == Err::<TxView, ErrorView>(
            repetition(IdBoxView::AssetDefinitionId(first.object@.id)),
        ),
{
}

} // verus!
