//! Queries: filtering the rows of a registry by a predicate, in the order
//! of their identifiers, and handing the result out in batches.

use vstd::prelude::*;
use crate::asset::{Asset, AssetDefinition, AssetDefinitionView, AssetView};
use crate::domain::{Account, AccountView, Domain, DomainView};
use crate::error::QueryExecutionFail;
use crate::live_query::{first_rows, later_rows, Batch, FetchSize, LiveQueryStore, MAX_FETCH_SIZE};
use crate::id::{AccountId, AssetDefinitionId, AssetId, DomainId, NftId};
use crate::nft::{Nft, NftView};
use crate::registry::{as_map, ascending, Entity, Key, Registry};
use crate::world::World;

verus! {

/// A condition on one entity.
pub trait Atom<E: View>: Sized {
    /// The condition holds of `row`.
    spec fn holds(&self, row: E::V) -> bool;

    /// Decides the condition, without side effect.
    fn test(&self, row: &E) -> (r: bool)
        ensures
            r == self.holds(row@),
    ;
}

/// A boolean combination of conditions.
#[derive(Debug, PartialEq, Eq)]
pub enum CompoundPredicate<A> {
    /// The condition itself.
    Atom(A),
    /// The predicate does not apply.
    Not(Box<CompoundPredicate<A>>),
    /// Every predicate applies; true of no predicates.
    And(Vec<CompoundPredicate<A>>),
    /// Some predicate applies; false of no predicates.
    Or(Vec<CompoundPredicate<A>>),
}

impl<A> CompoundPredicate<A> {
    /// The predicate that every row passes.
    pub fn pass() -> (r: Self)
        ensures
            r matches CompoundPredicate::And(ps) && ps@.len() == 0,
    {
        CompoundPredicate::And(Vec::new())
    }

    /// The predicate applies to `row`.
    pub open spec fn applies_to<E: View>(&self, row: E::V) -> bool where A: Atom<E>
        decreases self,
    {
        match self {
            CompoundPredicate::Atom(a) => a.holds(row),
            CompoundPredicate::Not(p) => !p.applies_to::<E>(row),
            CompoundPredicate::And(ps) => forall|i: int|
                0 <= i < ps@.len() ==> (#[trigger] ps@[i]).applies_to::<E>(row),
            CompoundPredicate::Or(ps) => exists|i: int|
                0 <= i < ps@.len() && (#[trigger] ps@[i]).applies_to::<E>(row),
        }
    }

    /// Decides whether the predicate applies to `row`, without side effect.
    #[verifier::loop_isolation(false)]
    pub fn applies<E: View>(&self, row: &E) -> (r: bool) where A: Atom<E>
        ensures
            r == self.applies_to::<E>(row@),
        decreases self,
    {
        match self {
            CompoundPredicate::Atom(a) => a.test(row),
            CompoundPredicate::Not(p) => !p.applies(row),
            CompoundPredicate::And(ps) => {
                let mut i: usize = 0;
                while i < ps.len()
                    invariant
                        i <= ps@.len(),
                        forall|k: int| 0 <= k < i ==> (#[trigger] ps@[k]).applies_to::<E>(row@),
                    decreases ps@.len() - i,
                {
                    proof {
                        vstd::std_specs::vec::axiom_vec_index_decreases(*ps, i as int);
                    }
                    if !ps[i].applies(row) {
                        proof {
                            assert(!ps@[i as int].applies_to::<E>(row@));
                        }
                        return false;
                    }
                    i = i + 1;
                }
                true
            },
            CompoundPredicate::Or(ps) => {
                let mut i: usize = 0;
                while i < ps.len()
                    invariant
                        i <= ps@.len(),
                        forall|k: int| 0 <= k < i ==> !(#[trigger] ps@[k]).applies_to::<E>(row@),
                    decreases ps@.len() - i,
                {
                    proof {
                        vstd::std_specs::vec::axiom_vec_index_decreases(*ps, i as int);
                    }
                    if ps[i].applies(row) {
                        proof {
                            assert(ps@[i as int].applies_to::<E>(row@));
                        }
                        return true;
                    }
                    i = i + 1;
                }
                false
            },
        }
    }
}

/// The rows that `filter` applies to, in their order.
pub open spec fn matching<E: View, A: Atom<E>>(rows: Seq<E::V>, filter: CompoundPredicate<A>) -> Seq<
    E::V,
>
    decreases rows.len(),
{
    if rows.len() == 0 {
        Seq::empty()
    } else if filter.applies_to::<E>(rows.last()) {
        matching::<E, A>(rows.drop_last(), filter).push(rows.last())
    } else {
        matching::<E, A>(rows.drop_last(), filter)
    }
}

/// Every row is kept by the predicate that every row passes.
pub proof fn lemma_pass_keeps_all<E: View, A: Atom<E>>(rows: Seq<E::V>, filter: CompoundPredicate<A>)
    requires
        filter matches CompoundPredicate::And(ps) && ps@.len() == 0,
    ensures
        matching::<E, A>(rows, filter) == rows,
    decreases rows.len(),
{
    if rows.len() > 0 {
        lemma_pass_keeps_all::<E, A>(rows.drop_last(), filter);
        assert(rows.drop_last().push(rows.last()) =~= rows);
    }
}

/// No row is kept where the predicate applies to none.
pub proof fn lemma_matching_none<E: View, A: Atom<E>>(rows: Seq<E::V>, filter: CompoundPredicate<A>)
    requires
        forall|i: int| 0 <= i < rows.len() ==> !filter.applies_to::<E>(#[trigger] rows[i]),
    ensures
        matching::<E, A>(rows, filter) == Seq::<E::V>::empty(),
    decreases rows.len(),
{
    if rows.len() > 0 {
        assert forall|i: int| 0 <= i < rows.drop_last().len() implies !filter.applies_to::<E>(
            #[trigger] rows.drop_last()[i],
        ) by {
            assert(rows.drop_last()[i] == rows[i]);
        }
        lemma_matching_none::<E, A>(rows.drop_last(), filter);
        assert(rows.last() == rows[rows.len() - 1]);
    }
}

/// The entities of `registry` that `filter` applies to, in the order of
/// their identifiers.
pub fn select<E: Entity, A: Atom<E>>(registry: &Registry<E>, filter: &CompoundPredicate<A>) -> (r:
    Vec<E>)
    ensures
        r@.len() == matching::<E, A>(registry.rows(), *filter).len(),
        forall|i: int| 0 <= i < r@.len() ==> (#[trigger] r@[i])@ == matching::<E, A>(
            registry.rows(),
            *filter,
        )[i],
{
    let mut found: Vec<E> = Vec::new();
    let mut i: usize = 0;
    let ghost rows = registry.rows();
    proof {
        assert(rows.subrange(0, 0) =~= Seq::<E::V>::empty());
    }
    while i < registry.len()
        invariant
            i <= rows.len(),
            rows == registry.rows(),
            found@.len() == matching::<E, A>(rows.subrange(0, i as int), *filter).len(),
            forall|k: int|
                0 <= k < found@.len() ==> (#[trigger] found@[k])@ == matching::<E, A>(
                    rows.subrange(0, i as int),
                    *filter,
                )[k],
        decreases rows.len() - i,
    {
        let row = registry.row(i);
        proof {
            assert(rows.subrange(0, i + 1).drop_last() =~= rows.subrange(0, i as int));
            assert(rows.subrange(0, i + 1).last() == rows[i as int]);
        }
        if filter.applies(row) {
            found.push(row.duplicate());
        }
        i = i + 1;
    }
    proof {
        assert(rows.subrange(0, i as int) =~= rows);
    }
    found
}

/// The rows as plain values, in order.
pub open spec fn views_of<E: View>(rows: Seq<E>) -> Seq<E::V> {
    Seq::new(rows.len(), |i: int| rows[i]@)
}

/// Answers an iterable query on `registry`: the fetch size is checked
/// before any row is looked at; then the rows that `filter` applies to are
/// taken in the order of their identifiers, the first batch of them is
/// returned, and the rest, where there is one, is kept live under the
/// cursor that is returned with the batch.
pub fn start_query<E: Entity, A: Atom<E>>(
    live: &mut LiveQueryStore<E>,
    registry: &Registry<E>,
    filter: &CompoundPredicate<A>,
    fetch_size: FetchSize,
) -> (r: Result<Batch<E>, QueryExecutionFail>)
    ensures
        match r {
            Err(e) => fetch_size.effective() > MAX_FETCH_SIZE && e
                == QueryExecutionFail::FetchSizeTooBig && *final(live) == *old(live),
            Ok(batch) => {
                let found = matching::<E, A>(registry.rows(), *filter);
                let n = fetch_size.effective() as nat;
                &&& fetch_size.effective() <= MAX_FETCH_SIZE
                &&& views_of(batch.rows@) == first_rows(found, n)
                &&& batch.remaining_items == later_rows(found, n).len()
                &&& match batch.continue_cursor {
                    None => later_rows(found, n).len() == 0 && *final(live) == *old(live),
                    Some(cursor) => {
                        &&& later_rows(found, n).len() > 0
                        &&& cursor.position == n
                        &&& old(live).live(cursor.query as int) is None
                        &&& final(live).live(cursor.query as int) is Some
                        &&& views_of(final(live).live(cursor.query as int)->0.rest) == later_rows(
                            found,
                            n,
                        )
                        &&& final(live).live(cursor.query as int)->0.position == n
                        &&& final(live).live(cursor.query as int)->0.fetch_size == n
                        &&& forall|q: int|
                            q != cursor.query ==> final(live).live(q) == old(live).live(q)
                    },
                }
            },
        },
{
    if fetch_size.get() > MAX_FETCH_SIZE {
        return Err(QueryExecutionFail::FetchSizeTooBig);
    }
    let rows = select(registry, filter);
    let ghost found = matching::<E, A>(registry.rows(), *filter);
    let ghost all = rows@;
    let ghost n = fetch_size.effective() as nat;
    proof {
        assert(views_of(all) =~= found);
        assert(views_of(first_rows(all, n)) =~= first_rows(found, n));
        assert(views_of(later_rows(all, n)) =~= later_rows(found, n));
    }
    match live.start(rows, fetch_size) {
        Ok(batch) => Ok(batch),
        Err(e) => Err(e),
    }
}

/// A condition on an NFT.
#[derive(Debug, PartialEq, Eq)]
pub enum NftPredicate {
    /// The NFT has this identifier.
    Id(NftId),
    /// The NFT is owned by this account.
    OwnedBy(AccountId),
    /// The NFT lives in this domain.
    Domain(DomainId),
}

impl Atom<Nft> for NftPredicate {
    open spec fn holds(&self, row: NftView) -> bool {
        match self {
            NftPredicate::Id(id) => row.id == id@,
            NftPredicate::OwnedBy(account) => row.owned_by == account@,
            NftPredicate::Domain(domain) => row.id.domain == domain@,
        }
    }

    fn test(&self, row: &Nft) -> (r: bool) {
        match self {
            NftPredicate::Id(id) => row.id.same(id),
            NftPredicate::OwnedBy(account) => row.owned_by.same(account),
            NftPredicate::Domain(domain) => row.id.domain.same(domain),
        }
    }
}

/// A condition on an asset.
#[derive(Debug, PartialEq, Eq)]
pub enum AssetPredicate {
    /// The asset has this identifier.
    Id(AssetId),
    /// The asset is held under this definition.
    Definition(AssetDefinitionId),
    /// The asset is held by this account.
    Account(AccountId),
}

impl Atom<Asset> for AssetPredicate {
    open spec fn holds(&self, row: AssetView) -> bool {
        match self {
            AssetPredicate::Id(id) => row.id == id@,
            AssetPredicate::Definition(definition) => row.id.definition == definition@,
            AssetPredicate::Account(account) => row.id.account == account@,
        }
    }

    fn test(&self, row: &Asset) -> (r: bool) {
        match self {
            AssetPredicate::Id(id) => row.id.same(id),
            AssetPredicate::Definition(definition) => row.id.definition.same(definition),
            AssetPredicate::Account(account) => row.id.account.same(account),
        }
    }
}

/// A condition on an asset definition.
#[derive(Debug, PartialEq, Eq)]
pub enum AssetDefinitionPredicate {
    /// The definition has this identifier.
    Id(AssetDefinitionId),
    /// The definition is owned by this account.
    OwnedBy(AccountId),
    /// The definition lives in this domain.
    Domain(DomainId),
}

impl Atom<AssetDefinition> for AssetDefinitionPredicate {
    open spec fn holds(&self, row: AssetDefinitionView) -> bool {
        match self {
            AssetDefinitionPredicate::Id(id) => row.id == id@,
            AssetDefinitionPredicate::OwnedBy(account) => row.owned_by == account@,
            AssetDefinitionPredicate::Domain(domain) => row.id.domain == domain@,
        }
    }

    fn test(&self, row: &AssetDefinition) -> (r: bool) {
        match self {
            AssetDefinitionPredicate::Id(id) => row.id.same(id),
            AssetDefinitionPredicate::OwnedBy(account) => row.owned_by.same(account),
            AssetDefinitionPredicate::Domain(domain) => row.id.domain.same(domain),
        }
    }
}

/// A condition on a domain.
#[derive(Debug, PartialEq, Eq)]
pub enum DomainPredicate {
    /// The domain has this identifier.
    Id(DomainId),
    /// The domain is owned by this account.
    OwnedBy(AccountId),
}

impl Atom<Domain> for DomainPredicate {
    open spec fn holds(&self, row: DomainView) -> bool {
        match self {
            DomainPredicate::Id(id) => row.id == id@,
            DomainPredicate::OwnedBy(account) => row.owned_by == account@,
        }
    }

    fn test(&self, row: &Domain) -> (r: bool) {
        match self {
            DomainPredicate::Id(id) => row.id.same(id),
            DomainPredicate::OwnedBy(account) => row.owned_by.same(account),
        }
    }
}

/// A condition on an account.
#[derive(Debug, PartialEq, Eq)]
pub enum AccountPredicate {
    /// The account has this identifier.
    Id(AccountId),
    /// The account lives in this domain.
    Domain(DomainId),
}

impl Atom<Account> for AccountPredicate {
    open spec fn holds(&self, row: AccountView) -> bool {
        match self {
            AccountPredicate::Id(id) => row.id == id@,
            AccountPredicate::Domain(domain) => row.id.domain == domain@,
        }
    }

    fn test(&self, row: &Account) -> (r: bool) {
        match self {
            AccountPredicate::Id(id) => row.id.same(id),
            AccountPredicate::Domain(domain) => row.id.domain.same(domain),
        }
    }
}

/// The identifiers of `rows`, in their order: the projection of a result
/// on the identifier.
pub fn ids_of<E: Entity>(rows: &Vec<E>) -> (r: Vec<E::Id>)
    ensures
        r@.len() == rows@.len(),
        forall|i: int| 0 <= i < r@.len() ==> (#[trigger] r@[i])@ == E::id_of(rows@[i]@),
{
    let mut ids: Vec<E::Id> = Vec::new();
    let mut i: usize = 0;
    while i < rows.len()
        invariant
            i <= rows@.len(),
            ids@.len() == i,
            forall|k: int| 0 <= k < i ==> (#[trigger] ids@[k])@ == E::id_of(rows@[k]@),
        decreases rows@.len() - i,
    {
        ids.push(rows[i].id().duplicate());
        i = i + 1;
    }
    ids
}

/// The query for domains.
#[derive(Clone, Copy, Debug, PartialEq, Eq, Structural)]
pub struct FindDomains;

/// The query for accounts.
#[derive(Clone, Copy, Debug, PartialEq, Eq, Structural)]
pub struct FindAccounts;

impl FindDomains {
    pub fn new() -> (r: FindDomains)
        ensures
            r == FindDomains,
    {
        FindDomains
    }

    /// The domains that `filter` applies to, in the order of their
    /// identifiers. Never fails.
    pub fn execute(self, filter: &CompoundPredicate<DomainPredicate>, world: &World) -> (r: Result<
        Vec<Domain>,
        QueryExecutionFail,
    >)
        ensures
            r is Ok,
            r->Ok_0@.len() == matching::<Domain, DomainPredicate>(world.domains.rows(), *filter).len(),
            forall|i: int|
                0 <= i < r->Ok_0@.len() ==> (#[trigger] r->Ok_0@[i])@ == matching::<
                    Domain,
                    DomainPredicate,
                >(world.domains.rows(), *filter)[i],
    {
        Ok(select(&world.domains, filter))
    }
}

impl FindAccounts {
    pub fn new() -> (r: FindAccounts)
        ensures
            r == FindAccounts,
    {
        FindAccounts
    }

    /// The accounts that `filter` applies to, in the order of their
    /// identifiers. Never fails.
    pub fn execute(self, filter: &CompoundPredicate<AccountPredicate>, world: &World) -> (r: Result<
        Vec<Account>,
        QueryExecutionFail,
    >)
        ensures
            r is Ok,
            r->Ok_0@.len() == matching::<Account, AccountPredicate>(
                world.accounts.rows(),
                *filter,
            ).len(),
            forall|i: int|
                0 <= i < r->Ok_0@.len() ==> (#[trigger] r->Ok_0@[i])@ == matching::<
                    Account,
                    AccountPredicate,
                >(world.accounts.rows(), *filter)[i],
    {
        Ok(select(&world.accounts, filter))
    }
}

/// The query for assets.
#[derive(Clone, Copy, Debug, PartialEq, Eq, Structural)]
pub struct FindAssets;

/// The query for asset definitions.
#[derive(Clone, Copy, Debug, PartialEq, Eq, Structural)]
pub struct FindAssetsDefinitions;

/// The query for NFTs.
#[derive(Clone, Copy, Debug, PartialEq, Eq, Structural)]
pub struct FindNfts;

impl FindAssets {
    pub fn new() -> (r: FindAssets)
        ensures
            r == FindAssets,
    {
        FindAssets
    }

    /// The assets that `filter` applies to, in the order of their
    /// identifiers. Never fails.
    pub fn execute(self, filter: &CompoundPredicate<AssetPredicate>, world: &World) -> (r: Result<
        Vec<Asset>,
        QueryExecutionFail,
    >)
        ensures
            r is Ok,
            r->Ok_0@.len() == matching::<Asset, AssetPredicate>(world.assets.rows(), *filter).len(),
            forall|i: int|
                0 <= i < r->Ok_0@.len() ==> (#[trigger] r->Ok_0@[i])@ == matching::<
                    Asset,
                    AssetPredicate,
                >(world.assets.rows(), *filter)[i],
    {
        Ok(select(&world.assets, filter))
    }
}

impl FindAssetsDefinitions {
    pub fn new() -> (r: FindAssetsDefinitions)
        ensures
            r == FindAssetsDefinitions,
    {
        FindAssetsDefinitions
    }

    /// The asset definitions that `filter` applies to, in the order of
    /// their identifiers. Never fails.
    pub fn execute(
        self,
        filter: &CompoundPredicate<AssetDefinitionPredicate>,
        world: &World,
    ) -> (r: Result<Vec<AssetDefinition>, QueryExecutionFail>)
        ensures
            r is Ok,
            r->Ok_0@.len() == matching::<AssetDefinition, AssetDefinitionPredicate>(
                world.asset_definitions.rows(),
                *filter,
            ).len(),
            forall|i: int|
                0 <= i < r->Ok_0@.len() ==> (#[trigger] r->Ok_0@[i])@ == matching::<
                    AssetDefinition,
                    AssetDefinitionPredicate,
                >(world.asset_definitions.rows(), *filter)[i],
    {
        Ok(select(&world.asset_definitions, filter))
    }
}

impl FindNfts {
    pub fn new() -> (r: FindNfts)
        ensures
            r == FindNfts,
    {
        FindNfts
    }

    /// The NFTs that `filter` applies to, in the order of their
    /// identifiers. Never fails.
    pub fn execute(self, filter: &CompoundPredicate<NftPredicate>, world: &World) -> (r: Result<
        Vec<Nft>,
        QueryExecutionFail,
    >)
        ensures
            r is Ok,
            r->Ok_0@.len() == matching::<Nft, NftPredicate>(world.nfts.rows(), *filter).len(),
            forall|i: int|
                0 <= i < r->Ok_0@.len() ==> (#[trigger] r->Ok_0@[i])@ == matching::<
                    Nft,
                    NftPredicate,
                >(world.nfts.rows(), *filter)[i],
    {
        Ok(select(&world.nfts, filter))
    }
}

/// The one row of a result: an error where there is none, or more than one.
pub fn execute_single<T>(rows: Vec<T>) -> (r: Result<T, QueryExecutionFail>)
    ensures
        match r {
            Ok(row) => rows@.len() == 1 && row == rows@[0],
            Err(e) => if rows@.len() == 0 {
                e == QueryExecutionFail::ExpectedOneGotNone
            } else {
                rows@.len() >= 2 && e == QueryExecutionFail::ExpectedOneGotMany
            },
        },
{
    let mut rows = rows;
    if rows.len() == 0 {
        Err(QueryExecutionFail::ExpectedOneGotNone)
    } else if rows.len() >= 2 {
        Err(QueryExecutionFail::ExpectedOneGotMany)
    } else {
        match rows.pop() {
            Some(row) => Ok(row),
            None => Err(QueryExecutionFail::ExpectedOneGotNone),
        }
    }
}

/// A query for an NFT that is not in the world matches no row, so that
/// asking for the one NFT of that identifier yields "expected one, got
/// none".
pub proof fn lemma_absent_nft_matches_none(rows: Seq<NftView>, id: NftId)
    requires
        ascending::<Nft>(rows),
        !as_map::<Nft>(rows).contains_key(id@),
    ensures
        matching::<Nft, NftPredicate>(rows, CompoundPredicate::Atom(NftPredicate::Id(id))) == Seq::<
            NftView,
        >::empty(),
{
    let filter = CompoundPredicate::Atom(NftPredicate::Id(id));
    assert forall|i: int| 0 <= i < rows.len() implies !filter.applies_to::<Nft>(
        #[trigger] rows[i],
    ) by {
        if rows[i].id == id@ {
            crate::registry::lemma_row_in_map::<Nft>(rows, i);
        }
    }
    lemma_matching_none::<Nft, NftPredicate>(rows, filter);
}

/// A query for an asset definition that is not in the world matches no row.
pub proof fn lemma_absent_definition_matches_none(
    rows: Seq<AssetDefinitionView>,
    id: AssetDefinitionId,
)
    requires
        ascending::<AssetDefinition>(rows),
        !as_map::<AssetDefinition>(rows).contains_key(id@),
    ensures
        matching::<AssetDefinition, AssetDefinitionPredicate>(
            rows,
            CompoundPredicate::Atom(AssetDefinitionPredicate::Id(id)),
        ) == Seq::<AssetDefinitionView>::empty(),
{
    let filter = CompoundPredicate::Atom(AssetDefinitionPredicate::Id(id));
    assert forall|i: int| 0 <= i < rows.len() implies !filter.applies_to::<AssetDefinition>(
        #[trigger] rows[i],
    ) by {
        if rows[i].id == id@ {
            crate::registry::lemma_row_in_map::<AssetDefinition>(rows, i);
        }
    }
    lemma_matching_none::<AssetDefinition, AssetDefinitionPredicate>(rows, filter);
}

} // verus!
