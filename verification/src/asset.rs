//! Asset definitions, the assets held under them, and the sum of what is held.

use vstd::prelude::*;
use crate::id::{AccountId, AccountIdView, AssetDefinitionId, AssetDefinitionIdView, AssetId, AssetIdView};
use crate::metadata::Metadata;
use crate::numeric::{Numeric, NumericSpec};
use crate::registry::Entity;

verus! {

/// Whether new units of an asset may be created.
#[derive(Clone, Copy, Debug, PartialEq, Eq, Structural)]
pub enum Mintable {
    /// Any number of times.
    Infinitely,
    /// One more time, after which the definition becomes [`Mintable::Not`].
    Once,
    /// Never.
    Not,
}

/// An asset definition as plain values.
pub struct AssetDefinitionView {
    pub id: AssetDefinitionIdView,
    pub spec: NumericSpec,
    pub mintable: Mintable,
    pub logo: Option<Seq<char>>,
    pub metadata: Map<Seq<char>, Seq<char>>,
    pub owned_by: AccountIdView,
    pub total_quantity: Numeric,
}

/// The kind of an asset: how its quantities are constrained, whether it can
/// be minted, who owns it, and how much of it exists.
#[derive(Debug, PartialEq, Eq)]
pub struct AssetDefinition {
    pub id: AssetDefinitionId,
    /// The constraint on quantities of this asset.
    pub spec: NumericSpec,
    pub mintable: Mintable,
    /// Where the logo of the asset is found.
    pub logo: Option<String>,
    pub metadata: Metadata,
    /// The account that owns this definition.
    pub owned_by: AccountId,
    /// The sum of all assets held under this definition.
    pub total_quantity: Numeric,
}

/// The text of an optional string.
pub open spec fn text_of(s: Option<String>) -> Option<Seq<char>> {
    match s {
        Some(t) => Some(t@),
        None => None,
    }
}

fn clone_text(s: &Option<String>) -> (r: Option<String>)
    ensures
        text_of(r) == text_of(*s),
{
    match s {
        Some(t) => Some(t.clone()),
        None => None,
    }
}

impl View for AssetDefinition {
    type V = AssetDefinitionView;

    open spec fn view(&self) -> AssetDefinitionView {
        AssetDefinitionView {
            id: self.id@,
            spec: self.spec,
            mintable: self.mintable,
            logo: text_of(self.logo),
            metadata: self.metadata@,
            owned_by: self.owned_by@,
            total_quantity: self.total_quantity,
        }
    }
}

/// A new asset definition as plain values.
pub struct NewAssetDefinitionView {
    pub id: AssetDefinitionIdView,
    pub spec: NumericSpec,
    pub mintable: Mintable,
    pub logo: Option<Seq<char>>,
    pub metadata: Map<Seq<char>, Seq<char>>,
}

/// Builder which can be submitted in a transaction to create a new
/// [`AssetDefinition`].
#[derive(Debug, PartialEq, Eq)]
pub struct NewAssetDefinition {
    pub id: AssetDefinitionId,
    pub spec: NumericSpec,
    pub mintable: Mintable,
    pub logo: Option<String>,
    pub metadata: Metadata,
}

impl View for NewAssetDefinition {
    type V = NewAssetDefinitionView;

    open spec fn view(&self) -> NewAssetDefinitionView {
        NewAssetDefinitionView {
            id: self.id@,
            spec: self.spec,
            mintable: self.mintable,
            logo: text_of(self.logo),
            metadata: self.metadata@,
        }
    }
}

impl NewAssetDefinitionView {
    /// The definition that registering this builds for `authority`: nothing
    /// of it exists yet.
    pub open spec fn built(self, authority: AccountIdView) -> AssetDefinitionView {
        AssetDefinitionView {
            id: self.id,
            spec: self.spec,
            mintable: self.mintable,
            logo: self.logo,
            metadata: self.metadata,
            owned_by: authority,
            total_quantity: Numeric { mantissa: 0, scale: 0 },
        }
    }
}

impl AssetDefinition {
    /// A definition that can be minted any number of times, without logo or
    /// metadata.
    pub fn new(id: AssetDefinitionId, spec: NumericSpec) -> (r: NewAssetDefinition)
        ensures
            r@ == (NewAssetDefinitionView {
                id: id@,
                spec,
                mintable: Mintable::Infinitely,
                logo: None,
                metadata: Map::empty(),
            }),
    {
        NewAssetDefinition {
            id,
            spec,
            mintable: Mintable::Infinitely,
            logo: None,
            metadata: Metadata::new(),
        }
    }

    pub fn id(&self) -> (r: &AssetDefinitionId)
        ensures
            r@ == self@.id,
    {
        &self.id
    }

    pub fn total_quantity(&self) -> (r: Numeric)
        ensures
            r == self@.total_quantity,
    {
        self.total_quantity
    }
}

impl NewAssetDefinition {
    /// The same definition, mintable once only.
    pub fn mintable_once(self) -> (r: NewAssetDefinition)
        ensures
            r@ == (NewAssetDefinitionView { mintable: Mintable::Once, ..self@ }),
    {
        NewAssetDefinition { mintable: Mintable::Once, ..self }
    }

    /// The definition owned by the account that registers it.
    pub fn build(self, authority: &AccountId) -> (r: AssetDefinition)
        ensures
            r@ == self@.built(authority@),
    {
        AssetDefinition {
            id: self.id,
            spec: self.spec,
            mintable: self.mintable,
            logo: self.logo,
            metadata: self.metadata,
            owned_by: authority.clone(),
            total_quantity: Numeric::zero(),
        }
    }
}

impl Clone for AssetDefinition {
    fn clone(&self) -> (r: AssetDefinition)
        ensures
            r@ == self@,
    {
        AssetDefinition {
            id: self.id.clone(),
            spec: self.spec,
            mintable: self.mintable,
            logo: clone_text(&self.logo),
            metadata: self.metadata.clone(),
            owned_by: self.owned_by.clone(),
            total_quantity: self.total_quantity,
        }
    }
}

impl Clone for NewAssetDefinition {
    fn clone(&self) -> (r: NewAssetDefinition)
        ensures
            r@ == self@,
    {
        NewAssetDefinition {
            id: self.id.clone(),
            spec: self.spec,
            mintable: self.mintable,
            logo: clone_text(&self.logo),
            metadata: self.metadata.clone(),
        }
    }
}

impl Entity for AssetDefinition {
    type Id = AssetDefinitionId;

    open spec fn id_of(v: AssetDefinitionView) -> AssetDefinitionIdView {
        v.id
    }

    fn id(&self) -> (r: &AssetDefinitionId) {
        &self.id
    }

    fn duplicate(&self) -> (r: AssetDefinition) {
        self.clone()
    }
}

/// An asset as plain values.
pub struct AssetView {
    pub id: AssetIdView,
    pub value: Numeric,
}

/// What one account holds of one asset definition.
#[derive(Debug, PartialEq, Eq)]
pub struct Asset {
    pub id: AssetId,
    pub value: Numeric,
}

impl View for Asset {
    type V = AssetView;

    open spec fn view(&self) -> AssetView {
        AssetView { id: self.id@, value: self.value }
    }
}

impl Asset {
    pub fn new(id: AssetId, value: Numeric) -> (r: Asset)
        ensures
            r@ == (AssetView { id: id@, value }),
    {
        Asset { id, value }
    }

    pub fn id(&self) -> (r: &AssetId)
        ensures
            r@ == self@.id,
    {
        &self.id
    }

    pub fn value(&self) -> (r: Numeric)
        ensures
            r == self@.value,
    {
        self.value
    }
}

impl Clone for Asset {
    fn clone(&self) -> (r: Asset)
        ensures
            r@ == self@,
    {
        Asset { id: self.id.clone(), value: self.value }
    }
}

impl Entity for Asset {
    type Id = AssetId;

    open spec fn id_of(v: AssetView) -> AssetIdView {
        v.id
    }

    fn id(&self) -> (r: &AssetId) {
        &self.id
    }

    fn duplicate(&self) -> (r: Asset) {
        self.clone()
    }
}

/// What `row` adds to the quantity held under `definition`, in units.
pub open spec fn share(row: AssetView, definition: AssetDefinitionIdView) -> nat {
    if row.id.definition == definition {
        row.value.units()
    } else {
        0
    }
}

/// The sum, in units, of the assets among `rows` that belong to `definition`.
pub open spec fn held(rows: Seq<AssetView>, definition: AssetDefinitionIdView) -> nat
    decreases rows.len(),
{
    if rows.len() == 0 {
        0
    } else {
        held(rows.drop_last(), definition) + share(rows.last(), definition)
    }
}

/// What is held in two runs of rows is the sum of what is held in each.
pub proof fn lemma_held_concat(a: Seq<AssetView>, b: Seq<AssetView>, d: AssetDefinitionIdView)
    ensures
        held(a + b, d) == held(a, d) + held(b, d),
    decreases b.len(),
{
    if b.len() == 0 {
        assert(a + b =~= a);
    } else {
        assert((a + b).drop_last() =~= a + b.drop_last());
        assert((a + b).last() == b.last());
        lemma_held_concat(a, b.drop_last(), d);
    }
}

/// A single row holds its share.
pub proof fn lemma_held_one(row: AssetView, d: AssetDefinitionIdView)
    ensures
        held(seq![row], d) == share(row, d),
{
    assert(seq![row].drop_last() =~= Seq::<AssetView>::empty());
    assert(held(seq![row].drop_last(), d) == 0);
}

/// A new row adds its share.
pub proof fn lemma_held_insert(rows: Seq<AssetView>, p: int, row: AssetView, d: AssetDefinitionIdView)
    requires
        0 <= p <= rows.len(),
    ensures
        held(rows.insert(p, row), d) == held(rows, d) + share(row, d),
{
    let a = rows.subrange(0, p);
    let b = rows.subrange(p, rows.len() as int);
    assert(rows =~= a + b);
    assert(rows.insert(p, row) =~= (a + seq![row]) + b);
    lemma_held_concat(a, b, d);
    lemma_held_concat(a + seq![row], b, d);
    lemma_held_concat(a, seq![row], d);
    lemma_held_one(row, d);
}

/// A row taken out takes its share with it.
pub proof fn lemma_held_remove(rows: Seq<AssetView>, i: int, d: AssetDefinitionIdView)
    requires
        0 <= i < rows.len(),
    ensures
        held(rows.remove(i), d) + share(rows[i], d) == held(rows, d),
{
    let rest = rows.remove(i);
    assert(rest.insert(i, rows[i]) =~= rows);
    lemma_held_insert(rest, i, rows[i], d);
}

/// A replaced row exchanges its share for that of its replacement.
pub proof fn lemma_held_update(rows: Seq<AssetView>, i: int, row: AssetView, d: AssetDefinitionIdView)
    requires
        0 <= i < rows.len(),
    ensures
        held(rows.update(i, row), d) + share(rows[i], d) == held(rows, d) + share(row, d),
{
    let rest = rows.remove(i);
    assert(rest.insert(i, row) =~= rows.update(i, row));
    lemma_held_remove(rows, i, d);
    lemma_held_insert(rest, i, row, d);
}

/// Rows of other definitions hold nothing of `d`.
pub proof fn lemma_held_none(rows: Seq<AssetView>, d: AssetDefinitionIdView)
    requires
        forall|i: int| 0 <= i < rows.len() ==> (#[trigger] rows[i]).id.definition != d,
    ensures
        held(rows, d) == 0,
    decreases rows.len(),
{
    if rows.len() > 0 {
        assert forall|i: int| 0 <= i < rows.drop_last().len() implies (#[trigger] rows.drop_last()[i]).id.definition
            != d by {
            assert(rows.drop_last()[i] == rows[i]);
        }
        lemma_held_none(rows.drop_last(), d);
    }
}

} // verus!
