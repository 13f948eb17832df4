//! What can go wrong when an instruction is validated or executed, or a
//! query is answered.

use vstd::prelude::*;
use crate::id::{AccountId, AccountIdView, AssetDefinitionId, AssetDefinitionIdView, AssetId, AssetIdView, DomainId, NftId, NftIdView};
use crate::name::Name;
use crate::numeric::NumericSpec;

verus! {

/// An entity that was looked for, as plain values.
pub enum FindErrorView {
    Domain(Seq<char>),
    Account(AccountIdView),
    AssetDefinition(AssetDefinitionIdView),
    Asset(AssetIdView),
    Nft(NftIdView),
    MetadataKey(Seq<char>),
}

/// An entity that was looked for and is not there.
#[derive(Debug, PartialEq, Eq)]
pub enum FindError {
    Domain(DomainId),
    Account(AccountId),
    AssetDefinition(AssetDefinitionId),
    Asset(AssetId),
    Nft(NftId),
    MetadataKey(Name),
}

impl View for FindError {
    type V = FindErrorView;

    open spec fn view(&self) -> FindErrorView {
        match self {
            FindError::Domain(id) => FindErrorView::Domain(id@),
            FindError::Account(id) => FindErrorView::Account(id@),
            FindError::AssetDefinition(id) => FindErrorView::AssetDefinition(id@),
            FindError::Asset(id) => FindErrorView::Asset(id@),
            FindError::Nft(id) => FindErrorView::Nft(id@),
            FindError::MetadataKey(key) => FindErrorView::MetadataKey(key@),
        }
    }
}

/// Checked arithmetic failed.
#[derive(Clone, Copy, Debug, PartialEq, Eq, Structural)]
pub enum MathError {
    /// The result does not fit.
    Overflow,
    /// More was to be taken than there is.
    NotEnoughQuantity,
}

/// A mint was refused by the definition's mintability.
#[derive(Clone, Copy, Debug, PartialEq, Eq, Structural)]
pub enum MintabilityError {
    /// The definition is not mintable, or was mintable once and has been minted.
    MintUnmintable,
    /// Minting was to be forbidden on a definition that is not mintable once.
    ForbidMintOnMintable,
}

/// The kind of an instruction.
#[derive(Clone, Copy, Debug, PartialEq, Eq, Structural)]
pub enum InstructionType {
    Register,
    Unregister,
    Mint,
    Burn,
    Transfer,
    SetKeyValue,
    RemoveKeyValue,
}

/// Any identifier, as plain values.
pub enum IdBoxView {
    DomainId(Seq<char>),
    AccountId(AccountIdView),
    AssetDefinitionId(AssetDefinitionIdView),
    AssetId(AssetIdView),
    NftId(NftIdView),
}

/// Any identifier.
#[derive(Debug, PartialEq, Eq)]
pub enum IdBox {
    DomainId(DomainId),
    AccountId(AccountId),
    AssetDefinitionId(AssetDefinitionId),
    AssetId(AssetId),
    NftId(NftId),
}

impl View for IdBox {
    type V = IdBoxView;

    open spec fn view(&self) -> IdBoxView {
        match self {
            IdBox::DomainId(id) => IdBoxView::DomainId(id@),
            IdBox::AccountId(id) => IdBoxView::AccountId(id@),
            IdBox::AssetDefinitionId(id) => IdBoxView::AssetDefinitionId(id@),
            IdBox::AssetId(id) => IdBoxView::AssetId(id@),
            IdBox::NftId(id) => IdBoxView::NftId(id@),
        }
    }
}

/// A repetition, as plain values.
pub struct RepetitionErrorView {
    pub instruction: InstructionType,
    pub id: IdBoxView,
}

/// An instruction was given for an identifier that is already taken.
#[derive(Debug, PartialEq, Eq)]
pub struct RepetitionError {
    pub instruction: InstructionType,
    pub id: IdBox,
}

impl View for RepetitionError {
    type V = RepetitionErrorView;

    open spec fn view(&self) -> RepetitionErrorView {
        RepetitionErrorView { instruction: self.instruction, id: self.id@ }
    }
}

/// A quantity does not meet the constraint of its asset definition.
#[derive(Clone, Copy, Debug, PartialEq, Eq, Structural)]
pub struct Mismatch {
    /// The constraint of the definition.
    pub expected: NumericSpec,
    /// The tightest constraint that the quantity meets.
    pub actual: NumericSpec,
}

/// Why an instruction failed, as plain values.
pub enum ErrorView {
    Find(FindErrorView),
    Repetition(RepetitionErrorView),
    Type(Mismatch),
    Math(MathError),
    Mintability(MintabilityError),
    InvariantViolation(Seq<char>),
}

/// Why an instruction failed.
#[derive(Debug, PartialEq, Eq)]
pub enum Error {
    /// An entity is missing.
    Find(FindError),
    /// An identifier is already taken.
    Repetition(RepetitionError),
    /// A quantity does not meet the constraint of its definition.
    Type(Mismatch),
    /// Checked arithmetic failed.
    Math(MathError),
    /// The definition does not allow minting.
    Mintability(MintabilityError),
    /// A semantic guard did not hold; the text says which.
    InvariantViolation(String),
}

impl View for Error {
    type V = ErrorView;

    open spec fn view(&self) -> ErrorView {
        match self {
            Error::Find(e) => ErrorView::Find(e@),
            Error::Repetition(e) => ErrorView::Repetition(e@),
            Error::Type(e) => ErrorView::Type(*e),
            Error::Math(e) => ErrorView::Math(*e),
            Error::Mintability(e) => ErrorView::Mintability(*e),
            Error::InvariantViolation(text) => ErrorView::InvariantViolation(text@),
        }
    }
}

/// Why a query failed.
#[derive(Clone, Copy, Debug, PartialEq, Eq, Structural)]
pub enum QueryExecutionFail {
    /// More rows per batch were asked for than is allowed.
    FetchSizeTooBig,
    /// The cursor does not continue a live query.
    CursorInvalid,
    /// One row was expected and none matched.
    ExpectedOneGotNone,
    /// One row was expected and several matched.
    ExpectedOneGotMany,
}

/// Why a transaction was rejected, as plain values.
pub enum ValidationFailView {
    NotPermitted(Seq<char>),
    InstructionFailed(ErrorView),
    QueryFailed(QueryExecutionFail),
}

/// Why a transaction was rejected.
#[derive(Debug, PartialEq, Eq)]
pub enum ValidationFail {
    /// The authority may not do this; the text says why.
    NotPermitted(String),
    /// An instruction failed.
    InstructionFailed(Error),
    /// A query failed.
    QueryFailed(QueryExecutionFail),
}

impl View for ValidationFail {
    type V = ValidationFailView;

    open spec fn view(&self) -> ValidationFailView {
        match self {
            ValidationFail::NotPermitted(text) => ValidationFailView::NotPermitted(text@),
            ValidationFail::InstructionFailed(e) => ValidationFailView::InstructionFailed(e@),
            ValidationFail::QueryFailed(e) => ValidationFailView::QueryFailed(*e),
        }
    }
}

impl Clone for FindError {
    fn clone(&self) -> (r: FindError)
        ensures
            r@ == self@,
    {
        match self {
            FindError::Domain(id) => FindError::Domain(id.clone()),
            FindError::Account(id) => FindError::Account(id.clone()),
            FindError::AssetDefinition(id) => FindError::AssetDefinition(id.clone()),
            FindError::Asset(id) => FindError::Asset(id.clone()),
            FindError::Nft(id) => FindError::Nft(id.clone()),
            FindError::MetadataKey(key) => FindError::MetadataKey(key.clone()),
        }
    }
}

impl Clone for IdBox {
    fn clone(&self) -> (r: IdBox)
        ensures
            r@ == self@,
    {
        match self {
            IdBox::DomainId(id) => IdBox::DomainId(id.clone()),
            IdBox::AccountId(id) => IdBox::AccountId(id.clone()),
            IdBox::AssetDefinitionId(id) => IdBox::AssetDefinitionId(id.clone()),
            IdBox::AssetId(id) => IdBox::AssetId(id.clone()),
            IdBox::NftId(id) => IdBox::NftId(id.clone()),
        }
    }
}

impl Clone for RepetitionError {
    fn clone(&self) -> (r: RepetitionError)
        ensures
            r@ == self@,
    {
        RepetitionError { instruction: self.instruction, id: self.id.clone() }
    }
}

impl Clone for Error {
    fn clone(&self) -> (r: Error)
        ensures
            r@ == self@,
    {
        match self {
            Error::Find(e) => Error::Find(e.clone()),
            Error::Repetition(e) => Error::Repetition(e.clone()),
            Error::Type(e) => Error::Type(*e),
            Error::Math(e) => Error::Math(*e),
            Error::Mintability(e) => Error::Mintability(*e),
            Error::InvariantViolation(text) => Error::InvariantViolation(text.clone()),
        }
    }
}

impl Clone for ValidationFail {
    fn clone(&self) -> (r: ValidationFail)
        ensures
            r@ == self@,
    {
        match self {
            ValidationFail::NotPermitted(text) => ValidationFail::NotPermitted(text.clone()),
            ValidationFail::InstructionFailed(e) => ValidationFail::InstructionFailed(e.clone()),
            ValidationFail::QueryFailed(e) => ValidationFail::QueryFailed(*e),
        }
    }
}

impl From<FindError> for Error {
    fn from(e: FindError) -> (r: Error) {
        Error::Find(e)
    }
}

impl vstd::std_specs::convert::FromSpecImpl<FindError> for Error {
    open spec fn obeys_from_spec() -> bool {
        true
    }

    open spec fn from_spec(e: FindError) -> Error {
        Error::Find(e)
    }
}

impl From<RepetitionError> for Error {
    fn from(e: RepetitionError) -> (r: Error) {
        Error::Repetition(e)
    }
}

impl vstd::std_specs::convert::FromSpecImpl<RepetitionError> for Error {
    open spec fn obeys_from_spec() -> bool {
        true
    }

    open spec fn from_spec(e: RepetitionError) -> Error {
        Error::Repetition(e)
    }
}

impl From<Mismatch> for Error {
    fn from(e: Mismatch) -> (r: Error) {
        Error::Type(e)
    }
}

impl vstd::std_specs::convert::FromSpecImpl<Mismatch> for Error {
    open spec fn obeys_from_spec() -> bool {
        true
    }

    open spec fn from_spec(e: Mismatch) -> Error {
        Error::Type(e)
    }
}

impl From<MathError> for Error {
    fn from(e: MathError) -> (r: Error) {
        Error::Math(e)
    }
}

impl vstd::std_specs::convert::FromSpecImpl<MathError> for Error {
    open spec fn obeys_from_spec() -> bool {
        true
    }

    open spec fn from_spec(e: MathError) -> Error {
        Error::Math(e)
    }
}

impl From<MintabilityError> for Error {
    fn from(e: MintabilityError) -> (r: Error) {
        Error::Mintability(e)
    }
}

impl vstd::std_specs::convert::FromSpecImpl<MintabilityError> for Error {
    open spec fn obeys_from_spec() -> bool {
        true
    }

    open spec fn from_spec(e: MintabilityError) -> Error {
        Error::Mintability(e)
    }
}

impl From<Error> for ValidationFail {
    fn from(e: Error) -> (r: ValidationFail) {
        ValidationFail::InstructionFailed(e)
    }
}

impl vstd::std_specs::convert::FromSpecImpl<Error> for ValidationFail {
    open spec fn obeys_from_spec() -> bool {
        true
    }

    open spec fn from_spec(e: Error) -> ValidationFail {
        ValidationFail::InstructionFailed(e)
    }
}

impl From<QueryExecutionFail> for ValidationFail {
    fn from(e: QueryExecutionFail) -> (r: ValidationFail) {
        ValidationFail::QueryFailed(e)
    }
}

impl vstd::std_specs::convert::FromSpecImpl<QueryExecutionFail> for ValidationFail {
    open spec fn obeys_from_spec() -> bool {
        true
    }

    open spec fn from_spec(e: QueryExecutionFail) -> ValidationFail {
        ValidationFail::QueryFailed(e)
    }
}

} // verus!
