//! Instructions: the typed mutations that transactions are made of, and the
//! single contract under which each kind is executed.

use vstd::prelude::*;
use crate::error::{Error, ErrorView};
use crate::id::{AccountId, AccountIdView};
use crate::state::{StateTransaction, TxView};

pub mod asset;
pub mod domain;
pub mod nft;

verus! {

/// The contract of every instruction kind.
///
/// [`Execute::step`] is the rule of the instruction: what the transaction
/// becomes, or the error that it fails with. [`Execute::execute`] applies
/// the rule, and leaves the transaction untouched where the rule fails.
pub trait Execute: Sized {
    /// The instruction holds well-formed values.
    spec fn admissible(&self) -> bool;

    /// The transaction after the instruction, or why it fails.
    spec fn step(&self, state: TxView, authority: AccountIdView) -> Result<TxView, ErrorView>;

    /// Applies the instruction to the transaction.
    fn execute(self, authority: &AccountId, state_transaction: &mut StateTransaction) -> (r: Result<
        (),
        Error,
    >)
        requires
            old(state_transaction).wf(),
            self.admissible(),
        ensures
            final(state_transaction).wf(),
            match r {
                Ok(()) => self.step(old(state_transaction)@, authority@) == Ok::<TxView, ErrorView>(
                    final(state_transaction)@,
                ),
                Err(e) => self.step(old(state_transaction)@, authority@) == Err::<
                    TxView,
                    ErrorView,
                >(e@) && *final(state_transaction) == *old(state_transaction),
            },
    ;
}

/// Any instruction.
#[derive(Debug, PartialEq, Eq)]
pub enum InstructionBox {
    RegisterDomain(domain::RegisterDomain),
    RegisterAccount(domain::RegisterAccount),
    RegisterAssetDefinition(domain::RegisterAssetDefinition),
    UnregisterAssetDefinition(domain::UnregisterAssetDefinition),
    MintAsset(asset::Mint),
    BurnAsset(asset::Burn),
    TransferAsset(asset::Transfer),
    RegisterNft(nft::Register),
    UnregisterNft(nft::Unregister),
    SetNftKeyValue(nft::SetKeyValue),
    RemoveNftKeyValue(nft::RemoveKeyValue),
    TransferNft(nft::Transfer),
}

impl Execute for InstructionBox {
    open spec fn admissible(&self) -> bool {
        match self {
            InstructionBox::RegisterDomain(i) => i.admissible(),
            InstructionBox::RegisterAccount(i) => i.admissible(),
            InstructionBox::RegisterAssetDefinition(i) => i.admissible(),
            InstructionBox::UnregisterAssetDefinition(i) => i.admissible(),
            InstructionBox::MintAsset(i) => i.admissible(),
            InstructionBox::BurnAsset(i) => i.admissible(),
            InstructionBox::TransferAsset(i) => i.admissible(),
            InstructionBox::RegisterNft(i) => i.admissible(),
            InstructionBox::UnregisterNft(i) => i.admissible(),
            InstructionBox::SetNftKeyValue(i) => i.admissible(),
            InstructionBox::RemoveNftKeyValue(i) => i.admissible(),
            InstructionBox::TransferNft(i) => i.admissible(),
        }
    }

    /// The rule of the instruction that the box holds.
    open spec fn step(&self, state: TxView, authority: AccountIdView) -> Result<TxView, ErrorView> {
        match self {
            InstructionBox::RegisterDomain(i) => i.step(state, authority),
            InstructionBox::RegisterAccount(i) => i.step(state, authority),
            InstructionBox::RegisterAssetDefinition(i) => i.step(state, authority),
            InstructionBox::UnregisterAssetDefinition(i) => i.step(state, authority),
            InstructionBox::MintAsset(i) => i.step(state, authority),
            InstructionBox::BurnAsset(i) => i.step(state, authority),
            InstructionBox::TransferAsset(i) => i.step(state, authority),
            InstructionBox::RegisterNft(i) => i.step(state, authority),
            InstructionBox::UnregisterNft(i) => i.step(state, authority),
            InstructionBox::SetNftKeyValue(i) => i.step(state, authority),
            InstructionBox::RemoveNftKeyValue(i) => i.step(state, authority),
            InstructionBox::TransferNft(i) => i.step(state, authority),
        }
    }

    fn execute(self, authority: &AccountId, state_transaction: &mut StateTransaction) -> (r: Result<
        (),
        Error,
    >) {
        match self {
            InstructionBox::RegisterDomain(i) => i.execute(authority, state_transaction),
            InstructionBox::RegisterAccount(i) => i.execute(authority, state_transaction),
            InstructionBox::RegisterAssetDefinition(i) => i.execute(authority, state_transaction),
            InstructionBox::UnregisterAssetDefinition(i) => i.execute(authority, state_transaction),
            InstructionBox::MintAsset(i) => i.execute(authority, state_transaction),
            InstructionBox::BurnAsset(i) => i.execute(authority, state_transaction),
            InstructionBox::TransferAsset(i) => i.execute(authority, state_transaction),
            InstructionBox::RegisterNft(i) => i.execute(authority, state_transaction),
            InstructionBox::UnregisterNft(i) => i.execute(authority, state_transaction),
            InstructionBox::SetNftKeyValue(i) => i.execute(authority, state_transaction),
            InstructionBox::RemoveNftKeyValue(i) => i.execute(authority, state_transaction),
            InstructionBox::TransferNft(i) => i.execute(authority, state_transaction),
        }
    }
}

impl InstructionBox {
    /// Both are the same kind of instruction and hold the same values.
    pub open spec fn alike(&self, other: &InstructionBox) -> bool {
        match (self, other) {
            (InstructionBox::RegisterDomain(a), InstructionBox::RegisterDomain(b)) => a.object@
                == b.object@,
            (InstructionBox::RegisterAccount(a), InstructionBox::RegisterAccount(b)) => a.object@
                == b.object@,
            (
                InstructionBox::RegisterAssetDefinition(a),
                InstructionBox::RegisterAssetDefinition(b),
            ) => a.object@ == b.object@,
            (
                InstructionBox::UnregisterAssetDefinition(a),
                InstructionBox::UnregisterAssetDefinition(b),
            ) => a.object@ == b.object@,
            (InstructionBox::MintAsset(a), InstructionBox::MintAsset(b)) => a.object == b.object
                && a.destination@ == b.destination@,
            (InstructionBox::BurnAsset(a), InstructionBox::BurnAsset(b)) => a.object == b.object
                && a.destination@ == b.destination@,
            (InstructionBox::TransferAsset(a), InstructionBox::TransferAsset(b)) => a.object
                == b.object && a.source@ == b.source@ && a.destination@ == b.destination@,
            (InstructionBox::RegisterNft(a), InstructionBox::RegisterNft(b)) => a.object@
                == b.object@,
            (InstructionBox::UnregisterNft(a), InstructionBox::UnregisterNft(b)) => a.object@
                == b.object@,
            (InstructionBox::SetNftKeyValue(a), InstructionBox::SetNftKeyValue(b)) => a.object@
                == b.object@ && a.key@ == b.key@ && a.value@ == b.value@,
            (InstructionBox::RemoveNftKeyValue(a), InstructionBox::RemoveNftKeyValue(b)) => a.object@
                == b.object@ && a.key@ == b.key@,
            (InstructionBox::TransferNft(a), InstructionBox::TransferNft(b)) => a.source@
                == b.source@ && a.object@ == b.object@ && a.destination@ == b.destination@,
            _ => false,
        }
    }
}

impl Clone for InstructionBox {
    fn clone(&self) -> (r: InstructionBox)
        ensures
            self.alike(&r),
    {
        match self {
            InstructionBox::RegisterDomain(i) => InstructionBox::RegisterDomain(i.clone()),
            InstructionBox::RegisterAccount(i) => InstructionBox::RegisterAccount(i.clone()),
            InstructionBox::RegisterAssetDefinition(i) => InstructionBox::RegisterAssetDefinition(
                i.clone(),
            ),
            InstructionBox::UnregisterAssetDefinition(i) => InstructionBox::UnregisterAssetDefinition(
                i.clone(),
            ),
            InstructionBox::MintAsset(i) => InstructionBox::MintAsset(i.clone()),
            InstructionBox::BurnAsset(i) => InstructionBox::BurnAsset(i.clone()),
            InstructionBox::TransferAsset(i) => InstructionBox::TransferAsset(i.clone()),
            InstructionBox::RegisterNft(i) => InstructionBox::RegisterNft(i.clone()),
            InstructionBox::UnregisterNft(i) => InstructionBox::UnregisterNft(i.clone()),
            InstructionBox::SetNftKeyValue(i) => InstructionBox::SetNftKeyValue(i.clone()),
            InstructionBox::RemoveNftKeyValue(i) => InstructionBox::RemoveNftKeyValue(i.clone()),
            InstructionBox::TransferNft(i) => InstructionBox::TransferNft(i.clone()),
        }
    }
}

/// Instructions that are alike follow the same rule.
pub proof fn lemma_alike_same_rule(
    a: InstructionBox,
    b: InstructionBox,
    state: TxView,
    authority: AccountIdView,
)
    requires
        a.alike(&b),
    ensures
        a.step(state, authority) == b.step(state, authority),
        a.admissible() == b.admissible(),
{
}

} // verus!
