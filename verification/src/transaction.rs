//! Transactions: instructions of one authority, validated and executed in
//! order, and committed together or not at all.

use vstd::prelude::*;
use vstd::string::*;
use crate::error::{ValidationFail, ValidationFailView};
use crate::events::EventView;
use crate::id::{AccountId, AccountIdView, DomainId};
use crate::isi::{Execute, InstructionBox};
use crate::metadata::Metadata;
use crate::sequence::reversed;
use crate::state::{State, StateTransaction, StateView, TxView};
use crate::world::{World, WorldView};

verus! {

/// The instructions that one authority submits together.
#[derive(Debug, PartialEq, Eq)]
pub struct Transaction {
    /// The account that signed the transaction.
    pub authority: AccountId,
    /// The instructions, in the order in which they are to be executed.
    pub instructions: Vec<InstructionBox>,
    /// What the submitter attached to the transaction. It travels with the
    /// transaction and has no part in its execution.
    pub metadata: Metadata,
}

/// `authority` owns the domain `domain`.
pub open spec fn owns_domain(world: WorldView, authority: AccountIdView, domain: Seq<char>) -> bool {
    world.domains.contains_key(domain) && world.domains[domain].owned_by == authority
}

/// Whether `authority` may give `instruction`.
///
/// An NFT is registered, unregistered and written to by the owner of its
/// domain only: the owner of the NFT may not write to it. An NFT is handed
/// on by the account that it is handed from, or by the owner of its domain.
/// Every other instruction is open to every authority.
pub open spec fn permitted(world: WorldView, authority: AccountIdView, instruction: InstructionBox) -> bool {
    match instruction {
        InstructionBox::RegisterNft(i) => owns_domain(world, authority, i.object@.id.domain),
        InstructionBox::UnregisterNft(i) => owns_domain(world, authority, i.object@.domain),
        InstructionBox::SetNftKeyValue(i) => owns_domain(world, authority, i.object@.domain),
        InstructionBox::RemoveNftKeyValue(i) => owns_domain(world, authority, i.object@.domain),
        InstructionBox::TransferNft(i) => i.source@ == authority || owns_domain(
            world,
            authority,
            i.object@.domain,
        ),
        _ => true,
    }
}

/// The words that refuse `instruction`.
pub open spec fn denial(instruction: InstructionBox) -> Seq<char> {
    match instruction {
        InstructionBox::RegisterNft(_) => "Can't register NFT in a domain owned by another account"@,
        InstructionBox::UnregisterNft(_) => "Can't unregister NFT in a domain owned by another account"@,
        InstructionBox::SetNftKeyValue(_) => "Can't set value to the metadata of an NFT in a domain owned by another account"@,
        InstructionBox::RemoveNftKeyValue(_) => "Can't remove value from the metadata of an NFT in a domain owned by another account"@,
        InstructionBox::TransferNft(_) => "Can't transfer NFT of another account"@,
        _ => Seq::<char>::empty(),
    }
}

fn is_domain_owner(world: &World, authority: &AccountId, domain: &DomainId) -> (r: bool)
    requires
        world.ordered(),
    ensures
        r == owns_domain(world@, authority@, domain@),
{
    match world.domain(domain) {
        Ok(entry) => entry.owned_by.same(authority),
        Err(_) => false,
    }
}

/// Decides whether `authority` may give `instruction` in `world`.
pub fn validate(world: &World, authority: &AccountId, instruction: &InstructionBox) -> (r: Result<
    (),
    ValidationFail,
>)
    requires
        world.ordered(),
    ensures
        match r {
            Ok(()) => permitted(world@, authority@, *instruction),
            Err(e) => !permitted(world@, authority@, *instruction) && e@
                == ValidationFailView::NotPermitted(denial(*instruction)),
        },
{
    match instruction {
        InstructionBox::RegisterNft(i) => {
            if is_domain_owner(world, authority, &i.object.id.domain) {
                Ok(())
            } else {
                Err(
                    ValidationFail::NotPermitted(
                        String::from_str("Can't register NFT in a domain owned by another account"),
                    ),
                )
            }
        },
        InstructionBox::UnregisterNft(i) => {
            if is_domain_owner(world, authority, &i.object.domain) {
                Ok(())
            } else {
                Err(
                    ValidationFail::NotPermitted(
                        String::from_str(
                            "Can't unregister NFT in a domain owned by another account",
                        ),
                    ),
                )
            }
        },
        InstructionBox::SetNftKeyValue(i) => {
            if is_domain_owner(world, authority, &i.object.domain) {
                Ok(())
            } else {
                Err(
                    ValidationFail::NotPermitted(
                        String::from_str(
                            "Can't set value to the metadata of an NFT in a domain owned by another account",
                        ),
                    ),
                )
            }
        },
        InstructionBox::RemoveNftKeyValue(i) => {
            if is_domain_owner(world, authority, &i.object.domain) {
                Ok(())
            } else {
                Err(
                    ValidationFail::NotPermitted(
                        String::from_str(
                            "Can't remove value from the metadata of an NFT in a domain owned by another account",
                        ),
                    ),
                )
            }
        },
        InstructionBox::TransferNft(i) => {
            if i.source.same(authority) || is_domain_owner(world, authority, &i.object.domain) {
                Ok(())
            } else {
                Err(
                    ValidationFail::NotPermitted(
                        String::from_str("Can't transfer NFT of another account"),
                    ),
                )
            }
        },
        _ => Ok(()),
    }
}

/// The transaction state after the instructions from position `from` on
/// have each been validated and executed in order, or the failure of the
/// first one that is refused or fails.
pub open spec fn run(
    state: TxView,
    authority: AccountIdView,
    instructions: Seq<InstructionBox>,
    from: int,
) -> Result<TxView, ValidationFailView>
    decreases instructions.len() - from,
{
    if from < 0 || from >= instructions.len() {
        Ok(state)
    } else if !permitted(state.world, authority, instructions[from]) {
        Err(ValidationFailView::NotPermitted(denial(instructions[from])))
    } else {
        match instructions[from].step(state, authority) {
            Err(e) => Err(ValidationFailView::InstructionFailed(e)),
            Ok(next) => run(next, authority, instructions, from + 1),
        }
    }
}

/// Every instruction holds well-formed values.
pub open spec fn all_admissible(instructions: Seq<InstructionBox>) -> bool {
    forall|i: int| 0 <= i < instructions.len() ==> (#[trigger] instructions[i]).admissible()
}

impl Clone for Transaction {
    fn clone(&self) -> (r: Transaction)
        ensures
            self.alike(&r),
    {
        let mut instructions: Vec<InstructionBox> = Vec::new();
        let mut i: usize = 0;
        while i < self.instructions.len()
            invariant
                i <= self.instructions@.len(),
                instructions@.len() == i,
                forall|k: int|
                    0 <= k < i ==> (#[trigger] self.instructions@[k]).alike(&instructions@[k]),
            decreases self.instructions@.len() - i,
        {
            instructions.push(self.instructions[i].clone());
            i = i + 1;
        }
        Transaction {
            authority: self.authority.clone(),
            instructions,
            metadata: self.metadata.clone(),
        }
    }
}

impl Transaction {
    /// A transaction without metadata.
    pub fn new(authority: AccountId, instructions: Vec<InstructionBox>) -> (r: Transaction)
        ensures
            r.authority == authority,
            r.instructions == instructions,
            r.metadata@ == Map::<Seq<char>, Seq<char>>::empty(),
    {
        Transaction { authority, instructions, metadata: Metadata::new() }
    }

    /// The same transaction with `metadata` attached.
    pub fn with_metadata(self, metadata: Metadata) -> (r: Transaction)
        ensures
            r.authority == self.authority,
            r.instructions == self.instructions,
            r.metadata == metadata,
    {
        Transaction { authority: self.authority, instructions: self.instructions, metadata }
    }

    /// Both are of the same authority, carry the same metadata and hold
    /// instructions that are alike, in the same order.
    pub open spec fn alike(&self, other: &Transaction) -> bool {
        &&& self.authority@ == other.authority@
        &&& self.metadata@ == other.metadata@
        &&& self.instructions@.len() == other.instructions@.len()
        &&& forall|k: int|
            0 <= k < self.instructions@.len() ==> (#[trigger] self.instructions@[k]).alike(
                &other.instructions@[k],
            )
    }
}

/// Transactions that are alike run alike.
pub proof fn lemma_alike_same_run(
    a: Seq<InstructionBox>,
    b: Seq<InstructionBox>,
    state: TxView,
    authority: AccountIdView,
    from: int,
)
    requires
        a.len() == b.len(),
        forall|k: int| 0 <= k < a.len() ==> (#[trigger] a[k]).alike(&b[k]),
    ensures
        run(state, authority, a, from) == run(state, authority, b, from),
        all_admissible(a) == all_admissible(b),
    decreases a.len() - from,
{
    if 0 <= from < a.len() {
        assert(a[from].alike(&b[from]));
        crate::isi::lemma_alike_same_rule(a[from], b[from], state, authority);
        match a[from].step(state, authority) {
            Ok(next) => {
                lemma_alike_same_run(a, b, next, authority, from + 1);
            },
            Err(_) => {},
        }
    }
    assert forall|k: int| 0 <= k < a.len() implies (#[trigger] a[k]).admissible()
        == b[k].admissible() by {
        assert(a[k].alike(&b[k]));
        crate::isi::lemma_alike_same_rule(a[k], b[k], state, authority);
    }
    if all_admissible(a) {
        assert forall|k: int| 0 <= k < b.len() implies (#[trigger] b[k]).admissible() by {
            assert(a[k].admissible());
        }
    }
    if all_admissible(b) {
        assert forall|k: int| 0 <= k < a.len() implies (#[trigger] a[k]).admissible() by {
            assert(b[k].admissible());
        }
    }
}

/// The outcome of a transaction, as it is recorded: nothing where it
/// succeeded, the reason where it failed.
pub open spec fn failure_view(error: Option<ValidationFail>) -> Option<ValidationFailView> {
    match error {
        Some(e) => Some(e@),
        None => None,
    }
}

/// A transaction that was executed, with the reason of its failure where
/// it failed.
#[derive(Debug, PartialEq, Eq)]
pub struct CommittedTransaction {
    pub transaction: Transaction,
    pub error: Option<ValidationFail>,
}

impl CommittedTransaction {
    /// Both record transactions that are alike, with the same outcome.
    pub open spec fn alike(&self, other: &CommittedTransaction) -> bool {
        self.transaction.alike(&other.transaction) && failure_view(self.error) == failure_view(
            other.error,
        )
    }
}

impl Clone for CommittedTransaction {
    fn clone(&self) -> (r: CommittedTransaction)
        ensures
            self.alike(&r),
    {
        CommittedTransaction {
            transaction: self.transaction.clone(),
            error: match &self.error {
                Some(e) => Some(e.clone()),
                None => None,
            },
        }
    }
}

/// The outcome of running `transaction` on the world `world`.
pub open spec fn outcome(world: WorldView, transaction: Transaction) -> Result<
    TxView,
    ValidationFailView,
> {
    run(
        TxView { world, events: Seq::empty() },
        transaction.authority@,
        transaction.instructions@,
        0,
    )
}

impl State {
    /// Runs a transaction on a snapshot of the world: each instruction is
    /// validated against the working copy and then executed on it, in the
    /// order of submission. The state itself is not touched.
    pub fn try_transaction(&self, transaction: Transaction) -> (r: Result<
        StateTransaction,
        ValidationFail,
    >)
        requires
            self.wf(),
            all_admissible(transaction.instructions@),
        ensures
            match r {
                Ok(overlay) => overlay.wf() && outcome(self@.world, transaction) == Ok::<
                    TxView,
                    ValidationFailView,
                >(overlay@),
                Err(e) => outcome(self@.world, transaction) == Err::<TxView, ValidationFailView>(
                    e@,
                ),
            },
    {
        let Transaction { authority, instructions, metadata: _ } = transaction;
        let ghost all = instructions@;
        let ghost start = TxView { world: self@.world, events: Seq::<EventView>::empty() };
        let count = instructions.len();
        let mut overlay = self.transaction();
        let mut pending = reversed(instructions);
        let mut done: usize = 0;
        while pending.len() > 0
            invariant
                self.wf(),
                start == (TxView { world: self@.world, events: Seq::<EventView>::empty() }),
                all == transaction.instructions@,
                authority == transaction.authority,
                all.len() == count,
                overlay.wf(),
                all_admissible(all),
                done + pending@.len() == all.len(),
                forall|k: int| 0 <= k < pending@.len() ==> pending@[k] == all[all.len() - 1 - k],
                run(start, authority@, all, 0) == run(overlay@, authority@, all, done as int),
            decreases pending.len(),
        {
            let instruction = match pending.pop() {
                Some(instruction) => instruction,
                None => vstd::pervasive::unreached(),
            };
            assert(instruction == all[done as int]);
            match validate(&overlay.world, &authority, &instruction) {
                Ok(()) => {},
                Err(e) => {
                    return Err(e);
                },
            }
            match instruction.execute(&authority, &mut overlay) {
                Ok(()) => {},
                Err(e) => {
                    return Err(ValidationFail::InstructionFailed(e));
                },
            }
            done = done + 1;
        }
        Ok(overlay)
    }

    /// Executes a transaction. Where every instruction passes validation
    /// and succeeds, the working copy becomes the world and the events are
    /// delivered in the order of emission; where one is refused or fails,
    /// the state stays as it was.
    pub fn execute_transaction(&mut self, transaction: Transaction) -> (r: Result<
        (),
        ValidationFail,
    >)
        requires
            old(self).wf(),
            all_admissible(transaction.instructions@),
        ensures
            final(self).wf(),
            final(self)@ == applied(old(self)@, transaction),
            match r {
                Ok(()) => outcome(old(self)@.world, transaction) is Ok,
                Err(e) => outcome(old(self)@.world, transaction) == Err::<
                    TxView,
                    ValidationFailView,
                >(e@) && *final(self) == *old(self),
            },
    {
        match self.try_transaction(transaction) {
            Ok(overlay) => {
                self.commit(overlay);
                Ok(())
            },
            Err(e) => Err(e),
        }
    }

    /// Executes the transactions of a block, in block order. Each
    /// transaction is committed or leaves the state as it was; a failed
    /// transaction does not stop the block. Returns the transactions as
    /// they are to be recorded in the block: each with the reason of its
    /// failure where it failed.
    pub fn execute_block(&mut self, transactions: Vec<Transaction>) -> (r: Vec<CommittedTransaction>)
        requires
            old(self).wf(),
            forall|i: int|
                0 <= i < transactions@.len() ==> all_admissible(
                    (#[trigger] transactions@[i]).instructions@,
                ),
        ensures
            final(self).wf(),
            final(self)@ == applied_all(old(self)@, transactions@, transactions@.len() as int),
            r@.len() == transactions@.len(),
            forall|i: int|
                0 <= i < r@.len() ==> (#[trigger] r@[i]).transaction.alike(&transactions@[i])
                    && failure_view(r@[i].error) == failure_of(
                    applied_all(old(self)@, transactions@, i).world,
                    transactions@[i],
                ),
    {
        let ghost all = transactions@;
        let ghost start = self@;
        let count = transactions.len();
        let mut pending = reversed(transactions);
        let mut recorded: Vec<CommittedTransaction> = Vec::new();
        while pending.len() > 0
            invariant
                self.wf(),
                all.len() == count,
                recorded@.len() + pending@.len() == all.len(),
                forall|k: int| 0 <= k < pending@.len() ==> pending@[k] == all[all.len() - 1 - k],
                forall|i: int| 0 <= i < all.len() ==> all_admissible((#[trigger] all[i]).instructions@),
                self@ == applied_all(start, all, recorded@.len() as int),
                forall|i: int|
                    0 <= i < recorded@.len() ==> (#[trigger] recorded@[i]).transaction.alike(&all[i])
                        && failure_view(recorded@[i].error) == failure_of(
                        applied_all(start, all, i).world,
                        all[i],
                    ),
            decreases pending.len(),
        {
            let ghost done = recorded@.len() as int;
            let transaction = match pending.pop() {
                Some(transaction) => transaction,
                None => vstd::pervasive::unreached(),
            };
            assert(transaction == all[done]);
            let record = transaction.clone();
            proof {
                assert(record.alike(&transaction)) by {
                    assert forall|k: int| 0 <= k < record.instructions@.len() implies (
                    #[trigger] record.instructions@[k]).alike(&transaction.instructions@[k]) by {
                        assert(transaction.instructions@[k].alike(&record.instructions@[k]));
                    }
                }
            }
            let error = match self.execute_transaction(transaction) {
                Ok(()) => None,
                Err(e) => Some(e),
            };
            recorded.push(CommittedTransaction { transaction: record, error });
        }
        recorded
    }
}

/// Why `transaction` fails on the world `world`, if it does.
pub open spec fn failure_of(world: WorldView, transaction: Transaction) -> Option<
    ValidationFailView,
> {
    match outcome(world, transaction) {
        Ok(_) => None,
        Err(e) => Some(e),
    }
}

/// The state after `transaction`: where it succeeds, its world and, after
/// the events already delivered, its events; where it fails, the state as
/// it was.
pub open spec fn applied(state: StateView, transaction: Transaction) -> StateView {
    match outcome(state.world, transaction) {
        Ok(done) => StateView { world: done.world, events: state.events + done.events },
        Err(_) => state,
    }
}

/// The state after the first `upto` of `transactions`, in their order.
pub open spec fn applied_all(state: StateView, transactions: Seq<Transaction>, upto: int) -> StateView
    decreases upto,
{
    if upto <= 0 || upto > transactions.len() {
        state
    } else {
        applied(applied_all(state, transactions, upto - 1), transactions[upto - 1])
    }
}

} // verus!
