//! Multi-signature accounts as a client sees them: the account behind a
//! signatory role, the keys under which an account keeps its multisig data,
//! and how far the approval of a proposal has come.

use vstd::prelude::*;
use vstd::string::*;
use crate::id::{parse_account_id, AccountId, AccountIdView, RoleId};
use crate::name::{find_last, split_last, Json, Name};
use crate::registry::{lemma_row_in_map, Entity, Registry};
use crate::text::{chars_of, decimal, write_decimal};

verus! {

/// What separates the parts of a multisig key or role name.
pub const DELIMITER: char = '/';

/// What the name of every signatory role starts with.
pub open spec fn signatory_prefix() -> Seq<char> {
    "MULTISIG_SIGNATORY"@
}

/// The number of times `c` stands at the start of `s` without a break.
pub open spec fn leading(s: Seq<char>, c: char) -> nat
    decreases s.len(),
{
    if s.len() > 0 && s[0] == c {
        1 + leading(s.drop_first(), c)
    } else {
        0
    }
}

/// The number of times `c` stands at the end of `s` without a break.
pub open spec fn trailing(s: Seq<char>, c: char) -> nat
    decreases s.len(),
{
    if s.len() > 0 && s.last() == c {
        1 + trailing(s.drop_last(), c)
    } else {
        0
    }
}

/// `s` without the run of `c` at its start and the run of `c` at its end.
pub open spec fn trim_matches(s: Seq<char>, c: char) -> Seq<char> {
    let rest = s.subrange(leading(s, c) as int, s.len() as int);
    rest.subrange(0, rest.len() - trailing(rest, c))
}

proof fn lemma_leading(s: Seq<char>, c: char, n: int)
    requires
        0 <= n <= s.len(),
        forall|k: int| 0 <= k < n ==> s[k] == c,
        n == s.len() || s[n] != c,
    ensures
        leading(s, c) == n,
    decreases n,
{
    if n > 0 {
        let rest = s.drop_first();
        assert forall|k: int| 0 <= k < n - 1 implies rest[k] == c by {
            assert(rest[k] == s[k + 1]);
        }
        if n - 1 < rest.len() {
            assert(rest[n - 1] == s[n]);
        }
        lemma_leading(rest, c, n - 1);
    }
}

proof fn lemma_trailing(s: Seq<char>, c: char, n: int)
    requires
        0 <= n <= s.len(),
        forall|k: int| s.len() - n <= k < s.len() ==> s[k] == c,
        n == s.len() || s[s.len() - n - 1] != c,
    ensures
        trailing(s, c) == n,
    decreases n,
{
    if n > 0 {
        let rest = s.drop_last();
        assert forall|k: int| rest.len() - (n - 1) <= k < rest.len() implies rest[k] == c by {
            assert(rest[k] == s[k]);
        }
        if n - 1 < rest.len() {
            assert(rest[rest.len() - (n - 1) - 1] == s[s.len() - n - 1]);
        }
        lemma_trailing(rest, c, n - 1);
    }
}

/// The text of the account that a signatory role stands for: the role name
/// without its prefix is split at its last delimiter; what stands after it
/// is the signatory, what stands before it, without delimiters at either
/// end, is the domain. Nothing where the name does not start with the
/// prefix or holds no delimiter after it.
pub open spec fn multisig_account_text(role: Seq<char>) -> Option<Seq<char>> {
    let prefix = signatory_prefix();
    if role.len() >= prefix.len() && role.subrange(0, prefix.len() as int) == prefix {
        match split_last(role.subrange(prefix.len() as int, role.len() as int), DELIMITER) {
            Some((init, last)) => Some(last + seq!['@'] + trim_matches(init, DELIMITER)),
            None => None,
        }
    } else {
        None
    }
}

/// The multisig account that a signatory role stands for, if the role is
/// one and names an account.
pub fn multisig_account_from(role: &RoleId) -> (r: Option<AccountId>)
    ensures
        match multisig_account_text(role@) {
            Some(text) => match parse_account_id(text) {
                Ok(id) => r is Some && r->0@ == id,
                Err(_) => r is None,
            },
            None => r is None,
        },
{
    let name = role.name.as_str();
    let chars = chars_of(name);
    let prefix = chars_of("MULTISIG_SIGNATORY");
    let skip = prefix.len();
    if chars.len() < skip {
        return None;
    }
    let mut k: usize = 0;
    while k < skip
        invariant
            k <= skip,
            skip == prefix@.len(),
            skip <= chars@.len(),
            chars@ == role@,
            prefix@ == signatory_prefix(),
            forall|j: int| 0 <= j < k ==> chars@[j] == prefix@[j],
        decreases skip - k,
    {
        if chars[k] != prefix[k] {
            proof {
                assert(chars@.subrange(0, skip as int)[k as int] != prefix@[k as int]);
            }
            return None;
        }
        k = k + 1;
    }
    proof {
        assert(chars@.subrange(0, skip as int) =~= prefix@);
    }
    let ghost rest = chars@.subrange(skip as int, chars@.len() as int);
    let mut tail: Vec<char> = Vec::new();
    let mut t: usize = skip;
    while t < chars.len()
        invariant
            skip <= t <= chars@.len(),
            tail@ == chars@.subrange(skip as int, t as int),
        decreases chars@.len() - t,
    {
        tail.push(chars[t]);
        proof {
            assert(tail@ =~= chars@.subrange(skip as int, t + 1));
        }
        t = t + 1;
    }
    let at = match find_last(&tail, DELIMITER) {
        Some(at) => at,
        None => {
            return None;
        },
    };
    assert(at < tail.len());
    let ghost init = tail@.subrange(0, at as int);
    let mut lo: usize = 0;
    while lo < at && tail[lo] == DELIMITER
        invariant
            lo <= at,
            at < tail@.len(),
            forall|j: int| 0 <= j < lo ==> tail@[j] == DELIMITER,
        decreases at - lo,
    {
        lo = lo + 1;
    }
    let mut hi: usize = at;
    while hi > lo && tail[hi - 1] == DELIMITER
        invariant
            lo <= hi <= at,
            at < tail@.len(),
            forall|j: int| hi <= j < at ==> tail@[j] == DELIMITER,
        decreases hi,
    {
        hi = hi - 1;
    }
    proof {
        lemma_leading(init, DELIMITER, lo as int);
        let middle = init.subrange(lo as int, init.len() as int);
        lemma_trailing(middle, DELIMITER, at - hi);
        assert(trim_matches(init, DELIMITER) =~= tail@.subrange(lo as int, hi as int));
        assert(tail@.subrange(lo as int, hi as int) =~= name@.subrange(skip + lo, skip + hi));
        assert(tail@.subrange(at + 1, tail@.len() as int) =~= name@.subrange(
            skip + at + 1,
            name@.len() as int,
        ));
        reveal_strlit("@");
        assert("@"@ =~= seq!['@']);
    }
    let mut text = name.substring_char(skip + at + 1, chars.len()).to_owned();
    text.append("@");
    text.append(name.substring_char(skip + lo, skip + hi));
    match AccountId::from_str(text.as_str()) {
        Ok(id) => Some(id),
        Err(_) => None,
    }
}

/// The key under which a multisig account keeps its specification.
pub fn spec_key() -> (r: Name)
    ensures
        r@ == "multisig/spec"@,
{
    proof {
        reveal_strlit("multisig/spec");
    }
    match Name::from_str("multisig/spec") {
        Ok(name) => name,
        Err(_) => vstd::pervasive::unreached(),
    }
}

/// The key under which an account keeps what prefixes every proposal.
pub fn proposal_key_prefix() -> (r: String)
    ensures
        r@ == "multisig/proposals/"@,
{
    String::from_str("multisig/proposals/")
}

/// The time-to-live of a multisig transaction in whole milliseconds: at
/// least one, and no more than fit.
pub fn ttl_ms(millis: u128) -> (r: Option<u64>)
    ensures
        r == if 1 <= millis <= u64::MAX {
            Some(millis as u64)
        } else {
            None::<u64>
        },
{
    if millis == 0 || millis > u64::MAX as u128 {
        None
    } else {
        Some(millis as u64)
    }
}

/// The second in which a proposal was made, counted from the epoch.
pub fn proposed_at_secs(proposed_at_ms: u64) -> (r: u64)
    ensures
        r == proposed_at_ms / 1000,
{
    proposed_at_ms / 1000
}

/// The whole seconds that a proposal has left at the time `now_ms`: none
/// where it has expired.
pub fn expires_in_secs(expires_at_ms: u64, now_ms: u64) -> (r: u64)
    ensures
        r == if expires_at_ms >= now_ms {
            (expires_at_ms - now_ms) / 1000
        } else {
            0
        },
{
    if expires_at_ms >= now_ms {
        (expires_at_ms - now_ms) / 1000
    } else {
        0
    }
}

/// One who signs for a multisig account, with the weight of the signature.
#[derive(Debug, PartialEq, Eq)]
pub struct Signatory {
    pub account: AccountId,
    pub weight: u8,
}

/// The accounts as plain values, in order.
pub open spec fn accounts_of(accounts: Seq<AccountId>) -> Seq<AccountIdView> {
    Seq::new(accounts.len(), |i: int| accounts[i]@)
}

/// The weights of the signatories that are among `approvals`, summed up.
pub open spec fn approved_weight(signatories: Seq<Signatory>, approvals: Seq<AccountIdView>) -> nat
    decreases signatories.len(),
{
    if signatories.len() == 0 {
        0
    } else {
        approved_weight(signatories.drop_last(), approvals) + if approvals.contains(
            signatories.last().account@,
        ) {
            signatories.last().weight as nat
        } else {
            0
        }
    }
}

/// The weight of the approvals among the first signatories is no more than
/// the weight of the approvals among all.
proof fn lemma_weight_grows(signatories: Seq<Signatory>, approvals: Seq<AccountIdView>, i: int)
    requires
        0 <= i <= signatories.len(),
    ensures
        approved_weight(signatories.subrange(0, i), approvals) <= approved_weight(
            signatories,
            approvals,
        ),
    decreases signatories.len() - i,
{
    if i == signatories.len() {
        assert(signatories.subrange(0, i) =~= signatories);
    } else {
        lemma_weight_grows(signatories, approvals, i + 1);
        assert(signatories.subrange(0, i + 1).drop_last() =~= signatories.subrange(0, i));
    }
}

/// The first signatory that is `account`, if there is one.
pub open spec fn weight_of(signatories: Seq<Signatory>, account: AccountIdView) -> Option<u8>
    decreases signatories.len(),
{
    if signatories.len() == 0 {
        None
    } else if signatories[0].account@ == account {
        Some(signatories[0].weight)
    } else {
        weight_of(signatories.drop_first(), account)
    }
}

/// One step on the path of approvals of a proposal, as plain values.
pub struct ApprovalEdgeView {
    pub weight: u8,
    pub has_approved: bool,
    pub got: u16,
    pub quorum: u16,
    pub target: AccountIdView,
}

/// One step on the path of approvals of a proposal: what the signature of
/// an account weighs in the multisig account `target`, whether it has been
/// given, and how much weight `target` has got of the quorum it needs.
#[derive(Debug, PartialEq, Eq)]
pub struct ApprovalEdge {
    pub weight: u8,
    pub has_approved: bool,
    pub got: u16,
    pub quorum: u16,
    pub target: AccountId,
}

impl View for ApprovalEdge {
    type V = ApprovalEdgeView;

    open spec fn view(&self) -> ApprovalEdgeView {
        ApprovalEdgeView {
            weight: self.weight,
            has_approved: self.has_approved,
            got: self.got,
            quorum: self.quorum,
            target: self.target@,
        }
    }
}

/// Why the approval of a proposal cannot be told.
#[derive(Clone, Copy, Debug, PartialEq, Eq, Structural)]
pub enum ApprovalError {
    /// The account is not a signatory of the multisig account.
    NotSignatory,
    /// The weights of the approvals do not fit the sum.
    WeightOverflow,
}

impl ApprovalEdgeView {
    /// `weight relation [got/quorum] target`.
    pub open spec fn text(self) -> Seq<char> {
        decimal(self.weight as nat) + " "@ + (if self.has_approved {
            "joined"@
        } else {
            "->"@
        }) + " ["@ + decimal(self.got as nat) + "/"@ + decimal(self.quorum as nat) + "] "@
            + self.target.text()
    }
}

impl ApprovalEdge {
    pub fn new(weight: u8, has_approved: bool, got: u16, quorum: u16, target: AccountId) -> (r:
        ApprovalEdge)
        ensures
            r@ == (ApprovalEdgeView { weight, has_approved, got, quorum, target: target@ }),
    {
        ApprovalEdge { weight, has_approved, got, quorum, target }
    }

    /// How the account stands to the target: it has joined, or it is on its
    /// way.
    pub fn relation(&self) -> (r: &'static str)
        ensures
            r@ == if self.has_approved {
                "joined"@
            } else {
                "->"@
            },
    {
        if self.has_approved {
            "joined"
        } else {
            "->"
        }
    }

    /// The textual form `weight relation [got/quorum] target`.
    pub fn to_string(&self) -> (r: String)
        ensures
            r@ == self@.text(),
    {
        let mut text = String::new();
        write_decimal(self.weight as u128, &mut text);
        text.append(" ");
        text.append(self.relation());
        text.append(" [");
        write_decimal(self.got as u128, &mut text);
        text.append("/");
        write_decimal(self.quorum as u128, &mut text);
        text.append("] ");
        text.append(self.target.to_string().as_str());
        proof {
            assert(text@ =~= self@.text());
        }
        text
    }
}

fn approved(approvals: &Vec<AccountId>, account: &AccountId) -> (r: bool)
    ensures
        r == accounts_of(approvals@).contains(account@),
{
    let mut i: usize = 0;
    while i < approvals.len()
        invariant
            i <= approvals@.len(),
            forall|k: int| 0 <= k < i ==> accounts_of(approvals@)[k] != account@,
        decreases approvals@.len() - i,
    {
        if approvals[i].same(account) {
            proof {
                assert(accounts_of(approvals@)[i as int] == account@);
            }
            return true;
        }
        i = i + 1;
    }
    false
}

/// The step that `child` makes on the path of approvals of a proposal of
/// the multisig account `this`: the weight of its signature, whether it is
/// among the approvals, and the weight of all approvals together. Refused
/// where `child` is not a signatory, or where the weights do not fit.
pub fn approval_edge(
    signatories: &Vec<Signatory>,
    quorum: u16,
    approvals: &Vec<AccountId>,
    child: &AccountId,
    this: &AccountId,
) -> (r: Result<ApprovalEdge, ApprovalError>)
    ensures
        match r {
            Ok(edge) => weight_of(signatories@, child@) is Some && edge@ == (ApprovalEdgeView {
                weight: weight_of(signatories@, child@)->0,
                has_approved: accounts_of(approvals@).contains(child@),
                got: approved_weight(signatories@, accounts_of(approvals@)) as u16,
                quorum,
                target: this@,
            }) && approved_weight(signatories@, accounts_of(approvals@)) <= u16::MAX,
            Err(e) => if weight_of(signatories@, child@) is None {
                e == ApprovalError::NotSignatory
            } else {
                e == ApprovalError::WeightOverflow && approved_weight(
                    signatories@,
                    accounts_of(approvals@),
                ) > u16::MAX
            },
        },
{
    let n = signatories.len();
    let mut weight: Option<u8> = None;
    let mut w: usize = n;
    proof {
        assert(signatories@.subrange(n as int, n as int) =~= Seq::<Signatory>::empty());
    }
    while w > 0
        invariant
            w <= n,
            n == signatories@.len(),
            weight == weight_of(signatories@.subrange(w as int, n as int), child@),
        decreases w,
    {
        w = w - 1;
        proof {
            let here = signatories@.subrange(w as int, n as int);
            assert(here.drop_first() =~= signatories@.subrange(w + 1, n as int));
            assert(here[0] == signatories@[w as int]);
        }
        if signatories[w].account.same(child) {
            weight = Some(signatories[w].weight);
        }
    }
    proof {
        assert(signatories@.subrange(0, n as int) =~= signatories@);
    }
    let weight = match weight {
        Some(weight) => weight,
        None => {
            return Err(ApprovalError::NotSignatory);
        },
    };
    let mut got: u64 = 0;
    let mut i: usize = 0;
    proof {
        assert(signatories@.subrange(0, 0) =~= Seq::<Signatory>::empty());
    }
    while i < n
        invariant
            i <= n,
            n == signatories@.len(),
            weight_of(signatories@, child@) is Some,
            got == approved_weight(signatories@.subrange(0, i as int), accounts_of(approvals@)),
            got <= u16::MAX,
        decreases n - i,
    {
        proof {
            let next = signatories@.subrange(0, i + 1);
            assert(next.drop_last() =~= signatories@.subrange(0, i as int));
            assert(next.last() == signatories@[i as int]);
        }
        if approved(approvals, &signatories[i].account) {
            got = got + signatories[i].weight as u64;
        }
        i = i + 1;
        if got > u16::MAX as u64 {
            proof {
                lemma_weight_grows(signatories@, accounts_of(approvals@), i as int);
            }
            return Err(ApprovalError::WeightOverflow);
        }
    }
    proof {
        assert(signatories@.subrange(0, n as int) =~= signatories@);
    }
    Ok(
        ApprovalEdge {
            weight,
            has_approved: approved(approvals, child),
            got: got as u16,
            quorum,
            target: this.clone(),
        },
    )
}

impl Clone for ApprovalEdge {
    fn clone(&self) -> (r: ApprovalEdge)
        ensures
            r@ == self@,
    {
        ApprovalEdge {
            weight: self.weight,
            has_approved: self.has_approved,
            got: self.got,
            quorum: self.quorum,
            target: self.target.clone(),
        }
    }
}

/// The step of [`approval_edge`], where it can be told.
pub open spec fn edge_of(
    signatories: Seq<Signatory>,
    quorum: u16,
    approvals: Seq<AccountId>,
    child: AccountIdView,
    this: AccountIdView,
) -> Option<ApprovalEdgeView> {
    if weight_of(signatories, child) is Some && approved_weight(signatories, accounts_of(approvals))
        <= u16::MAX {
        Some(
            ApprovalEdgeView {
                weight: weight_of(signatories, child)->0,
                has_approved: accounts_of(approvals).contains(child),
                got: approved_weight(signatories, accounts_of(approvals)) as u16,
                quorum,
                target: this,
            },
        )
    } else {
        None
    }
}

/// What a multisig account asks of its signatories.
#[derive(Debug, PartialEq, Eq)]
pub struct MultisigSpec {
    /// Who signs, and with what weight.
    pub signatories: Vec<Signatory>,
    /// The weight of approvals that a proposal needs.
    pub quorum: u16,
    /// How long a proposal stays open, in milliseconds.
    pub transaction_ttl_ms: u64,
}

/// Why signatories, weights, quorum and time-to-live do not make the
/// specification of a multisig account.
#[derive(Clone, Copy, Debug, PartialEq, Eq, Structural)]
pub enum SpecError {
    /// There are not as many weights as signatories.
    LengthMismatch,
    /// The quorum is zero.
    ZeroQuorum,
    /// The time-to-live is not between one millisecond and what fits.
    TtlOutOfRange,
}

/// Each account with the weight at its position.
pub open spec fn paired(accounts: Seq<AccountId>, weights: Seq<u8>) -> Seq<(AccountIdView, u8)> {
    Seq::new(accounts.len(), |i: int| (accounts[i]@, weights[i]))
}

/// The signatories as plain values, in order.
pub open spec fn signatories_of(signatories: Seq<Signatory>) -> Seq<(AccountIdView, u8)> {
    Seq::new(signatories.len(), |i: int| (signatories[i].account@, signatories[i].weight))
}

impl MultisigSpec {
    /// The specification of a multisig account whose signatories sign with
    /// the weights at their positions. Refused where there are not as many
    /// weights as signatories, where the quorum is zero, and where the
    /// time-to-live is not between one millisecond and what fits, in this
    /// order.
    pub fn new(
        signatories: Vec<AccountId>,
        weights: Vec<u8>,
        quorum: u16,
        transaction_ttl_ms: u128,
    ) -> (r: Result<MultisigSpec, SpecError>)
        ensures
            match r {
                Ok(spec) => signatories@.len() == weights@.len() && quorum != 0 && 1
                    <= transaction_ttl_ms <= u64::MAX && signatories_of(spec.signatories@)
                    == paired(signatories@, weights@) && spec.quorum == quorum
                    && spec.transaction_ttl_ms == transaction_ttl_ms,
                Err(e) => e == if signatories@.len() != weights@.len() {
                    SpecError::LengthMismatch
                } else if quorum == 0 {
                    SpecError::ZeroQuorum
                } else {
                    SpecError::TtlOutOfRange
                } && !(signatories@.len() == weights@.len() && quorum != 0 && 1
                    <= transaction_ttl_ms <= u64::MAX),
            },
    {
        if signatories.len() != weights.len() {
            return Err(SpecError::LengthMismatch);
        }
        if quorum == 0 {
            return Err(SpecError::ZeroQuorum);
        }
        let ttl = match ttl_ms(transaction_ttl_ms) {
            Some(ttl) => ttl,
            None => {
                return Err(SpecError::TtlOutOfRange);
            },
        };
        let mut joined: Vec<Signatory> = Vec::new();
        let mut i: usize = 0;
        while i < signatories.len()
            invariant
                i <= signatories@.len(),
                signatories@.len() == weights@.len(),
                joined@.len() == i,
                forall|k: int|
                    0 <= k < i ==> (#[trigger] joined@[k]).account@ == signatories@[k]@
                        && joined@[k].weight == weights@[k],
            decreases signatories@.len() - i,
        {
            joined.push(Signatory { account: signatories[i].clone(), weight: weights[i] });
            i = i + 1;
        }
        proof {
            assert(signatories_of(joined@) =~= paired(signatories@, weights@));
        }
        Ok(MultisigSpec { signatories: joined, quorum, transaction_ttl_ms: ttl })
    }
}

/// What the traversal reads of a proposed instruction, as plain values.
pub enum ProposedInstructionView {
    Approve { account: AccountIdView, instructions_hash: Seq<char> },
    Other(Seq<char>),
}

/// What the traversal reads of a proposed instruction.
#[derive(Debug, PartialEq, Eq)]
pub enum ProposedInstruction {
    /// The approval, by the proposing account, of the proposal
    /// `instructions_hash` of the multisig account `account`.
    Approve { account: AccountId, instructions_hash: Name },
    /// Any other instruction, as it is shown.
    Other(Json),
}

impl View for ProposedInstruction {
    type V = ProposedInstructionView;

    open spec fn view(&self) -> ProposedInstructionView {
        match self {
            ProposedInstruction::Approve { account, instructions_hash } => ProposedInstructionView::Approve {
                account: account@,
                instructions_hash: instructions_hash@,
            },
            ProposedInstruction::Other(shown) => ProposedInstructionView::Other(shown@),
        }
    }
}

impl Clone for ProposedInstruction {
    fn clone(&self) -> (r: ProposedInstruction)
        ensures
            r@ == self@,
    {
        match self {
            ProposedInstruction::Approve { account, instructions_hash } => ProposedInstruction::Approve {
                account: account.clone(),
                instructions_hash: instructions_hash.clone(),
            },
            ProposedInstruction::Other(shown) => ProposedInstruction::Other(shown.clone()),
        }
    }
}

/// The instructions as plain values, in order.
pub open spec fn instructions_of(instructions: Seq<ProposedInstruction>) -> Seq<
    ProposedInstructionView,
> {
    Seq::new(instructions.len(), |i: int| instructions[i]@)
}

/// The edges as plain values, in order.
pub open spec fn edges_of(edges: Seq<ApprovalEdge>) -> Seq<ApprovalEdgeView> {
    Seq::new(edges.len(), |i: int| edges[i]@)
}

/// A proposal as a multisig account keeps it.
#[derive(Debug, PartialEq, Eq)]
pub struct Proposal {
    /// The hash of the proposed instructions, as text.
    pub key: Name,
    pub instructions: Vec<ProposedInstruction>,
    /// When the proposal was made, in milliseconds from the epoch.
    pub proposed_at_ms: u64,
    /// When the proposal expires, in milliseconds from the epoch.
    pub expires_at_ms: u64,
    /// The signatories that have approved.
    pub approvals: Vec<AccountId>,
}

/// The state of a pending proposal as plain values.
pub struct ProposalStatusView {
    pub key: Seq<char>,
    pub instructions: Seq<ProposedInstructionView>,
    pub proposed_at_secs: u64,
    pub expires_in_secs: u64,
    pub approval_path: Seq<ApprovalEdgeView>,
}

/// The state of a pending proposal: what is proposed, since when and for
/// how long, and the path that its approval has to go.
#[derive(Debug, PartialEq, Eq)]
pub struct ProposalStatus {
    /// The hash of the proposed instructions, as text.
    pub key: Name,
    pub instructions: Vec<ProposedInstruction>,
    /// The second in which the proposal was made, counted from the epoch.
    pub proposed_at_secs: u64,
    /// The whole seconds that the proposal has left.
    pub expires_in_secs: u64,
    pub approval_path: Vec<ApprovalEdge>,
}

impl View for ProposalStatus {
    type V = ProposalStatusView;

    open spec fn view(&self) -> ProposalStatusView {
        ProposalStatusView {
            key: self.key@,
            instructions: instructions_of(self.instructions@),
            proposed_at_secs: self.proposed_at_secs,
            expires_in_secs: self.expires_in_secs,
            approval_path: edges_of(self.approval_path@),
        }
    }
}

impl ProposalStatusView {
    /// The status of a proposal of which nothing is known yet.
    pub open spec fn unknown(key: Seq<char>) -> ProposalStatusView {
        ProposalStatusView {
            key,
            instructions: Seq::empty(),
            proposed_at_secs: 0,
            expires_in_secs: 0,
            approval_path: Seq::empty(),
        }
    }
}

fn clone_instructions(instructions: &Vec<ProposedInstruction>) -> (r: Vec<ProposedInstruction>)
    ensures
        instructions_of(r@) == instructions_of(instructions@),
{
    let mut r: Vec<ProposedInstruction> = Vec::new();
    let mut i: usize = 0;
    while i < instructions.len()
        invariant
            i <= instructions@.len(),
            r@.len() == i,
            forall|k: int| 0 <= k < i ==> (#[trigger] r@[k])@ == instructions@[k]@,
        decreases instructions@.len() - i,
    {
        r.push(instructions[i].clone());
        i = i + 1;
    }
    proof {
        assert(instructions_of(r@) =~= instructions_of(instructions@));
    }
    r
}

impl ProposalStatus {
    /// The status of a proposal of which nothing is known yet.
    pub fn unknown(key: Name) -> (r: ProposalStatus)
        ensures
            r@ == ProposalStatusView::unknown(key@),
    {
        let r = ProposalStatus {
            key,
            instructions: Vec::new(),
            proposed_at_secs: 0,
            expires_in_secs: 0,
            approval_path: Vec::new(),
        };
        proof {
            assert(r@.instructions =~= Seq::<ProposedInstructionView>::empty());
            assert(r@.approval_path =~= Seq::<ApprovalEdgeView>::empty());
        }
        r
    }
}

impl Clone for ProposalStatus {
    fn clone(&self) -> (r: ProposalStatus)
        ensures
            r@ == self@,
    {
        let mut approval_path: Vec<ApprovalEdge> = Vec::new();
        let mut i: usize = 0;
        while i < self.approval_path.len()
            invariant
                i <= self.approval_path@.len(),
                approval_path@.len() == i,
                forall|k: int| 0 <= k < i ==> (#[trigger] approval_path@[k])@ == self.approval_path@[k]@,
            decreases self.approval_path@.len() - i,
        {
            approval_path.push(self.approval_path[i].clone());
            i = i + 1;
        }
        let r = ProposalStatus {
            key: self.key.clone(),
            instructions: clone_instructions(&self.instructions),
            proposed_at_secs: self.proposed_at_secs,
            expires_in_secs: self.expires_in_secs,
            approval_path,
        };
        proof {
            assert(r@.approval_path =~= self@.approval_path);
        }
        r
    }
}

impl Entity for ProposalStatus {
    type Id = Name;

    open spec fn id_of(v: ProposalStatusView) -> Seq<char> {
        v.key
    }

    fn id(&self) -> (r: &Name) {
        &self.key
    }

    fn duplicate(&self) -> (r: ProposalStatus) {
        self.clone()
    }
}

/// The span of keys that a visit follows, as plain values: the proposal
/// that the traversal started from, and the proposal to look at now.
pub struct KeySpanView {
    pub leaf: Seq<char>,
    pub top: Seq<char>,
}

/// The span of keys that a visit follows: the proposal that the traversal
/// started from, and the proposal to look at now.
#[derive(Debug, PartialEq, Eq)]
pub struct KeySpan {
    pub leaf: Name,
    pub top: Name,
}

impl View for KeySpan {
    type V = KeySpanView;

    open spec fn view(&self) -> KeySpanView {
        KeySpanView { leaf: self.leaf@, top: self.top@ }
    }
}

/// The span of a context as plain values.
pub open spec fn span_of(span: Option<KeySpan>) -> Option<KeySpanView> {
    match span {
        Some(s) => Some(s@),
        None => None,
    }
}

/// A visit that is due, as plain values.
pub struct ContextView {
    pub child: AccountIdView,
    pub this: AccountIdView,
    pub key_span: Option<KeySpanView>,
}

/// A visit that is due: the multisig account `this` is to be looked at, as
/// seen from its signatory `child`.
#[derive(Debug, PartialEq, Eq)]
pub struct Context {
    pub child: AccountId,
    pub this: AccountId,
    pub key_span: Option<KeySpan>,
}

impl View for Context {
    type V = ContextView;

    open spec fn view(&self) -> ContextView {
        ContextView { child: self.child@, this: self.this@, key_span: span_of(self.key_span) }
    }
}

impl Context {
    pub fn new(child: AccountId, this: AccountId, key_span: Option<KeySpan>) -> (r: Context)
        ensures
            r@ == (ContextView { child: child@, this: this@, key_span: span_of(key_span) }),
    {
        Context { child, this, key_span }
    }
}

/// The visits as plain values, in order.
pub open spec fn contexts_of(stack: Seq<Context>) -> Seq<ContextView> {
    Seq::new(stack.len(), |i: int| stack[i]@)
}

/// Whether a visit with `span` looks at the proposal `key`: a visit
/// without span looks at every proposal, one with a span at its top only.
pub open spec fn selected(span: Option<KeySpanView>, key: Seq<char>) -> bool {
    match span {
        None => true,
        Some(s) => key == s.top,
    }
}

/// The proposal under which what is learned of the proposal `key` is kept:
/// the leaf of the span, or `key` itself where there is no span.
pub open spec fn leaf_of(span: Option<KeySpanView>, key: Seq<char>) -> Seq<char> {
    match span {
        None => key,
        Some(s) => s.leaf,
    }
}

/// The visits that the approvals among `instructions` make due, in the
/// order of the instructions: each approval leads on to the multisig
/// account that it approves in.
pub open spec fn onward(
    instructions: Seq<ProposedInstructionView>,
    this: AccountIdView,
    leaf: Seq<char>,
) -> Seq<ContextView>
    decreases instructions.len(),
{
    if instructions.len() == 0 {
        Seq::empty()
    } else {
        let before = onward(instructions.drop_last(), this, leaf);
        match instructions.last() {
            ProposedInstructionView::Approve { account, instructions_hash } => before.push(
                ContextView {
                    child: this,
                    this: account,
                    key_span: Some(KeySpanView { leaf, top: instructions_hash }),
                },
            ),
            ProposedInstructionView::Other(_) => before,
        }
    }
}

/// The pending proposals and the visits that are due, as plain values.
pub struct FoldView {
    pub proposals: Map<Seq<char>, ProposalStatusView>,
    pub stack: Seq<ContextView>,
}

/// Why a visit cannot be made.
#[derive(Clone, Copy, Debug, PartialEq, Eq, Structural)]
pub enum FoldError {
    /// The account that the visit comes from is not a signatory of the
    /// multisig account, or the weights of the approvals do not fit.
    Approval(ApprovalError),
    /// Nothing is known of the proposal that the traversal started from.
    UnknownLeaf,
}

/// What looking at one proposal of the multisig account of `context` does:
/// nothing where the proposal is not selected; else the approvals among its
/// instructions make visits due, and the step of `context` is added to the
/// path of the proposal that the traversal started from, which, where the
/// proposal holds no approval and so is the root of the path, also learns
/// what is proposed, since when and for how long.
pub open spec fn look(
    state: FoldView,
    context: ContextView,
    spec: MultisigSpec,
    proposal: Proposal,
    now_ms: u64,
) -> FoldView {
    if !selected(context.key_span, proposal.key@) {
        state
    } else {
        let leaf = leaf_of(context.key_span, proposal.key@);
        let more = onward(instructions_of(proposal.instructions@), context.this, leaf);
        let known = if state.proposals.contains_key(leaf) {
            state.proposals[leaf]
        } else {
            ProposalStatusView::unknown(leaf)
        };
        let edge = edge_of(
            spec.signatories@,
            spec.quorum,
            proposal.approvals@,
            context.child,
            context.this,
        )->0;
        let walked = ProposalStatusView { approval_path: known.approval_path.push(edge), ..known };
        let learned = if more.len() == 0 {
            ProposalStatusView {
                instructions: instructions_of(proposal.instructions@),
                proposed_at_secs: (proposal.proposed_at_ms / 1000) as u64,
                expires_in_secs: if proposal.expires_at_ms >= now_ms {
                    ((proposal.expires_at_ms - now_ms) / 1000) as u64
                } else {
                    0
                },
                ..walked
            }
        } else {
            walked
        };
        FoldView { proposals: state.proposals.insert(leaf, learned), stack: state.stack + more }
    }
}

/// The state after the first `upto` of `proposals` have been looked at.
pub open spec fn looked(
    state: FoldView,
    context: ContextView,
    spec: MultisigSpec,
    proposals: Seq<Proposal>,
    now_ms: u64,
    upto: int,
) -> FoldView
    decreases upto,
{
    if upto <= 0 || upto > proposals.len() {
        state
    } else {
        look(
            looked(state, context, spec, proposals, now_ms, upto - 1),
            context,
            spec,
            proposals[upto - 1],
            now_ms,
        )
    }
}

/// Why the visit of `context` cannot be made, if it cannot: some selected
/// proposal has no step for `context`, or the visit has a span and nothing
/// is known of its leaf.
pub open spec fn obstacle(
    known: Map<Seq<char>, ProposalStatusView>,
    context: ContextView,
    spec: MultisigSpec,
    proposals: Seq<Proposal>,
    upto: int,
) -> Option<FoldError>
    decreases upto,
{
    if upto <= 0 || upto > proposals.len() {
        None
    } else {
        match obstacle(known, context, spec, proposals, upto - 1) {
            Some(e) => Some(e),
            None => {
                let proposal = proposals[upto - 1];
                if !selected(context.key_span, proposal.key@) {
                    None
                } else if weight_of(spec.signatories@, context.child) is None {
                    Some(FoldError::Approval(ApprovalError::NotSignatory))
                } else if approved_weight(spec.signatories@, accounts_of(proposal.approvals@))
                    > u16::MAX {
                    Some(FoldError::Approval(ApprovalError::WeightOverflow))
                } else if context.key_span is Some && !known.contains_key(
                    context.key_span->0.leaf,
                ) {
                    Some(FoldError::UnknownLeaf)
                } else {
                    None
                }
            },
        }
    }
}

/// Where nothing stands in the way of a visit, every selected proposal has
/// a step, and the leaf of the span is known.
proof fn lemma_no_obstacle(
    known: Map<Seq<char>, ProposalStatusView>,
    context: ContextView,
    spec: MultisigSpec,
    proposals: Seq<Proposal>,
    upto: int,
    p: int,
)
    requires
        0 <= p < upto <= proposals.len(),
        obstacle(known, context, spec, proposals, upto) is None,
        selected(context.key_span, proposals[p].key@),
    ensures
        edge_of(
            spec.signatories@,
            spec.quorum,
            proposals[p].approvals@,
            context.child,
            context.this,
        ) is Some,
        context.key_span is Some ==> known.contains_key(context.key_span->0.leaf),
    decreases upto,
{
    if p < upto - 1 {
        lemma_no_obstacle(known, context, spec, proposals, upto - 1, p);
    }
}

fn is_selected(span: &Option<KeySpan>, key: &Name) -> (r: bool)
    ensures
        r == selected(span_of(*span), key@),
{
    match span {
        None => true,
        Some(s) => key.same(&s.top),
    }
}

/// The visits that a signatory makes due at the start of the traversal: one
/// for each of its signatory roles that names a multisig account, in the
/// order of the roles, without span.
pub open spec fn starting(me: AccountIdView, roles: Seq<RoleId>) -> Seq<ContextView>
    decreases roles.len(),
{
    if roles.len() == 0 {
        Seq::empty()
    } else {
        let before = starting(me, roles.drop_last());
        match multisig_account_text(roles.last()@) {
            Some(text) => match parse_account_id(text) {
                Ok(account) => before.push(
                    ContextView { child: me, this: account, key_span: None },
                ),
                Err(_) => before,
            },
            None => before,
        }
    }
}

/// The visits that the signatory `me` makes due at the start of the
/// traversal.
pub fn starting_contexts(me: &AccountId, roles: &Vec<RoleId>) -> (r: Vec<Context>)
    ensures
        contexts_of(r@) == starting(me@, roles@),
{
    let mut stack: Vec<Context> = Vec::new();
    let mut i: usize = 0;
    proof {
        assert(roles@.subrange(0, 0) =~= Seq::<RoleId>::empty());
        assert(contexts_of(stack@) =~= Seq::<ContextView>::empty());
    }
    while i < roles.len()
        invariant
            i <= roles@.len(),
            contexts_of(stack@) == starting(me@, roles@.subrange(0, i as int)),
        decreases roles@.len() - i,
    {
        proof {
            let next = roles@.subrange(0, i + 1);
            assert(next.drop_last() =~= roles@.subrange(0, i as int));
            assert(next.last() == roles@[i as int]);
        }
        match multisig_account_from(&roles[i]) {
            Some(account) => {
                let ghost before = contexts_of(stack@);
                let context = Context::new(me.clone(), account, None);
                stack.push(context);
                proof {
                    assert(contexts_of(stack@) =~= before.push(context@));
                }
            },
            None => {},
        }
        i = i + 1;
    }
    proof {
        assert(roles@.subrange(0, roles@.len() as int) =~= roles@);
    }
    stack
}

/// Makes one visit of the traversal of pending proposals: looks at the
/// proposals of the multisig account of `context`, in their order. Refused,
/// with nothing changed, where something stands in the way.
pub fn visit(
    proposals: &mut Registry<ProposalStatus>,
    stack: &mut Vec<Context>,
    context: &Context,
    spec: &MultisigSpec,
    account_proposals: &Vec<Proposal>,
    now_ms: u64,
) -> (r: Result<(), FoldError>)
    requires
        old(proposals).wf(),
    ensures
        final(proposals).wf(),
        match r {
            Ok(()) => obstacle(
                old(proposals)@,
                context@,
                *spec,
                account_proposals@,
                account_proposals@.len() as int,
            ) is None && (FoldView {
                proposals: final(proposals)@,
                stack: contexts_of(final(stack)@),
            }) == looked(
                FoldView { proposals: old(proposals)@, stack: contexts_of(old(stack)@) },
                context@,
                *spec,
                account_proposals@,
                now_ms,
                account_proposals@.len() as int,
            ),
            Err(e) => obstacle(
                old(proposals)@,
                context@,
                *spec,
                account_proposals@,
                account_proposals@.len() as int,
            ) == Some(e) && *final(proposals) == *old(proposals) && *final(stack) == *old(stack),
        },
{
    let total = account_proposals.len();
    let ghost all = account_proposals@;
    let ghost known = proposals@;
    let ghost start = FoldView { proposals: proposals@, stack: contexts_of(stack@) };
    let mut p: usize = 0;
    while p < total
        invariant
            p <= total,
            total == all.len(),
            all == account_proposals@,
            known == proposals@,
            proposals.wf(),
            obstacle(known, context@, *spec, all, p as int) is None,
        decreases total - p,
    {
        let proposal = &account_proposals[p];
        if is_selected(&context.key_span, &proposal.key) {
            match approval_edge(
                &spec.signatories,
                spec.quorum,
                &proposal.approvals,
                &context.child,
                &context.this,
            ) {
                Ok(_) => {},
                Err(e) => {
                    proof {
                        lemma_obstacle_stays(known, context@, *spec, all, p + 1, total as int);
                    }
                    return Err(FoldError::Approval(e));
                },
            }
            match &context.key_span {
                Some(span) => {
                    if !proposals.contains(&span.leaf) {
                        proof {
                            lemma_obstacle_stays(known, context@, *spec, all, p + 1, total as int);
                        }
                        return Err(FoldError::UnknownLeaf);
                    }
                },
                None => {},
            }
        }
        p = p + 1;
    }
    let mut q: usize = 0;
    while q < total
        invariant
            q <= total,
            total == all.len(),
            all == account_proposals@,
            proposals.wf(),
            obstacle(known, context@, *spec, all, total as int) is None,
            (FoldView { proposals: proposals@, stack: contexts_of(stack@) }) == looked(
                start,
                context@,
                *spec,
                all,
                now_ms,
                q as int,
            ),
        decreases total - q,
    {
        let proposal = &account_proposals[q];
        let ghost before = FoldView { proposals: proposals@, stack: contexts_of(stack@) };
        if is_selected(&context.key_span, &proposal.key) {
            proof {
                lemma_no_obstacle(known, context@, *spec, all, total as int, q as int);
            }
            let leaf: &Name = match &context.key_span {
                Some(span) => &span.leaf,
                None => &proposal.key,
            };
            let ghost stack_before = contexts_of(stack@);
            let count = proposal.instructions.len();
            let mut j: usize = 0;
            let mut is_root_proposal = true;
            proof {
                assert(instructions_of(proposal.instructions@).subrange(0, 0) =~= Seq::<
                    ProposedInstructionView,
                >::empty());
                assert(stack_before + Seq::<ContextView>::empty() =~= stack_before);
            }
            while j < count
                invariant
                    j <= count,
                    count == proposal.instructions@.len(),
                    contexts_of(stack@) == stack_before + onward(
                        instructions_of(proposal.instructions@).subrange(0, j as int),
                        context@.this,
                        leaf@,
                    ),
                    is_root_proposal == (onward(
                        instructions_of(proposal.instructions@).subrange(0, j as int),
                        context@.this,
                        leaf@,
                    ).len() == 0),
                decreases count - j,
            {
                proof {
                    let views = instructions_of(proposal.instructions@);
                    let next = views.subrange(0, j + 1);
                    assert(next.drop_last() =~= views.subrange(0, j as int));
                    assert(next.last() == proposal.instructions@[j as int]@);
                }
                match &proposal.instructions[j] {
                    ProposedInstruction::Approve { account, instructions_hash } => {
                        is_root_proposal = false;
                        let ghost pushed_before = contexts_of(stack@);
                        let next = Context::new(
                            context.this.clone(),
                            account.clone(),
                            Some(KeySpan { leaf: leaf.clone(), top: instructions_hash.clone() }),
                        );
                        stack.push(next);
                        proof {
                            assert(contexts_of(stack@) =~= pushed_before.push(next@));
                            let views = instructions_of(proposal.instructions@);
                            assert(contexts_of(stack@) =~= stack_before + onward(
                                views.subrange(0, j + 1),
                                context@.this,
                                leaf@,
                            ));
                        }
                    },
                    ProposedInstruction::Other(_) => {},
                }
                j = j + 1;
            }
            proof {
                let views = instructions_of(proposal.instructions@);
                assert(views.subrange(0, count as int) =~= views);
            }
            let edge = match approval_edge(
                &spec.signatories,
                spec.quorum,
                &proposal.approvals,
                &context.child,
                &context.this,
            ) {
                Ok(edge) => edge,
                Err(_) => vstd::pervasive::unreached(),
            };
            let mut status = match proposals.find(leaf) {
                Ok(i) => {
                    proof {
                        lemma_row_in_map::<ProposalStatus>(proposals.rows(), i as int);
                    }
                    proposals.remove_row(i)
                },
                Err(_) => ProposalStatus::unknown(leaf.clone()),
            };
            let ghost known_status = status@;
            status.approval_path.push(edge);
            proof {
                assert(edges_of(status.approval_path@) =~= known_status.approval_path.push(edge@));
            }
            if is_root_proposal {
                status.instructions = clone_instructions(&proposal.instructions);
                status.proposed_at_secs = proposed_at_secs(proposal.proposed_at_ms);
                status.expires_in_secs = expires_in_secs(proposal.expires_at_ms, now_ms);
            }
            let ghost learned = status@;
            let _ = proposals.insert(status);
            proof {
                assert(proposals@ =~= before.proposals.insert(leaf@, learned));
            }
        }
        q = q + 1;
    }
    Ok(())
}

/// An obstacle, once met, stays.
proof fn lemma_obstacle_stays(
    known: Map<Seq<char>, ProposalStatusView>,
    context: ContextView,
    spec: MultisigSpec,
    proposals: Seq<Proposal>,
    upto: int,
    later: int,
)
    requires
        0 <= upto <= later <= proposals.len(),
        obstacle(known, context, spec, proposals, upto) is Some,
    ensures
        obstacle(known, context, spec, proposals, later) == obstacle(
            known,
            context,
            spec,
            proposals,
            upto,
        ),
    decreases later - upto,
{
    if upto < later {
        lemma_obstacle_stays(known, context, spec, proposals, upto, later - 1);
    }
}

} // verus!
