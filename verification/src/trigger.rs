//! A trigger that gives every user an NFT: for each account outside the
//! system domains it registers a numbered NFT and hands it to the account.

use vstd::prelude::*;
use vstd::string::*;
use crate::domain::AccountView;
use crate::id::{AccountId, AccountIdView, DomainId, NftId, NftIdView};
use crate::isi::nft::{Register, Transfer};
use crate::isi::InstructionBox;
use crate::metadata::Metadata;
use crate::name::{is_reserved, is_whitespace, Json, Name};
use crate::nft::{NewNftView, Nft, NftView};
use crate::text::{chars_of, decimal, digit_char, write_decimal};
use crate::world::World;

verus! {

/// `s` starts with `prefix`.
pub open spec fn starts_with(s: Seq<char>, prefix: Seq<char>) -> bool {
    s.len() >= prefix.len() && s.subrange(0, prefix.len() as int) == prefix
}

/// `s` holds neither white space nor a separator.
pub open spec fn plain(s: Seq<char>) -> bool {
    forall|i: int| 0 <= i < s.len() ==> !is_whitespace(#[trigger] s[i]) && !is_reserved(s[i])
}

proof fn lemma_plain_concat(a: Seq<char>, b: Seq<char>)
    requires
        plain(a),
        plain(b),
    ensures
        plain(a + b),
{
    assert forall|i: int| 0 <= i < (a + b).len() implies !is_whitespace(#[trigger] (a + b)[i])
        && !is_reserved((a + b)[i]) by {
        if i < a.len() {
            assert((a + b)[i] == a[i]);
        } else {
            assert((a + b)[i] == b[i - a.len()]);
        }
    }
}

proof fn lemma_plain_decimal(n: nat)
    ensures
        plain(decimal(n)),
        decimal(n).len() > 0,
    decreases n,
{
    if n >= 10 {
        lemma_plain_decimal(n / 10);
        lemma_plain_concat(decimal(n / 10), seq![digit_char(n % 10)]);
        assert(decimal(n / 10).push(digit_char(n % 10)) =~= decimal(n / 10) + seq![
            digit_char(n % 10),
        ]);
    }
}

proof fn lemma_plain_words()
    ensures
        plain("nft_number_"@),
        plain("_for_"@),
        plain("nft_for_"@),
        plain("_in_"@),
{
    reveal_strlit("nft_number_");
    reveal_strlit("_for_");
    reveal_strlit("nft_for_");
    reveal_strlit("_in_");
}

/// Whether accounts of `domain` are passed over: the domains `system`,
/// `genesis` and `garden_of_live_flowers` are.
pub open spec fn excluded(domain: Seq<char>) -> bool {
    domain == "system"@ || domain == "genesis"@ || domain == "garden_of_live_flowers"@
}

/// Decides whether accounts of `domain` are passed over.
pub fn is_excluded(domain: &DomainId) -> (r: bool)
    ensures
        r == excluded(domain@),
{
    let text = domain.to_string();
    let system = String::from_str("system");
    let genesis = String::from_str("genesis");
    let garden = String::from_str("garden_of_live_flowers");
    text == system || text == genesis || text == garden
}

/// The number of NFTs among `rows` that `account` owns and whose
/// identifier, as text, starts with `nft_`.
pub open spec fn numbered(rows: Seq<NftView>, account: AccountIdView) -> nat
    decreases rows.len(),
{
    if rows.len() == 0 {
        0
    } else {
        numbered(rows.drop_last(), account) + if rows.last().owned_by == account && starts_with(
            rows.last().id.text(),
            "nft_"@,
        ) {
            1nat
        } else {
            0nat
        }
    }
}

/// The name of the NFT number `n` of `account`.
pub open spec fn numbered_name(n: nat, account: AccountIdView) -> Seq<char> {
    "nft_number_"@ + decimal(n) + "_for_"@ + account.signatory
}

/// The identifier of the next numbered NFT of `account`.
pub open spec fn next_nft_id(rows: Seq<NftView>, account: AccountIdView) -> NftIdView {
    NftIdView { domain: account.domain, name: numbered_name(numbered(rows, account) + 1, account) }
}

fn has_prefix(text: &str) -> (r: bool)
    ensures
        r == starts_with(text@, "nft_"@),
{
    let chars = chars_of(text);
    proof {
        reveal_strlit("nft_");
    }
    if chars.len() < 4 {
        return false;
    }
    let r = chars[0] == 'n' && chars[1] == 'f' && chars[2] == 't' && chars[3] == '_';
    proof {
        let head = text@.subrange(0, 4);
        if r {
            assert(head =~= "nft_"@);
        } else {
            assert(head[0] == text@[0] && head[1] == text@[1] && head[2] == text@[2] && head[3]
                == text@[3]);
        }
    }
    r
}

/// The identifier for a new NFT of `account_id`: its number is one more
/// than the number of NFTs that the account owns and whose identifier
/// starts with `nft_`.
pub fn generate_new_nft_id(world: &World, account_id: &AccountId) -> (r: NftId)
    requires
        account_id.wf(),
        world.nfts.rows().len() < u64::MAX,
    ensures
        r@ == next_nft_id(world.nfts.rows(), account_id@),
        r.wf(),
{
    let ghost rows = world.nfts.rows();
    let total = world.nfts.len();
    let mut count: u64 = 0;
    let mut i: usize = 0;
    proof {
        assert(rows.subrange(0, 0) =~= Seq::<NftView>::empty());
    }
    while i < total
        invariant
            i <= total,
            total == rows.len(),
            rows == world.nfts.rows(),
            total < u64::MAX,
            count <= i,
            count == numbered(rows.subrange(0, i as int), account_id@),
        decreases total - i,
    {
        let nft = world.nfts.row(i);
        proof {
            let next = rows.subrange(0, i + 1);
            assert(next.drop_last() =~= rows.subrange(0, i as int));
            assert(next.last() == rows[i as int]);
        }
        if nft.owned_by.same(account_id) && has_prefix(nft.id.to_string().as_str()) {
            count = count + 1;
        }
        i = i + 1;
    }
    proof {
        assert(rows.subrange(0, total as int) =~= rows);
    }
    let new_number = count + 1;
    let mut text = String::from_str("nft_number_");
    write_decimal(new_number as u128, &mut text);
    text.append("_for_");
    text.append(account_id.signatory.as_str());
    proof {
        lemma_plain_words();
        lemma_plain_decimal(new_number as nat);
        lemma_plain_concat("nft_number_"@, decimal(new_number as nat));
        lemma_plain_concat("nft_number_"@ + decimal(new_number as nat), "_for_"@);
        lemma_plain_concat(
            "nft_number_"@ + decimal(new_number as nat) + "_for_"@,
            account_id@.signatory,
        );
        assert(text@ == numbered_name(new_number as nat, account_id@));
        assert(text@.len() > 0);
    }
    let name = match Name::from_str(text.as_str()) {
        Ok(name) => name,
        Err(_) => vstd::pervasive::unreached(),
    };
    NftId::new(account_id.domain.clone(), name)
}

/// The key under which the NFT of `account` says whom it was made for.
pub open spec fn dedication(account: AccountIdView) -> Seq<char> {
    "nft_for_"@ + account.signatory + "_in_"@ + account.domain
}

/// The NFT that is made for `account`, as it is registered.
pub open spec fn gift(rows: Seq<NftView>, account: AccountIdView) -> NewNftView {
    NewNftView {
        id: next_nft_id(rows, account),
        content: Map::<Seq<char>, Seq<char>>::empty().insert(dedication(account), "true"@),
    }
}

/// Every account has a well-formed identifier.
pub open spec fn accounts_wf(accounts: Seq<AccountView>) -> bool {
    forall|i: int| 0 <= i < accounts.len() ==> (#[trigger] accounts[i]).id.wf()
}

/// The accounts among `accounts` that are not passed over, in their order.
pub open spec fn users(accounts: Seq<AccountView>) -> Seq<AccountIdView>
    decreases accounts.len(),
{
    if accounts.len() == 0 {
        Seq::empty()
    } else if excluded(accounts.last().id.domain) {
        users(accounts.drop_last())
    } else {
        users(accounts.drop_last()).push(accounts.last().id)
    }
}

/// The instructions of the trigger: for every account outside the system
/// domains, in the order of the accounts, the registration of its next
/// numbered NFT, dedicated to it, and the transfer of that NFT from the
/// authority to the account.
pub fn create_nft_for_every_user(world: &World, authority: &AccountId) -> (r: Vec<InstructionBox>)
    requires
        accounts_wf(world.accounts.rows()),
        world.nfts.rows().len() < u64::MAX,
    ensures
        r@.len() == 2 * users(world.accounts.rows()).len(),
        forall|k: int|
            0 <= k < users(world.accounts.rows()).len() ==> {
                let account = users(world.accounts.rows())[k];
                &&& (#[trigger] r@[2 * k]) matches InstructionBox::RegisterNft(register)
                    && register.object@ == gift(world.nfts.rows(), account)
                &&& r@[2 * k + 1] matches InstructionBox::TransferNft(transfer) && transfer.source@
                    == authority@ && transfer.object@ == next_nft_id(world.nfts.rows(), account)
                    && transfer.destination@ == account
            },
{
    let ghost accounts = world.accounts.rows();
    let ghost nfts = world.nfts.rows();
    let total = world.accounts.len();
    let mut instructions: Vec<InstructionBox> = Vec::new();
    let mut i: usize = 0;
    proof {
        assert(accounts.subrange(0, 0) =~= Seq::<AccountView>::empty());
    }
    while i < total
        invariant
            i <= total,
            total == accounts.len(),
            accounts == world.accounts.rows(),
            nfts == world.nfts.rows(),
            nfts.len() < u64::MAX,
            accounts_wf(accounts),
            instructions@.len() == 2 * users(accounts.subrange(0, i as int)).len(),
            forall|k: int|
                0 <= k < users(accounts.subrange(0, i as int)).len() ==> {
                    let account = users(accounts.subrange(0, i as int))[k];
                    &&& (#[trigger] instructions@[2 * k]) matches InstructionBox::RegisterNft(
                        register,
                    ) && register.object@ == gift(nfts, account)
                    &&& instructions@[2 * k + 1] matches InstructionBox::TransferNft(transfer)
                        && transfer.source@ == authority@ && transfer.object@ == next_nft_id(
                        nfts,
                        account,
                    ) && transfer.destination@ == account
                },
        decreases total - i,
    {
        let account = world.accounts.row(i);
        let ghost before = users(accounts.subrange(0, i as int));
        proof {
            let next = accounts.subrange(0, i + 1);
            assert(next.drop_last() =~= accounts.subrange(0, i as int));
            assert(next.last() == accounts[i as int]);
            assert(accounts[i as int].id.wf());
        }
        if !is_excluded(&account.id.domain) {
            let mut text = String::from_str("nft_for_");
            text.append(account.id.signatory.as_str());
            text.append("_in_");
            text.append(account.id.domain.name.as_str());
            proof {
                let id = account.id@;
                lemma_plain_words();
                lemma_plain_concat("nft_for_"@, id.signatory);
                lemma_plain_concat("nft_for_"@ + id.signatory, "_in_"@);
                lemma_plain_concat("nft_for_"@ + id.signatory + "_in_"@, id.domain);
                assert(text@ == dedication(id));
                assert(text@.len() > 0);
            }
            let name = match Name::from_str(text.as_str()) {
                Ok(name) => name,
                Err(_) => vstd::pervasive::unreached(),
            };
            let mut metadata = Metadata::new();
            let _ = metadata.insert(name, Json::new("true"));
            let nft_id = generate_new_nft_id(world, &account.id);
            let register_nft = Register::nft(Nft::new(nft_id.clone(), metadata));
            let transfer_nft = Transfer::nft(authority.clone(), nft_id, account.id.clone());
            let ghost old_instructions = instructions@;
            instructions.push(InstructionBox::RegisterNft(register_nft));
            instructions.push(InstructionBox::TransferNft(transfer_nft));
            proof {
                let after = users(accounts.subrange(0, i + 1));
                assert(after == before.push(account.id@));
                assert forall|k: int| 0 <= k < after.len() implies {
                    let who = after[k];
                    &&& (#[trigger] instructions@[2 * k]) matches InstructionBox::RegisterNft(
                        register,
                    ) && register.object@ == gift(nfts, who)
                    &&& instructions@[2 * k + 1] matches InstructionBox::TransferNft(transfer)
                        && transfer.source@ == authority@ && transfer.object@ == next_nft_id(
                        nfts,
                        who,
                    ) && transfer.destination@ == who
                } by {
                    if k < before.len() {
                        assert(instructions@[2 * k] == old_instructions[2 * k]);
                        assert(instructions@[2 * k + 1] == old_instructions[2 * k + 1]);
                        assert(after[k] == before[k]);
                    }
                }
            }
        }
        i = i + 1;
    }
    proof {
        assert(accounts.subrange(0, total as int) =~= accounts);
    }
    instructions
}

} // verus!
