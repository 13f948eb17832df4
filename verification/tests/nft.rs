use iroha_ledger::error::{Error, FindError, IdBox, InstructionType, RepetitionError, ValidationFail};
use iroha_ledger::events::Event;
use iroha_ledger::id::{AccountId, DomainId, NftId};
use iroha_ledger::isi::domain::{RegisterAccount, RegisterDomain};
use iroha_ledger::isi::nft::{Register, RemoveKeyValue, SetKeyValue, Transfer, Unregister};
use iroha_ledger::isi::InstructionBox;
use iroha_ledger::metadata::Metadata;
use iroha_ledger::name::{Json, Name};
use iroha_ledger::nft::Nft;
use iroha_ledger::query::{execute_single, CompoundPredicate, FindNfts, NftPredicate};
use iroha_ledger::error::QueryExecutionFail;
use iroha_ledger::state::State;
use iroha_ledger::transaction::Transaction;

const ALICE: &str = "ed0120CE7FA46C9DCE7EA4B125E2E36BDB63EA33073E7590AC92816AE1E861B7048B03@wonderland";
const BOB: &str = "ed012004FF5B81046DDCCF19E2E451C45DFB6F53759D4EB30FA2EFA807284D1CC33016@wonderland";
const CARPENTER: &str = "ed0120E9F632D3034BAB6BB26D92AC8FD93EF878D9C5E69E01B61B4C47101884EE2F99@wonderland";

fn account(text: &str) -> AccountId {
    AccountId::from_str(text).expect("Valid")
}

fn submit(state: &mut State, authority: &AccountId, instruction: InstructionBox) -> Result<(), ValidationFail> {
    state.execute_transaction(Transaction::new(authority.clone(), vec![instruction]))
}

/// A world with the domain `wonderland`, owned by Alice, and the accounts of
/// Alice and Bob in it.
fn network() -> State {
    let alice = account(ALICE);
    let bob = account(BOB);
    let mut state = State::new();
    let wonderland = DomainId::from_str("wonderland").expect("Valid");
    submit(&mut state, &alice, InstructionBox::RegisterDomain(RegisterDomain::domain(wonderland)))
        .expect("Failed to submit transaction");
    submit(&mut state, &alice, InstructionBox::RegisterAccount(RegisterAccount::account(alice.clone())))
        .expect("Failed to submit transaction");
    submit(&mut state, &alice, InstructionBox::RegisterAccount(RegisterAccount::account(bob)))
        .expect("Failed to submit transaction");
    state
}

fn find_one(state: &State, nft_id: &NftId) -> Result<Nft, QueryExecutionFail> {
    let filter = CompoundPredicate::Atom(NftPredicate::Id(nft_id.clone()));
    execute_single(FindNfts::new().execute(&filter, &state.world)?)
}

fn find_all(state: &State) -> Vec<Nft> {
    FindNfts::new()
        .execute(&CompoundPredicate::pass(), &state.world)
        .expect("Failed to execute Iroha Query")
}

#[test]
fn transfer_nft() {
    let mut state = network();

    let alice_id = account(ALICE);
    let bob_id = account(BOB);
    let nft_id: NftId = NftId::from_str("nft$wonderland").expect("Valid");

    submit(
        &mut state,
        &alice_id,
        InstructionBox::RegisterNft(Register::nft(Nft::new(nft_id.clone(), Metadata::default()))),
    )
    .expect("Failed to submit transaction");

    let nft = find_one(&state, &nft_id).expect("Failed to execute Iroha Query");
    assert_eq!(nft.owned_by(), &alice_id);

    submit(
        &mut state,
        &alice_id,
        InstructionBox::TransferNft(Transfer::nft(alice_id.clone(), nft_id.clone(), bob_id.clone())),
    )
    .expect("Failed to submit transaction");

    let nft = find_one(&state, &nft_id).expect("Failed to execute Iroha Query");
    assert_eq!(nft.owned_by(), &bob_id);
}

#[test]
fn client_register_nft_second_time_should_fail() {
    let mut state = network();
    let alice_id = account(ALICE);

    let nft_id: NftId = NftId::from_str("test_nft$wonderland").expect("Valid");
    let mut metadata = Metadata::default();
    metadata.insert(Name::from_str("key").expect("Valid"), Json::new("1"));
    let register_nft = Register::nft(Nft::new(nft_id.clone(), metadata.clone()));

    submit(&mut state, &alice_id, InstructionBox::RegisterNft(register_nft.clone()))
        .expect("Failed to submit transaction");

    let nft = find_all(&state).into_iter().find(|nft| *nft.id() == nft_id).unwrap();
    assert_eq!(*nft.content(), metadata);

    let second = submit(&mut state, &alice_id, InstructionBox::RegisterNft(register_nft));
    assert!(second.is_err());
    assert_eq!(
        second,
        Err(ValidationFail::InstructionFailed(Error::Repetition(RepetitionError {
            instruction: InstructionType::Register,
            id: IdBox::NftId(nft_id.clone()),
        })))
    );

    let nft = find_one(&state, &nft_id).expect("Failed to execute Iroha Query");
    assert_eq!(*nft.content(), metadata);
}

#[test]
fn unregister_nft_should_remove_nft_from_account() {
    let mut state = network();
    let alice_id = account(ALICE);

    // Given
    let nft_id: NftId = NftId::from_str("test_nft$wonderland").expect("Valid");
    let register_nft = Register::nft(Nft::new(nft_id.clone(), Metadata::default()));
    let unregister_nft = Unregister::nft(nft_id.clone());

    // Check for NFT to be registered
    submit(&mut state, &alice_id, InstructionBox::RegisterNft(register_nft))
        .expect("Failed to submit transaction");
    assert!(find_all(&state).iter().any(|nft| *nft.id() == nft_id));

    // ... and check that it is removed after Unregister
    submit(&mut state, &alice_id, InstructionBox::UnregisterNft(unregister_nft))
        .expect("Failed to submit transaction");
    assert!(find_all(&state).iter().all(|nft| *nft.id() != nft_id));
}

#[test]
fn nft_owner_cant_modify_nft() {
    let mut state = network();
    let alice_id = account(ALICE);

    let account_id = account(CARPENTER);
    let nft_id: NftId = NftId::from_str("nft$wonderland").expect("Valid");

    let create_account = RegisterAccount::account(account_id.clone());
    submit(&mut state, &alice_id, InstructionBox::RegisterAccount(create_account))
        .expect("Failed to submit transaction");

    let register_nft = Register::nft(Nft::new(nft_id.clone(), Metadata::default()));
    submit(&mut state, &alice_id, InstructionBox::RegisterNft(register_nft))
        .expect("Failed to submit transaction");

    let transfer_nft = Transfer::nft(alice_id.clone(), nft_id.clone(), account_id.clone());
    submit(&mut state, &alice_id, InstructionBox::TransferNft(transfer_nft))
        .expect("Failed to submit transaction");

    let modify_nft = SetKeyValue::nft(nft_id, Name::from_str("foo").expect("Valid"), Json::new("\"value\""));
    submit(&mut state, &alice_id, InstructionBox::SetNftKeyValue(modify_nft.clone()))
        .expect("Owner of `nft.domain` can modify NFT");

    let _ = submit(&mut state, &account_id, InstructionBox::SetNftKeyValue(modify_nft))
        .expect_err("Owner of NFT can't modify NFT");
}

#[test]
fn nft_owner_can_transfer_nft() {
    let mut state = network();
    let alice_id = account(ALICE);

    let account_id = account(CARPENTER);
    let nft_id: NftId = NftId::from_str("nft$wonderland").expect("Valid");

    let create_account = RegisterAccount::account(account_id.clone());
    submit(&mut state, &alice_id, InstructionBox::RegisterAccount(create_account))
        .expect("Failed to submit transaction");

    let register_nft = Register::nft(Nft::new(nft_id.clone(), Metadata::default()));
    submit(&mut state, &alice_id, InstructionBox::RegisterNft(register_nft))
        .expect("Failed to submit transaction");

    let transfer_nft1 = Transfer::nft(alice_id.clone(), nft_id.clone(), account_id.clone());
    submit(&mut state, &alice_id, InstructionBox::TransferNft(transfer_nft1))
        .expect("Failed to submit transaction");

    let transfer_nft2 = Transfer::nft(account_id.clone(), nft_id.clone(), alice_id.clone());
    submit(&mut state, &account_id, InstructionBox::TransferNft(transfer_nft2))
        .expect("Owner of NFT can transfer NFT");
}

#[test]
fn nft_modification_by_owner_is_refused_in_these_words() {
    let mut state = network();
    let alice_id = account(ALICE);
    let bob_id = account(BOB);
    let nft_id = NftId::from_str("nft$wonderland").expect("Valid");
    submit(
        &mut state,
        &alice_id,
        InstructionBox::RegisterNft(Register::nft(Nft::new(nft_id.clone(), Metadata::default()))),
    )
    .unwrap();
    submit(
        &mut state,
        &alice_id,
        InstructionBox::TransferNft(Transfer::nft(alice_id.clone(), nft_id.clone(), bob_id.clone())),
    )
    .unwrap();
    let refused = submit(
        &mut state,
        &bob_id,
        InstructionBox::RemoveNftKeyValue(RemoveKeyValue::nft(nft_id, Name::from_str("foo").unwrap())),
    );
    assert_eq!(
        refused,
        Err(ValidationFail::NotPermitted(
            "Can't remove value from the metadata of an NFT in a domain owned by another account".to_string()
        ))
    );
}

#[test]
fn nft_transfer_by_non_owner_is_an_invariant_violation() {
    let mut state = network();
    let alice_id = account(ALICE);
    let bob_id = account(BOB);
    let nft_id = NftId::from_str("nft$wonderland").expect("Valid");
    submit(
        &mut state,
        &alice_id,
        InstructionBox::RegisterNft(Register::nft(Nft::new(nft_id.clone(), Metadata::default()))),
    )
    .unwrap();
    // Alice owns the domain and may give the instruction, but Bob is not the owner of the NFT.
    let failed = submit(
        &mut state,
        &alice_id,
        InstructionBox::TransferNft(Transfer::nft(bob_id.clone(), nft_id.clone(), alice_id.clone())),
    );
    assert_eq!(
        failed,
        Err(ValidationFail::InstructionFailed(Error::InvariantViolation(format!(
            "Can't transfer NFT nft$wonderland since {BOB} doesn't own it"
        ))))
    );
    assert_eq!(find_one(&state, &nft_id).unwrap().owned_by(), &alice_id);
}

#[test]
fn nft_of_missing_domain_cannot_be_registered() {
    let mut state = network();
    let alice_id = account(ALICE);
    let nft_id = NftId::from_str("nft$looking_glass").expect("Valid");
    let refused = submit(
        &mut state,
        &alice_id,
        InstructionBox::RegisterNft(Register::nft(Nft::new(nft_id, Metadata::default()))),
    );
    assert_eq!(
        refused,
        Err(ValidationFail::NotPermitted(
            "Can't register NFT in a domain owned by another account".to_string()
        ))
    );
}

#[test]
fn unregister_of_absent_nft_is_not_found() {
    let mut state = network();
    let alice_id = account(ALICE);
    let nft_id = NftId::from_str("nft$wonderland").expect("Valid");
    let failed = submit(&mut state, &alice_id, InstructionBox::UnregisterNft(Unregister::nft(nft_id.clone())));
    assert_eq!(failed, Err(ValidationFail::InstructionFailed(Error::Find(FindError::Nft(nft_id.clone())))));
    assert_eq!(find_one(&state, &nft_id), Err(QueryExecutionFail::ExpectedOneGotNone));
}

#[test]
fn nft_metadata_events_carry_the_values() {
    let mut state = network();
    let alice_id = account(ALICE);
    let nft_id = NftId::from_str("nft$wonderland").expect("Valid");
    let key = Name::from_str("colour").unwrap();
    submit(
        &mut state,
        &alice_id,
        InstructionBox::RegisterNft(Register::nft(Nft::new(nft_id.clone(), Metadata::default()))),
    )
    .unwrap();
    let before = state.events.len();
    submit(
        &mut state,
        &alice_id,
        InstructionBox::SetNftKeyValue(SetKeyValue::nft(nft_id.clone(), key.clone(), Json::new("\"red\""))),
    )
    .unwrap();
    submit(
        &mut state,
        &alice_id,
        InstructionBox::RemoveNftKeyValue(RemoveKeyValue::nft(nft_id.clone(), key.clone())),
    )
    .unwrap();
    assert_eq!(
        state.events[before..],
        [
            Event::NftMetadataInserted { target: nft_id.clone(), key: key.clone(), value: Json::new("\"red\"") },
            Event::NftMetadataRemoved { target: nft_id.clone(), key: key.clone(), value: Json::new("\"red\"") },
        ]
    );
    assert!(find_one(&state, &nft_id).unwrap().content().get(&key).is_none());

    let missing = submit(
        &mut state,
        &alice_id,
        InstructionBox::RemoveNftKeyValue(RemoveKeyValue::nft(nft_id, key.clone())),
    );
    assert_eq!(missing, Err(ValidationFail::InstructionFailed(Error::Find(FindError::MetadataKey(key)))));
}

#[test]
fn failed_transaction_leaves_no_trace_in_world_or_events() {
    let mut state = network();
    let alice_id = account(ALICE);
    let first = NftId::from_str("first$wonderland").unwrap();
    let second = NftId::from_str("second$wonderland").unwrap();
    let world_before = find_all(&state);
    let events_before = state.events.len();
    // The second instruction repeats the first: the whole transaction fails.
    let failed = state.execute_transaction(Transaction::new(
        alice_id.clone(),
        vec![
            InstructionBox::RegisterNft(Register::nft(Nft::new(first.clone(), Metadata::default()))),
            InstructionBox::RegisterNft(Register::nft(Nft::new(second, Metadata::default()))),
            InstructionBox::RegisterNft(Register::nft(Nft::new(first, Metadata::default()))),
        ],
    ));
    assert!(failed.is_err());
    assert_eq!(find_all(&state), world_before);
    assert_eq!(state.events.len(), events_before);
}

#[test]
fn nfts_are_found_in_the_order_of_their_ids() {
    let mut state = network();
    let alice_id = account(ALICE);
    for name in ["zebra", "apple", "mango"] {
        let id = NftId::from_str(&format!("{name}$wonderland")).unwrap();
        submit(&mut state, &alice_id, InstructionBox::RegisterNft(Register::nft(Nft::new(id, Metadata::default()))))
            .unwrap();
    }
    let names: Vec<String> = find_all(&state).iter().map(|nft| nft.id().to_string()).collect();
    assert_eq!(names, vec!["apple$wonderland", "mango$wonderland", "zebra$wonderland"]);
}
