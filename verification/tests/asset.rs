use iroha_ledger::asset::{Asset, AssetDefinition, Mintable};
use iroha_ledger::error::{
    Error, FindError, IdBox, InstructionType, MathError, MintabilityError, Mismatch, QueryExecutionFail, RepetitionError,
    ValidationFail,
};
use iroha_ledger::events::Event;
use iroha_ledger::id::{AccountId, AssetDefinitionId, AssetId, DomainId};
use iroha_ledger::isi::asset::{assert_can_mint, assert_numeric_spec, Burn, Mint, Transfer};
use iroha_ledger::isi::domain::{RegisterAccount, RegisterAssetDefinition, RegisterDomain, UnregisterAssetDefinition};
use iroha_ledger::isi::InstructionBox;
use iroha_ledger::numeric::{Numeric, NumericSpec};
use iroha_ledger::query::{execute_single, AssetDefinitionPredicate, AssetPredicate, CompoundPredicate, FindAssets, FindAssetsDefinitions};
use iroha_ledger::state::State;
use iroha_ledger::transaction::Transaction;

const ALICE: &str = "ed0120CE7FA46C9DCE7EA4B125E2E36BDB63EA33073E7590AC92816AE1E861B7048B03@wonderland";
const BOB: &str = "ed012004FF5B81046DDCCF19E2E451C45DFB6F53759D4EB30FA2EFA807284D1CC33016@wonderland";

fn account(text: &str) -> AccountId {
    AccountId::from_str(text).expect("Valid")
}

fn submit(state: &mut State, instruction: InstructionBox) -> Result<(), ValidationFail> {
    state.execute_transaction(Transaction::new(account(ALICE), vec![instruction]))
}

fn submit_all(state: &mut State, instructions: Vec<InstructionBox>) -> Result<(), ValidationFail> {
    state.execute_transaction(Transaction::new(account(ALICE), instructions))
}

/// A world with the domain `wonderland` and the accounts of Alice and Bob.
fn network() -> State {
    let mut state = State::new();
    submit(&mut state, InstructionBox::RegisterDomain(RegisterDomain::domain(DomainId::from_str("wonderland").unwrap())))
        .unwrap();
    submit(&mut state, InstructionBox::RegisterAccount(RegisterAccount::account(account(ALICE)))).unwrap();
    submit(&mut state, InstructionBox::RegisterAccount(RegisterAccount::account(account(BOB)))).unwrap();
    state
}

fn define(state: &mut State, definition: &str, spec: NumericSpec) -> AssetDefinitionId {
    let id = AssetDefinitionId::from_str(definition).expect("Failed to parse `definition_id`");
    submit(
        state,
        InstructionBox::RegisterAssetDefinition(RegisterAssetDefinition::asset_definition(AssetDefinition::new(
            id.clone(),
            spec,
        ))),
    )
    .unwrap();
    id
}

fn quantity(state: &State, definition_id: &AssetDefinitionId) -> Result<Numeric, QueryExecutionFail> {
    let filter = CompoundPredicate::Atom(AssetDefinitionPredicate::Id(definition_id.clone()));
    Ok(execute_single(FindAssetsDefinitions::new().execute(&filter, &state.world)?)?.total_quantity())
}

fn balance(state: &State, asset_id: &AssetId) -> Option<Numeric> {
    let filter = CompoundPredicate::Atom(AssetPredicate::Id(asset_id.clone()));
    execute_single(FindAssets::new().execute(&filter, &state.world).unwrap()).ok().map(|asset| asset.value())
}

#[allow(clippy::too_many_arguments)]
fn test_total_quantity(
    state: &mut State,
    accounts: &[AccountId; 5],
    definition: &str,
    asset_spec: NumericSpec,
    initial_value: Numeric,
    to_mint: Numeric,
    to_burn: Numeric,
    expected_total_asset_quantity: Numeric,
) {
    // Registering new asset definition
    let definition_id = define(state, definition, asset_spec);

    let asset_ids = accounts
        .iter()
        .cloned()
        .map(|account_id| AssetId::new(definition_id.clone(), account_id))
        .collect::<Vec<_>>();

    // Assert that initial total quantity before any burns and mints is zero
    let initial_total_asset_quantity = quantity(state, &definition_id).unwrap();
    assert!(initial_total_asset_quantity.is_zero());

    let register_assets = asset_ids
        .iter()
        .cloned()
        .map(|asset_id| InstructionBox::MintAsset(Mint::asset_numeric(initial_value, asset_id)))
        .collect::<Vec<_>>();
    submit_all(state, register_assets).unwrap();

    let mint_assets = asset_ids
        .iter()
        .cloned()
        .map(|asset_id| InstructionBox::MintAsset(Mint::asset_numeric(to_mint, asset_id)))
        .collect::<Vec<_>>();
    submit_all(state, mint_assets).unwrap();

    let burn_assets = asset_ids
        .iter()
        .cloned()
        .map(|asset_id| InstructionBox::BurnAsset(Burn::asset_numeric(to_burn, asset_id)))
        .collect::<Vec<_>>();
    submit_all(state, burn_assets).unwrap();

    // Assert that total asset quantity is equal to: `n_accounts * (initial_value + to_mint - to_burn)`
    let total_asset_quantity = quantity(state, &definition_id).unwrap();
    assert_eq!(expected_total_asset_quantity, total_asset_quantity);

    let burn_to_zero = initial_value.checked_add(to_mint).unwrap().checked_sub(to_burn).unwrap();
    let unregister_assets = asset_ids
        .iter()
        .cloned()
        .map(|asset_id| InstructionBox::BurnAsset(Burn::asset_numeric(burn_to_zero, asset_id)))
        .collect::<Vec<_>>();
    submit_all(state, unregister_assets).unwrap();

    // Assert that total asset quantity is zero after unregistering asset from all accounts
    let total_asset_quantity = quantity(state, &definition_id).unwrap();
    assert!(total_asset_quantity.is_zero());
    for asset_id in &asset_ids {
        assert_eq!(balance(state, asset_id), None);
    }

    // Unregister asset definition
    submit(
        state,
        InstructionBox::UnregisterAssetDefinition(UnregisterAssetDefinition::asset_definition(definition_id.clone())),
    )
    .unwrap();

    // Assert that total asset quantity cleared with unregistering of asset definition
    let result = quantity(state, &definition_id);
    assert!(matches!(result, Err(QueryExecutionFail::ExpectedOneGotNone)));
}

#[test]
#[allow(clippy::too_many_lines)]
fn find_asset_total_quantity() {
    let mut state = network();

    // Register new domain
    let domain_id: DomainId = DomainId::from_str("looking_glass").unwrap();
    submit(&mut state, InstructionBox::RegisterDomain(RegisterDomain::domain(domain_id))).unwrap();

    let accounts: [AccountId; 5] = [
        account(ALICE),
        account("ed0120A98BAFB0663CE08D75EBD506FEC38A84E576A7C9B0897693ED4B04FD9EF2D18D@wonderland"),
        account("ed0120E2ECD69DA5833EC10FB3DFAED83A07E5B9CBE9BC39484F0F7DDEC8B46253428B@wonderland"),
        account("ed01208A9B9C4ED6CD643DD8B98BCC2C1F8FB1117D126610B1D6BDFC5CD3B5A3D6EA1B@wonderland"),
        account("ed0120BFC57A211A0DFAD0FE9DE72AE8ED2A8A6C6D7F4B4B5CC8F0C4E6D3A5081D9A5B@looking_glass"),
    ];

    // Registering accounts
    let register_accounts = accounts
        .iter()
        .skip(1) // Alice has already been registered in genesis
        .cloned()
        .map(|account_id| InstructionBox::RegisterAccount(RegisterAccount::account(account_id)))
        .collect::<Vec<_>>();
    submit_all(&mut state, register_accounts).unwrap();

    // Test for numeric assets value types
    test_total_quantity(
        &mut state,
        &accounts,
        "quantity#wonderland",
        NumericSpec::default(),
        Numeric::new(1, 0),
        Numeric::new(10, 0),
        Numeric::new(5, 0),
        Numeric::new(30, 0),
    );
    test_total_quantity(
        &mut state,
        &accounts,
        "fixed#wonderland",
        NumericSpec::default(),
        Numeric::new(10, 1),
        Numeric::new(100, 1),
        Numeric::new(50, 1),
        Numeric::new(300, 1),
    );
}

#[test]
fn mint_once_can_be_minted_once() {
    let mut state = network();
    let id = AssetDefinitionId::from_str("medal#wonderland").unwrap();
    submit(
        &mut state,
        InstructionBox::RegisterAssetDefinition(RegisterAssetDefinition::asset_definition(
            AssetDefinition::new(id.clone(), NumericSpec::integer()).mintable_once(),
        )),
    )
    .unwrap();
    let asset_id = AssetId::new(id.clone(), account(ALICE));
    let events_before = state.events.len();

    submit(&mut state, InstructionBox::MintAsset(Mint::asset_numeric(Numeric::new(3, 0), asset_id.clone()))).unwrap();
    assert_eq!(
        state.events[events_before..],
        [
            Event::AssetDefinitionMintabilityChanged(id.clone()),
            Event::AssetAdded { asset: asset_id.clone(), amount: Numeric::new(3, 0) },
        ]
    );
    let filter = CompoundPredicate::Atom(AssetDefinitionPredicate::Id(id.clone()));
    let definition = execute_single(FindAssetsDefinitions::new().execute(&filter, &state.world).unwrap()).unwrap();
    assert_eq!(definition.mintable, Mintable::Not);

    let second = submit(&mut state, InstructionBox::MintAsset(Mint::asset_numeric(Numeric::new(1, 0), asset_id.clone())));
    assert_eq!(second, Err(ValidationFail::InstructionFailed(Error::Mintability(MintabilityError::MintUnmintable))));
    assert_eq!(balance(&state, &asset_id), Some(Numeric::new(3, 0)));
    assert_eq!(quantity(&state, &id), Ok(Numeric::new(3, 0)));
}

#[test]
fn mint_checks_the_spec_of_the_definition() {
    let mut state = network();
    let id = define(&mut state, "coin#wonderland", NumericSpec::fractional(2));
    let asset_id = AssetId::new(id, account(ALICE));
    let refused = submit(&mut state, InstructionBox::MintAsset(Mint::asset_numeric(Numeric::new(1, 3), asset_id.clone())));
    assert_eq!(
        refused,
        Err(ValidationFail::InstructionFailed(Error::Type(Mismatch {
            expected: NumericSpec::fractional(2),
            actual: NumericSpec::fractional(3),
        })))
    );
    submit(&mut state, InstructionBox::MintAsset(Mint::asset_numeric(Numeric::new(125, 2), asset_id.clone()))).unwrap();
    assert_eq!(balance(&state, &asset_id), Some(Numeric::new(125, 2)));
}

#[test]
fn mint_of_unknown_definition_or_account_is_not_found() {
    let mut state = network();
    let unknown = AssetDefinitionId::from_str("ghost#wonderland").unwrap();
    let asset_id = AssetId::new(unknown.clone(), account(ALICE));
    assert_eq!(
        submit(&mut state, InstructionBox::MintAsset(Mint::asset_numeric(Numeric::new(1, 0), asset_id))),
        Err(ValidationFail::InstructionFailed(Error::Find(FindError::AssetDefinition(unknown))))
    );
    let id = define(&mut state, "coin#wonderland", NumericSpec::default());
    let stranger = account("ed0120A98BAFB0663CE08D75EBD506FEC38A84E576A7C9B0897693ED4B04FD9EF2D18D@wonderland");
    let asset_id = AssetId::new(id.clone(), stranger.clone());
    assert_eq!(
        submit(&mut state, InstructionBox::MintAsset(Mint::asset_numeric(Numeric::new(1, 0), asset_id))),
        Err(ValidationFail::InstructionFailed(Error::Find(FindError::Account(stranger))))
    );
    assert_eq!(quantity(&state, &id), Ok(Numeric::new(0, 0)));
}

#[test]
fn mint_that_overflows_changes_nothing() {
    let mut state = network();
    let id = define(&mut state, "coin#wonderland", NumericSpec::default());
    let alice = AssetId::new(id.clone(), account(ALICE));
    let bob = AssetId::new(id.clone(), account(BOB));
    submit(&mut state, InstructionBox::MintAsset(Mint::asset_numeric(Numeric::new(u128::MAX, 0), alice.clone()))).unwrap();
    // Alice's holding overflows.
    assert_eq!(
        submit(&mut state, InstructionBox::MintAsset(Mint::asset_numeric(Numeric::new(1, 0), alice.clone()))),
        Err(ValidationFail::InstructionFailed(Error::Math(MathError::Overflow)))
    );
    // Bob's holding would fit, the total quantity does not.
    assert_eq!(
        submit(&mut state, InstructionBox::MintAsset(Mint::asset_numeric(Numeric::new(1, 0), bob.clone()))),
        Err(ValidationFail::InstructionFailed(Error::Math(MathError::Overflow)))
    );
    assert_eq!(balance(&state, &alice), Some(Numeric::new(u128::MAX, 0)));
    assert_eq!(balance(&state, &bob), None);
    assert_eq!(quantity(&state, &id), Ok(Numeric::new(u128::MAX, 0)));
}

#[test]
fn mint_of_zero_makes_no_row() {
    let mut state = network();
    let id = define(&mut state, "coin#wonderland", NumericSpec::default());
    let alice = AssetId::new(id.clone(), account(ALICE));
    submit(&mut state, InstructionBox::MintAsset(Mint::asset_numeric(Numeric::new(0, 0), alice.clone()))).unwrap();
    assert_eq!(balance(&state, &alice), None);
    assert_eq!(quantity(&state, &id), Ok(Numeric::new(0, 0)));
}

#[test]
fn burn_of_more_than_held_is_refused() {
    let mut state = network();
    let id = define(&mut state, "coin#wonderland", NumericSpec::default());
    let alice = AssetId::new(id.clone(), account(ALICE));
    let bob = AssetId::new(id.clone(), account(BOB));
    assert_eq!(
        submit(&mut state, InstructionBox::BurnAsset(Burn::asset_numeric(Numeric::new(1, 0), alice.clone()))),
        Err(ValidationFail::InstructionFailed(Error::Find(FindError::Asset(alice.clone()))))
    );
    submit(&mut state, InstructionBox::MintAsset(Mint::asset_numeric(Numeric::new(5, 0), alice.clone()))).unwrap();
    submit(&mut state, InstructionBox::MintAsset(Mint::asset_numeric(Numeric::new(7, 0), bob.clone()))).unwrap();
    assert_eq!(
        submit(&mut state, InstructionBox::BurnAsset(Burn::asset_numeric(Numeric::new(6, 0), alice.clone()))),
        Err(ValidationFail::InstructionFailed(Error::Math(MathError::NotEnoughQuantity)))
    );
    assert_eq!(balance(&state, &alice), Some(Numeric::new(5, 0)));
    let events_before = state.events.len();
    submit(&mut state, InstructionBox::BurnAsset(Burn::asset_numeric(Numeric::new(5, 0), alice.clone()))).unwrap();
    assert_eq!(state.events[events_before..], [Event::AssetRemoved { asset: alice.clone(), amount: Numeric::new(5, 0) }]);
    assert_eq!(balance(&state, &alice), None);
    assert_eq!(quantity(&state, &id), Ok(Numeric::new(7, 0)));
}

#[test]
fn transfer_moves_the_quantity_and_keeps_the_total() {
    let mut state = network();
    let id = define(&mut state, "coin#wonderland", NumericSpec::default());
    let alice = AssetId::new(id.clone(), account(ALICE));
    let bob = AssetId::new(id.clone(), account(BOB));
    submit(&mut state, InstructionBox::MintAsset(Mint::asset_numeric(Numeric::new(10, 0), alice.clone()))).unwrap();
    submit(&mut state, InstructionBox::MintAsset(Mint::asset_numeric(Numeric::new(2, 0), bob.clone()))).unwrap();
    let events_before = state.events.len();

    submit(
        &mut state,
        InstructionBox::TransferAsset(Transfer::asset_numeric(alice.clone(), Numeric::new(4, 0), account(BOB))),
    )
    .unwrap();
    assert_eq!(balance(&state, &alice), Some(Numeric::new(6, 0)));
    assert_eq!(balance(&state, &bob), Some(Numeric::new(6, 0)));
    assert_eq!(quantity(&state, &id), Ok(Numeric::new(12, 0)));
    assert_eq!(
        state.events[events_before..],
        [
            Event::AssetRemoved { asset: alice.clone(), amount: Numeric::new(4, 0) },
            Event::AssetAdded { asset: bob.clone(), amount: Numeric::new(4, 0) },
        ]
    );

    // The whole holding: the row of the source goes away.
    submit(
        &mut state,
        InstructionBox::TransferAsset(Transfer::asset_numeric(alice.clone(), Numeric::new(6, 0), account(BOB))),
    )
    .unwrap();
    assert_eq!(balance(&state, &alice), None);
    assert_eq!(balance(&state, &bob), Some(Numeric::new(12, 0)));
    assert_eq!(quantity(&state, &id), Ok(Numeric::new(12, 0)));
}

#[test]
fn transfer_to_oneself_keeps_the_holding() {
    let mut state = network();
    let id = define(&mut state, "coin#wonderland", NumericSpec::default());
    let alice = AssetId::new(id.clone(), account(ALICE));
    submit(&mut state, InstructionBox::MintAsset(Mint::asset_numeric(Numeric::new(10, 0), alice.clone()))).unwrap();
    submit(
        &mut state,
        InstructionBox::TransferAsset(Transfer::asset_numeric(alice.clone(), Numeric::new(10, 0), account(ALICE))),
    )
    .unwrap();
    assert_eq!(balance(&state, &alice), Some(Numeric::new(10, 0)));
    assert_eq!(
        submit(
            &mut state,
            InstructionBox::TransferAsset(Transfer::asset_numeric(alice.clone(), Numeric::new(11, 0), account(ALICE))),
        ),
        Err(ValidationFail::InstructionFailed(Error::Math(MathError::NotEnoughQuantity)))
    );
    assert_eq!(balance(&state, &alice), Some(Numeric::new(10, 0)));
    assert_eq!(quantity(&state, &id), Ok(Numeric::new(10, 0)));
}

#[test]
fn transfer_to_unknown_account_is_refused() {
    let mut state = network();
    let id = define(&mut state, "coin#wonderland", NumericSpec::default());
    let alice = AssetId::new(id.clone(), account(ALICE));
    submit(&mut state, InstructionBox::MintAsset(Mint::asset_numeric(Numeric::new(10, 0), alice.clone()))).unwrap();
    let stranger = account("ed0120A98BAFB0663CE08D75EBD506FEC38A84E576A7C9B0897693ED4B04FD9EF2D18D@wonderland");
    assert_eq!(
        submit(
            &mut state,
            InstructionBox::TransferAsset(Transfer::asset_numeric(alice.clone(), Numeric::new(1, 0), stranger.clone())),
        ),
        Err(ValidationFail::InstructionFailed(Error::Find(FindError::Account(stranger))))
    );
    assert_eq!(balance(&state, &alice), Some(Numeric::new(10, 0)));
}

#[test]
fn unregistering_a_definition_removes_its_assets() {
    let mut state = network();
    let coin = define(&mut state, "coin#wonderland", NumericSpec::default());
    let gem = define(&mut state, "gem#wonderland", NumericSpec::default());
    let coins = AssetId::new(coin.clone(), account(ALICE));
    let gems = AssetId::new(gem.clone(), account(ALICE));
    submit(&mut state, InstructionBox::MintAsset(Mint::asset_numeric(Numeric::new(10, 0), coins.clone()))).unwrap();
    submit(&mut state, InstructionBox::MintAsset(Mint::asset_numeric(Numeric::new(3, 0), gems.clone()))).unwrap();
    submit(&mut state, InstructionBox::UnregisterAssetDefinition(UnregisterAssetDefinition::asset_definition(coin.clone())))
        .unwrap();
    assert_eq!(balance(&state, &coins), None);
    assert_eq!(balance(&state, &gems), Some(Numeric::new(3, 0)));
    assert_eq!(quantity(&state, &gem), Ok(Numeric::new(3, 0)));
    // Registered anew, the definition starts from nothing.
    define(&mut state, "coin#wonderland", NumericSpec::default());
    assert_eq!(quantity(&state, &coin), Ok(Numeric::new(0, 0)));
    let all: Vec<Asset> = FindAssets::new().execute(&CompoundPredicate::pass(), &state.world).unwrap();
    assert_eq!(all, vec![Asset::new(gems, Numeric::new(3, 0))]);
}

#[test]
fn numeric_spec_assertion_names_both_specs() {
    let definition = AssetDefinition::new(AssetDefinitionId::from_str("coin#wonderland").unwrap(), NumericSpec::integer())
        .build(&account(ALICE));
    assert_eq!(assert_numeric_spec(&Numeric::new(5, 0), &definition), Ok(NumericSpec::integer()));
    assert_eq!(
        assert_numeric_spec(&Numeric::new(5, 1), &definition),
        Err(Error::Type(Mismatch { expected: NumericSpec::integer(), actual: NumericSpec::fractional(1) }))
    );
}

#[test]
fn can_mint_assertion_follows_the_mintability() {
    let mut state = network();
    let id = AssetDefinitionId::from_str("medal#wonderland").unwrap();
    submit(
        &mut state,
        InstructionBox::RegisterAssetDefinition(RegisterAssetDefinition::asset_definition(
            AssetDefinition::new(id.clone(), NumericSpec::integer()).mintable_once(),
        )),
    )
    .unwrap();
    let mut transaction = state.transaction();
    let once = transaction.world.asset_definition(&id).unwrap().clone();
    assert_eq!(assert_can_mint(&once, &mut transaction), Ok(()));
    assert_eq!(transaction.events, vec![Event::AssetDefinitionMintabilityChanged(id.clone())]);
    let not = transaction.world.asset_definition(&id).unwrap().clone();
    assert_eq!(not.mintable, Mintable::Not);
    assert_eq!(assert_can_mint(&not, &mut transaction), Err(Error::Mintability(MintabilityError::MintUnmintable)));
    // The definition in hand says "once", the world says "not".
    assert_eq!(
        assert_can_mint(&once, &mut transaction),
        Err(Error::Mintability(MintabilityError::ForbidMintOnMintable))
    );
    let infinitely = AssetDefinition::new(id, NumericSpec::integer()).build(&account(ALICE));
    assert_eq!(assert_can_mint(&infinitely, &mut transaction), Ok(()));
    assert_eq!(transaction.events.len(), 1);
}

#[test]
fn registration_needs_a_free_id_and_an_existing_domain() {
    let mut state = network();
    let repeated = |id: IdBox| {
        Err(ValidationFail::InstructionFailed(Error::Repetition(RepetitionError { instruction: InstructionType::Register, id })))
    };
    let wonderland = DomainId::from_str("wonderland").unwrap();
    assert_eq!(
        submit(&mut state, InstructionBox::RegisterDomain(RegisterDomain::domain(wonderland.clone()))),
        repeated(IdBox::DomainId(wonderland))
    );
    assert_eq!(
        submit(&mut state, InstructionBox::RegisterAccount(RegisterAccount::account(account(BOB)))),
        repeated(IdBox::AccountId(account(BOB)))
    );
    let coin = define(&mut state, "coin#wonderland", NumericSpec::default());
    assert_eq!(
        submit(
            &mut state,
            InstructionBox::RegisterAssetDefinition(RegisterAssetDefinition::asset_definition(
                AssetDefinition::new(coin.clone(), NumericSpec::integer()).mintable_once()
            ))
        ),
        repeated(IdBox::AssetDefinitionId(coin.clone()))
    );
    let nowhere = DomainId::from_str("nowhere").unwrap();
    assert_eq!(
        submit(&mut state, InstructionBox::RegisterAccount(RegisterAccount::account(account("ed0120CE7F@nowhere")))),
        Err(ValidationFail::InstructionFailed(Error::Find(FindError::Domain(nowhere.clone()))))
    );
    assert_eq!(
        submit(
            &mut state,
            InstructionBox::RegisterAssetDefinition(RegisterAssetDefinition::asset_definition(AssetDefinition::new(
                AssetDefinitionId::from_str("coin#nowhere").unwrap(),
                NumericSpec::default()
            )))
        ),
        Err(ValidationFail::InstructionFailed(Error::Find(FindError::Domain(nowhere))))
    );
    let ghost = AssetDefinitionId::from_str("ghost#wonderland").unwrap();
    assert_eq!(
        submit(&mut state, InstructionBox::UnregisterAssetDefinition(UnregisterAssetDefinition::asset_definition(ghost.clone()))),
        Err(ValidationFail::InstructionFailed(Error::Find(FindError::AssetDefinition(ghost))))
    );
    // The definition is as it was registered first.
    assert_eq!(state.world.asset_definition(&coin).unwrap().mintable, Mintable::Infinitely);
    assert_eq!(state.world.asset_definition(&coin).unwrap().owned_by, account(ALICE));
}
