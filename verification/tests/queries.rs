use iroha_ledger::block::{Block, BlockHash, BlockHeader, Chain, ChainError};
use iroha_ledger::error::{Error, IdBox, InstructionType, QueryExecutionFail, RepetitionError, ValidationFail};
use iroha_ledger::id::{AccountId, DomainId, NftId};
use iroha_ledger::isi::domain::{RegisterAccount, RegisterDomain};
use iroha_ledger::isi::nft::Register;
use iroha_ledger::isi::InstructionBox;
use iroha_ledger::live_query::{Cursor, FetchSize, LiveQueryStore, DEFAULT_FETCH_SIZE, MAX_FETCH_SIZE};
use iroha_ledger::metadata::Metadata;
use iroha_ledger::nft::Nft;
use iroha_ledger::query::{execute_single, start_query, AssetPredicate, CompoundPredicate, FindNfts, NftPredicate};
use iroha_ledger::state::State;
use iroha_ledger::transaction::Transaction;

const ALICE: &str = "ed0120CE7FA46C9DCE7EA4B125E2E36BDB63EA33073E7590AC92816AE1E861B7048B03@wonderland";
const BOB: &str = "ed012004FF5B81046DDCCF19E2E451C45DFB6F53759D4EB30FA2EFA807284D1CC33016@wonderland";

fn account(text: &str) -> AccountId {
    AccountId::from_str(text).expect("Valid")
}

fn submit(state: &mut State, instruction: InstructionBox) -> Result<(), ValidationFail> {
    state.execute_transaction(Transaction::new(account(ALICE), vec![instruction]))
}

fn network() -> State {
    let mut state = State::new();
    submit(&mut state, InstructionBox::RegisterDomain(RegisterDomain::domain(DomainId::from_str("wonderland").unwrap())))
        .unwrap();
    submit(&mut state, InstructionBox::RegisterAccount(RegisterAccount::account(account(ALICE)))).unwrap();
    submit(&mut state, InstructionBox::RegisterAccount(RegisterAccount::account(account(BOB)))).unwrap();
    state
}

fn hash(byte: u8) -> BlockHash {
    BlockHash::new([byte; 32])
}

#[test]
fn too_big_fetch_size_is_not_allowed() {
    let state = network();
    let mut live_queries = LiveQueryStore::new();

    let err = start_query(
        &mut live_queries,
        &state.world.assets,
        &CompoundPredicate::<AssetPredicate>::pass(),
        FetchSize::new(Some(MAX_FETCH_SIZE.checked_add(1).unwrap())).unwrap(),
    )
    .expect_err("Should fail");

    assert!(matches!(
        ValidationFail::from(err),
        ValidationFail::QueryFailed(QueryExecutionFail::FetchSizeTooBig)
    ));
    assert_eq!(live_queries, LiveQueryStore::new());
}

/// Executes `transactions` as the next block and appends it to the chain.
fn commit_block(state: &mut State, chain: &mut Chain, transactions: Vec<Transaction>) {
    let height = chain.height() as u64 + 1;
    let prev_block_hash = chain.block(height - 1).map(|block| block.header().hash());
    let committed = state.execute_block(transactions);
    let header = BlockHeader::new(height, prev_block_hash, hash(height as u8));
    chain.push(Block::new(header, committed)).expect("the block continues the chain");
}

/// A chain of a first block that sets the world up, followed by an empty block.
fn started_network() -> (State, Chain) {
    let mut state = State::new();
    let mut chain = Chain::new();
    let wonderland = DomainId::from_str("wonderland").unwrap();
    commit_block(
        &mut state,
        &mut chain,
        vec![Transaction::new(
            account(ALICE),
            vec![
                InstructionBox::RegisterDomain(RegisterDomain::domain(wonderland)),
                InstructionBox::RegisterAccount(RegisterAccount::account(account(ALICE))),
            ],
        )],
    );
    commit_block(&mut state, &mut chain, vec![]);
    (state, chain)
}

#[test]
fn find_blocks_reversed() {
    let (mut state, mut chain) = started_network();

    let register_domain = RegisterDomain::domain(DomainId::from_str("domain1").unwrap());
    commit_block(
        &mut state,
        &mut chain,
        vec![Transaction::new(account(ALICE), vec![InstructionBox::RegisterDomain(register_domain)])],
    );

    // Waiting for empty block to be committed
    commit_block(&mut state, &mut chain, vec![]);

    let blocks = chain.find_blocks();
    assert_eq!(blocks.len(), 4);
    assert_eq!(blocks[blocks.len() - 1].header().prev_block_hash(), None);
    for i in 0..blocks.len() - 1 {
        assert_eq!(blocks[i].header().prev_block_hash(), Some(blocks[i + 1].header().hash()));
    }
    assert!(blocks[0].is_empty());
}

#[test]
fn find_transactions_reversed() {
    let (mut state, mut chain) = started_network();

    let register_domain = RegisterDomain::domain(DomainId::from_str("domain1").unwrap());
    commit_block(
        &mut state,
        &mut chain,
        vec![Transaction::new(account(ALICE), vec![InstructionBox::RegisterDomain(register_domain.clone())])],
    );

    let txs = chain.find_transactions();

    // check that latest transaction is register domain
    let instructions = &txs[0].transaction.instructions;
    assert_eq!(instructions.len(), 1);
    assert_eq!(instructions[0], InstructionBox::RegisterDomain(register_domain));
}

#[test]
fn failed_transactions_are_recorded_with_their_reason() {
    let (mut state, mut chain) = started_network();
    let bob = || InstructionBox::RegisterAccount(RegisterAccount::account(account(BOB)));
    let domain2 = || InstructionBox::RegisterDomain(RegisterDomain::domain(DomainId::from_str("domain2").unwrap()));
    commit_block(
        &mut state,
        &mut chain,
        vec![
            Transaction::new(account(ALICE), vec![bob()]),
            // Fails, and takes its first instruction down with it.
            Transaction::new(account(ALICE), vec![domain2(), bob()]),
            Transaction::new(account(BOB), vec![domain2()]),
        ],
    );
    let txs = chain.find_transactions();
    assert_eq!(txs.len(), 4);
    assert_eq!(txs[0].transaction.authority, account(BOB));
    assert_eq!(txs[0].error, None);
    assert_eq!(txs[1].transaction.instructions, vec![domain2(), bob()]);
    assert_eq!(
        txs[1].error,
        Some(ValidationFail::InstructionFailed(Error::Repetition(RepetitionError {
            instruction: InstructionType::Register,
            id: IdBox::AccountId(account(BOB)),
        })))
    );
    assert_eq!(txs[2].error, None);
    assert_eq!(txs[3].transaction.instructions.len(), 2);
    // The domain is owned by the authority of the transaction that succeeded.
    assert_eq!(state.world.domain(&DomainId::from_str("domain2").unwrap()).unwrap().owned_by, account(BOB));
}

#[test]
fn chain_refuses_blocks_that_do_not_continue_it() {
    let block = |height: u64, prev: Option<BlockHash>, own: BlockHash| Block::new(BlockHeader::new(height, prev, own), vec![]);
    let mut chain = Chain::new();
    assert_eq!(chain.push(block(2, None, hash(1))), Err(ChainError::HeightMismatch));
    assert_eq!(chain.push(block(1, Some(hash(0)), hash(1))), Err(ChainError::PrevBlockHashMismatch));
    assert_eq!(chain.push(block(1, None, hash(1))), Ok(()));
    assert_eq!(chain.push(block(2, None, hash(2))), Err(ChainError::PrevBlockHashMismatch));
    assert_eq!(chain.push(block(2, Some(hash(9)), hash(2))), Err(ChainError::PrevBlockHashMismatch));
    assert_eq!(chain.push(block(3, Some(hash(1)), hash(2))), Err(ChainError::HeightMismatch));
    assert_eq!(chain.push(block(2, Some(hash(1)), hash(2))), Ok(()));
    assert_eq!(chain.height(), 2);
    assert_eq!(chain.block(0), None);
    assert_eq!(chain.block(1), Some(&block(1, None, hash(1))));
    assert_eq!(chain.block(2), Some(&block(2, Some(hash(1)), hash(2))));
    assert_eq!(chain.block(3), None);
}

#[test]
fn batches_hand_out_every_row_once_and_in_order() {
    let mut live_queries = LiveQueryStore::new();
    let rows: Vec<u32> = (0..7).collect();
    let first = live_queries.start(rows, FetchSize::new(Some(3)).unwrap()).unwrap();
    assert_eq!(first.rows, vec![0, 1, 2]);
    assert_eq!(first.remaining_items, 4);
    let cursor = first.continue_cursor.unwrap();
    assert_eq!(cursor.position, 3);

    let second = live_queries.continue_query(cursor).unwrap();
    assert_eq!(second.rows, vec![3, 4, 5]);
    assert_eq!(second.remaining_items, 1);
    let next = second.continue_cursor.unwrap();
    assert_eq!(next, Cursor { query: cursor.query, position: 6 });

    // A cursor that has been used does not continue the query.
    assert_eq!(live_queries.continue_query(cursor).unwrap_err(), QueryExecutionFail::CursorInvalid);

    let third = live_queries.continue_query(next).unwrap();
    assert_eq!(third.rows, vec![6]);
    assert_eq!(third.remaining_items, 0);
    assert_eq!(third.continue_cursor, None);

    // The query is done: its cursor is invalid, and so is one that never was.
    assert_eq!(live_queries.continue_query(next).unwrap_err(), QueryExecutionFail::CursorInvalid);
    assert_eq!(
        live_queries.continue_query(Cursor { query: 17, position: 0 }).unwrap_err(),
        QueryExecutionFail::CursorInvalid
    );
}

#[test]
fn result_that_fits_one_batch_has_no_cursor() {
    let mut live_queries = LiveQueryStore::new();
    let batch = live_queries.start(vec![1u8, 2, 3], FetchSize::new(Some(3)).unwrap()).unwrap();
    assert_eq!(batch.rows, vec![1, 2, 3]);
    assert_eq!(batch.remaining_items, 0);
    assert_eq!(batch.continue_cursor, None);
    let empty = live_queries.start(Vec::<u8>::new(), FetchSize::default_size()).unwrap();
    assert!(empty.rows.is_empty());
    assert_eq!(empty.continue_cursor, None);
}

#[test]
fn fetch_size_bounds() {
    assert_eq!(FetchSize::new(Some(0)), None);
    assert_eq!(FetchSize::new(None).unwrap().get(), DEFAULT_FETCH_SIZE);
    assert_eq!(FetchSize::default_size().get(), 100);
    assert_eq!(FetchSize::new(Some(MAX_FETCH_SIZE)).unwrap().get(), 10_000);
    let mut live_queries = LiveQueryStore::new();
    let rows: Vec<u32> = (0..10_001).collect();
    let batch = live_queries.start(rows, FetchSize::new(Some(MAX_FETCH_SIZE)).unwrap()).unwrap();
    assert_eq!(batch.rows.len(), 10_000);
    assert_eq!(batch.remaining_items, 1);
    let rows: Vec<u32> = (0..250).collect();
    let batch = live_queries.start(rows, FetchSize::default_size()).unwrap();
    assert_eq!(batch.rows.len(), 100);
    assert_eq!(batch.remaining_items, 150);
}

#[test]
fn live_queries_do_not_mix() {
    let mut live_queries = LiveQueryStore::new();
    let a = live_queries.start(vec!['a', 'b', 'c'], FetchSize::new(Some(2)).unwrap()).unwrap();
    let b = live_queries.start(vec!['x', 'y', 'z'], FetchSize::new(Some(1)).unwrap()).unwrap();
    let a = a.continue_cursor.unwrap();
    let b = b.continue_cursor.unwrap();
    assert_ne!(a.query, b.query);
    assert_eq!(live_queries.continue_query(b).unwrap().rows, vec!['y']);
    assert_eq!(live_queries.continue_query(a).unwrap().rows, vec!['c']);
    // The slot of the finished query is used again.
    let c = live_queries.start(vec!['p', 'q'], FetchSize::new(Some(1)).unwrap()).unwrap();
    assert_eq!(c.continue_cursor.unwrap().query, a.query);
}

#[test]
fn single_row_is_expected() {
    assert_eq!(execute_single(Vec::<u8>::new()), Err(QueryExecutionFail::ExpectedOneGotNone));
    assert_eq!(execute_single(vec![7u8]), Ok(7));
    assert_eq!(execute_single(vec![7u8, 8]), Err(QueryExecutionFail::ExpectedOneGotMany));
}

#[test]
fn compound_predicates_combine_conditions() {
    let mut state = network();
    for (name, owner) in [("hat", ALICE), ("cat", ALICE), ("bat", BOB)] {
        let id = NftId::from_str(&format!("{name}$wonderland")).unwrap();
        state
            .execute_transaction(Transaction::new(
                account(ALICE),
                vec![
                    InstructionBox::RegisterNft(Register::nft(Nft::new(id.clone(), Metadata::default()))),
                    InstructionBox::TransferNft(iroha_ledger::isi::nft::Transfer::nft(account(ALICE), id, account(owner))),
                ],
            ))
            .unwrap();
    }
    let names = |filter: CompoundPredicate<NftPredicate>| -> Vec<String> {
        FindNfts::new().execute(&filter, &state.world).unwrap().iter().map(|nft| nft.id().name().as_str().to_string()).collect()
    };
    let owned_by_alice = || CompoundPredicate::Atom(NftPredicate::OwnedBy(account(ALICE)));
    let is_cat = || CompoundPredicate::Atom(NftPredicate::Id(NftId::from_str("cat$wonderland").unwrap()));
    assert_eq!(names(CompoundPredicate::pass()), vec!["bat", "cat", "hat"]);
    assert_eq!(names(owned_by_alice()), vec!["cat", "hat"]);
    assert_eq!(names(CompoundPredicate::Not(Box::new(owned_by_alice()))), vec!["bat"]);
    assert_eq!(names(CompoundPredicate::And(vec![owned_by_alice(), CompoundPredicate::Not(Box::new(is_cat()))])), vec!["hat"]);
    assert_eq!(names(CompoundPredicate::Or(vec![is_cat(), CompoundPredicate::Not(Box::new(owned_by_alice()))])), vec!["bat", "cat"]);
    assert_eq!(names(CompoundPredicate::Or(vec![])), Vec::<String>::new());
    assert_eq!(
        names(CompoundPredicate::Atom(NftPredicate::Domain(DomainId::from_str("looking_glass").unwrap()))),
        Vec::<String>::new()
    );
}

#[test]
fn query_starts_with_the_first_batch_of_the_matching_rows() {
    let mut state = network();
    for name in ["d", "b", "a", "c", "e"] {
        let id = NftId::from_str(&format!("{name}$wonderland")).unwrap();
        submit(&mut state, InstructionBox::RegisterNft(Register::nft(Nft::new(id, Metadata::default())))).unwrap();
    }
    let not_c = CompoundPredicate::Not(Box::new(CompoundPredicate::Atom(NftPredicate::Id(
        NftId::from_str("c$wonderland").unwrap(),
    ))));
    let mut live_queries = LiveQueryStore::new();
    let names = |rows: &Vec<Nft>| -> Vec<String> { rows.iter().map(|nft| nft.id().name().as_str().to_string()).collect() };
    let first = start_query(&mut live_queries, &state.world.nfts, &not_c, FetchSize::new(Some(3)).unwrap()).unwrap();
    assert_eq!(names(&first.rows), vec!["a", "b", "d"]);
    assert_eq!(first.remaining_items, 1);
    let second = live_queries.continue_query(first.continue_cursor.unwrap()).unwrap();
    assert_eq!(names(&second.rows), vec!["e"]);
    assert_eq!(second.continue_cursor, None);
}
