use iroha_ledger::cli::{check_command_input, finish, transpose, Executable, Finish, FlagError};
use iroha_ledger::id::{AccountId, DomainId, NftId, RoleId};
use iroha_ledger::isi::domain::{RegisterAccount, RegisterDomain};
use iroha_ledger::isi::nft::{Register, Transfer};
use iroha_ledger::isi::InstructionBox;
use iroha_ledger::live_query::{FetchSize, LiveQueryStore, MAX_FETCH_SIZE};
use iroha_ledger::error::QueryExecutionFail;
use iroha_ledger::metadata::Metadata;
use iroha_ledger::multisig::{
    approval_edge, expires_in_secs, multisig_account_from, proposal_key_prefix, proposed_at_secs, spec_key,
    starting_contexts, ttl_ms, visit, ApprovalEdge, ApprovalError, Context, FoldError, KeySpan, MultisigSpec, Proposal,
    ProposalStatus, ProposedInstruction, Signatory, SpecError,
};
use iroha_ledger::registry::Registry;
use iroha_ledger::name::{Json, Name};
use iroha_ledger::nft::Nft;
use iroha_ledger::query::{ids_of, AccountPredicate, CompoundPredicate, DomainPredicate, FindAccounts, FindDomains};
use iroha_ledger::state::State;
use iroha_ledger::text::decimal_string;
use iroha_ledger::transaction::Transaction;
use iroha_ledger::trigger::{create_nft_for_every_user, generate_new_nft_id, is_excluded};

const ALICE: &str = "ed0120CE7FA46C9DCE7EA4B125E2E36BDB63EA33073E7590AC92816AE1E861B7048B03@wonderland";
const BOB: &str = "ed012004FF5B81046DDCCF19E2E451C45DFB6F53759D4EB30FA2EFA807284D1CC33016@wonderland";

fn account(text: &str) -> AccountId {
    AccountId::from_str(text).expect("Valid")
}

fn register_domain(name: &str) -> InstructionBox {
    InstructionBox::RegisterDomain(RegisterDomain::domain(DomainId::from_str(name).unwrap()))
}

fn register_account(text: &str) -> InstructionBox {
    InstructionBox::RegisterAccount(RegisterAccount::account(account(text)))
}

#[test]
fn instructions_are_submitted_or_dumped() {
    let new = || vec![register_domain("new")];
    let piped = || vec![register_domain("piped1"), register_domain("piped2")];
    assert_eq!(
        finish(false, false, Executable::Instructions(new()), vec![]),
        Ok(Finish::Submit(Executable::Instructions(new())))
    );
    assert_eq!(finish(false, true, Executable::Instructions(new()), vec![]), Ok(Finish::Dump(new())));
    let joined = vec![register_domain("piped1"), register_domain("piped2"), register_domain("new")];
    assert_eq!(
        finish(true, false, Executable::Instructions(new()), piped()),
        Ok(Finish::Submit(Executable::Instructions(joined)))
    );
    let joined = vec![register_domain("piped1"), register_domain("piped2"), register_domain("new")];
    assert_eq!(finish(true, true, Executable::Instructions(new()), piped()), Ok(Finish::Dump(joined)));
    // Without the input flag, piped instructions are not taken.
    assert_eq!(finish(false, true, Executable::Instructions(new()), piped()), Ok(Finish::Dump(new())));
}

#[test]
fn wasm_takes_no_piped_instructions() {
    let wasm = || Executable::Wasm(vec![0, 97, 115, 109]);
    assert_eq!(finish(false, false, wasm(), vec![]), Ok(Finish::Submit(wasm())));
    assert_eq!(finish(true, false, wasm(), vec![]), Err(FlagError::WasmWithInputOrOutput));
    assert_eq!(finish(false, true, wasm(), vec![]), Err(FlagError::WasmWithInputOrOutput));
    assert_eq!(finish(true, true, wasm(), vec![]), Err(FlagError::WasmWithInputOrOutput));
    assert_eq!(
        FlagError::WasmWithInputOrOutput.reason(),
        "Incompatible `--input` `--output` flags with `iroha transaction wasm`"
    );
}

#[test]
fn command_input_excludes_piped_input() {
    assert_eq!(check_command_input(false), Ok(()));
    assert_eq!(check_command_input(true), Err(FlagError::InputWithCommandInput));
    assert_eq!(FlagError::InputWithCommandInput.reason(), "Incompatible `--input` flag with the command");
}

#[test]
fn columns_become_rows() {
    let columns = vec![vec!["a1", "a2", "a3"], vec!["b1", "b2", "b3"]];
    assert_eq!(transpose(columns, 3), vec![vec!["a1", "b1"], vec!["a2", "b2"], vec!["a3", "b3"]]);
    // A short column leaves its place out, a long one is cut.
    let columns = vec![vec![1, 2, 3, 4], vec![10], vec![100, 200, 300]];
    assert_eq!(transpose(columns, 3), vec![vec![1, 10, 100], vec![2, 200], vec![3, 300]]);
    assert_eq!(transpose(Vec::<Vec<u8>>::new(), 2), vec![Vec::<u8>::new(), Vec::new()]);
    assert_eq!(transpose(vec![vec![1u8], vec![2]], 0), Vec::<Vec<u8>>::new());
}

#[test]
fn all_batches_together_are_the_result() {
    let mut live_queries = LiveQueryStore::new();
    let rows: Vec<u32> = (0..1000).collect();
    assert_eq!(live_queries.fetch_all(rows.clone(), FetchSize::new(Some(7)).unwrap()), Ok(rows.clone()));
    assert_eq!(live_queries.fetch_all(rows.clone(), FetchSize::default_size()), Ok(rows.clone()));
    assert_eq!(live_queries.fetch_all(Vec::<u32>::new(), FetchSize::new(Some(1)).unwrap()), Ok(vec![]));
    // No query is left live: a cursor of the slot that was used is invalid.
    assert_eq!(
        live_queries.continue_query(iroha_ledger::live_query::Cursor { query: 0, position: 7 }).unwrap_err(),
        QueryExecutionFail::CursorInvalid
    );
    let mut fresh = LiveQueryStore::new();
    assert_eq!(
        fresh.fetch_all(rows, FetchSize::new(Some(MAX_FETCH_SIZE + 1)).unwrap()),
        Err(QueryExecutionFail::FetchSizeTooBig)
    );
    assert_eq!(fresh, LiveQueryStore::new());
}

#[test]
fn numbers_are_written_in_decimal() {
    assert_eq!(decimal_string(0), "0");
    assert_eq!(decimal_string(7), "7");
    assert_eq!(decimal_string(10), "10");
    assert_eq!(decimal_string(65535), "65535");
    assert_eq!(decimal_string(u64::MAX), "18446744073709551615");
}

#[test]
fn signatory_role_names_its_account() {
    let role = |name: &str| RoleId::from_str(name).unwrap();
    assert_eq!(
        multisig_account_from(&role("MULTISIG_SIGNATORY/wonderland/ed0120CE7F")),
        Some(account("ed0120CE7F@wonderland"))
    );
    assert_eq!(
        multisig_account_from(&role("MULTISIG_SIGNATORY//wonderland//ed0120CE7F")),
        Some(account("ed0120CE7F@wonderland"))
    );
    assert_eq!(multisig_account_from(&role("MULTISIG_SIGNATORYwonderland/ed0120CE7F")), Some(account("ed0120CE7F@wonderland")));
    assert_eq!(multisig_account_from(&role("MULTISIG_SIGNATORY/won/der/ed0120CE7F")), Some(account("ed0120CE7F@won/der")));
    assert_eq!(multisig_account_from(&role("MULTISIG_SIGNATORY")), None);
    assert_eq!(multisig_account_from(&role("MULTISIG_SIGNATORY/wonderland")), None);
    assert_eq!(multisig_account_from(&role("MULTISIG_SIGNATORY/wonderland/")), None);
    assert_eq!(multisig_account_from(&role("MULTISIG_SIGNATORY///ed0120CE7F")), None);
    assert_eq!(multisig_account_from(&role("SIGNATORY/wonderland/ed0120CE7F")), None);
    assert_eq!(multisig_account_from(&role("multisig_signatory/wonderland/ed0120CE7F")), None);
    assert_eq!(multisig_account_from(&role("MULTISIG")), None);
}

#[test]
fn multisig_keys() {
    assert_eq!(spec_key(), Name::from_str("multisig/spec").unwrap());
    assert_eq!(proposal_key_prefix(), "multisig/proposals/");
}

#[test]
fn multisig_times() {
    assert_eq!(ttl_ms(0), None);
    assert_eq!(ttl_ms(1), Some(1));
    assert_eq!(ttl_ms(u64::MAX as u128), Some(u64::MAX));
    assert_eq!(ttl_ms(u64::MAX as u128 + 1), None);
    assert_eq!(proposed_at_secs(1_999), 1);
    assert_eq!(expires_in_secs(10_000, 4_001), 5);
    assert_eq!(expires_in_secs(10_000, 10_000), 0);
    assert_eq!(expires_in_secs(10_000, 10_001), 0);
}

#[test]
fn approval_edge_weighs_the_approvals() {
    let signatories = vec![
        Signatory { account: account(ALICE), weight: 3 },
        Signatory { account: account(BOB), weight: 5 },
        Signatory { account: account("ed0120CE7F@wonderland"), weight: 7 },
    ];
    let this = account("ed0120AAAA@wonderland");
    let approvals = vec![account(BOB), account("ed0120CE7F@wonderland"), account("ed0120FFFF@wonderland")];
    let edge = approval_edge(&signatories, 10, &approvals, &account(ALICE), &this).unwrap();
    assert_eq!(edge, ApprovalEdge::new(3, false, 12, 10, this.clone()));
    assert_eq!(edge.relation(), "->");
    assert_eq!(edge.to_string(), "3 -> [12/10] ed0120AAAA@wonderland");
    let edge = approval_edge(&signatories, 10, &approvals, &account(BOB), &this).unwrap();
    assert_eq!(edge.relation(), "joined");
    assert_eq!(edge.to_string(), "5 joined [12/10] ed0120AAAA@wonderland");
    assert_eq!(
        approval_edge(&signatories, 10, &approvals, &account("ed0120FFFF@wonderland"), &this),
        Err(ApprovalError::NotSignatory)
    );
    let many: Vec<Signatory> =
        (0..258).map(|i| Signatory { account: account(&format!("key{i}@wonderland")), weight: 255 }).collect();
    let all: Vec<AccountId> = many.iter().map(|s| s.account.clone()).collect();
    assert_eq!(approval_edge(&many, 1, &all, &all[0], &this), Err(ApprovalError::WeightOverflow));
    assert_eq!(approval_edge(&many, 1, &all[..257].to_vec(), &all[0], &this).unwrap().got, 65535);
}

fn network() -> State {
    let mut state = State::new();
    state
        .execute_transaction(Transaction::new(
            account(ALICE),
            vec![
                register_domain("wonderland"),
                register_domain("genesis"),
                register_account(ALICE),
                register_account(BOB),
                register_account("ed0120CE7F@genesis"),
            ],
        ))
        .unwrap();
    state
}

#[test]
fn new_nft_ids_are_numbered_per_account() {
    let mut state = network();
    let alice = account(ALICE);
    let first = generate_new_nft_id(&state.world, &alice);
    assert_eq!(first.to_string(), format!("nft_number_1_for_{}$wonderland", alice.signatory.as_str()));
    // Alice gets two NFTs that count and one that does not; Bob gets one.
    for (name, owner) in [("nft_a", ALICE), ("nft_b", ALICE), ("other", ALICE), ("nft_c", BOB)] {
        let id = NftId::from_str(&format!("{name}$wonderland")).unwrap();
        state
            .execute_transaction(Transaction::new(
                alice.clone(),
                vec![
                    InstructionBox::RegisterNft(Register::nft(Nft::new(id.clone(), Metadata::default()))),
                    InstructionBox::TransferNft(Transfer::nft(alice.clone(), id, account(owner))),
                ],
            ))
            .unwrap();
    }
    let third = generate_new_nft_id(&state.world, &alice);
    assert_eq!(third.to_string(), format!("nft_number_3_for_{}$wonderland", alice.signatory.as_str()));
    let second = generate_new_nft_id(&state.world, &account(BOB));
    assert_eq!(second.name().as_str(), format!("nft_number_2_for_{}", account(BOB).signatory.as_str()));
}

#[test]
fn every_user_gets_an_nft() {
    let mut state = network();
    let alice = account(ALICE);
    let bob = account(BOB);
    assert!(is_excluded(&DomainId::from_str("genesis").unwrap()));
    assert!(is_excluded(&DomainId::from_str("system").unwrap()));
    assert!(is_excluded(&DomainId::from_str("garden_of_live_flowers").unwrap()));
    assert!(!is_excluded(&DomainId::from_str("wonderland").unwrap()));

    let instructions = create_nft_for_every_user(&state.world, &alice);
    // Accounts come in the order of their ids; the account in `genesis` is passed over.
    let mut expected = Vec::new();
    for user in [&bob, &alice] {
        let id = NftId::from_str(&format!("nft_number_1_for_{}$wonderland", user.signatory.as_str())).unwrap();
        let mut content = Metadata::new();
        content.insert(
            Name::from_str(&format!("nft_for_{}_in_wonderland", user.signatory.as_str())).unwrap(),
            Json::new("true"),
        );
        expected.push(InstructionBox::RegisterNft(Register::nft(Nft::new(id.clone(), content))));
        expected.push(InstructionBox::TransferNft(Transfer::nft(alice.clone(), id, user.clone())));
    }
    assert_eq!(instructions, expected);
    state.execute_transaction(Transaction::new(alice.clone(), instructions)).unwrap();
    assert_eq!(
        generate_new_nft_id(&state.world, &bob).to_string(),
        format!("nft_number_2_for_{}$wonderland", bob.signatory.as_str())
    );
}

#[test]
fn domains_and_accounts_are_found() {
    let state = network();
    let domains = FindDomains::new().execute(&CompoundPredicate::pass(), &state.world).unwrap();
    let names: Vec<String> = ids_of(&domains).iter().map(|id| id.to_string()).collect();
    assert_eq!(names, vec!["genesis", "wonderland"]);
    let owned = FindDomains::new()
        .execute(&CompoundPredicate::Atom(DomainPredicate::OwnedBy(account(BOB))), &state.world)
        .unwrap();
    assert!(owned.is_empty());
    let one = FindDomains::new()
        .execute(&CompoundPredicate::Atom(DomainPredicate::Id(DomainId::from_str("genesis").unwrap())), &state.world)
        .unwrap();
    assert_eq!(one.len(), 1);
    assert_eq!(one[0].owned_by, account(ALICE));
    let accounts = FindAccounts::new()
        .execute(
            &CompoundPredicate::Atom(AccountPredicate::Domain(DomainId::from_str("wonderland").unwrap())),
            &state.world,
        )
        .unwrap();
    assert_eq!(ids_of(&accounts), vec![account(BOB), account(ALICE)]);
    let accounts = FindAccounts::new()
        .execute(&CompoundPredicate::Atom(AccountPredicate::Id(account(BOB))), &state.world)
        .unwrap();
    assert_eq!(ids_of(&accounts), vec![account(BOB)]);
}

#[test]
fn traversal_starts_at_the_signatory_roles() {
    let me = account(ALICE);
    let roles = vec![
        RoleId::from_str("MULTISIG_SIGNATORY/wonderland/ed0120AAAA").unwrap(),
        RoleId::from_str("MULTISIG_SIGNATORY/wonderland").unwrap(),
        RoleId::from_str("MULTISIG_SIGNATORY/garden/ed0120BBBB").unwrap(),
    ];
    assert_eq!(
        starting_contexts(&me, &roles),
        vec![
            Context::new(me.clone(), account("ed0120AAAA@wonderland"), None),
            Context::new(me.clone(), account("ed0120BBBB@garden"), None),
        ]
    );
}

#[test]
fn visit_walks_the_path_of_approvals() {
    let me = account(ALICE);
    let inner = account("ed0120AAAA@wonderland");
    let outer = account("ed0120BBBB@wonderland");
    let key = |text: &str| Name::from_str(text).unwrap();
    let now_ms = 100_000;

    // `me` signs for `inner`, which signs for `outer`. In `inner` a proposal is
    // pending that approves the proposal `ROOT` of `outer`.
    let inner_spec = MultisigSpec {
        signatories: vec![Signatory { account: me.clone(), weight: 1 }, Signatory { account: account(BOB), weight: 2 }],
        quorum: 3,
        transaction_ttl_ms: 3_600_000,
    };
    let outer_spec = MultisigSpec {
        signatories: vec![Signatory { account: inner.clone(), weight: 4 }],
        quorum: 4,
        transaction_ttl_ms: 3_600_000,
    };
    let inner_proposals = vec![Proposal {
        key: key("LEAF"),
        instructions: vec![ProposedInstruction::Approve { account: outer.clone(), instructions_hash: key("ROOT") }],
        proposed_at_ms: 50_500,
        expires_at_ms: 3_650_500,
        approvals: vec![account(BOB)],
    }];
    let outer_proposals = vec![
        Proposal {
            key: key("OTHER"),
            instructions: vec![ProposedInstruction::Other(Json::new("{\"Log\":\"other\"}"))],
            proposed_at_ms: 1,
            expires_at_ms: 2,
            approvals: vec![],
        },
        Proposal {
            key: key("ROOT"),
            instructions: vec![ProposedInstruction::Other(Json::new("{\"Log\":\"hello\"}"))],
            proposed_at_ms: 40_999,
            expires_at_ms: 103_999,
            approvals: vec![],
        },
    ];

    let mut proposals: Registry<ProposalStatus> = Registry::new();
    let mut stack = vec![Context::new(me.clone(), inner.clone(), None)];

    let context = stack.pop().unwrap();
    assert_eq!(visit(&mut proposals, &mut stack, &context, &inner_spec, &inner_proposals, now_ms), Ok(()));
    assert_eq!(
        stack,
        vec![Context::new(inner.clone(), outer.clone(), Some(KeySpan { leaf: key("LEAF"), top: key("ROOT") }))]
    );
    assert_eq!(proposals.len(), 1);
    assert_eq!(
        *proposals.row(0),
        ProposalStatus {
            key: key("LEAF"),
            instructions: vec![],
            proposed_at_secs: 0,
            expires_in_secs: 0,
            approval_path: vec![ApprovalEdge::new(1, false, 2, 3, inner.clone())],
        }
    );

    let context = stack.pop().unwrap();
    assert_eq!(visit(&mut proposals, &mut stack, &context, &outer_spec, &outer_proposals, now_ms), Ok(()));
    assert!(stack.is_empty());
    assert_eq!(proposals.len(), 1);
    assert_eq!(
        *proposals.row(0),
        ProposalStatus {
            key: key("LEAF"),
            instructions: vec![ProposedInstruction::Other(Json::new("{\"Log\":\"hello\"}"))],
            proposed_at_secs: 40,
            expires_in_secs: 3,
            approval_path: vec![
                ApprovalEdge::new(1, false, 2, 3, inner.clone()),
                ApprovalEdge::new(4, false, 0, 4, outer.clone()),
            ],
        }
    );
    let path: Vec<String> = proposals.row(0).approval_path.iter().map(|edge| edge.to_string()).collect();
    assert_eq!(path, vec!["1 -> [2/3] ed0120AAAA@wonderland", "4 -> [0/4] ed0120BBBB@wonderland"]);

    // A visit without span looks at every proposal.
    let mut all: Registry<ProposalStatus> = Registry::new();
    let from_inner = Context::new(inner.clone(), outer.clone(), None);
    assert_eq!(visit(&mut all, &mut stack, &from_inner, &outer_spec, &outer_proposals, now_ms), Ok(()));
    assert_eq!(all.len(), 2);
    assert_eq!(all.row(0).key, key("OTHER"));
    assert_eq!(all.row(1).key, key("ROOT"));
    assert_eq!(all.row(1).expires_in_secs, 3);
    assert_eq!(all.row(0).expires_in_secs, 0);
}

#[test]
fn visit_is_refused_as_a_whole() {
    let me = account(ALICE);
    let this = account("ed0120AAAA@wonderland");
    let key = |text: &str| Name::from_str(text).unwrap();
    let spec = MultisigSpec {
        signatories: vec![Signatory { account: account(BOB), weight: 2 }],
        quorum: 2,
        transaction_ttl_ms: 1,
    };
    let pending = vec![Proposal {
        key: key("ROOT"),
        instructions: vec![ProposedInstruction::Approve { account: account(BOB), instructions_hash: key("UP") }],
        proposed_at_ms: 0,
        expires_at_ms: 0,
        approvals: vec![],
    }];
    let mut proposals: Registry<ProposalStatus> = Registry::new();
    let mut stack = Vec::new();
    // `me` is no signatory of `this`.
    let stranger = Context::new(me.clone(), this.clone(), None);
    assert_eq!(
        visit(&mut proposals, &mut stack, &stranger, &spec, &pending, 0),
        Err(FoldError::Approval(ApprovalError::NotSignatory))
    );
    // Nothing is known of the leaf of the span.
    let lost = Context::new(account(BOB), this.clone(), Some(KeySpan { leaf: key("LEAF"), top: key("ROOT") }));
    assert_eq!(visit(&mut proposals, &mut stack, &lost, &spec, &pending, 0), Err(FoldError::UnknownLeaf));
    assert_eq!(proposals.len(), 0);
    assert!(stack.is_empty());
    // A span that selects no proposal changes nothing.
    let elsewhere = Context::new(me, this, Some(KeySpan { leaf: key("LEAF"), top: key("NONE") }));
    assert_eq!(visit(&mut proposals, &mut stack, &elsewhere, &spec, &pending, 0), Ok(()));
    assert_eq!(proposals.len(), 0);
    assert!(stack.is_empty());
}

#[test]
fn multisig_spec_pairs_signatories_with_weights() {
    let signatories = || vec![account(ALICE), account(BOB)];
    assert_eq!(
        MultisigSpec::new(signatories(), vec![1, 2], 3, 3_600_000),
        Ok(MultisigSpec {
            signatories: vec![
                Signatory { account: account(ALICE), weight: 1 },
                Signatory { account: account(BOB), weight: 2 },
            ],
            quorum: 3,
            transaction_ttl_ms: 3_600_000,
        })
    );
    assert_eq!(MultisigSpec::new(signatories(), vec![1], 0, 0), Err(SpecError::LengthMismatch));
    assert_eq!(MultisigSpec::new(signatories(), vec![1, 2], 0, 0), Err(SpecError::ZeroQuorum));
    assert_eq!(MultisigSpec::new(signatories(), vec![1, 2], 3, 0), Err(SpecError::TtlOutOfRange));
    assert_eq!(
        MultisigSpec::new(signatories(), vec![1, 2], 3, u64::MAX as u128 + 1),
        Err(SpecError::TtlOutOfRange)
    );
}
