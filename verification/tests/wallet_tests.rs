use wallet_core::dict::Dict;
use wallet_core::key_set::{KeySet, KeySize, ProverKeySet};
use wallet_core::ledger::MockLedger;
use wallet_core::rng::rng_from_seed;
use wallet_core::txn::LedgerEvent;
use wallet_core::types::{AssetDefinition, AssetPolicy, FreezeFlag, RecordOpening};
use wallet_core::validator::{SetMirror, ValidatorState};
use wallet_core::wallet::{WalletSession, WalletState};
use wallet_core::errors::WalletError;
use wallet_core::types::NATIVE_ASSET_CODE;

const ALICE: u64 = 11;
const BOB: u64 = 22;
const CAROL: u64 = 33;

fn keyset(sizes: &[(u64, u64)]) -> KeySet {
    let mut keys = Vec::new();
    for &(i, o) in sizes {
        keys.push(KeySize { num_inputs: i, num_outputs: o });
    }
    KeySet { keys }
}

/// Proving keys for the tests, ordered by (outputs, inputs).
fn proving_keys() -> ProverKeySet {
    ProverKeySet {
        xfr: keyset(&[(1, 2), (2, 2), (2, 3), (3, 3)]),
        mint: KeySize { num_inputs: 1, num_outputs: 2 },
        freeze: keyset(&[(2, 2), (3, 3)]),
    }
}

fn genesis_validator(n_grants: u64) -> ValidatorState {
    let mut remembered = Dict::new();
    let mut uid = 0u64;
    while uid < n_grants {
        remembered.insert(uid, ());
        uid += 1;
    }
    ValidatorState {
        prev_commit_time: 0,
        record_count: n_grants,
        record_root: n_grants,
        past_record_roots: Vec::new(),
        nullifiers: SetMirror::new(),
        remembered,
    }
}

fn native_grant(owner: u64, amount: u64) -> RecordOpening {
    RecordOpening {
        amount,
        asset_def: AssetDefinition::native(),
        pub_key: owner,
        freeze_flag: FreezeFlag::Unfrozen,
        blind: 0,
    }
}

fn session_for(key: u64, others: &[u64]) -> WalletSession {
    let mut address_book = Dict::new();
    address_book.insert(key, key);
    for &o in others {
        address_book.insert(o, o);
    }
    WalletSession { key_pair: key, address_book }
}

/// A wallet for `key`, seeded deterministically, owning the grants
/// addressed to it.
fn wallet_for(key: u64, auditor: u64, freezer: u64, grants: &[(u64, u64)]) -> WalletState {
    let validator = genesis_validator(grants.len() as u64);
    let mut w = WalletState::new(rng_from_seed(key), proving_keys(), auditor, freezer, validator);
    for (uid, &(owner, amount)) in grants.iter().enumerate() {
        if owner == key {
            w.receive_grant(native_grant(owner, amount), uid as u64);
        }
    }
    w
}

/// Deliver an event to every wallet, submitting any automatic
/// resubmissions back to the ledger until the traffic settles.
fn deliver_all(
    ledger: &mut MockLedger,
    parties: &mut Vec<(WalletState, WalletSession)>,
    first: LedgerEvent,
) {
    let mut queue = vec![first];
    while let Some(ev) = queue.pop() {
        let mut resubs = Vec::new();
        for (w, s) in parties.iter_mut() {
            let mut r = w.handle_event(s, &ev);
            resubs.append(&mut r);
        }
        for b in resubs {
            if let Some(ev2) = ledger.submit(b) {
                queue.push(ev2);
            }
        }
    }
}

fn submit_and_deliver(
    ledger: &mut MockLedger,
    parties: &mut Vec<(WalletState, WalletSession)>,
    bundle: wallet_core::wallet::TransactionBundle,
) {
    if let Some(ev) = ledger.submit(bundle) {
        deliver_all(ledger, parties, ev);
    }
}

fn balance_of(parties: &Vec<(WalletState, WalletSession)>, idx: usize, asset: u64) -> u64 {
    parties[idx].0.balance(&parties[idx].1, asset, FreezeFlag::Unfrozen)
}

fn frozen_balance_of(parties: &Vec<(WalletState, WalletSession)>, idx: usize, asset: u64) -> u64 {
    parties[idx].0.balance(&parties[idx].1, asset, FreezeFlag::Frozen)
}

/// Two parties, Alice holding 5 native at genesis.
fn native_pair() -> (MockLedger, Vec<(WalletState, WalletSession)>) {
    let grants = [(ALICE, 5u64)];
    let ledger = MockLedger::new(genesis_validator(grants.len() as u64));
    let parties = vec![
        (wallet_for(ALICE, 0, 0, &grants), session_for(ALICE, &[BOB])),
        (wallet_for(BOB, 0, 0, &grants), session_for(BOB, &[ALICE])),
    ];
    (ledger, parties)
}

#[test]
fn test_two_wallets_native() {
    let (mut ledger, mut parties) = native_pair();
    assert_eq!(balance_of(&parties, 0, NATIVE_ASSET_CODE), 5);
    assert_eq!(balance_of(&parties, 1, NATIVE_ASSET_CODE), 0);

    // Alice sends Bob 3 with fee 1.
    let native = AssetDefinition::native();
    let bundle = {
        let (w, s) = &mut parties[0];
        w.transfer(s, &native, &vec![(BOB, 3)], 1).unwrap()
    };
    // The inputs go on hold at once: the spendable balance drops.
    assert_eq!(balance_of(&parties, 0, NATIVE_ASSET_CODE), 0);
    submit_and_deliver(&mut ledger, &mut parties, bundle);
    assert_eq!(balance_of(&parties, 0, NATIVE_ASSET_CODE), 1);
    assert_eq!(balance_of(&parties, 1, NATIVE_ASSET_CODE), 3);

    // Bob sends 1 back with fee 1; his fee change returns to him.
    let bundle = {
        let (w, s) = &mut parties[1];
        w.transfer(s, &native, &vec![(ALICE, 1)], 1).unwrap()
    };
    submit_and_deliver(&mut ledger, &mut parties, bundle);
    assert_eq!(balance_of(&parties, 0, NATIVE_ASSET_CODE), 2);
    assert_eq!(balance_of(&parties, 1, NATIVE_ASSET_CODE), 1);
}

#[test]
fn clock_advances_one_per_event() {
    let (mut ledger, mut parties) = native_pair();
    assert_eq!(parties[0].0.now, 0);
    let native = AssetDefinition::native();
    let bundle = {
        let (w, s) = &mut parties[0];
        w.transfer(s, &native, &vec![(BOB, 3)], 1).unwrap()
    };
    submit_and_deliver(&mut ledger, &mut parties, bundle);
    assert_eq!(parties[0].0.now, 1);
    assert_eq!(parties[1].0.now, 1);
}

#[test]
fn committed_nullifiers_enter_the_mirror() {
    let (mut ledger, mut parties) = native_pair();
    let native = AssetDefinition::native();
    let bundle = {
        let (w, s) = &mut parties[0];
        w.transfer(s, &native, &vec![(BOB, 3)], 1).unwrap()
    };
    let spent = bundle.txn.txn.nullifiers[0];
    submit_and_deliver(&mut ledger, &mut parties, bundle);
    assert!(parties[0].0.nullifiers.set.contains_key(&spent));
    assert!(parties[1].0.nullifiers.set.contains_key(&spent));
}

#[test]
fn test_two_wallets_non_native() {
    let grants = [(ALICE, 5u64)];
    let mut ledger = MockLedger::new(genesis_validator(1));
    let mut parties = vec![
        (wallet_for(ALICE, 0, 0, &grants), session_for(ALICE, &[BOB])),
        (wallet_for(BOB, 0, 0, &grants), session_for(BOB, &[ALICE])),
    ];

    let asset = {
        let (w, _) = &mut parties[0];
        w.define_asset(&b"test asset".to_vec(), AssetPolicy::unaudited()).unwrap()
    };
    let bundle = {
        let (w, s) = &mut parties[0];
        w.mint(s, 1, asset.code, 5, ALICE).unwrap()
    };
    submit_and_deliver(&mut ledger, &mut parties, bundle);
    assert_eq!(balance_of(&parties, 0, asset.code), 5);
    assert_eq!(balance_of(&parties, 0, NATIVE_ASSET_CODE), 4);

    let bundle = {
        let (w, s) = &mut parties[0];
        w.transfer(s, &asset, &vec![(BOB, 3)], 1).unwrap()
    };
    submit_and_deliver(&mut ledger, &mut parties, bundle);
    assert_eq!(balance_of(&parties, 0, asset.code), 2);
    assert_eq!(balance_of(&parties, 1, asset.code), 3);
    assert_eq!(balance_of(&parties, 0, NATIVE_ASSET_CODE), 3);
}

#[test]
fn mint_of_undefined_asset_is_refused() {
    let (_ledger, mut parties) = native_pair();
    let (w, s) = &mut parties[0];
    match w.mint(s, 1, 999, 5, ALICE) {
        Err(WalletError::UndefinedAsset { asset }) => assert_eq!(asset, 999),
        other => panic!("expected UndefinedAsset, got {:?}", other.map(|_| ())),
    }
}

#[test]
fn transfer_to_unknown_address_is_refused() {
    let (_ledger, mut parties) = native_pair();
    let native = AssetDefinition::native();
    let (w, s) = &mut parties[0];
    match w.transfer(s, &native, &vec![(77, 1)], 1) {
        Err(WalletError::InvalidAddress { address }) => assert_eq!(address, 77),
        other => panic!("expected InvalidAddress, got {:?}", other.map(|_| ())),
    }
}

#[test]
fn insufficient_balance_is_reported() {
    let (_ledger, mut parties) = native_pair();
    let native = AssetDefinition::native();
    let (w, s) = &mut parties[0];
    match w.transfer(s, &native, &vec![(BOB, 9)], 1) {
        Err(WalletError::InsufficientBalance { asset, required, actual }) => {
            assert_eq!(asset, NATIVE_ASSET_CODE);
            assert_eq!(required, 10);
            assert_eq!(actual, 5);
        },
        other => panic!("expected InsufficientBalance, got {:?}", other.map(|_| ())),
    }
}

#[test]
fn audit_asset_checks_the_auditor_key() {
    let (_ledger, mut parties) = native_pair();
    let asset = AssetDefinition { code: 7, policy: AssetPolicy::reveal_all(123, 0) };
    let (w, _) = &mut parties[0];
    match w.audit_asset(&asset) {
        Err(WalletError::InvalidAuditorKey { my_key, asset_key }) => {
            assert_eq!(my_key, 0);
            assert_eq!(asset_key, 123);
        },
        other => panic!("expected InvalidAuditorKey, got {:?}", other),
    }
}

#[test]
fn freeze_needs_the_freezer_key() {
    let (_ledger, mut parties) = native_pair();
    let asset = AssetDefinition { code: 7, policy: AssetPolicy::reveal_all(0, 123) };
    let (w, s) = &mut parties[0];
    match w.freeze(s, 1, &asset, 1, BOB) {
        Err(WalletError::InvalidFreezerKey { my_key, asset_key }) => {
            assert_eq!(my_key, 0);
            assert_eq!(asset_key, 123);
        },
        other => panic!("expected InvalidFreezerKey, got {:?}", other.map(|_| ())),
    }
}

#[test]
fn fragmentation_signal() {
    // Alice holds native for fees and asset records of sizes 1, 1, 1;
    // the proving keys admit at most two asset inputs beside the fee.
    let grants = [(ALICE, 10u64)];
    let mut ledger = MockLedger::new(genesis_validator(1));
    let mut parties = vec![
        (wallet_for(ALICE, 0, 0, &grants), session_for(ALICE, &[BOB])),
        (wallet_for(BOB, 0, 0, &grants), session_for(BOB, &[ALICE])),
    ];
    let asset = {
        let (w, _) = &mut parties[0];
        w.define_asset(&b"shards".to_vec(), AssetPolicy::unaudited()).unwrap()
    };
    for _ in 0..3 {
        let bundle = {
            let (w, s) = &mut parties[0];
            w.mint(s, 1, asset.code, 1, ALICE).unwrap()
        };
        submit_and_deliver(&mut ledger, &mut parties, bundle);
    }
    assert_eq!(balance_of(&parties, 0, asset.code), 3);

    // A transfer of 3 cannot be paid from at most two inputs of size 1.
    let res = {
        let (w, s) = &mut parties[0];
        w.transfer(s, &asset, &vec![(BOB, 3)], 1)
    };
    match res {
        Err(WalletError::Fragmentation { asset: a, amount, suggested_amount, max_records }) => {
            assert_eq!(a, asset.code);
            assert_eq!(amount, 3);
            assert_eq!(suggested_amount, 2);
            assert_eq!(max_records, 2);
        },
        other => panic!("expected Fragmentation, got {:?}", other.map(|_| ())),
    }

    // A transfer of the suggested amount succeeds.
    let bundle = {
        let (w, s) = &mut parties[0];
        w.transfer(s, &asset, &vec![(BOB, 2)], 1).unwrap()
    };
    submit_and_deliver(&mut ledger, &mut parties, bundle);
    assert_eq!(balance_of(&parties, 0, asset.code), 1);
    assert_eq!(balance_of(&parties, 1, asset.code), 2);
}

#[test]
fn too_many_outputs_is_reported() {
    // Three receivers ask for four outputs; no key offers more than 3.
    let grants = [(ALICE, 10u64)];
    let _ledger = MockLedger::new(genesis_validator(1));
    let mut parties = vec![
        (wallet_for(ALICE, 0, 0, &grants), session_for(ALICE, &[BOB, CAROL, 44])),
    ];
    let native = AssetDefinition::native();
    let (w, s) = &mut parties[0];
    match w.transfer(s, &native, &vec![(BOB, 1), (CAROL, 1), (44, 1)], 1) {
        Err(WalletError::TooManyOutputs { asset, max_records, num_receivers, num_change_records }) => {
            assert_eq!(asset, NATIVE_ASSET_CODE);
            assert_eq!(max_records, 3);
            assert_eq!(num_receivers, 3);
            assert_eq!(num_change_records, 1);
        },
        other => panic!("expected TooManyOutputs, got {:?}", other.map(|_| ())),
    }
}

#[test]
fn exact_amount_record_is_preferred() {
    // Alice holds 3 and 5; a transfer needing exactly 3 takes the
    // 3-record and keeps the 5-record spendable.
    let grants = [(ALICE, 3u64), (ALICE, 5u64)];
    let mut ledger = MockLedger::new(genesis_validator(2));
    let mut parties = vec![
        (wallet_for(ALICE, 0, 0, &grants), session_for(ALICE, &[BOB])),
        (wallet_for(BOB, 0, 0, &grants), session_for(BOB, &[ALICE])),
    ];
    let native = AssetDefinition::native();
    let bundle = {
        let (w, s) = &mut parties[0];
        w.transfer(s, &native, &vec![(BOB, 2)], 1).unwrap()
    };
    // Only the exact 3-record is on hold.
    assert_eq!(balance_of(&parties, 0, NATIVE_ASSET_CODE), 5);
    submit_and_deliver(&mut ledger, &mut parties, bundle);
    assert_eq!(balance_of(&parties, 0, NATIVE_ASSET_CODE), 5);
    assert_eq!(balance_of(&parties, 1, NATIVE_ASSET_CODE), 2);
}

#[test]
fn test_wallet_rejected_native_xfr_timeout() {
    // Alice's submission is held back; unrelated traffic ages it past
    // its timeout and her record becomes spendable again.
    let grants = [(ALICE, 5u64), (CAROL, 100u64)];
    let mut ledger = MockLedger::new(genesis_validator(2));
    let mut parties = vec![
        (wallet_for(ALICE, 0, 0, &grants), session_for(ALICE, &[BOB, CAROL])),
        (wallet_for(BOB, 0, 0, &grants), session_for(BOB, &[ALICE, CAROL])),
        (wallet_for(CAROL, 0, 0, &grants), session_for(CAROL, &[ALICE, BOB])),
    ];
    let native = AssetDefinition::native();

    ledger.hold_next_transaction();
    let bundle = {
        let (w, s) = &mut parties[0];
        w.transfer(s, &native, &vec![(BOB, 3)], 1).unwrap()
    };
    assert!(ledger.submit(bundle).is_none());
    assert_eq!(balance_of(&parties, 0, NATIVE_ASSET_CODE), 0);

    for _ in 0..wallet_core::RECORD_HOLD_TIME {
        let bundle = {
            let (w, s) = &mut parties[2];
            w.transfer(s, &native, &vec![(BOB, 1)], 1).unwrap()
        };
        submit_and_deliver(&mut ledger, &mut parties, bundle);
    }
    // The hold has expired; the full balance is back.
    assert_eq!(balance_of(&parties, 0, NATIVE_ASSET_CODE), 5);

    // The record can be used again.
    let bundle = {
        let (w, s) = &mut parties[0];
        w.transfer(s, &native, &vec![(BOB, 2)], 1).unwrap()
    };
    submit_and_deliver(&mut ledger, &mut parties, bundle);
    assert_eq!(balance_of(&parties, 0, NATIVE_ASSET_CODE), 2);
}

#[test]
fn test_resubmit() {
    let grants = [(ALICE, 5u64), (CAROL, 100u64)];
    let mut ledger = MockLedger::new(genesis_validator(2));
    let mut parties = vec![
        (wallet_for(ALICE, 0, 0, &grants), session_for(ALICE, &[BOB, CAROL])),
        (wallet_for(BOB, 0, 0, &grants), session_for(BOB, &[ALICE, CAROL])),
        (wallet_for(CAROL, 0, 0, &grants), session_for(CAROL, &[ALICE, BOB])),
    ];
    let native = AssetDefinition::native();

    ledger.hold_next_transaction();
    let bundle = {
        let (w, s) = &mut parties[0];
        w.transfer(s, &native, &vec![(BOB, 3)], 1).unwrap()
    };
    assert!(ledger.submit(bundle).is_none());

    // Unrelated traffic invalidates the nullifier proofs but keeps the
    // record root within the history window.
    for _ in 0..(wallet_core::RECORD_ROOT_HISTORY_SIZE - 1) {
        let bundle = {
            let (w, s) = &mut parties[2];
            w.transfer(s, &native, &vec![(BOB, 1)], 1).unwrap()
        };
        submit_and_deliver(&mut ledger, &mut parties, bundle);
    }

    // The first attempt is rejected for its stale proofs; the wallet
    // refreshes them and resubmits, and the second attempt commits.
    if let Some(ev) = ledger.release_held_transaction() {
        deliver_all(&mut ledger, &mut parties, ev);
    }
    assert_eq!(balance_of(&parties, 0, NATIVE_ASSET_CODE), 1);
    assert_eq!(balance_of(&parties, 1, NATIVE_ASSET_CODE), 3 + 4);
}

#[test]
fn test_wallet_freeze() {
    // Carol audits and freezes the asset; Alice owns one unit.
    let grants = [(ALICE, 5u64), (CAROL, 100u64)];
    let mut ledger = MockLedger::new(genesis_validator(2));
    const CAROL_AUDIT: u64 = 201;
    const CAROL_FREEZE: u64 = 202;
    let mut parties = vec![
        (wallet_for(ALICE, 0, 0, &grants), session_for(ALICE, &[BOB, CAROL])),
        (wallet_for(BOB, 0, 0, &grants), session_for(BOB, &[ALICE, CAROL])),
        (
            wallet_for(CAROL, CAROL_AUDIT, CAROL_FREEZE, &grants),
            session_for(CAROL, &[ALICE, BOB]),
        ),
    ];
    let asset = {
        let (w, _) = &mut parties[2];
        w.define_asset(&b"frost".to_vec(), AssetPolicy::reveal_all(CAROL_AUDIT, CAROL_FREEZE))
            .unwrap()
    };
    let bundle = {
        let (w, s) = &mut parties[2];
        w.mint(s, 1, asset.code, 1, ALICE).unwrap()
    };
    submit_and_deliver(&mut ledger, &mut parties, bundle);
    assert_eq!(balance_of(&parties, 0, asset.code), 1);

    // Carol freezes Alice's unit.
    let bundle = {
        let (w, s) = &mut parties[2];
        w.freeze(s, 1, &asset, 1, ALICE).unwrap()
    };
    submit_and_deliver(&mut ledger, &mut parties, bundle);
    assert_eq!(balance_of(&parties, 0, asset.code), 0);
    assert_eq!(frozen_balance_of(&parties, 0, asset.code), 1);

    // Alice cannot spend what is frozen.
    let res = {
        let (w, s) = &mut parties[0];
        w.transfer(s, &asset, &vec![(BOB, 1)], 1)
    };
    match res {
        Err(WalletError::InsufficientBalance { .. }) => {},
        other => panic!("expected InsufficientBalance, got {:?}", other.map(|_| ())),
    }

    // Carol unfreezes; Alice can transfer again.
    let bundle = {
        let (w, s) = &mut parties[2];
        w.unfreeze(s, 1, &asset, 1, ALICE).unwrap()
    };
    submit_and_deliver(&mut ledger, &mut parties, bundle);
    assert_eq!(balance_of(&parties, 0, asset.code), 1);
    assert_eq!(frozen_balance_of(&parties, 0, asset.code), 0);

    let bundle = {
        let (w, s) = &mut parties[0];
        w.transfer(s, &asset, &vec![(BOB, 1)], 1).unwrap()
    };
    submit_and_deliver(&mut ledger, &mut parties, bundle);
    assert_eq!(balance_of(&parties, 1, asset.code), 1);
}

#[test]
fn freeze_holds_block_a_second_freeze() {
    // While a freeze is in flight, its input records are on hold, so a
    // second freeze of the same record reports insufficient balance,
    // not a key problem.
    let grants = [(ALICE, 5u64), (CAROL, 100u64)];
    let mut ledger = MockLedger::new(genesis_validator(2));
    const CAROL_AUDIT: u64 = 201;
    const CAROL_FREEZE: u64 = 202;
    let mut parties = vec![
        (wallet_for(ALICE, 0, 0, &grants), session_for(ALICE, &[CAROL])),
        (
            wallet_for(CAROL, CAROL_AUDIT, CAROL_FREEZE, &grants),
            session_for(CAROL, &[ALICE]),
        ),
    ];
    let asset = {
        let (w, _) = &mut parties[1];
        w.define_asset(&b"frost2".to_vec(), AssetPolicy::reveal_all(CAROL_AUDIT, CAROL_FREEZE))
            .unwrap()
    };
    let bundle = {
        let (w, s) = &mut parties[1];
        w.mint(s, 1, asset.code, 1, ALICE).unwrap()
    };
    submit_and_deliver(&mut ledger, &mut parties, bundle);
    assert_eq!(balance_of(&parties, 0, asset.code), 1);

    // The first freeze is built but never reaches the ledger.
    {
        let (w, s) = &mut parties[1];
        w.freeze(s, 1, &asset, 1, ALICE).unwrap();
    }
    let res = {
        let (w, s) = &mut parties[1];
        w.freeze(s, 1, &asset, 1, ALICE)
    };
    match res {
        Err(WalletError::InsufficientBalance { .. }) => {},
        other => panic!("expected InsufficientBalance, got {:?}", other.map(|_| ())),
    }
}

#[test]
fn asset_code_derivation_is_deterministic() {
    let desc = b"same description".to_vec();
    let c1 = wallet_core::types::derive_asset_code(42, &desc);
    let c2 = wallet_core::types::derive_asset_code(42, &desc);
    assert_eq!(c1, c2);
    let c3 = wallet_core::types::derive_asset_code(43, &desc);
    assert_ne!(c1, c3);
    let c4 = wallet_core::types::derive_asset_code(42, &b"other".to_vec());
    assert_ne!(c1, c4);
}

#[test]
fn dummy_input_keys_are_rejected() {
    // The only transfer key wants five inputs; the wallet refuses to
    // pad rather than fabricate dummy inputs.
    let validator = genesis_validator(1);
    let keys = ProverKeySet {
        xfr: keyset(&[(5, 2)]),
        mint: KeySize { num_inputs: 1, num_outputs: 2 },
        freeze: keyset(&[(2, 2)]),
    };
    let mut w = WalletState::new(rng_from_seed(ALICE), keys, 0, 0, validator);
    w.receive_grant(native_grant(ALICE, 5), 0);
    let s = session_for(ALICE, &[BOB]);
    let native = AssetDefinition::native();
    match w.transfer(&s, &native, &vec![(BOB, 3)], 1) {
        Err(WalletError::CryptoError) => {},
        other => panic!("expected CryptoError, got {:?}", other.map(|_| ())),
    }
}

#[test]
fn consensus_quorum_rules() {
    assert_eq!(wallet_core::consensus::consensus_threshold(7), 5);
    assert_eq!(wallet_core::consensus::consensus_threshold(3), 3);
    assert!(wallet_core::consensus::quorum_reached(5, 7));
    assert!(!wallet_core::consensus::quorum_reached(4, 7));

    let all_same = vec![Some(9u64), None, Some(9u64)];
    assert!(wallet_core::consensus::commitments_agree(&all_same));
    assert_eq!(wallet_core::consensus::count_successes(&all_same), 2);
    let split = vec![Some(9u64), Some(8u64)];
    assert!(!wallet_core::consensus::commitments_agree(&split));
}


#[test]
fn test_wallet_rejected_native_xfr_invalid() {
    // A transfer whose memo signature does not verify is rejected by
    // the validators; the wallet releases the holds it had placed.
    let (mut ledger, mut parties) = native_pair();
    let native = AssetDefinition::native();
    let mut bundle = {
        let (w, s) = &mut parties[0];
        w.transfer(s, &native, &vec![(BOB, 3)], 1).unwrap()
    };
    assert_eq!(balance_of(&parties, 0, NATIVE_ASSET_CODE), 0);
    bundle.sig.memo_count += 1;
    submit_and_deliver(&mut ledger, &mut parties, bundle);
    // The reject released the hold; nothing moved.
    assert_eq!(balance_of(&parties, 0, NATIVE_ASSET_CODE), 5);
    assert_eq!(balance_of(&parties, 1, NATIVE_ASSET_CODE), 0);

    // The record is immediately usable again.
    let bundle = {
        let (w, s) = &mut parties[0];
        w.transfer(s, &native, &vec![(BOB, 3)], 1).unwrap()
    };
    submit_and_deliver(&mut ledger, &mut parties, bundle);
    assert_eq!(balance_of(&parties, 0, NATIVE_ASSET_CODE), 1);
    assert_eq!(balance_of(&parties, 1, NATIVE_ASSET_CODE), 3);
}
