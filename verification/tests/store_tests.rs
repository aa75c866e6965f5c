use wallet_core::dict::Dict;
use wallet_core::key_set::{KeySet, KeySize, ProverKeySet};
use wallet_core::records::RecordDatabase;
use wallet_core::store::{AtomicWalletStorage, WalletSnapshot, WalletStaticState};
use wallet_core::types::{AssetDefinition, AssetPolicy};
use wallet_core::validator::{SetMirror, ValidatorState};
use wallet_core::wallet::DefinedAsset;

fn snapshot(now: u64) -> WalletSnapshot {
    WalletSnapshot {
        now,
        validator: ValidatorState {
            prev_commit_time: now,
            record_count: 0,
            record_root: 0,
            past_record_roots: Vec::new(),
            nullifiers: SetMirror::new(),
            remembered: Dict::new(),
        },
        records: RecordDatabase::new(),
        nullifiers: SetMirror::new(),
        pending_txns: Dict::new(),
        expiring_txns: Dict::new(),
    }
}

fn static_state() -> WalletStaticState {
    WalletStaticState {
        proving_keys: ProverKeySet {
            xfr: KeySet { keys: vec![KeySize { num_inputs: 1, num_outputs: 2 }] },
            mint: KeySize { num_inputs: 1, num_outputs: 2 },
            freeze: KeySet { keys: Vec::new() },
        },
        user_key: 1,
        auditor_key: 2,
        freezer_key: 3,
    }
}

#[test]
fn test_round_trip() {
    let mut storage = AtomicWalletStorage::new(b"meta".to_vec());
    assert!(!storage.wallet_exists());
    storage.create(static_state(), snapshot(0));
    assert!(storage.wallet_exists());

    // A later snapshot replaces the first once committed.
    storage.store_snapshot(snapshot(7));
    storage.commit();

    // Monotonic streams keep every committed entry.
    let asset = AssetDefinition { code: 9, policy: AssetPolicy::unaudited() };
    storage.store_auditable_asset(asset);
    storage.store_defined_asset(DefinedAsset { definition: asset, seed: 4, description: b"d".to_vec() });
    storage.commit();

    assert_eq!(storage.auditable_assets.committed.len(), 1);
    assert_eq!(storage.auditable_assets.committed[0].code, 9);
    assert_eq!(storage.defined_assets.committed.len(), 1);
    assert_eq!(storage.defined_assets.committed[0].seed, 4);

    let (snapshot_back, auditable, defined) = storage.load();
    let loaded = snapshot_back.unwrap();
    assert_eq!(loaded.now, 7);
    assert_eq!(loaded.validator.prev_commit_time, 7);
    // the append logs replay into the registries, keyed by code
    assert!(auditable.contains_key(&9));
    assert_eq!(auditable.get(&9).unwrap().code, 9);
    assert!(defined.contains_key(&9));
    assert_eq!(defined.get(&9).unwrap().seed, 4);
}

#[test]
fn test_revert() {
    let mut storage = AtomicWalletStorage::new(b"meta".to_vec());
    storage.create(static_state(), snapshot(1));

    // Stage changes on several streams, then revert them all.
    storage.store_snapshot(snapshot(9));
    let asset = AssetDefinition { code: 5, policy: AssetPolicy::unaudited() };
    storage.store_auditable_asset(asset);
    storage.store_defined_asset(DefinedAsset { definition: asset, seed: 8, description: Vec::new() });
    storage.revert();

    // A commit after a revert is a no-op.
    storage.commit();
    assert_eq!(storage.auditable_assets.committed.len(), 0);
    assert_eq!(storage.defined_assets.committed.len(), 0);
    let (snapshot_back, auditable, defined) = storage.load();
    assert_eq!(snapshot_back.unwrap().now, 1);
    // nothing reverted reaches the replayed registries
    assert!(!auditable.contains_key(&5));
    assert!(!defined.contains_key(&5));
}
