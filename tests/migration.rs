use asset_migration::migration::{CheckError, MigrateToV1, MigrateV1ToV2, Weight};
use asset_migration::record::{AssetDetails, OldAssetDetails, RECORD_LEN};
use asset_migration::status::AssetStatus;
use asset_migration::storage::{AssetStorage, CorruptRecord};
use parity_scale_codec::{Decode, Encode};

fn zero_old(is_frozen: bool) -> OldAssetDetails {
    OldAssetDetails {
        owner: 0,
        issuer: 0,
        admin: 0,
        freezer: 0,
        supply: 0,
        deposit: 0,
        min_balance: 0,
        is_sufficient: false,
        accounts: 0,
        sufficients: 0,
        approvals: 0,
        is_frozen,
    }
}

fn sample_old(seed: u64, is_frozen: bool) -> OldAssetDetails {
    OldAssetDetails {
        owner: seed,
        issuer: seed + 1,
        admin: seed + 2,
        freezer: seed + 3,
        supply: 0x0102_0304_0506_0708 + seed,
        deposit: u64::MAX - seed,
        min_balance: 7 * seed + 1,
        is_sufficient: seed % 2 == 0,
        accounts: 10 + seed as u32,
        sufficients: 20 + seed as u32,
        approvals: u32::MAX - seed as u32,
        is_frozen,
    }
}

fn codec_old_bytes(d: &OldAssetDetails) -> Vec<u8> {
    (
        d.owner,
        d.issuer,
        d.admin,
        d.freezer,
        d.supply,
        d.deposit,
        d.min_balance,
        d.is_sufficient,
        d.accounts,
        d.sufficients,
        d.approvals,
        d.is_frozen,
    )
        .encode()
}

fn status_index(s: AssetStatus) -> u8 {
    match s {
        AssetStatus::Live => 0,
        AssetStatus::Frozen => 1,
        AssetStatus::Destroying => 2,
    }
}

fn codec_new_bytes(d: &AssetDetails) -> Vec<u8> {
    (
        d.owner,
        d.issuer,
        d.admin,
        d.freezer,
        d.supply,
        d.deposit,
        d.min_balance,
        d.is_sufficient,
        d.accounts,
        d.sufficients,
        d.approvals,
        status_index(d.status),
    )
        .encode()
}

fn decoded(storage: &AssetStorage, id: u32) -> AssetDetails {
    AssetDetails::decode(storage.get(id).expect("entry present")).expect("decodes")
}

#[test]
fn single_frozen_record_migrates_once() {
    let mut storage = AssetStorage::new(1, 0);
    storage.insert(999, zero_old(true).encode());

    let w = MigrateToV1::on_runtime_upgrade(&mut storage);
    assert_eq!(w, Ok(Weight { reads: 1, writes: 2 }));
    assert_eq!(storage.ids(), vec![999]);
    assert_eq!(storage.on_chain_storage_version(), 1);
    let d = decoded(&storage, 999);
    assert_eq!(d.status, AssetStatus::Frozen);
    assert_eq!(
        d,
        AssetDetails {
            owner: 0,
            issuer: 0,
            admin: 0,
            freezer: 0,
            supply: 0,
            deposit: 0,
            min_balance: 0,
            is_sufficient: false,
            accounts: 0,
            sufficients: 0,
            approvals: 0,
            status: AssetStatus::Frozen,
        }
    );

    let bytes_after_first = storage.get(999).unwrap().clone();
    let again = MigrateToV1::on_runtime_upgrade(&mut storage);
    assert_eq!(again, Ok(Weight { reads: 1, writes: 0 }));
    assert_eq!(storage.on_chain_storage_version(), 1);
    assert_eq!(storage.get(999).unwrap(), &bytes_after_first);
    assert_eq!(storage.len(), 1);
}

#[test]
fn frozen_flag_maps_to_status_and_fields_are_kept() {
    let frozen = sample_old(3, true);
    let live = sample_old(8, false);
    let f = frozen.migrate_to_v1();
    let l = live.migrate_to_v1();
    assert_eq!(f.status, AssetStatus::Frozen);
    assert_eq!(l.status, AssetStatus::Live);
    assert_eq!(
        (f.owner, f.issuer, f.admin, f.freezer, f.supply, f.deposit, f.min_balance),
        (3, 4, 5, 6, 0x0102_0304_0506_070b, u64::MAX - 3, 22)
    );
    assert_eq!((f.is_sufficient, f.accounts, f.sufficients, f.approvals), (false, 13, 23, u32::MAX - 3));
    assert_eq!((l.owner, l.is_sufficient, l.accounts), (8, true, 18));
}

#[test]
fn translation_keeps_count_and_keys() {
    let mut storage = AssetStorage::new(1, 0);
    let ids = [5u32, 1, 42, 7];
    for (n, id) in ids.iter().enumerate() {
        storage.insert(*id, sample_old(n as u64, n % 2 == 1).encode());
    }
    let before = storage.ids();
    let w = MigrateToV1::on_runtime_upgrade(&mut storage).unwrap();
    assert_eq!(w, Weight { reads: 4, writes: 5 });
    assert_eq!(w.reads + w.writes, 2 * 4 + 1);
    assert_eq!(storage.len(), 4);
    assert_eq!(storage.ids(), before);
    for (n, id) in ids.iter().enumerate() {
        let expected = sample_old(n as u64, n % 2 == 1).migrate_to_v1();
        assert_eq!(decoded(&storage, *id), expected);
    }
}

#[test]
fn translate_counts_rewritten_records() {
    let mut storage = AssetStorage::new(1, 0);
    storage.insert(1, zero_old(false).encode());
    storage.insert(2, zero_old(true).encode());
    assert_eq!(storage.translate(), Ok(2));
    assert_eq!(storage.on_chain_storage_version(), 0);
    assert_eq!(decoded(&storage, 1).status, AssetStatus::Live);
    assert_eq!(decoded(&storage, 2).status, AssetStatus::Frozen);
}

#[test]
fn empty_collection_still_advances_version() {
    let mut storage = AssetStorage::new(1, 0);
    let w = MigrateToV1::on_runtime_upgrade(&mut storage);
    assert_eq!(w, Ok(Weight { reads: 0, writes: 1 }));
    assert_eq!(storage.on_chain_storage_version(), 1);
    assert_eq!(storage.len(), 0);
}

#[test]
fn malformed_record_aborts_without_version_bump() {
    let mut storage = AssetStorage::new(1, 0);
    storage.insert(1, zero_old(false).encode());
    let mut short = zero_old(true).encode();
    short.pop();
    storage.insert(2, short.clone());
    let r = MigrateToV1::on_runtime_upgrade(&mut storage);
    assert_eq!(r, Err(CorruptRecord { asset_id: 2 }));
    assert_eq!(storage.on_chain_storage_version(), 0);
    assert_eq!(storage.get(1).unwrap(), &zero_old(false).encode());
    assert_eq!(storage.get(2).unwrap(), &short);
}

#[test]
fn invalid_bool_byte_is_corruption() {
    let mut bytes = zero_old(false).encode();
    bytes[RECORD_LEN - 1] = 2;
    assert_eq!(OldAssetDetails::decode(&bytes), None);
    let mut storage = AssetStorage::new(1, 0);
    storage.insert(77, bytes);
    assert_eq!(MigrateToV1::on_runtime_upgrade(&mut storage), Err(CorruptRecord { asset_id: 77 }));
    assert_eq!(storage.on_chain_storage_version(), 0);

    let mut long = zero_old(false).encode();
    long.push(0);
    assert_eq!(OldAssetDetails::decode(&long), None);
}

#[test]
fn step_with_wrong_source_is_noop() {
    let mut storage = AssetStorage::new(1, 1);
    storage.insert(3, vec![0xff; 3]);
    assert_eq!(MigrateToV1::on_runtime_upgrade(&mut storage), Ok(Weight { reads: 1, writes: 0 }));
    assert_eq!(storage.on_chain_storage_version(), 1);
    assert_eq!(storage.get(3).unwrap(), &vec![0xff; 3]);

    let mut ahead = AssetStorage::new(2, 0);
    ahead.insert(4, zero_old(true).encode());
    assert_eq!(MigrateToV1::on_runtime_upgrade(&mut ahead), Ok(Weight { reads: 1, writes: 0 }));
    assert_eq!(ahead.on_chain_storage_version(), 0);
    assert_eq!(ahead.get(4).unwrap(), &zero_old(true).encode());
}

#[test]
fn second_step_advances_tag_once() {
    let mut storage = AssetStorage::new(2, 1);
    let w = MigrateV1ToV2::on_runtime_upgrade(&mut storage);
    assert_eq!(w, Weight { reads: 1, writes: 1 });
    assert_eq!(storage.on_chain_storage_version(), 2);
    assert_eq!(MigrateV1ToV2::on_runtime_upgrade(&mut storage), Weight { reads: 1, writes: 0 });
    assert_eq!(storage.on_chain_storage_version(), 2);

    let mut stale = AssetStorage::new(2, 0);
    assert_eq!(MigrateV1ToV2::on_runtime_upgrade(&mut stale), Weight { reads: 1, writes: 0 });
    assert_eq!(stale.on_chain_storage_version(), 0);
}

#[test]
fn encodings_match_scale_codec() {
    let d = sample_old(11, true);
    assert_eq!(d.encode(), codec_old_bytes(&d));
    assert_eq!(d.encode().len(), RECORD_LEN);
    let n = d.migrate_to_v1();
    assert_eq!(n.encode(), codec_new_bytes(&n));
    let destroying = AssetDetails { status: AssetStatus::Destroying, ..n };
    assert_eq!(destroying.encode(), codec_new_bytes(&destroying));
    assert_eq!(AssetDetails::decode(&destroying.encode()), Some(destroying));
    assert_eq!(OldAssetDetails::decode(&codec_old_bytes(&d)), Some(d));
}

#[test]
fn unknown_status_byte_does_not_decode() {
    let mut bytes = zero_old(false).migrate_to_v1().encode();
    bytes[RECORD_LEN - 1] = 3;
    assert_eq!(AssetDetails::decode(&bytes), None);
}

#[test]
fn pre_check_requires_source_version() {
    let mut storage = AssetStorage::new(1, 1);
    assert_eq!(MigrateToV1::pre_upgrade(&storage), Err(CheckError::NotLinear));
    assert_eq!(CheckError::NotLinear.message(), "must upgrade linearly");
    storage = AssetStorage::new(1, 0);
    storage.insert(9, zero_old(false).encode());
    storage.insert(10, zero_old(false).encode());
    let snap = MigrateToV1::pre_upgrade(&storage).unwrap();
    assert_eq!(snap, 2u32.encode());
    assert_eq!(u32::decode(&mut snap.as_slice()), Ok(2));
    assert_eq!(MigrateV1ToV2::pre_upgrade(&storage), Err(CheckError::NotLinear));
}

#[test]
fn checks_pass_around_a_good_migration() {
    let mut storage = AssetStorage::new(1, 0);
    storage.insert(1, sample_old(1, true).encode());
    storage.insert(2, sample_old(2, false).encode());
    let snap = MigrateToV1::pre_upgrade(&storage).unwrap();
    MigrateToV1::on_runtime_upgrade(&mut storage).unwrap();
    assert_eq!(MigrateToV1::post_upgrade(&storage, snap), Ok(()));
}

#[test]
fn post_check_reports_each_failure() {
    let mut storage = AssetStorage::new(1, 0);
    storage.insert(1, zero_old(false).encode());
    let snap = MigrateToV1::pre_upgrade(&storage).unwrap();

    assert_eq!(MigrateToV1::post_upgrade(&storage, vec![1, 0]), Err(CheckError::BadSnapshot));
    assert_eq!(MigrateToV1::post_upgrade(&storage, snap.clone()), Err(CheckError::VersionMismatch));

    MigrateToV1::on_runtime_upgrade(&mut storage).unwrap();
    assert_eq!(MigrateToV1::post_upgrade(&storage, 5u32.encode()), Err(CheckError::CountChanged));
    assert_eq!(MigrateV1ToV2::post_upgrade(&storage, snap.clone()), Err(CheckError::NotUpgraded));

    let destroying = AssetDetails { status: AssetStatus::Destroying, ..zero_old(false).migrate_to_v1() };
    storage.insert(1, destroying.encode());
    assert_eq!(MigrateToV1::post_upgrade(&storage, snap.clone()), Err(CheckError::UnexpectedStatus));

    storage.insert(1, vec![1, 2, 3]);
    assert_eq!(MigrateToV1::post_upgrade(&storage, snap), Err(CheckError::UnexpectedStatus));
}

#[test]
fn second_post_check_admits_destroying() {
    let mut storage = AssetStorage::new(2, 1);
    let destroying = AssetDetails { status: AssetStatus::Destroying, ..zero_old(false).migrate_to_v1() };
    storage.insert(4, destroying.encode());
    let snap = MigrateV1ToV2::pre_upgrade(&storage).unwrap();
    MigrateV1ToV2::on_runtime_upgrade(&mut storage);
    assert_eq!(MigrateV1ToV2::post_upgrade(&storage, snap), Ok(()));
}

#[test]
fn check_error_messages_name_the_invariant() {
    assert_eq!(CheckError::NotUpgraded.message(), "must_upgrade");
    assert_eq!(
        CheckError::CountChanged.message(),
        "the asset count before and after the migration should be the same"
    );
    assert_eq!(
        CheckError::VersionMismatch.message(),
        "after migration, the in_code_version and on_chain_version should be the same"
    );
}

#[test]
fn insert_replaces_existing_entry() {
    let mut storage = AssetStorage::new(1, 0);
    storage.insert(1, vec![1]);
    storage.insert(2, vec![2]);
    storage.insert(1, vec![3]);
    assert_eq!(storage.len(), 2);
    assert_eq!(storage.get(1), Some(&vec![3]));
    assert_eq!(storage.get(2), Some(&vec![2]));
    assert_eq!(storage.get(3), None);
    assert_eq!(storage.ids(), vec![1, 2]);
}
