use vstd::prelude::*;

use crate::encoding::{enc_u32, lemma_enc_u32_injective, push_u32, read_u32};
use crate::record::{decode_new_spec, AssetDetails};
use crate::status::AssetStatus;
use crate::storage::{
    all_old_decodable, first_corrupt_at, translated, AssetStorage, CorruptRecord, StorageModel,
};

verus! {

/// Declared read and write work of a migration step, in storage accesses.
#[derive(Clone, Copy, Debug, PartialEq, Eq, Structural)]
pub struct Weight {
    pub reads: u64,
    pub writes: u64,
}

/// What a step that does nothing reports: the one read of the version tag.
pub open spec fn noop_weight() -> Weight {
    Weight { reads: 1, writes: 0 }
}

/// One read and one write for each of `n` records, and one write for the version tag.
pub open spec fn translation_weight(n: u64) -> Weight {
    Weight {
        reads: n,
        writes: if n < u64::MAX {
            (n + 1) as u64
        } else {
            n
        },
    }
}

/// Outcome of the step from version 0 to version 1, from state `pre` to `post`.
/// It runs only where the stored tag reads 0 and the code targets 1; then it either
/// rewrites every record and stores tag 1, or stops on the first undecodable record
/// and leaves everything as it was. Elsewhere it changes nothing.
pub open spec fn upgrade_to_v1_outcome(
    pre: StorageModel,
    post: StorageModel,
    r: Result<Weight, CorruptRecord>,
) -> bool {
    if pre.on_chain_version == 0 && pre.in_code_version == 1 {
        match r {
            Ok(w) => {
                &&& all_old_decodable(pre.assets)
                &&& w == translation_weight(pre.assets.len() as u64)
                &&& post == StorageModel {
                    on_chain_version: 1,
                    assets: translated(pre.assets),
                    ..pre
                }
            },
            Err(e) => post == pre && exists|i: int|
                first_corrupt_at(pre.assets, i) && pre.assets[i].0 == e.asset_id,
        }
    } else {
        r == Ok::<Weight, CorruptRecord>(noop_weight()) && post == pre
    }
}

/// Outcome of the step from version 1 to version 2, which only advances the tag:
/// the records are laid out alike under both versions.
pub open spec fn upgrade_to_v2_outcome(pre: StorageModel, post: StorageModel, w: Weight) -> bool {
    if pre.on_chain_version == 1 && pre.in_code_version == 2 {
        w == (Weight { reads: 1, writes: 1 }) && post == (StorageModel {
            on_chain_version: 2,
            ..pre
        })
    } else {
        w == noop_weight() && post == pre
    }
}

/// A failed validation check around a migration step.
#[derive(Clone, Copy, Debug, PartialEq, Eq, Structural)]
pub enum CheckError {
    NotLinear,
    BadSnapshot,
    CountChanged,
    NotUpgraded,
    VersionMismatch,
    UnexpectedStatus,
}

impl CheckError {
    /// A description of the invariant that failed.
    pub fn message(&self) -> &'static str {
        match self {
            CheckError::NotLinear => "must upgrade linearly",
            CheckError::BadSnapshot => "the state parameter should be something that was generated by pre_upgrade",
            CheckError::CountChanged => "the asset count before and after the migration should be the same",
            CheckError::NotUpgraded => "must_upgrade",
            CheckError::VersionMismatch => "after migration, the in_code_version and on_chain_version should be the same",
            CheckError::UnexpectedStatus => "assets should only be in a status that this version allows",
        }
    }
}

/// The record count that a snapshot holds in its first four bytes.
pub open spec fn snapshot_count(snap: Seq<u8>) -> u32 {
    choose|c: u32| enc_u32(c) == snap.subrange(0, 4)
}

/// Every record decodes under the current schema with one of the `allowed` statuses.
pub open spec fn statuses_within(s: Seq<(u32, Seq<u8>)>, allowed: Seq<AssetStatus>) -> bool {
    forall|i: int|
        0 <= i < s.len() ==> match decode_new_spec(#[trigger] s[i].1) {
            Some(d) => allowed.contains(d.status),
            None => false,
        }
}

/// The verdict of the check after a step to `target`, given the snapshot taken before.
pub open spec fn post_check_spec(
    m: StorageModel,
    snap: Seq<u8>,
    target: u16,
    allowed: Seq<AssetStatus>,
) -> Result<(), CheckError> {
    if snap.len() < 4 {
        Err(CheckError::BadSnapshot)
    } else if snapshot_count(snap) != m.assets.len() as u32 {
        Err(CheckError::CountChanged)
    } else if m.in_code_version != target {
        Err(CheckError::NotUpgraded)
    } else if m.in_code_version != m.on_chain_version {
        Err(CheckError::VersionMismatch)
    } else if !statuses_within(m.assets, allowed) {
        Err(CheckError::UnexpectedStatus)
    } else {
        Ok(())
    }
}

/// The check before a step from `source`: the stored tag must read `source`, and the
/// snapshot is the record count as four little-endian bytes.
pub fn pre_upgrade_check(storage: &AssetStorage, source: u16) -> (r: Result<Vec<u8>, CheckError>)
    ensures
        match r {
            Ok(snap) => storage@.on_chain_version == source && snap@ == enc_u32(
                storage@.assets.len() as u32,
            ),
            Err(e) => storage@.on_chain_version != source && e == CheckError::NotLinear,
        },
{
    if storage.on_chain_storage_version() != source {
        return Err(CheckError::NotLinear);
    }
    let count = #[verifier::truncate] (storage.len() as u32);
    let mut snap: Vec<u8> = Vec::new();
    push_u32(&mut snap, count);
    assert(snap@ =~= enc_u32(count));
    Ok(snap)
}

fn status_allowed(status: AssetStatus, allowed: &Vec<AssetStatus>) -> (r: bool)
    ensures
        r == allowed@.contains(status),
{
    let mut k: usize = 0;
    while k < allowed.len()
        invariant
            k <= allowed@.len(),
            forall|j: int| 0 <= j < k ==> allowed@[j] != status,
        decreases allowed.len() - k,
    {
        if allowed[k] == status {
            return true;
        }
        k += 1;
    }
    false
}

/// The check after a step to `target`, given the snapshot taken before it and the
/// statuses that records may hold as of `target`.
pub fn post_upgrade_check(
    storage: &AssetStorage,
    snapshot: &Vec<u8>,
    target: u16,
    allowed: &Vec<AssetStatus>,
) -> (r: Result<(), CheckError>)
    ensures
        r == post_check_spec(storage@, snapshot@, target, allowed@),
{
    if snapshot.len() < 4 {
        return Err(CheckError::BadSnapshot);
    }
    let prev_count = read_u32(snapshot, 0);
    proof {
        let c = snapshot_count(snapshot@);
        assert(enc_u32(c) == snapshot@.subrange(0, 4));
        lemma_enc_u32_injective(c, prev_count);
    }
    let post_count = #[verifier::truncate] (storage.len() as u32);
    if prev_count != post_count {
        return Err(CheckError::CountChanged);
    }
    let in_code_version = storage.in_code_storage_version();
    let on_chain_version = storage.on_chain_storage_version();
    if in_code_version != target {
        return Err(CheckError::NotUpgraded);
    }
    if in_code_version != on_chain_version {
        return Err(CheckError::VersionMismatch);
    }
    let mut i: usize = 0;
    while i < storage.len()
        invariant
            snapshot@.len() >= 4,
            snapshot_count(snapshot@) == storage@.assets.len() as u32,
            storage@.in_code_version == target,
            storage@.on_chain_version == target,
            i <= storage@.assets.len(),
            forall|j: int|
                0 <= j < i ==> match decode_new_spec(#[trigger] storage@.assets[j].1) {
                    Some(d) => allowed@.contains(d.status),
                    None => false,
                },
        decreases storage@.assets.len() - i,
    {
        match AssetDetails::decode(storage.value_at(i)) {
            Some(d) => {
                if !status_allowed(d.status, allowed) {
                    assert(decode_new_spec(storage@.assets[i as int].1) == Some(d));
                    return Err(CheckError::UnexpectedStatus);
                }
            },
            None => {
                assert(decode_new_spec(storage@.assets[i as int].1).is_none());
                return Err(CheckError::UnexpectedStatus);
            },
        }
        i += 1;
    }
    Ok(())
}

/// The step from version 0, where assets carried a frozen flag, to version 1, where
/// they carry a status.
pub struct MigrateToV1;

impl MigrateToV1 {
    /// Rewrites every asset record and stores tag 1 where the stored tag reads 0 and
    /// the code targets 1; elsewhere does nothing. A record that does not decode stops
    /// the step with nothing changed.
    pub fn on_runtime_upgrade(storage: &mut AssetStorage) -> (r: Result<Weight, CorruptRecord>)
        requires
            old(storage).wf(),
        ensures
            final(storage).wf(),
            upgrade_to_v1_outcome(old(storage)@, final(storage)@, r),
    {
        let in_code_version = storage.in_code_storage_version();
        let on_chain_version = storage.on_chain_storage_version();
        if on_chain_version == 0 && in_code_version == 1 {
            let translated_count = match storage.translate() {
                Ok(n) => n,
                Err(e) => return Err(e),
            };
            storage.put_on_chain_version(in_code_version);
            let writes = translated_count.saturating_add(1);
            Ok(Weight { reads: translated_count, writes })
        } else {
            Ok(Weight { reads: 1, writes: 0 })
        }
    }

    /// The check before the step: the stored tag must read 0.
    pub fn pre_upgrade(storage: &AssetStorage) -> (r: Result<Vec<u8>, CheckError>)
        ensures
            match r {
                Ok(snap) => storage@.on_chain_version == 0 && snap@ == enc_u32(
                    storage@.assets.len() as u32,
                ),
                Err(e) => storage@.on_chain_version != 0 && e == CheckError::NotLinear,
            },
    {
        pre_upgrade_check(storage, 0)
    }

    /// The check after the step: same record count, tag 1 stored and targeted, and
    /// every record `Live` or `Frozen`.
    pub fn post_upgrade(storage: &AssetStorage, prev_count: Vec<u8>) -> (r: Result<(), CheckError>)
        ensures
            r == post_check_spec(
                storage@,
                prev_count@,
                1,
                seq![AssetStatus::Live, AssetStatus::Frozen],
            ),
    {
        let mut allowed: Vec<AssetStatus> = Vec::new();
        allowed.push(AssetStatus::Live);
        allowed.push(AssetStatus::Frozen);
        assert(allowed@ =~= seq![AssetStatus::Live, AssetStatus::Frozen]);
        post_upgrade_check(storage, &prev_count, 1, &allowed)
    }
}

/// The step from version 1 to version 2, which admits the `Destroying` status.
pub struct MigrateV1ToV2;

impl MigrateV1ToV2 {
    /// Stores tag 2 where the stored tag reads 1 and the code targets 2; elsewhere
    /// does nothing.
    pub fn on_runtime_upgrade(storage: &mut AssetStorage) -> (r: Weight)
        requires
            old(storage).wf(),
        ensures
            final(storage).wf(),
            upgrade_to_v2_outcome(old(storage)@, final(storage)@, r),
    {
        let in_code_version = storage.in_code_storage_version();
        let on_chain_version = storage.on_chain_storage_version();
        if on_chain_version == 1 && in_code_version == 2 {
            storage.put_on_chain_version(in_code_version);
            Weight { reads: 1, writes: 1 }
        } else {
            Weight { reads: 1, writes: 0 }
        }
    }

    /// The check before the step: the stored tag must read 1.
    pub fn pre_upgrade(storage: &AssetStorage) -> (r: Result<Vec<u8>, CheckError>)
        ensures
            match r {
                Ok(snap) => storage@.on_chain_version == 1 && snap@ == enc_u32(
                    storage@.assets.len() as u32,
                ),
                Err(e) => storage@.on_chain_version != 1 && e == CheckError::NotLinear,
            },
    {
        pre_upgrade_check(storage, 1)
    }

    /// The check after the step: same record count, tag 2 stored and targeted, and
    /// every record `Live`, `Frozen` or `Destroying`.
    pub fn post_upgrade(storage: &AssetStorage, prev_count: Vec<u8>) -> (r: Result<(), CheckError>)
        ensures
            r == post_check_spec(
                storage@,
                prev_count@,
                2,
                seq![AssetStatus::Live, AssetStatus::Frozen, AssetStatus::Destroying],
            ),
    {
        let mut allowed: Vec<AssetStatus> = Vec::new();
        allowed.push(AssetStatus::Live);
        allowed.push(AssetStatus::Frozen);
        allowed.push(AssetStatus::Destroying);
        assert(allowed@ =~= seq![AssetStatus::Live, AssetStatus::Frozen, AssetStatus::Destroying]);
        post_upgrade_check(storage, &prev_count, 2, &allowed)
    }
}

/// Running the step to version 1 a second time, once the stored tag reads its
/// target, changes nothing and reports only the read of the tag.
pub proof fn lemma_v1_rerun_is_noop(
    pre: StorageModel,
    post: StorageModel,
    r: Result<Weight, CorruptRecord>,
)
    requires
        pre.on_chain_version == 1,
        upgrade_to_v1_outcome(pre, post, r),
    ensures
        post == pre,
        r == Ok::<Weight, CorruptRecord>(noop_weight()),
{
}

/// Whatever the first run of the step to version 1 did, a second run right after a
/// successful first one changes nothing and reports only the read of the tag.
pub proof fn lemma_v1_twice_is_once(
    s0: StorageModel,
    s1: StorageModel,
    w1: Weight,
    s2: StorageModel,
    r2: Result<Weight, CorruptRecord>,
)
    requires
        upgrade_to_v1_outcome(s0, s1, Ok(w1)),
        upgrade_to_v1_outcome(s1, s2, r2),
    ensures
        s2 == s1,
        r2 == Ok::<Weight, CorruptRecord>(noop_weight()),
{
}

/// Running the step to version 2 twice is the same as running it once.
pub proof fn lemma_v2_twice_is_once(
    s0: StorageModel,
    s1: StorageModel,
    w1: Weight,
    s2: StorageModel,
    w2: Weight,
)
    requires
        upgrade_to_v2_outcome(s0, s1, w1),
        upgrade_to_v2_outcome(s1, s2, w2),
    ensures
        s2 == s1,
        w2 == noop_weight(),
{
}

/// A step whose source version is not the stored one changes nothing, whatever the
/// records hold.
pub proof fn lemma_linearity_guard(
    pre: StorageModel,
    post1: StorageModel,
    r1: Result<Weight, CorruptRecord>,
    post2: StorageModel,
    w2: Weight,
)
    requires
        pre.on_chain_version != 0 ==> upgrade_to_v1_outcome(pre, post1, r1),
        pre.on_chain_version != 1 ==> upgrade_to_v2_outcome(pre, post2, w2),
    ensures
        pre.on_chain_version != 0 ==> post1 == pre && r1 == Ok::<Weight, CorruptRecord>(
            noop_weight(),
        ),
        pre.on_chain_version != 1 ==> post2 == pre && w2 == noop_weight(),
{
}

/// After a successful step the stored tag is the step's target, and no step ever
/// lowers the stored tag.
pub proof fn lemma_version_advances(
    pre: StorageModel,
    post1: StorageModel,
    r1: Result<Weight, CorruptRecord>,
    post2: StorageModel,
    w2: Weight,
)
    requires
        upgrade_to_v1_outcome(pre, post1, r1),
        upgrade_to_v2_outcome(pre, post2, w2),
    ensures
        post1.on_chain_version >= pre.on_chain_version,
        post2.on_chain_version >= pre.on_chain_version,
        pre.on_chain_version == 0 && pre.in_code_version == 1 && r1.is_ok()
            ==> post1.on_chain_version == 1,
        pre.on_chain_version == 1 && pre.in_code_version == 2 ==> post2.on_chain_version == 2,
{
}

/// A record that does not decode under the old schema stops the step to version 1
/// with an error, and the stored tag and records stay as they were.
pub proof fn lemma_corruption_is_fatal(
    pre: StorageModel,
    post: StorageModel,
    r: Result<Weight, CorruptRecord>,
)
    requires
        !all_old_decodable(pre.assets),
        upgrade_to_v1_outcome(pre, post, r),
    ensures
        post.on_chain_version == pre.on_chain_version,
        post == pre,
        pre.on_chain_version == 0 && pre.in_code_version == 1 ==> r.is_err(),
{
}

} // verus!
