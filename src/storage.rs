use vstd::prelude::*;

use crate::record::{
    decode_new_spec, decode_old_spec, encode_new, encode_old, lemma_decode_new_encode,
    lemma_decode_old_encode, migrate_spec, old_decodable, AssetDetails, OldAssetDetails,
};
use crate::status::AssetStatus;

verus! {

/// The abstract state of the asset collection: the two version tags and the stored
/// entries, each an asset id with its encoded record.
pub struct StorageModel {
    pub in_code_version: u16,
    pub on_chain_version: u16,
    pub assets: Seq<(u32, Seq<u8>)>,
}

/// No asset id occurs twice.
pub open spec fn keys_unique(s: Seq<(u32, Seq<u8>)>) -> bool {
    forall|i: int, j: int| 0 <= i < s.len() && 0 <= j < s.len() && i != j ==> s[i].0 != s[j].0
}

pub open spec fn contains_key(s: Seq<(u32, Seq<u8>)>, id: u32) -> bool {
    exists|i: int| 0 <= i < s.len() && s[i].0 == id
}

/// The set of asset ids in the collection.
pub open spec fn key_set(s: Seq<(u32, Seq<u8>)>) -> Set<u32> {
    Set::new(|id: u32| contains_key(s, id))
}

/// The bytes stored under `id`, if any.
pub open spec fn lookup(s: Seq<(u32, Seq<u8>)>, id: u32) -> Option<Seq<u8>> {
    if contains_key(s, id) {
        Some(s[choose|i: int| 0 <= i < s.len() && s[i].0 == id].1)
    } else {
        None
    }
}

/// Every stored entry decodes under the old schema.
pub open spec fn all_old_decodable(s: Seq<(u32, Seq<u8>)>) -> bool {
    forall|i: int| 0 <= i < s.len() ==> old_decodable(#[trigger] s[i].1)
}

/// Entry `i` is the first one that does not decode under the old schema.
pub open spec fn first_corrupt_at(s: Seq<(u32, Seq<u8>)>, i: int) -> bool {
    &&& 0 <= i < s.len()
    &&& !old_decodable(s[i].1)
    &&& forall|j: int| 0 <= j < i ==> old_decodable(#[trigger] s[j].1)
}

/// An old-schema encoding rewritten as the encoding of its migrated record.
pub open spec fn migrate_bytes(b: Seq<u8>) -> Seq<u8> {
    match decode_old_spec(b) {
        Some(d) => encode_new(migrate_spec(d)),
        None => b,
    }
}

/// Every entry rewritten in place under its own id.
pub open spec fn translated(s: Seq<(u32, Seq<u8>)>) -> Seq<(u32, Seq<u8>)> {
    s.map_values(|e: (u32, Seq<u8>)| (e.0, migrate_bytes(e.1)))
}

/// A translation pass failed on an entry that does not decode under the old schema.
#[derive(Clone, Copy, Debug, PartialEq, Eq, Structural)]
pub struct CorruptRecord {
    pub asset_id: u32,
}

/// Outcome of a translation pass from `pre` to `post`: either every entry decoded,
/// was rewritten under its own id and counted, or the first undecodable entry is
/// reported and nothing changed.
pub open spec fn translate_outcome(
    pre: Seq<(u32, Seq<u8>)>,
    post: Seq<(u32, Seq<u8>)>,
    r: Result<u64, CorruptRecord>,
) -> bool {
    match r {
        Ok(n) => all_old_decodable(pre) && n == pre.len() && post == translated(pre),
        Err(e) => post == pre && exists|i: int| first_corrupt_at(pre, i) && pre[i].0 == e.asset_id,
    }
}

/// The asset collection together with its version tags.
pub struct AssetStorage {
    in_code_version: u16,
    on_chain_version: u16,
    assets: Vec<(u32, Vec<u8>)>,
}

impl View for AssetStorage {
    type V = StorageModel;

    closed spec fn view(&self) -> StorageModel {
        StorageModel {
            in_code_version: self.in_code_version,
            on_chain_version: self.on_chain_version,
            assets: self.assets@.map_values(|e: (u32, Vec<u8>)| (e.0, e.1@)),
        }
    }
}

proof fn lemma_lookup_at(s: Seq<(u32, Seq<u8>)>, i: int)
    requires
        keys_unique(s),
        0 <= i < s.len(),
    ensures
        lookup(s, s[i].0) == Some(s[i].1),
{
    let id = s[i].0;
    assert(contains_key(s, id));
    let j = choose|j: int| 0 <= j < s.len() && s[j].0 == id;
    assert(j == i);
}

impl AssetStorage {
    pub open spec fn wf(&self) -> bool {
        keys_unique(self@.assets)
    }

    /// An empty collection whose code targets `in_code_version` and whose stored tag
    /// reads `on_chain_version`.
    pub fn new(in_code_version: u16, on_chain_version: u16) -> (r: AssetStorage)
        ensures
            r.wf(),
            r@.in_code_version == in_code_version,
            r@.on_chain_version == on_chain_version,
            r@.assets == Seq::<(u32, Seq<u8>)>::empty(),
    {
        let r = AssetStorage { in_code_version, on_chain_version, assets: Vec::new() };
        assert(r@.assets =~= Seq::<(u32, Seq<u8>)>::empty());
        r
    }

    /// The version the deployed logic targets.
    pub fn in_code_storage_version(&self) -> (r: u16)
        ensures
            r == self@.in_code_version,
    {
        self.in_code_version
    }

    /// The version recorded in durable state.
    pub fn on_chain_storage_version(&self) -> (r: u16)
        ensures
            r == self@.on_chain_version,
    {
        self.on_chain_version
    }

    /// Records `version` as the stored version tag.
    pub fn put_on_chain_version(&mut self, version: u16)
        ensures
            final(self)@ == (StorageModel { on_chain_version: version, ..old(self)@ }),
    {
        self.on_chain_version = version;
    }

    /// Number of stored entries.
    pub fn len(&self) -> (r: usize)
        ensures
            r == self@.assets.len(),
    {
        self.assets.len()
    }

    /// The bytes of the entry at position `i` in storage order.
    pub fn value_at(&self, i: usize) -> (r: &Vec<u8>)
        requires
            i < self@.assets.len(),
        ensures
            r@ == self@.assets[i as int].1,
    {
        &self.assets[i].1
    }

    /// The stored asset ids, in storage order.
    pub fn ids(&self) -> (r: Vec<u32>)
        ensures
            r@ == self@.assets.map_values(|e: (u32, Seq<u8>)| e.0),
    {
        let mut r: Vec<u32> = Vec::new();
        let mut i: usize = 0;
        while i < self.assets.len()
            invariant
                i <= self.assets@.len(),
                r@ == self@.assets.subrange(0, i as int).map_values(|e: (u32, Seq<u8>)| e.0),
            decreases self.assets.len() - i,
        {
            r.push(self.assets[i].0);
            i += 1;
            assert(r@ =~= self@.assets.subrange(0, i as int).map_values(|e: (u32, Seq<u8>)| e.0));
        }
        assert(self@.assets.subrange(0, i as int) =~= self@.assets);
        r
    }

    /// The bytes stored under `id`.
    pub fn get(&self, id: u32) -> (r: Option<&Vec<u8>>)
        requires
            self.wf(),
        ensures
            match r {
                Some(v) => lookup(self@.assets, id) == Some(v@),
                None => lookup(self@.assets, id) == None::<Seq<u8>>,
            },
    {
        let mut i: usize = 0;
        while i < self.assets.len()
            invariant
                self.wf(),
                i <= self.assets@.len(),
                forall|j: int| 0 <= j < i ==> self@.assets[j].0 != id,
            decreases self.assets.len() - i,
        {
            if self.assets[i].0 == id {
                proof {
                    lemma_lookup_at(self@.assets, i as int);
                }
                return Some(&self.assets[i].1);
            }
            i += 1;
        }
        None
    }

    /// Stores `value` under `id`, replacing what was there.
    pub fn insert(&mut self, id: u32, value: Vec<u8>)
        requires
            old(self).wf(),
        ensures
            final(self).wf(),
            final(self)@.in_code_version == old(self)@.in_code_version,
            final(self)@.on_chain_version == old(self)@.on_chain_version,
            contains_key(old(self)@.assets, id) ==> final(self)@.assets.len() == old(
                self,
            )@.assets.len(),
            !contains_key(old(self)@.assets, id) ==> final(self)@.assets == old(
                self,
            )@.assets.push((id, value@)),
            lookup(final(self)@.assets, id) == Some(value@),
            forall|k: u32| k != id ==> lookup(final(self)@.assets, k) == lookup(old(self)@.assets, k),
    {
        let ghost pre = self@.assets;
        let ghost v = value@;
        let mut i: usize = 0;
        while i < self.assets.len()
            invariant
                i <= self.assets@.len(),
                self@ == old(self)@,
                self@.assets == pre,
                v == value@,
                self.wf(),
                forall|j: int| 0 <= j < i ==> self@.assets[j].0 != id,
            decreases self.assets.len() - i,
        {
            if self.assets[i].0 == id {
                let ghost before = self.assets@;
                self.assets.set(i, (id, value));
                proof {
                    let post = self@.assets;
                    assert(self.assets@ == before.update(i as int, (id, value)));
                    assert(self.assets@[i as int].1@ == v);
                    assert(post[i as int] == (id, v));
                    assert forall|j: int| 0 <= j < post.len() implies post[j] == pre.update(
                        i as int,
                        (id, v),
                    )[j] by {
                        assert(post[j] == (self.assets@[j].0, self.assets@[j].1@));
                        if j != i {
                            assert(self.assets@[j] == before[j]);
                        }
                    }
                    assert(post =~= pre.update(i as int, (id, v)));
                    assert(pre[i as int].0 == id);
                    assert(contains_key(pre, id));
                    assert forall|a: int| 0 <= a < post.len() implies post[a].0 == pre[a].0 by {}
                    assert(keys_unique(post));
                    lemma_lookup_at(post, i as int);
                    assert forall|k: u32| k != id implies lookup(post, k) == lookup(pre, k) by {
                        if contains_key(pre, k) {
                            let j = choose|j: int| 0 <= j < pre.len() && pre[j].0 == k;
                            lemma_lookup_at(pre, j);
                            lemma_lookup_at(post, j);
                        } else {
                            assert(!contains_key(post, k));
                        }
                    }
                }
                return;
            }
            i += 1;
        }
        self.assets.push((id, value));
        proof {
            let post = self@.assets;
            assert(post =~= pre.push((id, v)));
            assert(!contains_key(pre, id));
            lemma_lookup_at(post, pre.len() as int);
            assert forall|k: u32| k != id implies lookup(post, k) == lookup(pre, k) by {
                if contains_key(pre, k) {
                    let j = choose|j: int| 0 <= j < pre.len() && pre[j].0 == k;
                    lemma_lookup_at(pre, j);
                    lemma_lookup_at(post, j);
                } else {
                    assert(!contains_key(post, k));
                }
            }
        }
    }

    /// Rewrites every entry from the old schema to the current one under the same id
    /// and returns how many were rewritten. On the first entry that does not decode
    /// under the old schema nothing is changed and that entry's id is returned.
    pub fn translate(&mut self) -> (r: Result<u64, CorruptRecord>)
        requires
            old(self).wf(),
        ensures
            final(self).wf(),
            final(self)@.in_code_version == old(self)@.in_code_version,
            final(self)@.on_chain_version == old(self)@.on_chain_version,
            translate_outcome(old(self)@.assets, final(self)@.assets, r),
    {
        let ghost pre = self@.assets;
        let mut out: Vec<(u32, Vec<u8>)> = Vec::new();
        let mut i: usize = 0;
        while i < self.assets.len()
            invariant
                self@ == old(self)@,
                self.wf(),
                self@.assets == pre,
                i <= pre.len(),
                out@.len() == i,
                forall|j: int|
                    0 <= j < i ==> old_decodable(#[trigger] pre[j].1) && out@[j].0 == pre[j].0
                        && out@[j].1@ == migrate_bytes(pre[j].1),
            decreases self.assets.len() - i,
        {
            let id = self.assets[i].0;
            match OldAssetDetails::decode(&self.assets[i].1) {
                Some(d) => {
                    let new_details: AssetDetails = d.migrate_to_v1();
                    out.push((id, new_details.encode()));
                },
                None => {
                    proof {
                        assert(first_corrupt_at(pre, i as int));
                    }
                    return Err(CorruptRecord { asset_id: id });
                },
            }
            i += 1;
        }
        self.assets = out;
        assert(self@.assets =~= translated(pre));
        Ok(i as u64)
    }
}

/// A successful translation pass keeps the number of records and the set of ids.
pub proof fn lemma_translate_preserves_count_and_keys(
    pre: Seq<(u32, Seq<u8>)>,
    post: Seq<(u32, Seq<u8>)>,
    n: u64,
)
    requires
        translate_outcome(pre, post, Ok(n)),
    ensures
        post.len() == pre.len(),
        n == pre.len(),
        key_set(post) == key_set(pre),
{
    assert forall|id: u32| contains_key(post, id) == contains_key(pre, id) by {
        if contains_key(pre, id) {
            let i = choose|i: int| 0 <= i < pre.len() && pre[i].0 == id;
            assert(post[i].0 == id);
        }
        if contains_key(post, id) {
            let i = choose|i: int| 0 <= i < post.len() && post[i].0 == id;
            assert(pre[i].0 == id);
        }
    }
    assert(key_set(post) =~= key_set(pre));
}

/// Migrating a record turns a set frozen flag into `Frozen` and a clear one into
/// `Live`, and keeps every other field.
pub proof fn lemma_migrate_fields(d: OldAssetDetails)
    ensures
        migrate_bytes(encode_old(d)) == encode_new(migrate_spec(d)),
        d.is_frozen ==> migrate_spec(d).status == AssetStatus::Frozen,
        !d.is_frozen ==> migrate_spec(d).status == AssetStatus::Live,
        migrate_spec(d).owner == d.owner,
        migrate_spec(d).issuer == d.issuer,
        migrate_spec(d).admin == d.admin,
        migrate_spec(d).freezer == d.freezer,
        migrate_spec(d).supply == d.supply,
        migrate_spec(d).deposit == d.deposit,
        migrate_spec(d).min_balance == d.min_balance,
        migrate_spec(d).is_sufficient == d.is_sufficient,
        migrate_spec(d).accounts == d.accounts,
        migrate_spec(d).sufficients == d.sufficients,
        migrate_spec(d).approvals == d.approvals,
{
    lemma_decode_old_encode(d);
}

/// After a successful translation pass, the entry that held the encoding of an old
/// record `d` holds, under the same id, the encoding of `d` migrated, and decodes to it.
pub proof fn lemma_translate_maps_each_record(
    pre: Seq<(u32, Seq<u8>)>,
    post: Seq<(u32, Seq<u8>)>,
    n: u64,
    i: int,
    d: OldAssetDetails,
)
    requires
        translate_outcome(pre, post, Ok(n)),
        0 <= i < pre.len(),
        pre[i].1 == encode_old(d),
    ensures
        post[i].0 == pre[i].0,
        post[i].1 == encode_new(migrate_spec(d)),
        decode_new_spec(post[i].1) == Some(migrate_spec(d)),
{
    lemma_migrate_fields(d);
    lemma_decode_new_encode(migrate_spec(d));
}

} // verus!
