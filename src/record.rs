use vstd::prelude::*;

use crate::encoding::{
    enc_bool, enc_u32, enc_u64, lemma_enc_u32_injective, lemma_enc_u64_injective, push_bool,
    push_u32, push_u64, read_bool, read_u32, read_u64,
};
use crate::status::{enc_status, push_status, read_status, AssetStatus};

verus! {

/// Length in bytes of an encoded record, under either schema.
pub const RECORD_LEN: usize = 70;

/// An asset record as it was stored before the status field existed.
#[derive(Clone, Copy, Debug, PartialEq, Eq, Structural)]
pub struct OldAssetDetails {
    pub owner: u64,
    pub issuer: u64,
    pub admin: u64,
    pub freezer: u64,
    pub supply: u64,
    pub deposit: u64,
    pub min_balance: u64,
    pub is_sufficient: bool,
    pub accounts: u32,
    pub sufficients: u32,
    pub approvals: u32,
    pub is_frozen: bool,
}

/// An asset record under the current schema.
#[derive(Clone, Copy, Debug, PartialEq, Eq, Structural)]
pub struct AssetDetails {
    pub owner: u64,
    pub issuer: u64,
    pub admin: u64,
    pub freezer: u64,
    pub supply: u64,
    pub deposit: u64,
    pub min_balance: u64,
    pub is_sufficient: bool,
    pub accounts: u32,
    pub sufficients: u32,
    pub approvals: u32,
    pub status: AssetStatus,
}

/// The fields are laid out one after another in declaration order.
pub open spec fn encode_old(d: OldAssetDetails) -> Seq<u8> {
    enc_u64(d.owner) + enc_u64(d.issuer) + enc_u64(d.admin) + enc_u64(d.freezer) + enc_u64(
        d.supply,
    ) + enc_u64(d.deposit) + enc_u64(d.min_balance) + enc_bool(d.is_sufficient) + enc_u32(
        d.accounts,
    ) + enc_u32(d.sufficients) + enc_u32(d.approvals) + enc_bool(d.is_frozen)
}

pub open spec fn encode_new(d: AssetDetails) -> Seq<u8> {
    enc_u64(d.owner) + enc_u64(d.issuer) + enc_u64(d.admin) + enc_u64(d.freezer) + enc_u64(
        d.supply,
    ) + enc_u64(d.deposit) + enc_u64(d.min_balance) + enc_bool(d.is_sufficient) + enc_u32(
        d.accounts,
    ) + enc_u32(d.sufficients) + enc_u32(d.approvals) + enc_status(d.status)
}

pub open spec fn old_decodable(b: Seq<u8>) -> bool {
    exists|d: OldAssetDetails| encode_old(d) == b
}

pub open spec fn new_decodable(b: Seq<u8>) -> bool {
    exists|d: AssetDetails| encode_new(d) == b
}

/// The record that `b` encodes under the old schema, if any.
pub open spec fn decode_old_spec(b: Seq<u8>) -> Option<OldAssetDetails> {
    if old_decodable(b) {
        Some(choose|d: OldAssetDetails| encode_old(d) == b)
    } else {
        None
    }
}

/// The record that `b` encodes under the current schema, if any.
pub open spec fn decode_new_spec(b: Seq<u8>) -> Option<AssetDetails> {
    if new_decodable(b) {
        Some(choose|d: AssetDetails| encode_new(d) == b)
    } else {
        None
    }
}

/// The frozen flag becomes `Frozen` or `Live`; every other field is kept.
pub open spec fn migrate_spec(d: OldAssetDetails) -> AssetDetails {
    AssetDetails {
        owner: d.owner,
        issuer: d.issuer,
        admin: d.admin,
        freezer: d.freezer,
        supply: d.supply,
        deposit: d.deposit,
        min_balance: d.min_balance,
        is_sufficient: d.is_sufficient,
        accounts: d.accounts,
        sufficients: d.sufficients,
        approvals: d.approvals,
        status: if d.is_frozen {
            AssetStatus::Frozen
        } else {
            AssetStatus::Live
        },
    }
}

proof fn lemma_old_layout(d: OldAssetDetails)
    ensures
        encode_old(d).len() == RECORD_LEN,
        encode_old(d).subrange(0, 8) == enc_u64(d.owner),
        encode_old(d).subrange(8, 16) == enc_u64(d.issuer),
        encode_old(d).subrange(16, 24) == enc_u64(d.admin),
        encode_old(d).subrange(24, 32) == enc_u64(d.freezer),
        encode_old(d).subrange(32, 40) == enc_u64(d.supply),
        encode_old(d).subrange(40, 48) == enc_u64(d.deposit),
        encode_old(d).subrange(48, 56) == enc_u64(d.min_balance),
        encode_old(d).subrange(56, 57) == enc_bool(d.is_sufficient),
        encode_old(d).subrange(57, 61) == enc_u32(d.accounts),
        encode_old(d).subrange(61, 65) == enc_u32(d.sufficients),
        encode_old(d).subrange(65, 69) == enc_u32(d.approvals),
        encode_old(d).subrange(69, 70) == enc_bool(d.is_frozen),
{
    let e = encode_old(d);
    assert(e.subrange(0, 8) =~= enc_u64(d.owner));
    assert(e.subrange(8, 16) =~= enc_u64(d.issuer));
    assert(e.subrange(16, 24) =~= enc_u64(d.admin));
    assert(e.subrange(24, 32) =~= enc_u64(d.freezer));
    assert(e.subrange(32, 40) =~= enc_u64(d.supply));
    assert(e.subrange(40, 48) =~= enc_u64(d.deposit));
    assert(e.subrange(48, 56) =~= enc_u64(d.min_balance));
    assert(e.subrange(56, 57) =~= enc_bool(d.is_sufficient));
    assert(e.subrange(57, 61) =~= enc_u32(d.accounts));
    assert(e.subrange(61, 65) =~= enc_u32(d.sufficients));
    assert(e.subrange(65, 69) =~= enc_u32(d.approvals));
    assert(e.subrange(69, 70) =~= enc_bool(d.is_frozen));
}

proof fn lemma_new_layout(d: AssetDetails)
    ensures
        encode_new(d).len() == RECORD_LEN,
        encode_new(d).subrange(0, 8) == enc_u64(d.owner),
        encode_new(d).subrange(8, 16) == enc_u64(d.issuer),
        encode_new(d).subrange(16, 24) == enc_u64(d.admin),
        encode_new(d).subrange(24, 32) == enc_u64(d.freezer),
        encode_new(d).subrange(32, 40) == enc_u64(d.supply),
        encode_new(d).subrange(40, 48) == enc_u64(d.deposit),
        encode_new(d).subrange(48, 56) == enc_u64(d.min_balance),
        encode_new(d).subrange(56, 57) == enc_bool(d.is_sufficient),
        encode_new(d).subrange(57, 61) == enc_u32(d.accounts),
        encode_new(d).subrange(61, 65) == enc_u32(d.sufficients),
        encode_new(d).subrange(65, 69) == enc_u32(d.approvals),
        encode_new(d).subrange(69, 70) == enc_status(d.status),
{
    let e = encode_new(d);
    assert(e.subrange(0, 8) =~= enc_u64(d.owner));
    assert(e.subrange(8, 16) =~= enc_u64(d.issuer));
    assert(e.subrange(16, 24) =~= enc_u64(d.admin));
    assert(e.subrange(24, 32) =~= enc_u64(d.freezer));
    assert(e.subrange(32, 40) =~= enc_u64(d.supply));
    assert(e.subrange(40, 48) =~= enc_u64(d.deposit));
    assert(e.subrange(48, 56) =~= enc_u64(d.min_balance));
    assert(e.subrange(56, 57) =~= enc_bool(d.is_sufficient));
    assert(e.subrange(57, 61) =~= enc_u32(d.accounts));
    assert(e.subrange(61, 65) =~= enc_u32(d.sufficients));
    assert(e.subrange(65, 69) =~= enc_u32(d.approvals));
    assert(e.subrange(69, 70) =~= enc_status(d.status));
}

/// Two old-schema records with the same bytes are the same record.
pub proof fn lemma_encode_old_injective(a: OldAssetDetails, b: OldAssetDetails)
    requires
        encode_old(a) == encode_old(b),
    ensures
        a == b,
{
    lemma_old_layout(a);
    lemma_old_layout(b);
    lemma_enc_u64_injective(a.owner, b.owner);
    lemma_enc_u64_injective(a.issuer, b.issuer);
    lemma_enc_u64_injective(a.admin, b.admin);
    lemma_enc_u64_injective(a.freezer, b.freezer);
    lemma_enc_u64_injective(a.supply, b.supply);
    lemma_enc_u64_injective(a.deposit, b.deposit);
    lemma_enc_u64_injective(a.min_balance, b.min_balance);
    lemma_enc_u32_injective(a.accounts, b.accounts);
    lemma_enc_u32_injective(a.sufficients, b.sufficients);
    lemma_enc_u32_injective(a.approvals, b.approvals);
    assert(enc_bool(a.is_sufficient)[0] == enc_bool(b.is_sufficient)[0]);
    assert(enc_bool(a.is_frozen)[0] == enc_bool(b.is_frozen)[0]);
}

/// Two current-schema records with the same bytes are the same record.
pub proof fn lemma_encode_new_injective(a: AssetDetails, b: AssetDetails)
    requires
        encode_new(a) == encode_new(b),
    ensures
        a == b,
{
    lemma_new_layout(a);
    lemma_new_layout(b);
    lemma_enc_u64_injective(a.owner, b.owner);
    lemma_enc_u64_injective(a.issuer, b.issuer);
    lemma_enc_u64_injective(a.admin, b.admin);
    lemma_enc_u64_injective(a.freezer, b.freezer);
    lemma_enc_u64_injective(a.supply, b.supply);
    lemma_enc_u64_injective(a.deposit, b.deposit);
    lemma_enc_u64_injective(a.min_balance, b.min_balance);
    lemma_enc_u32_injective(a.accounts, b.accounts);
    lemma_enc_u32_injective(a.sufficients, b.sufficients);
    lemma_enc_u32_injective(a.approvals, b.approvals);
    assert(enc_bool(a.is_sufficient)[0] == enc_bool(b.is_sufficient)[0]);
    assert(enc_status(a.status)[0] == enc_status(b.status)[0]);
}

/// Decoding the encoding of a record gives that record back.
pub proof fn lemma_decode_old_encode(d: OldAssetDetails)
    ensures
        decode_old_spec(encode_old(d)) == Some(d),
{
    let b = encode_old(d);
    assert(old_decodable(b));
    let c = choose|c: OldAssetDetails| encode_old(c) == b;
    lemma_encode_old_injective(c, d);
}

/// Decoding the encoding of a record gives that record back.
pub proof fn lemma_decode_new_encode(d: AssetDetails)
    ensures
        decode_new_spec(encode_new(d)) == Some(d),
{
    let b = encode_new(d);
    assert(new_decodable(b));
    let c = choose|c: AssetDetails| encode_new(c) == b;
    lemma_encode_new_injective(c, d);
}

impl OldAssetDetails {
    /// Encodes the record under the old schema.
    pub fn encode(&self) -> (r: Vec<u8>)
        ensures
            r@ == encode_old(*self),
    {
        let mut out: Vec<u8> = Vec::new();
        push_u64(&mut out, self.owner);
        push_u64(&mut out, self.issuer);
        push_u64(&mut out, self.admin);
        push_u64(&mut out, self.freezer);
        push_u64(&mut out, self.supply);
        push_u64(&mut out, self.deposit);
        push_u64(&mut out, self.min_balance);
        push_bool(&mut out, self.is_sufficient);
        push_u32(&mut out, self.accounts);
        push_u32(&mut out, self.sufficients);
        push_u32(&mut out, self.approvals);
        push_bool(&mut out, self.is_frozen);
        assert(out@ =~= encode_old(*self));
        out
    }

    /// Decodes an old-schema record; the bytes must be exactly one well-formed record.
    pub fn decode(bytes: &Vec<u8>) -> (r: Option<OldAssetDetails>)
        ensures
            r == decode_old_spec(bytes@),
    {
        if bytes.len() != RECORD_LEN {
            proof {
                if old_decodable(bytes@) {
                    let d = choose|d: OldAssetDetails| encode_old(d) == bytes@;
                    lemma_old_layout(d);
                }
            }
            return None;
        }
        let is_sufficient = match read_bool(bytes, 56) {
            Some(b) => b,
            None => {
                proof {
                    if old_decodable(bytes@) {
                        let d = choose|d: OldAssetDetails| encode_old(d) == bytes@;
                        lemma_old_layout(d);
                        assert(bytes@[56] == bytes@.subrange(56, 57)[0]);
                    }
                }
                return None;
            },
        };
        let is_frozen = match read_bool(bytes, 69) {
            Some(b) => b,
            None => {
                proof {
                    if old_decodable(bytes@) {
                        let d = choose|d: OldAssetDetails| encode_old(d) == bytes@;
                        lemma_old_layout(d);
                        assert(bytes@[69] == bytes@.subrange(69, 70)[0]);
                    }
                }
                return None;
            },
        };
        let d = OldAssetDetails {
            owner: read_u64(bytes, 0),
            issuer: read_u64(bytes, 8),
            admin: read_u64(bytes, 16),
            freezer: read_u64(bytes, 24),
            supply: read_u64(bytes, 32),
            deposit: read_u64(bytes, 40),
            min_balance: read_u64(bytes, 48),
            is_sufficient,
            accounts: read_u32(bytes, 57),
            sufficients: read_u32(bytes, 61),
            approvals: read_u32(bytes, 65),
            is_frozen,
        };
        proof {
            let s = bytes@;
            assert(s =~= s.subrange(0, 8) + s.subrange(8, 16) + s.subrange(16, 24) + s.subrange(
                24,
                32,
            ) + s.subrange(32, 40) + s.subrange(40, 48) + s.subrange(48, 56) + s.subrange(56, 57)
                + s.subrange(57, 61) + s.subrange(61, 65) + s.subrange(65, 69) + s.subrange(
                69,
                70,
            ));
            lemma_decode_old_encode(d);
        }
        Some(d)
    }

    /// The record under the current schema: `Frozen` when the flag is set, else `Live`.
    pub fn migrate_to_v1(self) -> (r: AssetDetails)
        ensures
            r == migrate_spec(self),
    {
        let status = AssetStatus::from_frozen_flag(self.is_frozen);
        AssetDetails {
            owner: self.owner,
            issuer: self.issuer,
            admin: self.admin,
            freezer: self.freezer,
            supply: self.supply,
            deposit: self.deposit,
            min_balance: self.min_balance,
            is_sufficient: self.is_sufficient,
            accounts: self.accounts,
            sufficients: self.sufficients,
            approvals: self.approvals,
            status,
        }
    }
}

impl AssetDetails {
    /// Encodes the record under the current schema.
    pub fn encode(&self) -> (r: Vec<u8>)
        ensures
            r@ == encode_new(*self),
    {
        let mut out: Vec<u8> = Vec::new();
        push_u64(&mut out, self.owner);
        push_u64(&mut out, self.issuer);
        push_u64(&mut out, self.admin);
        push_u64(&mut out, self.freezer);
        push_u64(&mut out, self.supply);
        push_u64(&mut out, self.deposit);
        push_u64(&mut out, self.min_balance);
        push_bool(&mut out, self.is_sufficient);
        push_u32(&mut out, self.accounts);
        push_u32(&mut out, self.sufficients);
        push_u32(&mut out, self.approvals);
        push_status(&mut out, self.status);
        assert(out@ =~= encode_new(*self));
        out
    }

    /// Decodes a current-schema record; the bytes must be exactly one well-formed record.
    pub fn decode(bytes: &Vec<u8>) -> (r: Option<AssetDetails>)
        ensures
            r == decode_new_spec(bytes@),
    {
        if bytes.len() != RECORD_LEN {
            proof {
                if new_decodable(bytes@) {
                    let d = choose|d: AssetDetails| encode_new(d) == bytes@;
                    lemma_new_layout(d);
                }
            }
            return None;
        }
        let is_sufficient = match read_bool(bytes, 56) {
            Some(b) => b,
            None => {
                proof {
                    if new_decodable(bytes@) {
                        let d = choose|d: AssetDetails| encode_new(d) == bytes@;
                        lemma_new_layout(d);
                        assert(bytes@[56] == bytes@.subrange(56, 57)[0]);
                    }
                }
                return None;
            },
        };
        let status = match read_status(bytes, 69) {
            Some(s) => s,
            None => {
                proof {
                    if new_decodable(bytes@) {
                        let d = choose|d: AssetDetails| encode_new(d) == bytes@;
                        lemma_new_layout(d);
                        assert(bytes@[69] == bytes@.subrange(69, 70)[0]);
                    }
                }
                return None;
            },
        };
        let d = AssetDetails {
            owner: read_u64(bytes, 0),
            issuer: read_u64(bytes, 8),
            admin: read_u64(bytes, 16),
            freezer: read_u64(bytes, 24),
            supply: read_u64(bytes, 32),
            deposit: read_u64(bytes, 40),
            min_balance: read_u64(bytes, 48),
            is_sufficient,
            accounts: read_u32(bytes, 57),
            sufficients: read_u32(bytes, 61),
            approvals: read_u32(bytes, 65),
            status,
        };
        proof {
            let s = bytes@;
            assert(s =~= s.subrange(0, 8) + s.subrange(8, 16) + s.subrange(16, 24) + s.subrange(
                24,
                32,
            ) + s.subrange(32, 40) + s.subrange(40, 48) + s.subrange(48, 56) + s.subrange(56, 57)
                + s.subrange(57, 61) + s.subrange(61, 65) + s.subrange(65, 69) + s.subrange(
                69,
                70,
            ));
            lemma_decode_new_encode(d);
        }
        Some(d)
    }
}

} // verus!
