use vstd::prelude::*;

verus! {

/// Lifecycle status of an asset under the current record schema.
#[derive(Clone, Copy, Debug, PartialEq, Eq, Structural)]
pub enum AssetStatus {
    Live,
    Frozen,
    Destroying,
}

impl AssetStatus {
    /// The status that a legacy `is_frozen` flag stands for.
    pub fn from_frozen_flag(is_frozen: bool) -> (r: AssetStatus)
        ensures
            is_frozen ==> r == AssetStatus::Frozen,
            !is_frozen ==> r == AssetStatus::Live,
    {
        if is_frozen {
            AssetStatus::Frozen
        } else {
            AssetStatus::Live
        }
    }
}

/// The status is one byte: its variant's index in declaration order.
pub open spec fn status_index(s: AssetStatus) -> u8 {
    match s {
        AssetStatus::Live => 0,
        AssetStatus::Frozen => 1,
        AssetStatus::Destroying => 2,
    }
}

pub open spec fn enc_status(s: AssetStatus) -> Seq<u8> {
    seq![status_index(s)]
}

/// Appends the one-byte encoding of `s`.
pub fn push_status(out: &mut Vec<u8>, s: AssetStatus)
    ensures
        final(out)@ == old(out)@ + enc_status(s),
{
    let b: u8 = match s {
        AssetStatus::Live => 0,
        AssetStatus::Frozen => 1,
        AssetStatus::Destroying => 2,
    };
    out.push(b);
    assert(out@ =~= old(out)@ + enc_status(s));
}

/// Reads the status byte at `at`; a byte that names no variant is malformed.
pub fn read_status(bytes: &Vec<u8>, at: usize) -> (r: Option<AssetStatus>)
    requires
        at < bytes@.len(),
    ensures
        match r {
            Some(s) => enc_status(s) == bytes@.subrange(at as int, at + 1),
            None => bytes@[at as int] > 2,
        },
{
    let b = bytes[at];
    let r = if b == 0 {
        Some(AssetStatus::Live)
    } else if b == 1 {
        Some(AssetStatus::Frozen)
    } else if b == 2 {
        Some(AssetStatus::Destroying)
    } else {
        None
    };
    proof {
        if let Some(s) = r {
            assert(enc_status(s) =~= bytes@.subrange(at as int, at + 1));
        }
    }
    r
}

} // verus!
