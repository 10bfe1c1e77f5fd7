use vstd::prelude::*;

verus! {

/// Asset-lifecycle callbacks that can be told to fail, and that record which of
/// them ran successfully.
pub struct AssetsCallbackHandle {
    return_error: bool,
    created: bool,
    destroyed: bool,
}

impl AssetsCallbackHandle {
    pub closed spec fn fails(&self) -> bool {
        self.return_error
    }

    pub closed spec fn was_created(&self) -> bool {
        self.created
    }

    pub closed spec fn was_destroyed(&self) -> bool {
        self.destroyed
    }

    /// A handle whose callbacks succeed and have not run.
    pub fn new() -> (r: AssetsCallbackHandle)
        ensures
            !r.fails(),
            !r.was_created(),
            !r.was_destroyed(),
    {
        AssetsCallbackHandle { return_error: false, created: false, destroyed: false }
    }

    /// Makes the callbacks return `Ok`.
    pub fn set_return_ok(&mut self)
        ensures
            !final(self).fails(),
            final(self).was_created() == old(self).was_created(),
            final(self).was_destroyed() == old(self).was_destroyed(),
    {
        self.return_error = false;
    }

    /// Makes the callbacks return `Err`.
    pub fn set_return_error(&mut self)
        ensures
            final(self).fails(),
            final(self).was_created() == old(self).was_created(),
            final(self).was_destroyed() == old(self).was_destroyed(),
    {
        self.return_error = true;
    }

    /// Whether the callbacks return `Err`.
    pub fn should_err(&self) -> (r: bool)
        ensures
            r == self.fails(),
    {
        self.return_error
    }

    /// Whether `created` has succeeded at least once.
    pub fn created_called(&self) -> (r: bool)
        ensures
            r == self.was_created(),
    {
        self.created
    }

    /// Whether `destroyed` has succeeded at least once.
    pub fn destroyed_called(&self) -> (r: bool)
        ensures
            r == self.was_destroyed(),
    {
        self.destroyed
    }

    /// The callback for a newly created asset.
    pub fn created(&mut self, _id: u32, _owner: u64) -> (r: Result<(), ()>)
        ensures
            final(self).fails() == old(self).fails(),
            final(self).was_destroyed() == old(self).was_destroyed(),
            old(self).fails() ==> r.is_err() && final(self).was_created() == old(
                self,
            ).was_created(),
            !old(self).fails() ==> r.is_ok() && final(self).was_created(),
    {
        if self.should_err() {
            Err(())
        } else {
            self.created = true;
            Ok(())
        }
    }

    /// The callback for a destroyed asset.
    pub fn destroyed(&mut self, _id: u32) -> (r: Result<(), ()>)
        ensures
            final(self).fails() == old(self).fails(),
            final(self).was_created() == old(self).was_created(),
            old(self).fails() ==> r.is_err() && final(self).was_destroyed() == old(
                self,
            ).was_destroyed(),
            !old(self).fails() ==> r.is_ok() && final(self).was_destroyed(),
    {
        if self.should_err() {
            Err(())
        } else {
            self.destroyed = true;
            Ok(())
        }
    }
}

/// The account that receives deposits taken away on revocation.
pub const DEPOSIT_BENEFICIARY: u64 = 123;

/// Sends an unbalanced amount to a fixed account.
pub struct To123;

impl To123 {
    /// The credit that an unbalanced `amount` becomes: the amount, to the beneficiary.
    pub fn on_nonzero_unbalanced(amount: u64) -> (r: (u64, u64))
        ensures
            r == (DEPOSIT_BENEFICIARY, amount),
    {
        (DEPOSIT_BENEFICIARY, amount)
    }
}

/// An event that the freezer records.
#[derive(Clone, Copy, Debug, PartialEq, Eq, Structural)]
pub enum Hook {
    Died(u32, u64),
}

/// The frozen amount recorded for `key`, if any.
pub open spec fn frozen_lookup(s: Seq<((u32, u64), u64)>, key: (u32, u64)) -> Option<u64> {
    if exists|i: int| 0 <= i < s.len() && s[i].0 == key {
        Some(s[choose|i: int| 0 <= i < s.len() && s[i].0 == key].1)
    } else {
        None
    }
}

pub open spec fn frozen_keys_unique(s: Seq<((u32, u64), u64)>) -> bool {
    forall|i: int, j: int| 0 <= i < s.len() && 0 <= j < s.len() && i != j ==> s[i].0 != s[j].0
}

proof fn lemma_frozen_lookup_at(s: Seq<((u32, u64), u64)>, i: int)
    requires
        frozen_keys_unique(s),
        0 <= i < s.len(),
    ensures
        frozen_lookup(s, s[i].0) == Some(s[i].1),
{
    let j = choose|j: int| 0 <= j < s.len() && s[j].0 == s[i].0;
    assert(j == i);
}

/// Frozen amounts per (asset, account), and the log of accounts that died.
pub struct TestFreezer {
    frozen: Vec<((u32, u64), u64)>,
    hooks: Vec<Hook>,
}

impl TestFreezer {
    pub closed spec fn frozen(&self) -> Seq<((u32, u64), u64)> {
        self.frozen@
    }

    pub closed spec fn hook_log(&self) -> Seq<Hook> {
        self.hooks@
    }

    pub open spec fn wf(&self) -> bool {
        frozen_keys_unique(self.frozen())
    }

    /// A freezer with nothing frozen and nothing recorded.
    pub fn new() -> (r: TestFreezer)
        ensures
            r.wf(),
            r.frozen() == Seq::<((u32, u64), u64)>::empty(),
            r.hook_log() == Seq::<Hook>::empty(),
    {
        TestFreezer { frozen: Vec::new(), hooks: Vec::new() }
    }

    /// The amount of `asset` frozen for `who`.
    pub fn frozen_balance(&self, asset: u32, who: u64) -> (r: Option<u64>)
        requires
            self.wf(),
        ensures
            r == frozen_lookup(self.frozen(), (asset, who)),
    {
        let mut i: usize = 0;
        while i < self.frozen.len()
            invariant
                self.wf(),
                i <= self.frozen@.len(),
                forall|j: int| 0 <= j < i ==> self.frozen@[j].0 != (asset, who),
            decreases self.frozen.len() - i,
        {
            let (key, amount) = self.frozen[i];
            if key.0 == asset && key.1 == who {
                proof {
                    lemma_frozen_lookup_at(self.frozen@, i as int);
                }
                return Some(amount);
            }
            i += 1;
        }
        None
    }

    /// Records that `who` no longer holds `asset`.
    pub fn died(&mut self, asset: u32, who: u64)
        ensures
            final(self).frozen() == old(self).frozen(),
            final(self).hook_log() == old(self).hook_log().push(Hook::Died(asset, who)),
    {
        self.hooks.push(Hook::Died(asset, who));
    }
}

/// Position of `key` among the frozen entries, if it is there.
fn frozen_position(freezer: &TestFreezer, key: (u32, u64)) -> (r: Option<usize>)
    requires
        freezer.wf(),
    ensures
        match r {
            Some(i) => i < freezer.frozen().len() && freezer.frozen()[i as int].0 == key,
            None => forall|j: int|
                0 <= j < freezer.frozen().len() ==> freezer.frozen()[j].0 != key,
        },
{
    let mut i: usize = 0;
    while i < freezer.frozen.len()
        invariant
            i <= freezer.frozen@.len(),
            forall|j: int| 0 <= j < i ==> freezer.frozen@[j].0 != key,
        decreases freezer.frozen.len() - i,
    {
        let k = freezer.frozen[i].0;
        if k.0 == key.0 && k.1 == key.1 {
            return Some(i);
        }
        i += 1;
    }
    None
}

/// Freezes `amount` of `asset` for `who`, replacing an earlier amount.
pub fn set_frozen_balance(freezer: &mut TestFreezer, asset: u32, who: u64, amount: u64)
    requires
        old(freezer).wf(),
    ensures
        final(freezer).wf(),
        final(freezer).hook_log() == old(freezer).hook_log(),
        frozen_lookup(final(freezer).frozen(), (asset, who)) == Some(amount),
        forall|k: (u32, u64)|
            k != (asset, who) ==> frozen_lookup(final(freezer).frozen(), k) == frozen_lookup(
                old(freezer).frozen(),
                k,
            ),
{
    let ghost pre = freezer.frozen@;
    let key = (asset, who);
    match frozen_position(freezer, key) {
        Some(i) => {
            freezer.frozen.set(i, (key, amount));
            proof {
                let post = freezer.frozen@;
                assert(post == pre.update(i as int, (key, amount)));
                assert forall|a: int| 0 <= a < post.len() implies post[a].0 == pre[a].0 by {}
                lemma_frozen_lookup_at(post, i as int);
                assert forall|k: (u32, u64)| k != key implies frozen_lookup(post, k)
                    == frozen_lookup(pre, k) by {
                    if exists|j: int| 0 <= j < pre.len() && pre[j].0 == k {
                        let j = choose|j: int| 0 <= j < pre.len() && pre[j].0 == k;
                        lemma_frozen_lookup_at(pre, j);
                        lemma_frozen_lookup_at(post, j);
                    } else {
                        assert(!exists|j: int| 0 <= j < post.len() && post[j].0 == k);
                    }
                }
            }
        },
        None => {
            freezer.frozen.push((key, amount));
            proof {
                let post = freezer.frozen@;
                assert(post == pre.push((key, amount)));
                lemma_frozen_lookup_at(post, pre.len() as int);
                assert forall|k: (u32, u64)| k != key implies frozen_lookup(post, k)
                    == frozen_lookup(pre, k) by {
                    if exists|j: int| 0 <= j < pre.len() && pre[j].0 == k {
                        let j = choose|j: int| 0 <= j < pre.len() && pre[j].0 == k;
                        lemma_frozen_lookup_at(pre, j);
                        lemma_frozen_lookup_at(post, j);
                    } else {
                        assert(!exists|j: int| 0 <= j < post.len() && post[j].0 == k);
                    }
                }
            }
        },
    }
}

/// Removes the frozen amount of `asset` for `who`, if any.
pub fn clear_frozen_balance(freezer: &mut TestFreezer, asset: u32, who: u64)
    requires
        old(freezer).wf(),
    ensures
        final(freezer).wf(),
        final(freezer).hook_log() == old(freezer).hook_log(),
        frozen_lookup(final(freezer).frozen(), (asset, who)) == None::<u64>,
        forall|k: (u32, u64)|
            k != (asset, who) ==> frozen_lookup(final(freezer).frozen(), k) == frozen_lookup(
                old(freezer).frozen(),
                k,
            ),
{
    let ghost pre = freezer.frozen@;
    let key = (asset, who);
    match frozen_position(freezer, key) {
        Some(i) => {
            freezer.frozen.remove(i);
            proof {
                let post = freezer.frozen@;
                assert(post == pre.remove(i as int));
                assert forall|a: int| 0 <= a < post.len() implies post[a] == (if a < i {
                    pre[a]
                } else {
                    pre[a + 1]
                }) by {}
                assert(!exists|j: int| 0 <= j < post.len() && post[j].0 == key);
                assert forall|k: (u32, u64)| k != key implies frozen_lookup(post, k)
                    == frozen_lookup(pre, k) by {
                    if exists|j: int| 0 <= j < pre.len() && pre[j].0 == k {
                        let j = choose|j: int| 0 <= j < pre.len() && pre[j].0 == k;
                        assert(j != i);
                        lemma_frozen_lookup_at(pre, j);
                        let j2 = if j < i { j } else { j - 1 };
                        lemma_frozen_lookup_at(post, j2);
                    } else {
                        assert(!exists|j: int| 0 <= j < post.len() && post[j].0 == k);
                    }
                }
            }
        },
        None => {},
    }
}

/// The recorded hooks, oldest first.
pub fn hooks(freezer: &TestFreezer) -> (r: Vec<Hook>)
    ensures
        r@ == freezer.hook_log(),
{
    let mut r: Vec<Hook> = Vec::new();
    let mut i: usize = 0;
    while i < freezer.hooks.len()
        invariant
            i <= freezer.hooks@.len(),
            r@ == freezer.hooks@.subrange(0, i as int),
        decreases freezer.hooks.len() - i,
    {
        r.push(freezer.hooks[i]);
        i += 1;
        assert(r@ =~= freezer.hooks@.subrange(0, i as int));
    }
    assert(freezer.hooks@.subrange(0, i as int) =~= freezer.hooks@);
    r
}

/// Hands out the recorded hooks, oldest first, and empties the log.
pub fn take_hooks(freezer: &mut TestFreezer) -> (r: Vec<Hook>)
    ensures
        r@ == old(freezer).hook_log(),
        final(freezer).hook_log() == Seq::<Hook>::empty(),
        final(freezer).frozen() == old(freezer).frozen(),
{
    let r = hooks(freezer);
    freezer.hooks = Vec::new();
    r
}

} // verus!
