//! Console attachment accounting: a per-process-id reference count deciding
//! when the one OS-level bind and unbind really happen, and the bounded
//! retry policy for the bind itself.

use vstd::prelude::*;

verus! {

/// How many bind attempts are made before giving up.
pub const ATTACH_RETRY_LIMIT: u32 = 50;

/// How long to sleep between bind attempts, in milliseconds.
pub const ATTACH_RETRY_SLEEP_MS: u32 = 40;

/// Whether an acquisition at this count performs the underlying bind.
pub open spec fn spec_bind_now(count: u32) -> bool {
    count == 0
}

/// Whether a release at this count performs the underlying unbind.
pub open spec fn spec_unbind_now(count: u32) -> bool {
    count == 1
}

/// The shared attachment state for one target process id: how many scoped
/// acquisitions are outstanding. The OS-level binding exists exactly while
/// the count is positive.
pub struct AttachCount {
    count: u32,
}

impl AttachCount {
    /// The number of outstanding acquisitions.
    pub closed spec fn count_spec(&self) -> u32 {
        self.count
    }

    /// Whether the OS-level binding is currently held.
    pub open spec fn is_bound(&self) -> bool {
        self.count_spec() > 0
    }

    pub fn new() -> (r: AttachCount)
        ensures
            r.count_spec() == 0,
    {
        AttachCount { count: 0 }
    }

    /// Takes one acquisition. Returns whether the caller must perform the
    /// underlying bind: only on the transition from zero to one.
    pub fn acquire(&mut self) -> (bind_now: bool)
        requires
            old(self).count_spec() < u32::MAX,
        ensures
            final(self).count_spec() == old(self).count_spec() + 1,
            bind_now == spec_bind_now(old(self).count_spec()),
            final(self).is_bound(),
    {
        let bind_now = self.count == 0;
        self.count += 1;
        bind_now
    }

    /// Gives one acquisition back. Returns whether the caller must perform
    /// the underlying unbind: only on the transition from one to zero.
    pub fn release(&mut self) -> (unbind_now: bool)
        requires
            old(self).count_spec() > 0,
        ensures
            final(self).count_spec() == old(self).count_spec() - 1,
            unbind_now == spec_unbind_now(old(self).count_spec()),
            final(self).is_bound() == (final(self).count_spec() > 0),
    {
        let unbind_now = self.count == 1;
        self.count -= 1;
        unbind_now
    }
}

/// Whether another bind attempt should be made: only while none has
/// succeeded and the attempt ceiling has not been reached. Exhausting the
/// ceiling is a soft failure: the caller proceeds with an invalid handle.
pub fn should_retry_attach(attempts_done: u32, succeeded: bool) -> (r: bool)
    ensures
        r == (!succeeded && attempts_done < ATTACH_RETRY_LIMIT),
{
    !succeeded && attempts_done < ATTACH_RETRY_LIMIT
}

/// What a sequence of operations does to an attachment count: the number of
/// underlying binds, the number of underlying unbinds, and the final count.
/// `true` is an acquisition, `false` a release (a release at count zero is
/// counted as nothing).
pub open spec fn spec_apply_ops(ops: Seq<bool>, count: nat) -> (nat, nat, nat)
    decreases ops.len(),
{
    if ops.len() == 0 {
        (0, 0, count)
    } else if ops.first() {
        let (b, u, f) = spec_apply_ops(ops.drop_first(), count + 1);
        (((if count == 0 {
            1nat
        } else {
            0nat
        }) + b) as nat, u, f)
    } else {
        let next = if count == 0 {
            0nat
        } else {
            (count - 1) as nat
        };
        let (b, u, f) = spec_apply_ops(ops.drop_first(), next);
        (b, ((if count == 1 {
            1nat
        } else {
            0nat
        }) + u) as nat, f)
    }
}

proof fn lemma_acquires_once(k: nat, count: nat)
    ensures
        spec_apply_ops(Seq::new(k, |i: int| true), count) == (
            if count == 0 && k > 0 {
                1nat
            } else {
                0nat
            },
            0nat,
            (count + k) as nat,
        ),
    decreases k,
{
    let ops = Seq::new(k, |i: int| true);
    if k > 0 {
        lemma_acquires_once((k - 1) as nat, count + 1);
        assert(ops.drop_first() =~= Seq::new((k - 1) as nat, |i: int| true));
    }
}

proof fn lemma_releases_once(k: nat, count: nat)
    requires
        k <= count,
    ensures
        spec_apply_ops(Seq::new(k, |i: int| false), count) == (
            0nat,
            if k == count && count > 0 {
                1nat
            } else {
                0nat
            },
            (count - k) as nat,
        ),
    decreases k,
{
    let ops = Seq::new(k, |i: int| false);
    if k > 0 {
        lemma_releases_once((k - 1) as nat, (count - 1) as nat);
        assert(ops.drop_first() =~= Seq::new((k - 1) as nat, |i: int| false));
    }
}

proof fn lemma_apply_ops_concat(a: Seq<bool>, b: Seq<bool>, count: nat)
    ensures
        ({
            let (b1, u1, f1) = spec_apply_ops(a, count);
            let (b2, u2, f2) = spec_apply_ops(b, f1);
            spec_apply_ops(a + b, count) == ((b1 + b2) as nat, (u1 + u2) as nat, f2)
        }),
    decreases a.len(),
{
    if a.len() == 0 {
        assert(a + b =~= b);
    } else {
        let next: nat = if a.first() {
            count + 1
        } else if count == 0 {
            0nat
        } else {
            (count - 1) as nat
        };
        lemma_apply_ops_concat(a.drop_first(), b, next);
        assert((a + b).drop_first() =~= a.drop_first() + b);
    }
}

/// Reference counting collapses to one real binding: any number of
/// acquisitions for one process id, followed by as many releases, performs
/// exactly one underlying bind and exactly one underlying unbind, whatever
/// order the releases come in (releases are indistinguishable decrements).
pub proof fn lemma_one_bind_one_unbind(n: nat)
    requires
        n > 0,
    ensures
        spec_apply_ops(Seq::new(n, |i: int| true) + Seq::new(n, |i: int| false), 0) == (
            1nat,
            1nat,
            0nat,
        ),
{
    lemma_acquires_once(n, 0);
    lemma_releases_once(n, n);
    lemma_apply_ops_concat(Seq::new(n, |i: int| true), Seq::new(n, |i: int| false), 0);
}

} // verus!
