use vstd::prelude::*;

verus! {

/// A progress report of a long parse: batches done of the total, items
/// found so far, and a running target that only grows.
pub struct ProgressPayload {
    pub done: u64,
    pub total: u64,
    pub count: u64,
    pub dynamic_total: u64,
}

/// The target a progress display starts from.
pub const INITIAL_TARGET: u64 = 10_000;

/// `target` doubled until it exceeds `count` (unchanged if it already does).
pub open spec fn grown_target(target: nat, count: nat) -> nat
    decreases (if target > count {
        0
    } else {
        count + 1 - target
    }),
{
    if target == 0 || count < target {
        target
    } else {
        grown_target(2 * target, count)
    }
}

proof fn lemma_grown_bound(target: nat, count: nat)
    requires
        target > 0,
    ensures
        grown_target(target, count) > count,
        grown_target(target, count) <= if target > 2 * count {
            target
        } else {
            2 * count
        },
    decreases (if target > count {
        0
    } else {
        count + 1 - target
    }),
{
    if count >= target {
        lemma_grown_bound(2 * target, count);
    }
}

/// The next target for `count` (see `grown_target`).
pub fn grow_target(target: u64, count: u64) -> (r: u64)
    requires
        0 < target <= 0x4000_0000_0000_0000,
        count <= 0x2000_0000_0000_0000,
    ensures
        r == grown_target(target as nat, count as nat),
        r > count,
        r <= 0x4000_0000_0000_0000,
{
    proof {
        lemma_grown_bound(target as nat, count as nat);
    }
    let mut t = target;
    while t <= count
        invariant
            0 < t,
            t <= 0x4000_0000_0000_0000,
            count <= 0x2000_0000_0000_0000,
            grown_target(t as nat, count as nat) == grown_target(target as nat, count as nat),
        decreases (if t > count {
            0
        } else {
            count + 1 - t
        }),
    {
        t = t * 2;
    }
    t
}

/// A report is due every `every` batches and at the last one.
pub fn report_due(done: u64, total: u64, every: u64) -> (r: bool)
    requires
        every > 0,
    ensures
        r == (done % every == 0 || done == total),
{
    done % every == 0 || done == total
}

/// The closing report: everything done, and the target equal to the count.
pub fn final_progress(total: u64, count: u64) -> (r: ProgressPayload)
    ensures
        r.done == total && r.total == total && r.count == count && r.dynamic_total == count,
{
    ProgressPayload { done: total, total, count, dynamic_total: count }
}

} // verus!
