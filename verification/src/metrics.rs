//! Percentages derived from byte counters.

use vstd::prelude::*;

verus! {

/// The share of `total` taken by `used`, in whole percent, rounded down.
/// A source that reports no capacity at all has a share of zero. A share that
/// does not fit in 64 bits is given as the largest 64-bit number.
pub open spec fn percent_of(used: nat, total: nat) -> nat {
    if total == 0 {
        0
    } else if used * 100 / total > u64::MAX {
        u64::MAX as nat
    } else {
        used * 100 / total
    }
}

/// The share of a volume of `total` bytes that is in use when `free` bytes
/// are free. A volume that reports more free space than it has is taken to be
/// empty.
pub open spec fn disk_share(total: nat, free: nat) -> nat {
    if free >= total {
        0
    } else {
        percent_of((total - free) as nat, total)
    }
}

/// A percentage as it is displayed: what is above 100 is displayed as 100.
pub open spec fn clamped(percent: nat) -> nat {
    if percent > 100 {
        100
    } else {
        percent
    }
}

/// Percentage of memory in use.
pub fn memory_percent_used(used: u64, total: u64) -> (percent: u64)
    ensures
        percent == percent_of(used as nat, total as nat),
{
    if total == 0 {
        return 0;
    }
    let share: u128 = (used as u128) * 100 / (total as u128);
    if share > u64::MAX as u128 {
        u64::MAX
    } else {
        share as u64
    }
}

/// Percentage of a volume in use.
pub fn disk_percent_used(total: u64, free: u64) -> (percent: u64)
    ensures
        percent == disk_share(total as nat, free as nat),
{
    if free >= total {
        0
    } else {
        memory_percent_used(total - free, total)
    }
}

/// Brings a percentage into the range that is displayed.
pub fn clamp_percent(percent: u64) -> (shown: u64)
    ensures
        shown == clamped(percent as nat),
{
    if percent > 100 {
        100
    } else {
        percent
    }
}

/// A displayed percentage is never above 100, and a percentage up to 100 is
/// displayed as it is.
pub proof fn lemma_clamped_in_range(percent: nat)
    ensures
        clamped(percent) <= 100,
        percent <= 100 ==> clamped(percent) == percent,
        percent >= 100 ==> clamped(percent) == 100,
{
}

/// What is in use of a source that reports no more in use than it has is at
/// most 100 percent.
pub proof fn lemma_percent_of_at_most_100(used: nat, total: nat)
    requires
        used <= total,
    ensures
        percent_of(used, total) <= 100,
{
    if total > 0 {
        assert(used * 100 / total <= 100) by (nonlinear_arith)
            requires
                used <= total,
                total > 0,
        ;
    }
}

} // verus!
