use vstd::prelude::*;

verus! {

/// How many of the first graph samples are dropped: rates need a previous
/// reading, so the earliest ones are not accurate.
pub const IGNORED_SAMPLES: u32 = 4;

/// Drops the first samples of a sampling loop and lets every later one through.
pub struct WarmUp {
    remaining: u32,
}

impl WarmUp {
    /// How many samples are still to be dropped.
    pub closed spec fn remaining(&self) -> u32 {
        self.remaining
    }

    /// A warm-up that drops the first `count` samples.
    pub fn new(count: u32) -> (warm_up: Self)
        ensures
            warm_up.remaining() == count,
    {
        WarmUp { remaining: count }
    }

    /// The warm-up of the graph sampling loop, which drops `IGNORED_SAMPLES` samples.
    pub fn for_graphs() -> (warm_up: Self)
        ensures
            warm_up.remaining() == IGNORED_SAMPLES,
    {
        WarmUp { remaining: IGNORED_SAMPLES }
    }

    /// Called once per sample: whether the sample is to be used.
    pub fn accept(&mut self) -> (use_it: bool)
        ensures
            use_it == (old(self).remaining() == 0),
            final(self).remaining() == if old(self).remaining() == 0 {
                0
            } else {
                (old(self).remaining() - 1) as u32
            },
    {
        if self.remaining > 0 {
            self.remaining = self.remaining - 1;
            false
        } else {
            true
        }
    }
}

/// How many samples a warm-up that started at `count` still drops after `k` samples.
pub open spec fn remaining_after(count: nat, k: nat) -> nat {
    if k >= count {
        0
    } else {
        (count - k) as nat
    }
}

/// A warm-up drops exactly the first `count` samples: after `k` samples the next
/// one is used just when `k >= count`, and each sample counts the warm-up down.
pub proof fn lemma_drops_exactly_first(count: nat, k: nat)
    ensures
        (remaining_after(count, k) == 0) == (k >= count),
        remaining_after(count, k + 1) == if remaining_after(count, k) == 0 {
            0
        } else {
            (remaining_after(count, k) - 1) as nat
        },
        remaining_after(count, 0) == count,
{
}

} // verus!
