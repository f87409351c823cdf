//! The stress monitor: a window over the latest stress samples and their
//! mean.

use std::collections::VecDeque;
use vstd::prelude::*;

verus! {

/// How many samples the monitor keeps.
pub const MAX_SAMPLES: usize = 100;

/// Above this mean stress the monitor reports stress.
pub const STRESSED_ABOVE: u64 = 8_000;

/// What each conflict adds to a conflict sample.
pub const STRESS_PER_CONFLICT: u64 = 2_000;

/// The sum of the samples.
pub open spec fn total(samples: Seq<u64>) -> nat
    decreases samples.len(),
{
    if samples.len() == 0 {
        0
    } else {
        total(samples.drop_last()) + samples.last() as nat
    }
}

/// The arithmetic mean of the samples, rounded down; zero when there is none.
pub open spec fn mean(samples: Seq<u64>) -> nat {
    if samples.len() == 0 {
        0
    } else {
        total(samples) / samples.len()
    }
}

/// The window after `sample` has come in: the oldest sample leaves when the
/// window is full.
pub open spec fn pushed(samples: Seq<u64>, sample: u64) -> Seq<u64> {
    if samples.len() >= MAX_SAMPLES {
        samples.drop_first().push(sample)
    } else {
        samples.push(sample)
    }
}

/// The stress of `conflicts` conflicts: two for each, and never above what a
/// `u64` holds.
pub open spec fn conflict_stress(conflicts: nat) -> nat {
    if conflicts * STRESS_PER_CONFLICT > u64::MAX {
        u64::MAX as nat
    } else {
        (conflicts * STRESS_PER_CONFLICT) as nat
    }
}

/// The square root of `x`, rounded down.
pub open spec fn root(x: nat) -> nat
    decreases x,
{
    if x == 0 {
        0
    } else if (root((x - 1) as nat) + 1) * (root((x - 1) as nat) + 1) <= x {
        root((x - 1) as nat) + 1
    } else {
        root((x - 1) as nat)
    }
}

/// The square of `root(x)` is at most `x`, and the next square is above it.
pub proof fn lemma_root(x: nat)
    ensures
        root(x) * root(x) <= x < (root(x) + 1) * (root(x) + 1),
    decreases x,
{
    if x > 0 {
        lemma_root((x - 1) as nat);
        let r = root((x - 1) as nat);
        if (r + 1) * (r + 1) <= x {
            assert(root(x) == r + 1);
            assert(x < (r + 1 + 1) * (r + 1 + 1)) by (nonlinear_arith)
                requires
                    x - 1 < (r + 1) * (r + 1),
            ;
        } else {
            assert(root(x) == r);
        }
    } else {
        assert(root(x) == 0);
        assert(0 * 0 <= x < (0 + 1) * (0 + 1)) by (nonlinear_arith)
            requires
                x == 0,
        ;
    }
}

/// Only one number has its square at most `x` and the next square above it.
pub proof fn lemma_root_unique(x: nat, r: nat)
    requires
        r * r <= x < (r + 1) * (r + 1),
    ensures
        r == root(x),
{
    lemma_root(x);
    let s = root(x);
    if r < s {
        assert((r + 1) * (r + 1) <= s * s) by (nonlinear_arith)
            requires
                r + 1 <= s,
        ;
    }
    if s < r {
        assert((s + 1) * (s + 1) <= r * r) by (nonlinear_arith)
            requires
                s + 1 <= r,
        ;
    }
}

/// Computes `root` for what a cycle stress needs of it.
pub fn integer_root(x: u128) -> (r: u128)
    requires
        x < 0x40_0000_0000_0000_0000_0000,
    ensures
        r == root(x as nat),
        r < 0x800_0000_0000,
{
    let mut lo: u128 = 0;
    let mut hi: u128 = 0x800_0000_0000;
    proof {
        let h: int = 0x800_0000_0000;
        assert(h * h == 0x40_0000_0000_0000_0000_0000) by (nonlinear_arith)
            requires
                h == 0x800_0000_0000,
        ;
    }
    while hi - lo > 1
        invariant
            lo < hi <= 0x800_0000_0000,
            lo * lo <= x < hi * hi,
        decreases hi - lo,
    {
        let mid: u128 = lo + (hi - lo) / 2;
        proof {
            assert(mid * mid < 0x800_0000_0000 * 0x800_0000_0000) by (nonlinear_arith)
                requires
                    0 <= mid < 0x800_0000_0000,
            ;
        }
        if mid * mid <= x {
            lo = mid;
        } else {
            hi = mid;
        }
    }
    proof {
        lemma_root_unique(x as nat, lo as nat);
    }
    lo
}

/// The stress of a cycle through `size` nodes: the size to the power of one
/// and a half, as the size times its square root, the root counted in
/// thousandths and rounded down; never above what a `u64` holds.
pub open spec fn cycle_stress(size: nat) -> nat {
    if size * root(size * 1_000_000) > u64::MAX {
        u64::MAX as nat
    } else {
        size * root(size * 1_000_000)
    }
}

/// A rolling record of recent stress.
pub struct StressMonitor {
    samples: VecDeque<u64>,
}

impl StressMonitor {
    /// The samples held, oldest first.
    pub closed spec fn samples(&self) -> Seq<u64> {
        self.samples@
    }

    /// The monitor holds no more samples than its window takes.
    pub closed spec fn wf(&self) -> bool {
        self.samples@.len() <= MAX_SAMPLES
    }

    /// A monitor without samples.
    pub fn new() -> (m: Self)
        ensures
            m.wf(),
            m.samples() == Seq::<u64>::empty(),
    {
        StressMonitor { samples: VecDeque::new() }
    }

    /// Takes a sample in; the oldest one leaves when a hundred are held.
    pub fn add_sample(&mut self, stress: u64)
        requires
            old(self).wf(),
        ensures
            final(self).wf(),
            final(self).samples() == pushed(old(self).samples(), stress),
    {
        if self.samples.len() >= MAX_SAMPLES {
            let _ = self.samples.pop_front();
            assert(self.samples@ =~= old(self).samples@.drop_first());
        }
        self.samples.push_back(stress);
    }

    /// The mean of the samples held, zero when there is none.
    pub fn current_stress(&self) -> (r: u64)
        requires
            self.wf(),
        ensures
            r == mean(self.samples()),
    {
        let n: usize = self.samples.len();
        if n == 0 {
            return 0;
        }
        let mut sum: u128 = 0;
        let mut i: usize = 0;
        while i < n
            invariant
                i <= n,
                n == self.samples@.len(),
                n <= MAX_SAMPLES,
                sum == total(self.samples@.subrange(0, i as int)),
                sum <= i * u64::MAX,
            decreases n - i,
        {
            let x: u64 = self.samples[i];
            proof {
                let next = self.samples@.subrange(0, i + 1);
                assert(next.drop_last() =~= self.samples@.subrange(0, i as int));
                assert(next.last() == x);
                assert(i * u64::MAX + u64::MAX == (i + 1) * u64::MAX) by (nonlinear_arith);
                assert((i + 1) * u64::MAX <= 100 * u64::MAX) by (nonlinear_arith)
                    requires
                        i + 1 <= 100,
                ;
            }
            sum = sum + x as u128;
            i += 1;
        }
        proof {
            assert(self.samples@.subrange(0, n as int) =~= self.samples@);
            assert(sum / (n as u128) <= u64::MAX) by (nonlinear_arith)
                requires
                    sum <= n * u64::MAX,
                    n > 0,
            ;
        }
        (sum / n as u128) as u64
    }

    /// Whether the mean stress is above eight.
    pub fn is_stressed(&self) -> (r: bool)
        requires
            self.wf(),
        ensures
            r == (mean(self.samples()) > STRESSED_ABOVE),
    {
        self.current_stress() > STRESSED_ABOVE
    }

    /// Takes in the sample that stands for `conflict_count` conflicts.
    pub fn add_conflict_stress(&mut self, conflict_count: usize)
        requires
            old(self).wf(),
        ensures
            final(self).wf(),
            final(self).samples() == pushed(
                old(self).samples(),
                conflict_stress(conflict_count as nat) as u64,
            ),
    {
        let count: u64 = conflict_count as u64;
        let stress: u64 = if count > u64::MAX / STRESS_PER_CONFLICT {
            proof {
                assert(count * STRESS_PER_CONFLICT > u64::MAX) by (nonlinear_arith)
                    requires
                        count > u64::MAX / STRESS_PER_CONFLICT,
                        STRESS_PER_CONFLICT == 2000,
                ;
            }
            u64::MAX
        } else {
            proof {
                assert(count * STRESS_PER_CONFLICT <= u64::MAX) by (nonlinear_arith)
                    requires
                        count <= u64::MAX / STRESS_PER_CONFLICT,
                        STRESS_PER_CONFLICT == 2000,
                ;
            }
            count * STRESS_PER_CONFLICT
        };
        self.add_sample(stress);
    }

    /// Takes in the sample that stands for a cycle through `cycle_size`
    /// nodes.
    pub fn add_cycle_stress(&mut self, cycle_size: usize)
        requires
            old(self).wf(),
        ensures
            final(self).wf(),
            final(self).samples() == pushed(
                old(self).samples(),
                cycle_stress(cycle_size as nat) as u64,
            ),
    {
        let size: u128 = cycle_size as u128;
        proof {
            assert(size * 1_000_000 < 0x40_0000_0000_0000_0000_0000) by (nonlinear_arith)
                requires
                    size <= 0xFFFF_FFFF_FFFF_FFFF,
            ;
        }
        let r: u128 = integer_root(size * 1_000_000);
        proof {
            assert(size * r < 0x1_0000_0000_0000_0000 * 0x800_0000_0000) by (nonlinear_arith)
                requires
                    0 <= size < 0x1_0000_0000_0000_0000,
                    0 <= r < 0x800_0000_0000,
            ;
        }
        let product: u128 = size * r;
        let stress: u64 = if product > u64::MAX as u128 {
            u64::MAX
        } else {
            product as u64
        };
        self.add_sample(stress);
    }

    /// Forgets every sample.
    pub fn reset(&mut self)
        ensures
            final(self).wf(),
            final(self).samples() == Seq::<u64>::empty(),
    {
        self.samples.clear();
    }
}

} // verus!
