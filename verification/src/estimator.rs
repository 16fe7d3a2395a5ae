use vstd::prelude::*;
use vstd::arithmetic::div_mod::lemma_div_is_ordered;
use vstd::arithmetic::div_mod::lemma_div_multiples_vanish;

use crate::partition::make_partitions;
use crate::partition::part_end;
use crate::partition::part_start;
use crate::partition::lemma_partitions_tile;
use crate::sample::count_inside;
use crate::sample::lemma_count_inside_push;
use crate::sample::lemma_count_split;
use crate::sample::lemma_upcoming_clamped;
use crate::sample::sample_at;
use crate::sample::upcoming;
use crate::sampler::Sampler;
use crate::sampler::SamplerFactory;

verus! {

/// A π approximation as an exact ratio: `4 * inside / total`, kept as the
/// pair of counts so that no precision is lost.
#[derive(Clone, Copy, PartialEq, Eq, Structural, Debug)]
pub struct Estimate {
    pub inside: usize,
    pub total: usize,
}

impl Estimate {
    /// At most all of the samples can land inside the quarter-circle.
    pub open spec fn valid(self) -> bool {
        self.inside <= self.total
    }

    /// The estimate in fixed-point form: `4 * inside * scale / total`, so
    /// that `scale` stands for the real value 1.0.
    pub open spec fn spec_scaled(self, scale: u64) -> int
        recommends
            self.total > 0,
    {
        4 * self.inside * scale / (self.total as int)
    }

    /// The estimate in fixed-point form, rounded toward zero; `scale` stands
    /// for the real value 1.0. A degenerate estimate over zero particles has
    /// no meaningful value; this returns 0 for it rather than failing.
    pub fn scaled(&self, scale: u64) -> (r: u64)
        requires
            self.valid(),
            scale <= 0x3FFF_FFFF_FFFF_FFFF,
        ensures
            self.total > 0 ==> r == self.spec_scaled(scale),
            self.total == 0 ==> r == 0,
            r <= 4 * scale,
    {
        if self.total == 0 {
            0
        } else {
            proof {
                lemma_estimate_bounds(*self, scale);
                assert(4 * (self.inside as int) * (scale as int) <= 4 * (self.total as int) * (
                scale as int)) by (nonlinear_arith)
                    requires
                        self.inside <= self.total,
                        scale >= 0,
                ;
                assert(4 * (self.total as int) * (scale as int) < 0x1_0000_0000_0000_0000_0000_0000_0000_0000)
                    by (nonlinear_arith)
                    requires
                        self.total <= 0xFFFF_FFFF_FFFF_FFFF,
                        scale <= 0x3FFF_FFFF_FFFF_FFFF,
                ;
            }
            let num: u128 = 4u128 * (self.inside as u128) * (scale as u128);
            let r: u128 = num / (self.total as u128);
            r as u64
        }
    }
}

/// The estimate always lies within [0, 4]: in fixed-point form, the scaled
/// value of any valid estimate over at least one particle lies within
/// [0, 4 * scale].
pub proof fn lemma_estimate_bounds(e: Estimate, scale: u64)
    requires
        e.valid(),
        e.total > 0,
    ensures
        0 <= e.spec_scaled(scale) <= 4 * scale,
{
    let i = e.inside as int;
    let t = e.total as int;
    let s = scale as int;
    assert(4 * i * s <= 4 * t * s) by (nonlinear_arith)
        requires
            0 <= i <= t,
            s >= 0,
    ;
    lemma_div_is_ordered(4 * i * s, 4 * t * s, t);
    assert(4 * t * s == t * (4 * s)) by (nonlinear_arith);
    lemma_div_multiples_vanish(4 * s, t);
    assert(t * (4 * s) / t == 4 * s);
    assert(4 * i * s >= 0) by (nonlinear_arith)
        requires
            i >= 0,
            s >= 0,
    ;
    vstd::arithmetic::div_mod::lemma_div_pos_is_pos(4 * i * s, t);
}

/// Draw `n` samples from the sampler and count how many land inside the
/// unit quarter-circle. On a scripted sampler the count is exactly the
/// inside-count of the next `n` scripted samples.
pub fn count_inside_range(sampler: &mut Sampler, n: usize) -> (c: usize)
    requires
        old(sampler).valid(),
    ensures
        c <= n,
        final(sampler).valid(),
        old(sampler).is_scripted() ==> {
            &&& final(sampler).is_scripted()
            &&& final(sampler).script() == old(sampler).script()
            &&& final(sampler).pos() == if old(sampler).pos() + n <= old(sampler).script().len() {
                old(sampler).pos() + n
            } else {
                old(sampler).script().len() as int
            }
            &&& c == count_inside(upcoming(old(sampler).script(), old(sampler).pos(), n as nat))
        },
        !old(sampler).is_scripted() ==> !final(sampler).is_scripted(),
{
    let mut c: usize = 0;
    let mut i: usize = 0;
    while i < n
        invariant
            i <= n,
            c <= i,
            sampler.valid(),
            old(sampler).is_scripted() ==> {
                &&& sampler.is_scripted()
                &&& sampler.script() == old(sampler).script()
                &&& sampler.pos() == if old(sampler).pos() + i <= old(sampler).script().len() {
                    old(sampler).pos() + i
                } else {
                    old(sampler).script().len() as int
                }
                &&& c == count_inside(upcoming(old(sampler).script(), old(sampler).pos(), i as nat))
            },
            !old(sampler).is_scripted() ==> !sampler.is_scripted(),
        decreases n - i,
    {
        let ghost script = old(sampler).script();
        let ghost p0 = old(sampler).pos();
        let s = sampler.next();
        proof {
            if old(sampler).is_scripted() {
                assert(s == sample_at(script, p0 + i));
                assert(upcoming(script, p0, (i + 1) as nat) =~= upcoming(script, p0, i as nat).push(
                sample_at(script, p0 + i)));
                lemma_count_inside_push(upcoming(script, p0, i as nat), sample_at(script, p0 + i));
            }
        }
        if s.is_inside() {
            c = c + 1;
        }
        i = i + 1;
    }
    c
}

/// Sequential Monte Carlo π estimation: draw `particles` samples from the
/// sampler and return the exact ratio estimate. On a scripted sampler the
/// inside-count is exactly the inside-count of the next `particles`
/// scripted samples.
pub fn simulate_pi_seq(particles: usize, sampler: &mut Sampler) -> (e: Estimate)
    requires
        old(sampler).valid(),
    ensures
        e.valid(),
        e.total == particles,
        final(sampler).valid(),
        old(sampler).is_scripted() ==> e.inside == count_inside(
            upcoming(old(sampler).script(), old(sampler).pos(), particles as nat),
        ),
        !old(sampler).is_scripted() ==> !final(sampler).is_scripted(),
{
    let inside = count_inside_range(sampler, particles);
    Estimate { inside, total: particles }
}

/// The sum of the inside-counts of the first `k` partitions of `[0, n)`
/// tiled for `w` workers, over the stream a script yields from position 0.
pub open spec fn partition_counts_sum(script: Seq<crate::sample::Sample>, n: nat, w: nat, k: int) -> nat
    decreases k,
{
    if k <= 0 {
        0
    } else {
        partition_counts_sum(script, n, w, k - 1) + count_inside(
            upcoming(
                script,
                part_start(n, w, k - 1),
                (part_end(n, w, k - 1) - part_start(n, w, k - 1)) as nat,
            ),
        )
    }
}

/// Reduction equivalence: the per-partition inside-counts of the parallel
/// estimator, summed in partition order (or any order — the sum is over
/// the same terms), equal the sequential inside-count over the whole
/// stream of `n` samples.
pub proof fn lemma_reduction_equivalence(script: Seq<crate::sample::Sample>, n: nat, w: nat)
    requires
        1 <= w,
    ensures
        partition_counts_sum(script, n, w, w as int) == count_inside(upcoming(script, 0, n)),
{
    lemma_partitions_tile(n, w);
    assert forall|k: int| 0 <= k <= w implies partition_counts_sum(script, n, w, k) == count_inside(
        upcoming(script, 0, part_start(n, w, k) as nat),
    ) by {
        lemma_partition_counts_sum_prefix(script, n, w, k);
    }
    assert(part_start(n, w, w as int) == n);
}

/// Each prefix of the per-partition sum counts exactly the stream up to
/// that partition's start.
proof fn lemma_partition_counts_sum_prefix(script: Seq<crate::sample::Sample>, n: nat, w: nat, k: int)
    requires
        1 <= w,
        0 <= k <= w,
    ensures
        partition_counts_sum(script, n, w, k) == count_inside(
            upcoming(script, 0, part_start(n, w, k) as nat),
        ),
    decreases k,
{
    lemma_partitions_tile(n, w);
    if k == 0 {
        assert(upcoming(script, 0, 0) =~= Seq::<crate::sample::Sample>::empty());
    } else {
        lemma_partition_counts_sum_prefix(script, n, w, k - 1);
        let a = part_start(n, w, k - 1) as nat;
        let b = (part_end(n, w, k - 1) - part_start(n, w, k - 1)) as nat;
        lemma_count_split(script, 0, a, b);
        assert(upcoming(script, 0 + a as int, b) =~= upcoming(script, part_start(n, w, k - 1), b));
        assert(a + b == part_end(n, w, k - 1));
        assert(part_end(n, w, k - 1) == part_start(n, w, k));
    }
}

/// Parallel Monte Carlo π estimation: tile `[0, particles)` into one
/// partition per worker, let each worker count its own partition with a
/// sampler of its own, and sum the per-worker counts. On a scripted factory
/// the result is exactly the sequential inside-count of the same stream.
pub fn simulate_pi_par(particles: usize, workers: usize, factory: &SamplerFactory) -> (e: Estimate)
    requires
        1 <= workers,
        factory.valid(),
    ensures
        e.valid(),
        e.total == particles,
        factory.is_scripted() ==> e.inside == count_inside(
            upcoming(factory.script(), 0, particles as nat),
        ),
{
    let ghost n = particles as nat;
    let ghost w = workers as nat;
    let parts = make_partitions(particles, workers);
    let mut total: usize = 0;
    let mut k: usize = 0;
    while k < workers
        invariant
            1 <= workers,
            n == particles as nat,
            w == workers as nat,
            k <= workers,
            factory.valid(),
            parts@.len() == workers,
            forall|i: int| 0 <= i < workers ==> (#[trigger] parts@[i]).start == part_start(n, w, i),
            forall|i: int| 0 <= i < workers ==> (#[trigger] parts@[i]).end == part_end(n, w, i),
            total <= part_start(n, w, k as int),
            part_start(n, w, k as int) <= particles,
            factory.is_scripted() ==> total == count_inside(
                upcoming(factory.script(), 0, part_start(n, w, k as int) as nat),
            ),
        decreases workers - k,
    {
        proof {
            lemma_partitions_tile(n, w);
        }
        let p = parts[k];
        let len = p.end - p.start;
        let mut s = factory.make(p.start);
        let c = count_inside_range(&mut s, len);
        proof {
            if factory.is_scripted() {
                let script = factory.script();
                lemma_upcoming_clamped(script, p.start as int, len as nat);
                lemma_count_split(script, 0, p.start as nat, len as nat);
                assert(upcoming(script, 0 + p.start as int, len as nat) =~= upcoming(
                    script,
                    p.start as int,
                    len as nat,
                ));
            }
        }
        total = total + c;
        k = k + 1;
    }
    proof {
        lemma_partitions_tile(n, w);
        assert(part_start(n, w, w as int) == n);
        if factory.is_scripted() {
            assert(total == count_inside(upcoming(factory.script(), 0, n)));
        }
    }
    Estimate { inside: total, total: particles }
}

} // verus!
