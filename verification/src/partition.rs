use vstd::prelude::*;
use vstd::arithmetic::div_mod::lemma_fundamental_div_mod;
use vstd::arithmetic::div_mod::lemma_multiply_divide_lt;
use vstd::arithmetic::mul::lemma_mul_inequality;

verus! {

/// A half-open range of sample indices assigned to one worker.
#[derive(Clone, Copy, PartialEq, Eq, Structural, Debug)]
pub struct Partition {
    pub start: usize,
    pub end: usize,
}

/// Ceiling of `n / w`: the number of samples each worker is assigned,
/// except possibly the last.
pub open spec fn chunk_size(n: nat, w: nat) -> int
    recommends
        w >= 1,
{
    (n + w - 1) / (w as int)
}

/// Where worker `i`'s index range begins: `i * chunk`, clamped to `n`.
pub open spec fn part_start(n: nat, w: nat, i: int) -> int {
    if i * chunk_size(n, w) <= n {
        i * chunk_size(n, w)
    } else {
        n as int
    }
}

/// Where worker `i`'s index range ends: `(i + 1) * chunk`, clamped to `n`.
pub open spec fn part_end(n: nat, w: nat, i: int) -> int {
    part_start(n, w, i + 1)
}

/// The chunk size is nonnegative, covers all of `[0, n)` over `w` chunks,
/// and is positive whenever there is work to share.
pub proof fn lemma_chunk_size_covers(n: nat, w: nat)
    requires
        1 <= w,
    ensures
        0 <= chunk_size(n, w),
        n <= w * chunk_size(n, w),
        n > 0 ==> 1 <= chunk_size(n, w),
{
    let c = chunk_size(n, w);
    lemma_fundamental_div_mod(n + w - 1, w as int);
    assert(n + w - 1 == (w as int) * c + (n + w - 1) % (w as int));
    assert(0 <= (n + w - 1) % (w as int) < w) by {
        vstd::arithmetic::div_mod::lemma_mod_bound(n + w - 1, w as int);
    }
    assert(w * c >= n);
    if n > 0 {
        assert(w * c >= 1);
        if c <= 0 {
            lemma_mul_inequality(c, 0, w as int);
            assert(c * (w as int) <= 0);
            assert(w * c <= 0);
            assert(false);
        }
    }
    assert(c >= 0) by {
        if c < 0 {
            lemma_mul_inequality(c, 0, w as int);
            assert(false);
        }
    }
}

/// Partition starts and ends are monotone in the worker index.
pub proof fn lemma_part_start_monotone(n: nat, w: nat, i: int, j: int)
    requires
        1 <= w,
        0 <= i <= j,
    ensures
        part_start(n, w, i) <= part_start(n, w, j),
{
    lemma_chunk_size_covers(n, w);
    lemma_mul_inequality(i, j, chunk_size(n, w));
}

/// Whether sample index `j` falls within one of the `w` partitions of `[0, n)`.
pub open spec fn covered_by_some_partition(n: nat, w: nat, j: int) -> bool {
    exists|i: int| 0 <= i < w && #[trigger] part_start(n, w, i) <= j < part_end(n, w, i)
}

/// The partition tiling law: for any particle count `n` and worker count
/// `w >= 1`, the `w` partitions are ordered and adjacent, begin at 0 and end
/// at `n`; every sample index lies in at least one partition, and in no two.
pub proof fn lemma_partitions_tile(n: nat, w: nat)
    requires
        1 <= w,
    ensures
        part_start(n, w, 0) == 0,
        part_end(n, w, w - 1) == n,
        forall|i: int| 0 <= i < w ==> #[trigger] part_start(n, w, i) <= part_end(n, w, i) <= n,
        forall|i: int| 0 <= i < w - 1 ==> #[trigger] part_end(n, w, i) == part_start(n, w, i + 1),
        forall|j: int| 0 <= j < n ==> #[trigger] covered_by_some_partition(n, w, j),
        forall|i1: int, i2: int|
            0 <= i1 < i2 < w ==> #[trigger] part_end(n, w, i1) <= #[trigger] part_start(n, w, i2),
{
    let c = chunk_size(n, w);
    lemma_chunk_size_covers(n, w);
    assert(part_start(n, w, 0) == 0);
    assert(part_end(n, w, w - 1) == n) by {
        lemma_mul_inequality(w as int, w as int, c);
        assert(w * c == (w as int) * c);
        assert((w as int) * c >= n);
    }
    assert forall|i: int| 0 <= i < w implies #[trigger] part_start(n, w, i) <= part_end(n, w, i)
        <= n by {
        lemma_part_start_monotone(n, w, i, i + 1);
    }
    assert forall|i1: int, i2: int| 0 <= i1 < i2 < w implies #[trigger] part_end(n, w, i1)
        <= #[trigger] part_start(n, w, i2) by {
        lemma_part_start_monotone(n, w, i1 + 1, i2);
    }
    assert forall|j: int| 0 <= j < n implies #[trigger] covered_by_some_partition(n, w, j) by {
        let i = j / c;
        lemma_fundamental_div_mod(j, c);
        assert(0 <= j % c < c) by {
            vstd::arithmetic::div_mod::lemma_mod_bound(j, c);
        }
        assert(j == c * i + j % c);
        assert(i * c <= j < (i + 1) * c) by {
            assert(i * c == c * i) by {
                vstd::arithmetic::mul::lemma_mul_is_commutative(i, c);
            }
            assert((i + 1) * c == i * c + c) by {
                vstd::arithmetic::mul::lemma_mul_is_distributive_add_other_way(c, i, 1);
            }
        }
        assert(0 <= i) by {
            vstd::arithmetic::div_mod::lemma_div_pos_is_pos(j, c);
        }
        assert(i < w) by {
            assert(j < w * c);
            assert(w * c == c * (w as int)) by {
                vstd::arithmetic::mul::lemma_mul_is_commutative(w as int, c);
            }
            lemma_multiply_divide_lt(j, c, w as int);
        }
        assert(part_start(n, w, i) == i * c);
        assert(part_start(n, w, i) <= j < part_end(n, w, i));
    }
}

/// Build the partitions that assign `[0, particles)` to `workers` workers:
/// worker `i` gets `[i * chunk, (i + 1) * chunk)`, clamped to `particles`,
/// where `chunk` is `particles / workers` rounded up. Degenerate (empty)
/// partitions arise when `workers` exceeds `particles` and are kept.
pub fn make_partitions(particles: usize, workers: usize) -> (ps: Vec<Partition>)
    requires
        1 <= workers,
    ensures
        ps@.len() == workers,
        forall|i: int|
            0 <= i < workers ==> (#[trigger] ps@[i]).start == part_start(
                particles as nat,
                workers as nat,
                i,
            ),
        forall|i: int|
            0 <= i < workers ==> (#[trigger] ps@[i]).end == part_end(
                particles as nat,
                workers as nat,
                i,
            ),
{
    let ghost n = particles as nat;
    let ghost w = workers as nat;
    let q: usize = particles / workers;
    let r: usize = particles % workers;
    proof {
        lemma_fundamental_div_mod(particles as int, workers as int);
        vstd::arithmetic::div_mod::lemma_mod_bound(particles as int, workers as int);
        if r != 0 {
            lemma_mul_inequality(1, workers as int, q as int);
            assert(q < usize::MAX);
        }
    }
    let chunk: usize = if r != 0 {
        q + 1
    } else {
        q
    };
    proof {
        lemma_chunk_size_covers(n, w);
        assert(chunk == chunk_size(n, w)) by {
            lemma_fundamental_div_mod(particles as int, workers as int);
            lemma_fundamental_div_mod(particles + workers - 1, workers as int);
            vstd::arithmetic::div_mod::lemma_mod_bound(particles as int, workers as int);
            vstd::arithmetic::div_mod::lemma_mod_bound(particles + workers - 1, workers as int);
            let q = particles as int / workers as int;
            let r = particles as int % workers as int;
            if r == 0 {
                assert((particles + workers - 1) / (workers as int) == q) by {
                    vstd::arithmetic::div_mod::lemma_div_multiples_vanish_fancy(
                        q,
                        workers - 1,
                        workers as int,
                    );
                }
            } else {
                assert(particles + workers - 1 == (workers as int) * (q + 1) + (r - 1)) by {
                    vstd::arithmetic::mul::lemma_mul_is_distributive_add(workers as int, q, 1);
                }
                assert((particles + workers - 1) / (workers as int) == q + 1) by {
                    vstd::arithmetic::div_mod::lemma_div_multiples_vanish_fancy(
                        q + 1,
                        r - 1,
                        workers as int,
                    );
                }
            }
        }
    }
    let mut ps: Vec<Partition> = Vec::new();
    let mut i: usize = 0;
    let mut start: usize = 0;
    while i < workers
        invariant
            1 <= workers,
            n == particles as nat,
            w == workers as nat,
            0 <= i <= workers,
            chunk == chunk_size(n, w),
            start == part_start(n, w, i as int),
            start <= particles,
            ps@.len() == i,
            forall|k: int| 0 <= k < i ==> (#[trigger] ps@[k]).start == part_start(n, w, k),
            forall|k: int| 0 <= k < i ==> (#[trigger] ps@[k]).end == part_end(n, w, k),
        decreases workers - i,
    {
        let len = particles - start;
        let end = if len > chunk {
            start + chunk
        } else {
            particles
        };
        proof {
            lemma_chunk_size_covers(n, w);
            assert((i + 1) * chunk == i * chunk + chunk) by {
                vstd::arithmetic::mul::lemma_mul_is_distributive_add_other_way(
                    chunk as int,
                    i as int,
                    1,
                );
            }
            lemma_part_start_monotone(n, w, i as int, i + 1);
            assert(end == part_start(n, w, i + 1));
        }
        ps.push(Partition { start, end });
        start = end;
        i = i + 1;
    }
    ps
}

} // verus!
