use vstd::prelude::*;

verus! {

/// Fixed-point scale: a coordinate value of `COORD_ONE` stands for the real
/// number 1.0, so a coordinate drawn uniformly from [0, COORD_ONE) stands for
/// a real drawn from [0, 1).
pub const COORD_ONE: u64 = 0x1_0000_0000;

/// A sample point in the unit square, with fixed-point coordinates.
#[derive(Clone, Copy, PartialEq, Eq, Structural, Debug)]
pub struct Sample {
    pub x: u64,
    pub y: u64,
}

impl Sample {
    /// A sample is valid when both coordinates lie in [0, 1].
    pub open spec fn valid(self) -> bool {
        self.x <= COORD_ONE && self.y <= COORD_ONE
    }

    /// Whether the point lies inside the closed unit quarter-circle:
    /// x^2 + y^2 <= 1, in fixed-point form.
    pub open spec fn inside_spec(self) -> bool {
        self.x * self.x + self.y * self.y <= COORD_ONE * COORD_ONE
    }

    /// The origin; used where a scripted sampler has run out of samples.
    pub fn zero() -> (s: Sample)
        ensures
            s == (Sample { x: 0, y: 0 }),
    {
        Sample { x: 0, y: 0 }
    }

    /// The unit quarter-circle acceptance test.
    pub fn is_inside(&self) -> (r: bool)
        requires
            self.valid(),
        ensures
            r == self.inside_spec(),
    {
        proof {
            assert((self.x as int) * (self.x as int) <= (COORD_ONE as int) * (COORD_ONE as int)
                && (self.y as int) * (self.y as int) <= (COORD_ONE as int)
                * (COORD_ONE as int)) by (nonlinear_arith)
                requires
                    self.x <= COORD_ONE,
                    self.y <= COORD_ONE,
            ;
        }
        let xx: u128 = (self.x as u128) * (self.x as u128);
        let yy: u128 = (self.y as u128) * (self.y as u128);
        let one: u128 = (COORD_ONE as u128) * (COORD_ONE as u128);
        xx + yy <= one
    }
}

/// The sample a script yields at index `i`: the scripted value while the
/// script lasts, and the origin once it is exhausted.
pub open spec fn sample_at(script: Seq<Sample>, i: int) -> Sample {
    if 0 <= i < script.len() {
        script[i]
    } else {
        Sample { x: 0, y: 0 }
    }
}

/// The `n` samples a script yields starting at position `pos`.
pub open spec fn upcoming(script: Seq<Sample>, pos: int, n: nat) -> Seq<Sample> {
    Seq::new(n, |i: int| sample_at(script, pos + i))
}

/// How many samples of a sequence lie inside the unit quarter-circle.
pub open spec fn count_inside(s: Seq<Sample>) -> nat
    decreases s.len(),
{
    if s.len() == 0 {
        0
    } else {
        count_inside(s.drop_last()) + if s.last().inside_spec() {
            1nat
        } else {
            0nat
        }
    }
}

/// Appending one sample raises the inside-count by one exactly when that
/// sample lies inside the quarter-circle.
pub proof fn lemma_count_inside_push(s: Seq<Sample>, x: Sample)
    ensures
        count_inside(s.push(x)) == count_inside(s) + if x.inside_spec() {
            1nat
        } else {
            0nat
        },
{
    assert(s.push(x).drop_last() =~= s);
    assert(s.push(x).last() == x);
}

/// Counting inside-samples distributes over splitting a stream in two:
/// the first `a` samples and the `b` samples that follow them together
/// count exactly what the `a + b` samples count.
pub proof fn lemma_count_split(script: Seq<Sample>, pos: int, a: nat, b: nat)
    ensures
        count_inside(upcoming(script, pos, (a + b) as nat)) == count_inside(
            upcoming(script, pos, a),
        ) + count_inside(upcoming(script, pos + a, b)),
    decreases b,
{
    if b == 0 {
        assert(upcoming(script, pos, (a + b) as nat) =~= upcoming(script, pos, a));
        assert(upcoming(script, pos + a, 0) =~= Seq::<Sample>::empty());
    } else {
        lemma_count_split(script, pos, a, (b - 1) as nat);
        let x = sample_at(script, pos + a + b - 1);
        assert(upcoming(script, pos, (a + b) as nat) =~= upcoming(
            script,
            pos,
            (a + (b - 1)) as nat,
        ).push(x));
        assert(upcoming(script, pos + a, b) =~= upcoming(script, pos + a, (b - 1) as nat).push(x));
        lemma_count_inside_push(upcoming(script, pos, (a + (b - 1)) as nat), x);
        lemma_count_inside_push(upcoming(script, pos + a, (b - 1) as nat), x);
    }
}

/// Past the end of the script, every yielded sample is the origin, so
/// positions clamped to the script length yield the same samples.
pub proof fn lemma_upcoming_clamped(script: Seq<Sample>, pos: int, n: nat)
    requires
        pos >= 0,
    ensures
        upcoming(script, if pos <= script.len() {
            pos
        } else {
            script.len() as int
        }, n) =~= upcoming(script, pos, n),
{
}

} // verus!
