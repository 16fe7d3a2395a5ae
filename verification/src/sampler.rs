use vstd::prelude::*;

use crate::sample::COORD_ONE;
use crate::sample::Sample;
use crate::sample::sample_at;

verus! {

#[verifier::external_type_specification]
#[verifier::external_body]
pub struct ExRng(fastrand::Rng);

/// Relies on fastrand::Rng::new: a fresh generator, seeded from the
/// thread-local generator or from a fixed fallback seed. Nothing is promised
/// of its state.
#[verifier::external_body]
fn rng_new() -> fastrand::Rng {
    fastrand::Rng::new()
}

/// Relies on fastrand::Rng::u32 over the full range, which never panics and
/// returns a draw of the generator. Nothing is promised of a random draw.
#[verifier::external_body]
fn rng_u32(rng: &mut fastrand::Rng) -> u32 {
    rng.u32(..)
}

/// A sampler that replays a fixed script of samples, then yields the origin.
pub struct ScriptedSampler {
    pub samples: Vec<Sample>,
    pub pos: usize,
}

impl ScriptedSampler {
    pub open spec fn valid(self) -> bool {
        &&& self.pos <= self.samples@.len()
        &&& forall|i: int| 0 <= i < self.samples@.len() ==> (#[trigger] self.samples@[i]).valid()
    }
}

/// A sampler that draws pseudo-random coordinates, one generator per
/// instance, so that concurrent workers never share state.
pub struct RandomSampler {
    rng: fastrand::Rng,
}

/// A source of sample points: either a deterministic script or a
/// pseudo-random generator.
pub enum Sampler {
    Scripted(ScriptedSampler),
    Random(RandomSampler),
}

impl Sampler {
    pub open spec fn valid(self) -> bool {
        match self {
            Sampler::Scripted(s) => s.valid(),
            Sampler::Random(_) => true,
        }
    }

    pub open spec fn is_scripted(self) -> bool {
        self is Scripted
    }

    /// The script a scripted sampler replays.
    pub open spec fn script(self) -> Seq<Sample> {
        match self {
            Sampler::Scripted(s) => s.samples@,
            Sampler::Random(_) => Seq::empty(),
        }
    }

    /// How far into its script a scripted sampler has advanced.
    pub open spec fn pos(self) -> int {
        match self {
            Sampler::Scripted(s) => s.pos as int,
            Sampler::Random(_) => 0,
        }
    }

    /// A sampler that replays the given samples from the start.
    pub fn scripted(samples: Vec<Sample>) -> (s: Sampler)
        requires
            forall|i: int| 0 <= i < samples@.len() ==> (#[trigger] samples@[i]).valid(),
        ensures
            s.valid(),
            s.is_scripted(),
            s.script() == samples@,
            s.pos() == 0,
    {
        Sampler::Scripted(ScriptedSampler { samples, pos: 0 })
    }

    /// A sampler that replays the given samples from position `start`
    /// (clamped to the script length).
    pub fn scripted_from(samples: Vec<Sample>, start: usize) -> (s: Sampler)
        requires
            forall|i: int| 0 <= i < samples@.len() ==> (#[trigger] samples@[i]).valid(),
        ensures
            s.valid(),
            s.is_scripted(),
            s.script() == samples@,
            s.pos() == if start <= samples@.len() {
                start as int
            } else {
                samples@.len() as int
            },
    {
        let len = samples.len();
        let pos = if start <= len {
            start
        } else {
            len
        };
        Sampler::Scripted(ScriptedSampler { samples, pos })
    }

    /// A sampler with a fresh pseudo-random generator of its own.
    pub fn random() -> (s: Sampler)
        ensures
            s.valid(),
            !s.is_scripted(),
    {
        Sampler::Random(RandomSampler { rng: rng_new() })
    }

    /// Draw the next sample point.
    pub fn next(&mut self) -> (s: Sample)
        requires
            old(self).valid(),
        ensures
            final(self).valid(),
            s.valid(),
            old(self).is_scripted() ==> {
                &&& final(self).is_scripted()
                &&& final(self).script() == old(self).script()
                &&& final(self).pos() == if old(self).pos() + 1 <= old(self).script().len() {
                    old(self).pos() + 1
                } else {
                    old(self).script().len() as int
                }
                &&& s == sample_at(old(self).script(), old(self).pos())
            },
            !old(self).is_scripted() ==> {
                &&& !final(self).is_scripted()
                &&& s.x < COORD_ONE
                &&& s.y < COORD_ONE
            },
    {
        match self {
            Sampler::Scripted(sc) => {
                if sc.pos < sc.samples.len() {
                    let s = sc.samples[sc.pos];
                    sc.pos = sc.pos + 1;
                    s
                } else {
                    Sample::zero()
                }
            },
            Sampler::Random(r) => {
                let x = rng_u32(&mut r.rng);
                let y = rng_u32(&mut r.rng);
                Sample { x: x as u64, y: y as u64 }
            },
        }
    }
}

/// A verified element-by-element copy of a sample script.
fn copy_samples(v: &Vec<Sample>) -> (r: Vec<Sample>)
    ensures
        r@ == v@,
{
    let mut r: Vec<Sample> = Vec::new();
    let mut i: usize = 0;
    while i < v.len()
        invariant
            i <= v@.len(),
            r@ == v@.subrange(0, i as int),
        decreases v@.len() - i,
    {
        r.push(v[i]);
        i = i + 1;
        proof {
            assert(r@ =~= v@.subrange(0, i as int));
        }
    }
    proof {
        assert(r@ =~= v@);
    }
    r
}

/// Hands each worker a sampler of its own: either a view into one shared
/// deterministic script, positioned at the worker's first sample index, or a
/// fresh pseudo-random generator.
pub enum SamplerFactory {
    Scripted(Vec<Sample>),
    Random,
}

impl SamplerFactory {
    pub open spec fn valid(self) -> bool {
        match self {
            SamplerFactory::Scripted(v) => forall|i: int|
                0 <= i < v@.len() ==> (#[trigger] v@[i]).valid(),
            SamplerFactory::Random => true,
        }
    }

    pub open spec fn is_scripted(self) -> bool {
        self is Scripted
    }

    /// The script all scripted samplers of this factory replay.
    pub open spec fn script(self) -> Seq<Sample> {
        match self {
            SamplerFactory::Scripted(v) => v@,
            SamplerFactory::Random => Seq::empty(),
        }
    }

    /// A sampler for the worker whose partition begins at index `start`.
    pub fn make(&self, start: usize) -> (s: Sampler)
        requires
            self.valid(),
        ensures
            s.valid(),
            self.is_scripted() ==> {
                &&& s.is_scripted()
                &&& s.script() == self.script()
                &&& s.pos() == if start <= self.script().len() {
                    start as int
                } else {
                    self.script().len() as int
                }
            },
            !self.is_scripted() ==> !s.is_scripted(),
    {
        match self {
            SamplerFactory::Scripted(v) => Sampler::scripted_from(copy_samples(v), start),
            SamplerFactory::Random => Sampler::random(),
        }
    }
}

} // verus!
