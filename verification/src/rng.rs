//! The pseudo-random source that drives the stochastic evolution.
//!
//! The simulation consumes uniform reals in `[0, 1)` only ever to compare
//! them against acceptance probabilities, so a draw is held as an integer
//! *level* `u` in `[0, LEVEL_SCALE)`, standing for the real `u / LEVEL_SCALE`
//! with `LEVEL_SCALE = 2^53` (the resolution of a 53-bit uniform sample).
//!
//! Two sources are offered: one backed by rand's seedable standard
//! generator, of which nothing is promised draw by draw, and a scripted
//! source that cycles through a fixed list of levels and is exactly
//! predictable, for reproducibility and draw-count reasoning.

use crate::errors::ModelError;
use rand::Rng;
use vstd::arithmetic::div_mod::lemma_small_mod;
use vstd::prelude::*;

verus! {

/// The number of distinct levels a draw can take: 2^53. A level `u` stands
/// for the uniform real `u / LEVEL_SCALE` in `[0, 1)`.
pub const LEVEL_SCALE: u64 = 9007199254740992;

/// Half of `LEVEL_SCALE`: 2^52. A boolean draw from a scripted source is
/// `true` iff its level lies below this, i.e. iff the real it stands for
/// lies in `[0, 1/2)`.
pub const HALF_LEVEL: u64 = 4503599627370496;

#[verifier::external_type_specification]
#[verifier::external_body]
pub struct ExStdRng(rand::rngs::StdRng);

/// Relies on rand's `SeedableRng::seed_from_u64` for `StdRng`: it derives a
/// generator state from the seed and returns it. Nothing is claimed of the
/// state itself, which is opaque here.
#[verifier::external_body]
fn stdrng_from_seed(seed: u64) -> rand::rngs::StdRng {
    rand::SeedableRng::seed_from_u64(seed)
}

/// Relies on rand's `Rng::gen_range` over `0..bound`: it returns a uniform
/// sample of that range, and panics only when the range is empty, which the
/// precondition rules out.
#[verifier::external_body]
fn stdrng_below(rng: &mut rand::rngs::StdRng, bound: u64) -> (u: u64)
    requires
        bound > 0,
    ensures
        u < bound,
{
    rng.gen_range(0..bound)
}

/// Relies on rand's `Rng::gen::<bool>`: one independent draw of a uniform
/// boolean. Nothing is promised of the value.
#[verifier::external_body]
fn stdrng_bool(rng: &mut rand::rngs::StdRng) -> bool {
    rng.gen::<bool>()
}

/// A source backed by rand's standard generator, constructed from a 64-bit
/// seed. Its draws are unpredictable here: contracts state only that each
/// level lies below `LEVEL_SCALE`.
pub struct SeededSource {
    rng: rand::rngs::StdRng,
}

/// A fully predictable source: it hands out the levels of `levels` in order,
/// starting at `next`, and cycles back to the front when the list is
/// exhausted.
pub struct ScriptedSource {
    /// The levels handed out, in order, each below `LEVEL_SCALE`.
    pub levels: Vec<u64>,
    /// The index of the level the next draw returns.
    pub next: usize,
}

impl ScriptedSource {
    /// A scripted source is usable when it has at least one level to cycle
    /// through, its cursor is in bounds, and every level names a real in
    /// `[0, 1)`.
    pub open spec fn wf(self) -> bool {
        &&& self.levels@.len() > 0
        &&& self.next < self.levels@.len()
        &&& forall|i: int| 0 <= i < self.levels@.len() ==> self.levels@[i] < LEVEL_SCALE
    }
}

/// The level the `i`-th future draw of a scripted source returns (`i == 0`
/// names the very next draw), cycling through the script.
pub open spec fn script_level(sc: ScriptedSource, i: int) -> u64 {
    sc.levels@[(sc.next + i) % sc.levels@.len() as int]
}

/// The next `n` levels a scripted source will hand out, in order.
pub open spec fn upcoming_levels(sc: ScriptedSource, n: nat) -> Seq<u64> {
    Seq::new(n, |i: int| script_level(sc, i))
}

/// The pseudo-random source a model owns. Exactly one level (or boolean) is
/// handed out per draw; the internal state mutates with every draw.
pub enum RandomSource {
    /// Backed by rand's standard generator.
    Seeded(SeededSource),
    /// Cycles through a fixed list of levels.
    Scripted(ScriptedSource),
}

impl RandomSource {
    /// A source is usable when its scripted state, if any, is.
    pub open spec fn wf(self) -> bool {
        match self {
            RandomSource::Seeded(_) => true,
            RandomSource::Scripted(sc) => sc.wf(),
        }
    }

    /// A source backed by rand's standard generator, seeded from `seed`.
    pub fn seeded(seed: u64) -> (r: RandomSource)
        ensures
            r.wf(),
            r is Seeded,
    {
        RandomSource::Seeded(SeededSource { rng: stdrng_from_seed(seed) })
    }

    /// A scripted source over `levels`, starting at the front. Rejects an
    /// empty script and any level that names no real in `[0, 1)`.
    pub fn scripted(levels: Vec<u64>) -> (r: Result<RandomSource, ModelError>)
        ensures
            r is Err <==> (levels@.len() == 0 || exists|i: int|
                0 <= i < levels@.len() && #[trigger] levels@[i] >= LEVEL_SCALE),
            r matches Ok(s) ==> {
                &&& s.wf()
                &&& s matches RandomSource::Scripted(sc)
                &&& sc.levels@ == levels@
                &&& sc.next == 0
            },
            r matches Err(e) ==> {
                &&& (levels@.len() == 0 <==> e is EmptyScript)
                &&& (levels@.len() > 0 <==> e is LevelOutOfRange)
            },
    {
        if levels.len() == 0 {
            return Err(ModelError::EmptyScript);
        }
        let mut i: usize = 0;
        while i < levels.len()
            invariant
                i <= levels@.len(),
                forall|j: int| 0 <= j < i ==> levels@[j] < LEVEL_SCALE,
            decreases levels@.len() - i,
        {
            if levels[i] >= LEVEL_SCALE {
                return Err(ModelError::LevelOutOfRange);
            }
            i += 1;
        }
        Ok(RandomSource::Scripted(ScriptedSource { levels, next: 0 }))
    }

    /// Draws one uniform level in `[0, LEVEL_SCALE)`. A scripted source
    /// returns exactly the level its cursor points at and advances by one,
    /// cycling; of a seeded source only the bound is known.
    pub fn next_level(&mut self) -> (u: u64)
        requires
            old(self).wf(),
        ensures
            final(self).wf(),
            u < LEVEL_SCALE,
            *old(self) matches RandomSource::Scripted(sc) ==> {
                &&& u == script_level(sc, 0)
                &&& *final(self) matches RandomSource::Scripted(sc2)
                &&& sc2.levels@ == sc.levels@
                &&& sc2.next == (sc.next + 1) % sc.levels@.len() as int
            },
            *old(self) is Seeded ==> *final(self) is Seeded,
    {
        match self {
            RandomSource::Seeded(s) => stdrng_below(&mut s.rng, LEVEL_SCALE),
            RandomSource::Scripted(sc) => {
                proof {
                    assert(sc.wf());
                    lemma_small_mod(sc.next as nat, sc.levels@.len() as nat);
                }
                let u = sc.levels[sc.next];
                let len = sc.levels.len();
                sc.next = (sc.next + 1) % len;
                u
            },
        }
    }

    /// Draws one uniform boolean (50% `true`). A scripted source consumes
    /// one level and returns `true` iff that level lies below `HALF_LEVEL`;
    /// a seeded source draws one boolean from rand.
    pub fn next_bool(&mut self) -> (b: bool)
        requires
            old(self).wf(),
        ensures
            final(self).wf(),
            *old(self) matches RandomSource::Scripted(sc) ==> {
                &&& b == (script_level(sc, 0) < HALF_LEVEL)
                &&& *final(self) matches RandomSource::Scripted(sc2)
                &&& sc2.levels@ == sc.levels@
                &&& sc2.next == (sc.next + 1) % sc.levels@.len() as int
            },
            *old(self) is Seeded ==> *final(self) is Seeded,
    {
        match self {
            RandomSource::Seeded(s) => stdrng_bool(&mut s.rng),
            RandomSource::Scripted(sc) => {
                proof {
                    assert(sc.wf());
                    lemma_small_mod(sc.next as nat, sc.levels@.len() as nat);
                }
                let u = sc.levels[sc.next];
                let len = sc.levels.len();
                sc.next = (sc.next + 1) % len;
                u < HALF_LEVEL
            },
        }
    }
}

} // verus!
