//! The generator: a seed and the position of the next draw.

use vstd::prelude::*;
use crate::collisions::{lemma_noise_saturates, SATURATING_WORD};
use crate::noise::{noise, noise_at, scaled, SCALE};

verus! {

/// Mathematical state of a generator: its seed and the position that the
/// next draw will hash.
pub struct StreamState {
    pub seed: u32,
    pub position: nat,
}

impl StreamState {
    /// The state of a generator that has not been drawn from.
    pub open spec fn start(seed: u32) -> StreamState {
        StreamState { seed, position: 1 }
    }

    /// The word that the next draw yields.
    pub open spec fn output(self) -> u32 {
        noise(self.seed, self.position)
    }

    /// The state that the next draw leaves behind.
    pub open spec fn next(self) -> StreamState {
        StreamState { seed: self.seed, position: self.position + 1 }
    }

    /// The state reached after `n` draws.
    pub open spec fn after(self, n: nat) -> StreamState {
        StreamState { seed: self.seed, position: self.position + n }
    }

    /// The words that the next `n` draws yield, in the order drawn.
    pub open spec fn outputs(self, n: nat) -> Seq<u32> {
        Seq::new(n, |i: int| noise(self.seed, (self.position + i) as nat))
    }
}

/// A deterministic generator of 32-bit samples.
///
/// Positions start at one and only ever grow, so the number of samples drawn
/// so far is the position minus one.
pub struct RNG {
    seed: u32,
    pos: u32,
}

impl View for RNG {
    type V = StreamState;

    closed spec fn view(&self) -> StreamState {
        StreamState { seed: self.seed, position: self.pos as nat }
    }
}

impl RNG {
    #[verifier::type_invariant]
    spec fn positioned(self) -> bool {
        self.pos >= 1
    }

    /// A generator for `seed` that has not been drawn from.
    pub fn new(seed: u32) -> (rng: Self)
        ensures
            rng@ == StreamState::start(seed),
    {
        Self { seed, pos: 1 }
    }

    /// The seed that this generator was built from.
    pub fn seed(&self) -> (seed: u32)
        ensures
            seed == self@.seed,
    {
        self.seed
    }

    /// The position that the next draw will hash: one more than the number
    /// of samples drawn so far.
    pub fn position(&self) -> (position: u32)
        ensures
            position == self@.position,
            position >= 1,
    {
        proof {
            use_type_invariant(self);
        }
        self.pos
    }

    /// Draws the next sample and moves one position on.
    ///
    /// The sample is a word between zero and [`SCALE`]; it stands for the
    /// fraction of the unit interval obtained by dividing it by that scale.
    /// The position is a 32-bit counter, so a generator can be drawn from
    /// until its position reaches `u32::MAX`.
    pub fn sample(&mut self) -> (word: u32)
        requires
            old(self)@.position < u32::MAX,
        ensures
            word == old(self)@.output(),
            final(self)@ == old(self)@.next(),
    {
        let word: u32 = noise_at(self.seed, self.pos);
        self.pos = self.pos + 1;
        word
    }
}

/// Drawing once is the first step of drawing many: the state after `n + 1`
/// draws is the state after `n` draws of the next state, and the words drawn
/// are the next output followed by the outputs of the next state.
pub proof fn lemma_draw_first(state: StreamState, n: nat)
    ensures
        state.after(0) == state,
        state.outputs(0) == Seq::<u32>::empty(),
        state.after(n + 1) == state.next().after(n),
        state.outputs(n + 1) == seq![state.output()] + state.next().outputs(n),
{
    assert(state.outputs(n + 1) =~= seq![state.output()] + state.next().outputs(n));
}

/// Drawing once more extends what was drawn: the word drawn after `n` draws
/// is the output of the state reached by them.
pub proof fn lemma_draw_last(state: StreamState, n: nat)
    ensures
        state.after(n + 1) == state.after(n).next(),
        state.outputs(n + 1) == state.outputs(n).push(state.after(n).output()),
{
    assert(state.outputs(n + 1) =~= state.outputs(n).push(state.after(n).output()));
}

/// Two generators with the same seed that stand at the same position yield
/// the same words, however many are drawn, and end in the same state. This
/// holds in particular of any two generators fresh from [`RNG::new`] with one
/// seed.
pub proof fn lemma_same_seed_same_stream(a: RNG, b: RNG, n: nat)
    requires
        a@.seed == b@.seed,
        a@.position == b@.position,
    ensures
        a@.outputs(n) == b@.outputs(n),
        a@.after(n) == b@.after(n),
{
}

/// A sample, read as a fraction of [`SCALE`], is at least zero and less than
/// one, unless the word mixed for it is [`SATURATING_WORD`]: that draw alone
/// yields the whole of [`SCALE`].
pub proof fn lemma_sample_in_unit_interval(state: StreamState)
    requires
        scaled(state.seed, state.position) != SATURATING_WORD,
    ensures
        0 <= state.output() < SCALE,
{
    lemma_noise_saturates(state.seed, state.position);
}

} // verus!
