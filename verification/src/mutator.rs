use crate::rng::{rng_step, seed_state, Rng};
use crate::Felt;
use vstd::prelude::*;
use vstd::pervasive::VecAdditionalExecFns;

verus! {

/// The dictionary of sample values that mutation may draw whole elements
/// from. An empty dictionary is the disabled sentinel: the drawing pass
/// is then not among the choices.
pub struct Dict {
    pub inputs: Vec<Felt>,
}

impl Dict {
    /// The disabled dictionary.
    pub fn empty() -> (r: Dict)
        ensures
            r.inputs@.len() == 0,
    {
        Dict { inputs: Vec::new() }
    }
}

/// What one mutation pass does to the buffer and to the generator state.
/// With a non-empty buffer it draws an operation — overwrite an element
/// with a random value, zero an element, copy one element over another,
/// or (with a dictionary) overwrite an element with a dictionary value —
/// and the indices it needs; an empty buffer is left alone without a draw.
pub open spec fn pass_step(input: Seq<Felt>, dict: Seq<Felt>, s0: u64) -> (Seq<Felt>, u64) {
    if input.len() == 0 {
        (input, s0)
    } else {
        let s1 = rng_step(s0);
        let choices = if dict.len() > 0 {
            4u64
        } else {
            3u64
        };
        let op = s1 % choices;
        if op == 0 {
            let s2 = rng_step(s1);
            let i = (s2 as usize) as int % input.len() as int;
            let s3 = rng_step(s2);
            (input.update(i, Felt { d3: 0, d2: 0, d1: 0, d0: s3 }), s3)
        } else if op == 1 {
            let s2 = rng_step(s1);
            let i = (s2 as usize) as int % input.len() as int;
            (input.update(i, Felt { d3: 0, d2: 0, d1: 0, d0: 0 }), s2)
        } else if op == 2 {
            let s2 = rng_step(s1);
            let i = (s2 as usize) as int % input.len() as int;
            let s3 = rng_step(s2);
            let j = (s3 as usize) as int % input.len() as int;
            (input.update(i, input[j]), s3)
        } else {
            let s2 = rng_step(s1);
            let i = (s2 as usize) as int % input.len() as int;
            let s3 = rng_step(s2);
            let j = (s3 as usize) as int % dict.len() as int;
            (input.update(i, dict[j]), s3)
        }
    }
}

/// `passes` mutation passes in order.
pub open spec fn mutate_steps(input: Seq<Felt>, dict: Seq<Felt>, s0: u64, passes: u32) -> (
    Seq<Felt>,
    u64,
)
    decreases passes,
{
    if passes == 0 {
        (input, s0)
    } else {
        let (mid, s1) = pass_step(input, dict, s0);
        mutate_steps(mid, dict, s1, (passes - 1) as u32)
    }
}

/// Any number of passes keeps the buffer length.
pub proof fn lemma_mutate_keeps_len(input: Seq<Felt>, dict: Seq<Felt>, s0: u64, passes: u32)
    ensures
        mutate_steps(input, dict, s0, passes).0.len() == input.len(),
    decreases passes,
{
    if passes != 0 {
        let (mid, s1) = pass_step(input, dict, s0);
        lemma_mutate_keeps_len(mid, dict, s1, (passes - 1) as u32);
    }
}

/// An empty dictionary mutates exactly as the disabled sentinel does.
pub proof fn lemma_empty_dict_is_disabled(
    input: Seq<Felt>,
    dict: Seq<Felt>,
    s0: u64,
    passes: u32,
)
    requires
        dict.len() == 0,
    ensures
        mutate_steps(input, dict, s0, passes) == mutate_steps(input, Seq::<Felt>::empty(), s0, passes),
    decreases passes,
{
    if passes != 0 {
        assert(pass_step(input, dict, s0) == pass_step(input, Seq::<Felt>::empty(), s0));
        let (mid, s1) = pass_step(input, dict, s0);
        lemma_empty_dict_is_disabled(mid, dict, s1, (passes - 1) as u32);
    }
}

/// An empty buffer stays empty under any number of passes, with the
/// generator state untouched: a function of no arguments is always
/// fuzzed with the same, empty, input.
pub proof fn lemma_mutate_empty(dict: Seq<Felt>, s0: u64, passes: u32)
    ensures
        mutate_steps(Seq::<Felt>::empty(), dict, s0, passes) == (Seq::<Felt>::empty(), s0),
    decreases passes,
{
    if passes != 0 {
        lemma_mutate_empty(dict, s0, (passes - 1) as u32);
    }
}

/// The mutation engine: a buffer of field elements evolved in place, a
/// size cap, and a private generator that makes every run a function of
/// the seed alone.
pub struct Mutator {
    /// The buffer under mutation.
    pub input: Vec<Felt>,
    /// The buffer never grows past this many elements.
    pub max_input_size: usize,
    /// The generator behind every random choice.
    pub rng: Rng,
}

impl Mutator {
    /// A mutator with an empty buffer, no size cap yet and a default stream.
    pub fn new() -> (r: Mutator)
        ensures
            r.input@.len() == 0,
            r.max_input_size == 0,
            r.rng.state == seed_state(0),
    {
        Mutator { input: Vec::new(), max_input_size: 0, rng: Rng::seeded(0) }
    }

    /// The same mutator with its stream reseeded.
    pub fn seed(self, seed: u64) -> (r: Mutator)
        ensures
            r.input@ == self.input@,
            r.max_input_size == self.max_input_size,
            r.rng.state == seed_state(seed),
    {
        Mutator { rng: Rng::seeded(seed), ..self }
    }

    /// The same mutator with its size cap set.
    pub fn max_input_size(self, max_input_size: usize) -> (r: Mutator)
        ensures
            r.input@ == self.input@,
            r.max_input_size == max_input_size,
            r.rng == self.rng,
    {
        Mutator { max_input_size, ..self }
    }

    /// Empty the buffer.
    pub fn clear(&mut self)
        ensures
            final(self).input@.len() == 0,
            final(self).max_input_size == old(self).max_input_size,
            final(self).rng == old(self).rng,
    {
        self.input.clear();
    }

    /// Append elements of `src`, silently dropping whatever would push the
    /// buffer past the size cap.
    pub fn extend_from_slice(&mut self, src: &Vec<Felt>)
        requires
            old(self).input@.len() <= old(self).max_input_size,
        ensures
            final(self).input@ == old(self).input@ + src@.take(
                min_int(
                    src@.len() as int,
                    final(self).max_input_size - old(self).input@.len(),
                ),
            ),
            final(self).max_input_size == old(self).max_input_size,
            final(self).rng == old(self).rng,
    {
        let mut i: usize = 0;
        let n = src.len();
        while i < n && self.input.len() < self.max_input_size
            invariant
                n == src@.len(),
                0 <= i <= n,
                self.max_input_size == old(self).max_input_size,
                self.rng == old(self).rng,
                self.input@ == old(self).input@ + src@.take(i as int),
                self.input@.len() == old(self).input@.len() + i,
                self.input@.len() <= self.max_input_size,
            decreases n - i,
        {
            self.input.push(src[i]);
            proof {
                assert(self.input@ =~= old(self).input@ + src@.take(i + 1));
            }
            i += 1;
        }
        proof {
            let cap = min_int(src@.len() as int, self.max_input_size - old(self).input@.len());
            if i < n {
                assert(self.input@.len() == self.max_input_size);
                assert(i == cap);
            } else {
                if old(self).input@.len() + n <= self.max_input_size {
                    assert(i == cap);
                } else {
                    assert(i == cap);
                }
            }
            assert(self.input@ =~= old(self).input@ + src@.take(cap));
        }
    }

    /// Apply `passes` mutation passes drawn from the private stream,
    /// optionally drawing elements from `dict`. The buffer length never
    /// changes; in particular an empty buffer stays empty.
    pub fn mutate(&mut self, passes: u32, dict: &Dict)
        ensures
            final(self).input@ == mutate_steps(
                old(self).input@,
                dict.inputs@,
                old(self).rng.state,
                passes,
            ).0,
            final(self).rng.state == mutate_steps(
                old(self).input@,
                dict.inputs@,
                old(self).rng.state,
                passes,
            ).1,
            final(self).input@.len() == old(self).input@.len(),
            final(self).max_input_size == old(self).max_input_size,
    {
        proof {
            lemma_mutate_keeps_len(old(self).input@, dict.inputs@, old(self).rng.state, passes);
        }
        let mut k: u32 = 0;
        while k < passes
            invariant
                0 <= k <= passes,
                self.max_input_size == old(self).max_input_size,
                mutate_steps(self.input@, dict.inputs@, self.rng.state, (passes - k) as u32)
                    == mutate_steps(
                    old(self).input@,
                    dict.inputs@,
                    old(self).rng.state,
                    passes,
                ),
            decreases passes - k,
        {
            proof {
                lemma_mutate_keeps_len(self.input@, dict.inputs@, self.rng.state, (passes - k) as u32);
            }
            self.mutate_pass(dict);
            k += 1;
        }
    }

    /// One mutation pass.
    fn mutate_pass(&mut self, dict: &Dict)
        ensures
            final(self).input@ == pass_step(old(self).input@, dict.inputs@, old(self).rng.state).0,
            final(self).rng.state == pass_step(
                old(self).input@,
                dict.inputs@,
                old(self).rng.state,
            ).1,
            final(self).max_input_size == old(self).max_input_size,
    {
        let n = self.input.len();
        if n == 0 {
            return ;
        }
        let choices: u64 = if dict.inputs.len() > 0 {
            4
        } else {
            3
        };
        let op = self.rng.rand_u64() % choices;
        if op == 0 {
            let i = self.rng.rand_usize() % n;
            let v = self.rng.rand_u64();
            self.input.set(i, Felt { d3: 0, d2: 0, d1: 0, d0: v });
        } else if op == 1 {
            let i = self.rng.rand_usize() % n;
            self.input.set(i, Felt { d3: 0, d2: 0, d1: 0, d0: 0 });
        } else if op == 2 {
            let i = self.rng.rand_usize() % n;
            let j = self.rng.rand_usize() % n;
            let v = self.input[j];
            self.input.set(i, v);
        } else {
            let i = self.rng.rand_usize() % n;
            let j = self.rng.rand_usize() % dict.inputs.len();
            let v = dict.inputs[j];
            self.input.set(i, v);
        }
    }
}

/// The smaller of two mathematical integers.
pub open spec fn min_int(a: int, b: int) -> int {
    if a < b {
        a
    } else {
        b
    }
}

} // verus!
