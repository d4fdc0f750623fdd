use crate::json::Function;
use crate::mutator::{min_int, mutate_steps, Dict, Mutator};
use crate::rng::{rng_step, seed_state, Rng};
use crate::stats::{copy_felts, has_input, sat_add, Statistics};
use crate::vm::{coverage_faithful, lemma_faithful_after_push, lemma_faithful_unchanged,
    run_function, vm_outcome};
use crate::Felt;
use vstd::prelude::*;

verus! {

/// Errors a worker could surface to its caller. The worker handles
/// everything it meets today, so no specific kind is defined yet.
pub enum CairoworkerError {
    Unspecified,
}

/// Whether a worker observing this many total cases under an iteration
/// cap must stop: a cap of zero stops at once, a positive cap stops once
/// the count exceeds it, and a negative cap never stops.
pub fn should_stop_cases(iter: i64, cases: u64) -> (r: bool)
    ensures
        r == (iter == 0 || (iter > 0 && cases as int > iter as int)),
{
    if iter == 0 {
        true
    } else if iter > 0 {
        cases > (iter as u64)
    } else {
        false
    }
}

/// What one fuzz case ended as.
pub enum CaseOutcome {
    /// The mutated buffer had the wrong length and was dropped.
    Skipped,
    /// The iteration cap was already exceeded; the worker must return.
    Stopped,
    /// The run produced a trace the worker had already seen.
    Known,
    /// The run produced new coverage; the flag says whether the input was
    /// new to the global corpus and so belongs in the input sink.
    NewCoverage(bool),
    /// The run failed: the error text, and whether the crashing input was
    /// a new unique crash to report and dump.
    CrashSeen(String, bool),
}

/// One fuzzing thread: its share of the immutable program, its private
/// shadow of the shared state, and its deterministic streams.
pub struct CairoWorker {
    pub worker_id: i32,
    pub contract_content: String,
    pub entrypoint_pc: usize,
    pub function: Function,
    pub seed: u64,
    pub iter: i64,
    pub local: Statistics,
    pub rng: Rng,
    pub mutator: Mutator,
}

/// With a fixed seed the stream of produced cases is reproducible: two
/// workers whose corpora, generators and mutators agree select the same
/// base input and mutate it to the same case.
pub proof fn lemma_seed_reproducibility(a: CairoWorker, b: CairoWorker)
    requires
        a.local == b.local,
        a.rng == b.rng,
        a.mutator == b.mutator,
        a.function == b.function,
    ensures
        a.selected_base() == b.selected_base(),
        mutate_steps(a.selected_base(), Seq::<Felt>::empty(), a.mutator.rng.state, 4)
            == mutate_steps(b.selected_base(), Seq::<Felt>::empty(), b.mutator.rng.state, 4),
{
}

/// What the shadow knows of a trace at the classification window: its
/// own map when its corpus length matches the global one (no refresh
/// happens), and the global map otherwise (the refresh copies it over).
pub open spec fn shadow_knew(w: CairoWorker, g: Statistics, t: Seq<(u32, u32)>) -> bool {
    if w.local.input_len == g.input_len {
        w.local.cov_contains(t)
    } else {
        g.cov_contains(t)
    }
}

/// The case counters after one counted case: the worker's own counter
/// advances by one, and a whole batch of one thousand reaches the
/// global counter exactly when the batching window opens.
pub open spec fn case_counted(
    w0: CairoWorker,
    g0: Statistics,
    w1: CairoWorker,
    g1: Statistics,
) -> bool {
    &&& w1.local.fuzz_cases == sat_add(w0.local.fuzz_cases, 1)
    &&& g1.fuzz_cases == if w0.local.fuzz_cases % 1000 == 1 {
        sat_add(g0.fuzz_cases, 1000)
    } else {
        g0.fuzz_cases
    }
}

impl CairoWorker {
    /// A worker's state is sound when its shadow is well formed and its
    /// mutator is capped at the function's argument count.
    pub open spec fn wf(self) -> bool {
        &&& self.local.wf()
        &&& self.mutator.max_input_size == self.function.num_args as usize
        &&& self.mutator.input@.len() <= self.mutator.max_input_size
    }

    /// A fresh worker with an empty shadow, both streams seeded with the
    /// worker's own seed.
    pub fn new(
        worker_id: i32,
        contract_content: String,
        entrypoint_pc: usize,
        function: Function,
        seed: u64,
        iter: i64,
    ) -> (r: CairoWorker)
        ensures
            r.wf(),
            r.worker_id == worker_id,
            r.contract_content == contract_content,
            r.entrypoint_pc == entrypoint_pc,
            r.function == function,
            r.seed == seed,
            r.iter == iter,
            r.local.cov().len() == 0,
            r.local.inputs().len() == 0,
            r.local.input_len == 0,
            r.rng.state == seed_state(seed),
            r.mutator.rng.state == seed_state(seed),
    {
        #[verifier::truncate]
        let cap = function.num_args as usize;
        let mutator = Mutator::new().seed(seed).max_input_size(cap);
        CairoWorker {
            worker_id,
            contract_content,
            entrypoint_pc,
            function,
            seed,
            iter,
            local: Statistics::new(),
            rng: Rng::seeded(seed),
            mutator,
        }
    }

    /// The buffer a worker starts the next case from: a corpus pick when
    /// the shadow knows any inputs, else one zero element per argument.
    pub open spec fn selected_base(self) -> Seq<Felt> {
        if self.local.input_len > 0 {
            let idx = (rng_step(self.rng.state) as usize) as int % self.local.input_len as int;
            self.local.list()[idx].take(
                min_int(
                    self.local.list()[idx].len() as int,
                    self.function.num_args as usize as int,
                ),
            )
        } else {
            Seq::new(self.function.num_args as usize as nat, |i: int| Felt { d3: 0, d2: 0, d1: 0, d0: 0 })
        }
    }

    /// Pick a base input, corrupt it with four mutation passes, and hand
    /// it back — or nothing when the result has the wrong length. The
    /// whole step is a function of the worker's state: equal states
    /// produce equal cases.
    pub fn prepare_case(&mut self) -> (r: Option<Vec<Felt>>)
        requires
            old(self).wf(),
        ensures
            final(self).wf(),
            final(self).local == old(self).local,
            final(self).contract_content == old(self).contract_content,
            final(self).entrypoint_pc == old(self).entrypoint_pc,
            final(self).function == old(self).function,
            final(self).iter == old(self).iter,
            final(self).worker_id == old(self).worker_id,
            final(self).rng.state == if old(self).local.input_len > 0 {
                rng_step(old(self).rng.state)
            } else {
                old(self).rng.state
            },
            ({
                let stepped = mutate_steps(
                    old(self).selected_base(),
                    Seq::<Felt>::empty(),
                    old(self).mutator.rng.state,
                    4,
                );
                &&& final(self).mutator.rng.state == stepped.1
                &&& final(self).mutator.input@ == stepped.0
                &&& match r {
                    Some(v) => v@ == stepped.0 && v@.len() == old(self).function.num_args as usize,
                    None => stepped.0.len() != old(self).function.num_args as usize,
                }
            }),
    {
        self.mutator.clear();
        if self.local.input_len > 0 {
            let idx = self.rng.rand_usize() % self.local.input_len;
            let picked = self.local.get_input_by_index(idx);
            self.mutator.extend_from_slice(&picked);
            proof {
                assert(self.mutator.input@ =~= old(self).selected_base());
            }
        } else {
            let mut zeros: Vec<Felt> = Vec::new();
            #[verifier::truncate]
            let cap = self.function.num_args as usize;
            let mut k: usize = 0;
            while k < cap
                invariant
                    0 <= k <= cap,
                    zeros@.len() == k,
                    forall|m: int| 0 <= m < k ==> zeros@[m] == (Felt { d3: 0, d2: 0, d1: 0, d0: 0 }),
                decreases cap - k,
            {
                zeros.push(Felt { d3: 0, d2: 0, d1: 0, d0: 0 });
                k += 1;
            }
            self.mutator.extend_from_slice(&zeros);
            proof {
                assert(self.mutator.input@ =~= old(self).selected_base());
            }
        }
        let dict = Dict::empty();
        proof {
            assert(dict.inputs@ =~= Seq::<Felt>::empty());
        }
        self.mutator.mutate(4, &dict);
        #[verifier::truncate]
        let cap = self.function.num_args as usize;
        if self.mutator.input.len() != cap {
            None
        } else {
            Some(copy_felts(&self.mutator.input))
        }
    }

    /// One whole fuzz case against the shared state: prepare an input,
    /// run the machine, classify the outcome under the two-tier cache
    /// discipline, and batch the case counter. The outcome and the new
    /// global state are pinned by the prepared case and by what the
    /// machine makes of it; the databases only ever grow, and the global
    /// coverage map stays faithful to the machine.
    pub fn run_case(&mut self, global: &mut Statistics) -> (r: CaseOutcome)
        requires
            old(self).wf(),
            old(global).wf_global(),
        ensures
            final(self).wf(),
            final(global).wf_global(),
            final(self).contract_content == old(self).contract_content,
            final(self).entrypoint_pc == old(self).entrypoint_pc,
            final(self).function == old(self).function,
            final(self).iter == old(self).iter,
            final(self).worker_id == old(self).worker_id,
            old(global).cov().is_prefix_of(final(global).cov()),
            old(global).inputs().is_prefix_of(final(global).inputs()),
            old(global).crash_inputs().is_prefix_of(final(global).crash_inputs()),
            final(global).threads_finished == old(global).threads_finished,
            coverage_faithful(
                *old(global),
                old(self).contract_content@,
                old(self).entrypoint_pc,
            ) ==> coverage_faithful(
                *final(global),
                old(self).contract_content@,
                old(self).entrypoint_pc,
            ),
            ({
                let case = mutate_steps(
                    old(self).selected_base(),
                    Seq::<Felt>::empty(),
                    old(self).mutator.rng.state,
                    4,
                ).0;
                let nargs = old(self).function.num_args as usize;
                let run = vm_outcome(old(self).contract_content@, old(self).entrypoint_pc, case);
                let stop = old(self).iter == 0 || (old(self).iter > 0
                    && old(global).fuzz_cases as int > old(self).iter as int);
                match r {
                    CaseOutcome::Skipped => {
                        &&& case.len() != nargs
                        &&& *final(global) == *old(global)
                        &&& final(self).local == old(self).local
                    },
                    CaseOutcome::Stopped => {
                        &&& case.len() == nargs
                        &&& run is Some
                        &&& stop
                        &&& *final(global) == *old(global)
                        &&& final(self).local == old(self).local
                    },
                    CaseOutcome::Known => {
                        &&& case.len() == nargs
                        &&& !stop
                        &&& (match run {
                            Some(t) => shadow_knew(*old(self), *old(global), t),
                            None => false,
                        })
                        &&& final(global).cov() == old(global).cov()
                        &&& final(global).inputs() == old(global).inputs()
                        &&& final(global).crash_inputs() == old(global).crash_inputs()
                        &&& final(global).crashes == old(global).crashes
                        &&& case_counted(*old(self), *old(global), *final(self), *final(global))
                    },
                    CaseOutcome::NewCoverage(added) => {
                        &&& case.len() == nargs
                        &&& !stop
                        &&& (match run {
                            Some(t) => {
                                &&& !shadow_knew(*old(self), *old(global), t)
                                &&& final(global).cov() == if old(global).cov_contains(t) {
                                    old(global).cov()
                                } else {
                                    old(global).cov().push((t, case))
                                }
                                &&& final(global).cov_contains(t)
                                &&& added == (!old(global).cov_contains(t) && !has_input(
                                    old(global).inputs(),
                                    case,
                                ))
                                &&& (added ==> final(global).inputs() == old(
                                    global,
                                ).inputs().push(case))
                                &&& (!added ==> final(global).inputs() == old(global).inputs())
                            },
                            None => false,
                        })
                        &&& final(global).crash_inputs() == old(global).crash_inputs()
                        &&& final(global).crashes == old(global).crashes
                        &&& case_counted(*old(self), *old(global), *final(self), *final(global))
                    },
                    CaseOutcome::CrashSeen(_, uniq) => {
                        &&& case.len() == nargs
                        &&& run is None
                        &&& final(global).cov() == old(global).cov()
                        &&& final(global).crashes == sat_add(old(global).crashes, 1)
                        &&& uniq == !has_input(old(global).crash_inputs(), case)
                        &&& (uniq ==> final(global).crash_inputs() == old(
                            global,
                        ).crash_inputs().push(case))
                        &&& (!uniq ==> final(global).crash_inputs() == old(global).crash_inputs())
                        &&& (forall|y: Seq<Felt>|
                            has_input(final(global).inputs(), y) <==> has_input(
                                old(global).inputs(),
                                y,
                            ) || y == case)
                        &&& (uniq ==> final(global).fuzz_cases == old(global).fuzz_cases
                            && final(self).local.fuzz_cases == old(self).local.fuzz_cases)
                        &&& (!uniq ==> case_counted(
                            *old(self),
                            *old(global),
                            *final(self),
                            *final(global),
                        ))
                    },
                }
            }),
    {
        let ghost content = old(self).contract_content@;
        let ghost pc = old(self).entrypoint_pc;
        let input = match self.prepare_case() {
            Some(v) => v,
            None => {
                proof {
                    lemma_faithful_unchanged(*old(global), *global, content, pc);
                }
                return CaseOutcome::Skipped;
            },
        };
        match run_function(self.contract_content.as_str(), self.entrypoint_pc, &input) {
            Ok(trace) => {
                if should_stop_cases(self.iter, global.fuzz_cases) {
                    proof {
                        lemma_faithful_unchanged(*old(global), *global, content, pc);
                    }
                    return CaseOutcome::Stopped;
                }
                self.local.refresh_from(global);
                let is_new = self.local.observe_coverage(&trace, &input);
                proof {
                    assert(is_new == !shadow_knew(*old(self), *old(global), trace@));
                }
                let outcome = if is_new {
                    let ghost pre = *global;
                    let committed = global.commit_coverage(&trace, &input);
                    proof {
                        if committed.0 {
                            lemma_faithful_after_push(pre, *global, content, pc, trace@, input@);
                        } else {
                            lemma_faithful_unchanged(pre, *global, content, pc);
                        }
                    }
                    CaseOutcome::NewCoverage(committed.1)
                } else {
                    proof {
                        lemma_faithful_unchanged(*old(global), *global, content, pc);
                    }
                    CaseOutcome::Known
                };
                self.flush_case_counter(global);
                outcome
            },
            Err(e) => {
                self.local.record_crash_local(&input);
                let ghost pre = *global;
                let new_unique = global.record_crash(&input);
                proof {
                    lemma_faithful_unchanged(pre, *global, content, pc);
                }
                if !new_unique {
                    self.flush_case_counter(global);
                }
                CaseOutcome::CrashSeen(e, new_unique)
            },
        }
    }

    /// Count the finished case locally, and push a whole batch of one
    /// thousand to the global counter when the batching window opens.
    fn flush_case_counter(&mut self, global: &mut Statistics)
        requires
            old(self).wf(),
            old(global).wf_global(),
        ensures
            final(self).wf(),
            final(global).wf_global(),
            *final(self) == (CairoWorker {
                local: final(self).local,
                ..*old(self)
            }),
            final(global).cov() == old(global).cov(),
            final(global).inputs() == old(global).inputs(),
            final(global).list() == old(global).list(),
            final(global).crash_inputs() == old(global).crash_inputs(),
            final(global).crashes == old(global).crashes,
            final(global).threads_finished == old(global).threads_finished,
            final(self).local.cov() == old(self).local.cov(),
            final(self).local.inputs() == old(self).local.inputs(),
            final(self).local.crash_inputs() == old(self).local.crash_inputs(),
            final(self).local.fuzz_cases == sat_add(old(self).local.fuzz_cases, 1),
            final(global).fuzz_cases == if old(self).local.fuzz_cases % 1000 == 1 {
                sat_add(old(global).fuzz_cases, 1000)
            } else {
                old(global).fuzz_cases
            },
    {
        if self.local.fuzz_cases % 1000 == 1 {
            global.add_fuzz_cases(1000);
        }
        self.local.add_fuzz_cases(1);
    }

    /// Flush the remainder of the batching window when the worker
    /// returns: the at most 999 cases counted locally since the last
    /// whole batch reach the global counter.
    pub fn flush_remaining_cases(&self, global: &mut Statistics)
        requires
            old(global).wf_global(),
        ensures
            final(global).wf_global(),
            final(global).fuzz_cases == sat_add(old(global).fuzz_cases, self.local.fuzz_cases
                % 1000),
            final(global).cov() == old(global).cov(),
            final(global).inputs() == old(global).inputs(),
            final(global).list() == old(global).list(),
            final(global).crash_inputs() == old(global).crash_inputs(),
            final(global).crashes == old(global).crashes,
            final(global).threads_finished == old(global).threads_finished,
    {
        global.add_fuzz_cases(self.local.fuzz_cases % 1000);
    }
}

} // verus!
