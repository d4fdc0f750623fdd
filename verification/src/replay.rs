use crate::stats::{cov_has, has_input, Statistics};
use crate::vm::{coverage_faithful, lemma_faithful_after_push, lemma_faithful_unchanged,
    run_function, vm_outcome};
use crate::Felt;
use vstd::prelude::*;

verus! {

/// A prefix of a prefix is a prefix.
pub proof fn lemma_prefix_transitive<T>(a: Seq<T>, b: Seq<T>, c: Seq<T>)
    requires
        a.is_prefix_of(b),
        b.is_prefix_of(c),
    ensures
        a.is_prefix_of(c),
{
    assert(a =~= c.subrange(0, a.len() as int));
}

/// Classify one replayed input from the outcome of its run: new coverage
/// is committed under the double check, a failed run is counted and its
/// input joins the crash set. Reports whether the input is a new unique
/// crash, which the caller prints and never stops the process for.
pub fn replay_classify(
    global: &mut Statistics,
    input: &Vec<Felt>,
    outcome: &Result<Vec<(u32, u32)>, String>,
) -> (new_unique: bool)
    requires
        old(global).wf_global(),
    ensures
        final(global).wf_global(),
        old(global).cov().is_prefix_of(final(global).cov()),
        old(global).inputs().is_prefix_of(final(global).inputs()),
        old(global).crash_inputs().is_prefix_of(final(global).crash_inputs()),
        match *outcome {
            Ok(ref t) => {
                &&& (forall|tr: Seq<(u32, u32)>|
                    cov_has(final(global).cov(), tr) <==> cov_has(old(global).cov(), tr) || tr
                        == t@)
                &&& final(global).crash_inputs() == old(global).crash_inputs()
                &&& final(global).crashes == old(global).crashes
                &&& (final(global).cov() == old(global).cov() || final(global).cov() == old(
                    global,
                ).cov().push((t@, input@)))
                &&& (forall|y: Seq<Felt>|
                    has_input(final(global).inputs(), y) <==> has_input(old(global).inputs(), y)
                        || (y == input@ && !old(global).cov_contains(t@)))
                &&& new_unique == false
            },
            Err(_) => {
                &&& (forall|y: Seq<Felt>|
                    has_input(final(global).crash_inputs(), y) <==> has_input(
                        old(global).crash_inputs(),
                        y,
                    ) || y == input@)
                &&& (forall|y: Seq<Felt>|
                    has_input(final(global).inputs(), y) <==> has_input(old(global).inputs(), y)
                        || y == input@)
                &&& final(global).cov() == old(global).cov()
                &&& final(global).crashes == crate::stats::sat_add(old(global).crashes, 1)
                &&& new_unique == !has_input(old(global).crash_inputs(), input@)
            },
        },
        final(global).threads_finished == old(global).threads_finished,
        final(global).fuzz_cases == old(global).fuzz_cases,
{
    match outcome {
        Ok(trace) => {
            let committed = global.commit_coverage(trace, input);
            proof {
                if !committed.0 {
                    assert(old(global).cov_contains(trace@));
                }
            }
            false
        },
        Err(_) => global.record_crash(input),
    }
}

/// One successful replay step extends the covered-trace characterization
/// from the first `i` inputs to the first `i + 1`.
proof fn lemma_replay_step_ok(
    base: Statistics,
    pre: Statistics,
    post: Statistics,
    content: Seq<char>,
    entrypoint_pc: usize,
    iv: Seq<Seq<Felt>>,
    i: int,
    t: Seq<(u32, u32)>,
)
    requires
        0 <= i < iv.len(),
        vm_outcome(content, entrypoint_pc, iv[i]) == Some(t),
        forall|tr: Seq<(u32, u32)>|
            cov_has(post.cov(), tr) <==> cov_has(pre.cov(), tr) || tr == t,
        post.crash_inputs() == pre.crash_inputs(),
        forall|tr: Seq<(u32, u32)>|
            cov_has(pre.cov(), tr) <==> cov_has(base.cov(), tr) || (exists|k: int|
                0 <= k < i && vm_outcome(content, entrypoint_pc, iv[k]) == Some(tr)),
        forall|y: Seq<Felt>|
            has_input(pre.crash_inputs(), y) <==> has_input(base.crash_inputs(), y) || (exists|
                k: int,
            |
                0 <= k < i && iv[k] == y && vm_outcome(content, entrypoint_pc, iv[k]) is None),
    ensures
        forall|tr: Seq<(u32, u32)>|
            cov_has(post.cov(), tr) <==> cov_has(base.cov(), tr) || (exists|k: int|
                0 <= k < i + 1 && vm_outcome(content, entrypoint_pc, iv[k]) == Some(tr)),
        forall|y: Seq<Felt>|
            has_input(post.crash_inputs(), y) <==> has_input(base.crash_inputs(), y) || (exists|
                k: int,
            |
                0 <= k < i + 1 && iv[k] == y && vm_outcome(content, entrypoint_pc, iv[k]) is None),
{
    assert forall|tr: Seq<(u32, u32)>|
        cov_has(post.cov(), tr) <==> cov_has(base.cov(), tr) || (exists|k: int|
            0 <= k < i + 1 && vm_outcome(content, entrypoint_pc, iv[k]) == Some(tr)) by {
        if cov_has(post.cov(), tr) {
            if !cov_has(base.cov(), tr) {
                if tr == t {
                    assert(vm_outcome(content, entrypoint_pc, iv[i]) == Some(tr));
                } else {
                    let k = choose|k: int|
                        0 <= k < i && vm_outcome(content, entrypoint_pc, iv[k]) == Some(tr);
                    assert(0 <= k < i + 1 && vm_outcome(content, entrypoint_pc, iv[k]) == Some(
                        tr,
                    ));
                }
            }
        }
        if exists|k: int| 0 <= k < i + 1 && vm_outcome(content, entrypoint_pc, iv[k]) == Some(tr) {
            let k = choose|k: int|
                0 <= k < i + 1 && vm_outcome(content, entrypoint_pc, iv[k]) == Some(tr);
            if k == i {
                assert(tr == t);
            }
            assert(cov_has(post.cov(), tr));
        }
    }
    assert forall|y: Seq<Felt>|
        has_input(post.crash_inputs(), y) <==> has_input(base.crash_inputs(), y) || (exists|k: int|
            0 <= k < i + 1 && iv[k] == y && vm_outcome(content, entrypoint_pc, iv[k]) is None) by {
        if exists|k: int|
            0 <= k < i + 1 && iv[k] == y && vm_outcome(content, entrypoint_pc, iv[k]) is None {
            let k = choose|k: int|
                0 <= k < i + 1 && iv[k] == y && vm_outcome(content, entrypoint_pc, iv[k]) is None;
            assert(k != i);
            assert(has_input(pre.crash_inputs(), y));
        }
    }
}

/// One failed replay step extends the recorded-crash characterization
/// from the first `i` inputs to the first `i + 1`.
proof fn lemma_replay_step_err(
    base: Statistics,
    pre: Statistics,
    post: Statistics,
    content: Seq<char>,
    entrypoint_pc: usize,
    iv: Seq<Seq<Felt>>,
    i: int,
)
    requires
        0 <= i < iv.len(),
        vm_outcome(content, entrypoint_pc, iv[i]) is None,
        forall|y: Seq<Felt>|
            has_input(post.crash_inputs(), y) <==> has_input(pre.crash_inputs(), y) || y == iv[i],
        post.cov() == pre.cov(),
        forall|tr: Seq<(u32, u32)>|
            cov_has(pre.cov(), tr) <==> cov_has(base.cov(), tr) || (exists|k: int|
                0 <= k < i && vm_outcome(content, entrypoint_pc, iv[k]) == Some(tr)),
        forall|y: Seq<Felt>|
            has_input(pre.crash_inputs(), y) <==> has_input(base.crash_inputs(), y) || (exists|
                k: int,
            |
                0 <= k < i && iv[k] == y && vm_outcome(content, entrypoint_pc, iv[k]) is None),
    ensures
        forall|tr: Seq<(u32, u32)>|
            cov_has(post.cov(), tr) <==> cov_has(base.cov(), tr) || (exists|k: int|
                0 <= k < i + 1 && vm_outcome(content, entrypoint_pc, iv[k]) == Some(tr)),
        forall|y: Seq<Felt>|
            has_input(post.crash_inputs(), y) <==> has_input(base.crash_inputs(), y) || (exists|
                k: int,
            |
                0 <= k < i + 1 && iv[k] == y && vm_outcome(content, entrypoint_pc, iv[k]) is None),
{
    assert forall|tr: Seq<(u32, u32)>|
        cov_has(post.cov(), tr) <==> cov_has(base.cov(), tr) || (exists|k: int|
            0 <= k < i + 1 && vm_outcome(content, entrypoint_pc, iv[k]) == Some(tr)) by {
        if exists|k: int| 0 <= k < i + 1 && vm_outcome(content, entrypoint_pc, iv[k]) == Some(tr) {
            let k = choose|k: int|
                0 <= k < i + 1 && vm_outcome(content, entrypoint_pc, iv[k]) == Some(tr);
            assert(k != i);
            assert(cov_has(pre.cov(), tr));
        }
    }
    assert forall|y: Seq<Felt>|
        has_input(post.crash_inputs(), y) <==> has_input(base.crash_inputs(), y) || (exists|k: int|
            0 <= k < i + 1 && iv[k] == y && vm_outcome(content, entrypoint_pc, iv[k]) is None) by {
        if has_input(post.crash_inputs(), y) {
            if !has_input(base.crash_inputs(), y) {
                if y == iv[i] {
                    assert(0 <= i < i + 1 && iv[i] == y && vm_outcome(
                        content,
                        entrypoint_pc,
                        iv[i],
                    ) is None);
                } else {
                    let k = choose|k: int|
                        0 <= k < i && iv[k] == y && vm_outcome(
                            content,
                            entrypoint_pc,
                            iv[k],
                        ) is None;
                    assert(0 <= k < i + 1 && iv[k] == y && vm_outcome(
                        content,
                        entrypoint_pc,
                        iv[k],
                    ) is None);
                }
            }
        }
        if exists|k: int|
            0 <= k < i + 1 && iv[k] == y && vm_outcome(content, entrypoint_pc, iv[k]) is None {
            let k = choose|k: int|
                0 <= k < i + 1 && iv[k] == y && vm_outcome(content, entrypoint_pc, iv[k]) is None;
            if k == i {
                assert(has_input(post.crash_inputs(), y));
            } else {
                assert(has_input(pre.crash_inputs(), y));
            }
        }
    }
}

/// Replay a chunk of inputs in order: run each one, classify it, count
/// it, and mark the chunk finished at the end. Reports how many new
/// unique crashes were seen.
///
/// The final coverage and crash contents do not depend on the order of
/// the chunk: a trace is covered afterwards exactly when it was covered
/// before or some input of the chunk produces it, and an input is a
/// recorded crash exactly when it was one before or its run fails.
#[verifier::rlimit(50)]
pub fn replay_chunk(
    global: &mut Statistics,
    content: &str,
    entrypoint_pc: usize,
    inputs: &Vec<Vec<Felt>>,
) -> (reported: usize)
    requires
        old(global).wf_global(),
    ensures
        final(global).wf_global(),
        old(global).cov().is_prefix_of(final(global).cov()),
        old(global).inputs().is_prefix_of(final(global).inputs()),
        old(global).crash_inputs().is_prefix_of(final(global).crash_inputs()),
        forall|tr: Seq<(u32, u32)>|
            cov_has(final(global).cov(), tr) <==> cov_has(old(global).cov(), tr) || (exists|k: int|
                0 <= k < inputs@.len() && vm_outcome(
                    content@,
                    entrypoint_pc,
                    inputs@[k]@,
                ) == Some(tr)),
        forall|y: Seq<Felt>|
            has_input(final(global).crash_inputs(), y) <==> has_input(
                old(global).crash_inputs(),
                y,
            ) || (exists|k: int|
                0 <= k < inputs@.len() && inputs@[k]@ == y && vm_outcome(
                    content@,
                    entrypoint_pc,
                    inputs@[k]@,
                ) is None),
        coverage_faithful(*old(global), content@, entrypoint_pc) ==> coverage_faithful(
            *final(global),
            content@,
            entrypoint_pc,
        ),
        final(global).threads_finished == crate::stats::sat_add(old(global).threads_finished, 1),
        final(global).fuzz_cases == if old(global).fuzz_cases + inputs@.len() > u64::MAX {
            u64::MAX
        } else {
            (old(global).fuzz_cases + inputs@.len()) as u64
        },
{
    let ghost iv = inputs@.map_values(|v: Vec<Felt>| v@);
    let ghost faithful0 = coverage_faithful(*old(global), content@, entrypoint_pc);
    let mut reported: usize = 0;
    let n = inputs.len();
    let mut i: usize = 0;
    while i < n
        invariant
            n == inputs@.len(),
            iv == inputs@.map_values(|v: Vec<Felt>| v@),
            0 <= i <= n,
            reported <= i,
            global.wf_global(),
            old(global).cov().is_prefix_of(global.cov()),
            old(global).inputs().is_prefix_of(global.inputs()),
            old(global).crash_inputs().is_prefix_of(global.crash_inputs()),
            global.threads_finished == old(global).threads_finished,
            global.fuzz_cases == if old(global).fuzz_cases + i > u64::MAX {
                u64::MAX
            } else {
                (old(global).fuzz_cases + i) as u64
            },
            faithful0 == coverage_faithful(*old(global), content@, entrypoint_pc),
            faithful0 ==> coverage_faithful(*global, content@, entrypoint_pc),
            forall|tr: Seq<(u32, u32)>|
                cov_has(global.cov(), tr) <==> cov_has(old(global).cov(), tr) || (exists|k: int|
                    0 <= k < i && vm_outcome(content@, entrypoint_pc, iv[k]) == Some(tr)),
            forall|y: Seq<Felt>|
                has_input(global.crash_inputs(), y) <==> has_input(old(global).crash_inputs(), y)
                    || (exists|k: int|
                    0 <= k < i && iv[k] == y && vm_outcome(content@, entrypoint_pc, iv[k]) is None),
        decreases n - i,
    {
        let input = &inputs[i];
        let outcome = run_function(content, entrypoint_pc, input);
        let ghost pre = *global;
        let new_unique = replay_classify(global, input, &outcome);
        if new_unique {
            if reported < usize::MAX {
                reported += 1;
            }
        }
        proof {
            assert(iv[i as int] == input@);
            match outcome {
                Ok(ref t) => {
                    if global.cov() == pre.cov() {
                        lemma_faithful_unchanged(pre, *global, content@, entrypoint_pc);
                    } else {
                        lemma_faithful_after_push(
                            pre,
                            *global,
                            content@,
                            entrypoint_pc,
                            t@,
                            input@,
                        );
                    }
                    lemma_replay_step_ok(
                        *old(global),
                        pre,
                        *global,
                        content@,
                        entrypoint_pc,
                        iv,
                        i as int,
                        t@,
                    );
                },
                Err(_) => {
                    lemma_faithful_unchanged(pre, *global, content@, entrypoint_pc);
                    lemma_replay_step_err(
                        *old(global),
                        pre,
                        *global,
                        content@,
                        entrypoint_pc,
                        iv,
                        i as int,
                    );
                },
            }
            lemma_prefix_transitive(old(global).cov(), pre.cov(), global.cov());
            lemma_prefix_transitive(old(global).inputs(), pre.inputs(), global.inputs());
            lemma_prefix_transitive(
                old(global).crash_inputs(),
                pre.crash_inputs(),
                global.crash_inputs(),
            );
        }
        global.add_fuzz_cases(1);
        i += 1;
    }
    proof {
        assert forall|tr: Seq<(u32, u32)>|
            cov_has(global.cov(), tr) <==> cov_has(old(global).cov(), tr) || (exists|k: int|
                0 <= k < inputs@.len() && vm_outcome(content@, entrypoint_pc, inputs@[k]@) == Some(
                    tr,
                )) by {
            if exists|k: int|
                0 <= k < inputs@.len() && vm_outcome(content@, entrypoint_pc, inputs@[k]@) == Some(
                    tr,
                ) {
                let k = choose|k: int|
                    0 <= k < inputs@.len() && vm_outcome(content@, entrypoint_pc, inputs@[k]@)
                        == Some(tr);
                assert(iv[k] == inputs@[k]@);
                assert(cov_has(global.cov(), tr));
            }
            if cov_has(global.cov(), tr) && !cov_has(old(global).cov(), tr) {
                let k = choose|k: int|
                    0 <= k < iv.len() && vm_outcome(content@, entrypoint_pc, iv[k]) == Some(tr);
                assert(iv[k] == inputs@[k]@);
            }
        }
        assert forall|y: Seq<Felt>|
            has_input(global.crash_inputs(), y) <==> has_input(old(global).crash_inputs(), y) || (
            exists|k: int|
                0 <= k < inputs@.len() && inputs@[k]@ == y && vm_outcome(
                    content@,
                    entrypoint_pc,
                    inputs@[k]@,
                ) is None) by {
            if exists|k: int|
                0 <= k < inputs@.len() && inputs@[k]@ == y && vm_outcome(
                    content@,
                    entrypoint_pc,
                    inputs@[k]@,
                ) is None {
                let k = choose|k: int|
                    0 <= k < inputs@.len() && inputs@[k]@ == y && vm_outcome(
                        content@,
                        entrypoint_pc,
                        inputs@[k]@,
                    ) is None;
                assert(iv[k] == inputs@[k]@);
                assert(has_input(global.crash_inputs(), y));
            }
            if has_input(global.crash_inputs(), y) && !has_input(old(global).crash_inputs(), y) {
                let k = choose|k: int|
                    0 <= k < iv.len() && iv[k] == y && vm_outcome(
                        content@,
                        entrypoint_pc,
                        iv[k],
                    ) is None;
                assert(iv[k] == inputs@[k]@);
            }
        }
    }
    global.mark_thread_finished();
    reported
}

} // verus!
