use crate::stats::Statistics;
use crate::Felt;
use cairo_vm::hint_processor::builtin_hint_processor::builtin_hint_processor_definition::BuiltinHintProcessor;
use cairo_vm::types::layout_name::LayoutName;
use cairo_vm::types::program::Program;
use cairo_vm::types::relocatable::MaybeRelocatable;
use cairo_vm::vm::errors::cairo_run_errors::CairoRunError;
use cairo_vm::vm::runners::cairo_runner::{CairoArg, CairoRunner};
use cairo_vm::Felt252;
use vstd::prelude::*;

verus! {

/// The eight bytes of a 64-bit value, most significant first.
pub open spec fn be8(x: u64) -> Seq<u8> {
    seq![
        (x / 0x100000000000000 % 0x100) as u8,
        (x / 0x1000000000000 % 0x100) as u8,
        (x / 0x10000000000 % 0x100) as u8,
        (x / 0x100000000 % 0x100) as u8,
        (x / 0x1000000 % 0x100) as u8,
        (x / 0x10000 % 0x100) as u8,
        (x / 0x100 % 0x100) as u8,
        (x % 0x100) as u8,
    ]
}

/// The 32 bytes of a field element, most significant first.
pub open spec fn felt_be_bytes(f: Felt) -> Seq<u8> {
    be8(f.d3) + be8(f.d2) + be8(f.d1) + be8(f.d0)
}

fn push_u64_be(out: &mut Vec<u8>, x: u64)
    ensures
        final(out)@ == old(out)@ + be8(x),
{
    out.push((x / 0x100000000000000 % 0x100) as u8);
    out.push((x / 0x1000000000000 % 0x100) as u8);
    out.push((x / 0x10000000000 % 0x100) as u8);
    out.push((x / 0x100000000 % 0x100) as u8);
    out.push((x / 0x1000000 % 0x100) as u8);
    out.push((x / 0x10000 % 0x100) as u8);
    out.push((x / 0x100 % 0x100) as u8);
    out.push((x % 0x100) as u8);
    proof {
        assert(out@ =~= old(out)@ + be8(x));
    }
}

/// The big-endian byte form of one field element.
pub fn felt_to_bytes(f: &Felt) -> (r: Vec<u8>)
    ensures
        r@ == felt_be_bytes(*f),
{
    let mut r: Vec<u8> = Vec::new();
    push_u64_be(&mut r, f.d3);
    push_u64_be(&mut r, f.d2);
    push_u64_be(&mut r, f.d1);
    push_u64_be(&mut r, f.d0);
    proof {
        assert(r@ =~= felt_be_bytes(*f));
    }
    r
}

/// The big-endian byte form of a whole input.
pub fn encode_inputs(input: &Vec<Felt>) -> (r: Vec<Vec<u8>>)
    ensures
        r@.map_values(|v: Vec<u8>| v@) == input@.map_values(|f: Felt| felt_be_bytes(f)),
{
    let mut r: Vec<Vec<u8>> = Vec::new();
    let n = input.len();
    let mut i: usize = 0;
    while i < n
        invariant
            n == input@.len(),
            0 <= i <= n,
            r@.len() == i,
            forall|k: int| 0 <= k < i ==> r@[k]@ == felt_be_bytes(input@[k]),
        decreases n - i,
    {
        r.push(felt_to_bytes(&input[i]));
        i += 1;
    }
    proof {
        assert(r@.map_values(|v: Vec<u8>| v@) =~= input@.map_values(|f: Felt| felt_be_bytes(f)));
    }
    r
}

/// The transitions a program-counter walk makes: each counter paired
/// with its successor.
pub open spec fn pairs_of(pcs: Seq<u32>) -> Seq<(u32, u32)> {
    if pcs.len() == 0 {
        Seq::empty()
    } else {
        Seq::new((pcs.len() - 1) as nat, |i: int| (pcs[i], pcs[i + 1]))
    }
}

/// The trace of an execution: consecutive program counters as
/// (from, to) pairs.
pub fn pair_transitions(pcs: &Vec<u32>) -> (r: Vec<(u32, u32)>)
    ensures
        r@ == pairs_of(pcs@),
{
    let mut r: Vec<(u32, u32)> = Vec::new();
    let n = pcs.len();
    if n == 0 {
        return r;
    }
    let mut i: usize = 0;
    while i < n - 1
        invariant
            n == pcs@.len(),
            n >= 1,
            0 <= i <= n - 1,
            r@.len() == i,
            forall|k: int| 0 <= k < i ==> r@[k] == (pcs@[k], pcs@[k + 1]),
        decreases n - i,
    {
        r.push((pcs[i], pcs[i + 1]));
        i += 1;
    }
    proof {
        assert(r@ =~= pairs_of(pcs@));
    }
    r
}

#[verifier::external_type_specification]
#[verifier::external_body]
pub struct ExCairoRunError(cairo_vm::vm::errors::cairo_run_errors::CairoRunError);

/// The program counters the virtual machine visits when the function at
/// `entrypoint_pc` of the given artifact text runs on the given
/// big-endian argument values; nothing when the run fails. The machine
/// is deterministic: the outcome is a function of these arguments alone.
pub uninterp spec fn vm_pcs_of(content: Seq<char>, entrypoint_pc: usize, args: Seq<Seq<u8>>) -> Option<
    Seq<u32>,
>;

/// Relies on cairo_vm: Program::from_bytes reads the artifact text;
/// CairoRunner::new, initialize_builtins, initialize_segments and
/// run_from_entrypoint execute the function at `entrypoint_pc` on the
/// given arguments; relocate exposes the visited program counters of
/// the relocated trace.
#[verifier::external_body]
fn vm_run(content: &str, entrypoint_pc: usize, arg_bytes: &Vec<Vec<u8>>) -> (r: Result<
    Vec<u32>,
    CairoRunError,
>)
    ensures
        match r {
            Ok(pcs) => vm_pcs_of(content@, entrypoint_pc, arg_bytes@.map_values(|v: Vec<u8>| v@))
                == Some(pcs@),
            Err(_) => vm_pcs_of(content@, entrypoint_pc, arg_bytes@.map_values(|v: Vec<u8>| v@)) is None,
        },
{
    let args: Vec<CairoArg> = arg_bytes.iter().map(|b| CairoArg::from(MaybeRelocatable::from(Felt252::from_bytes_be_slice(b)))).collect();
    let program = Program::from_bytes(content.as_bytes(), None)?;
    let mut runner = CairoRunner::new(&program, LayoutName::all_cairo, None, false, true, false)?;
    runner.initialize_builtins(false)?;
    runner.initialize_segments(None);
    let mut hints = BuiltinHintProcessor::new_empty();
    runner.run_from_entrypoint(entrypoint_pc, &args.iter().collect::<Vec<&CairoArg>>(), false, None, &mut hints)?;
    runner.relocate(false, true)?;
    Ok(runner.relocated_trace.iter().flatten().map(|t| t.pc as u32).collect())
}

/// Relies on the Debug form of cairo_vm's run error, printed verbatim in
/// the crash line.
#[verifier::external_body]
fn vm_error_text(e: &CairoRunError) -> String {
    format!("{:?}", e)
}

/// The trace the machine produces from a whole input of field elements;
/// nothing when the run fails.
pub open spec fn vm_outcome(content: Seq<char>, entrypoint_pc: usize, input: Seq<Felt>) -> Option<
    Seq<(u32, u32)>,
> {
    match vm_pcs_of(content, entrypoint_pc, input.map_values(|f: Felt| felt_be_bytes(f))) {
        Some(pcs) => Some(pairs_of(pcs)),
        None => None,
    }
}

/// Run the function at `entrypoint_pc` of the artifact on the input and
/// hand back its trace, or the error text of a failed run.
pub fn run_function(content: &str, entrypoint_pc: usize, input: &Vec<Felt>) -> (r: Result<
    Vec<(u32, u32)>,
    String,
>)
    ensures
        match r {
            Ok(t) => vm_outcome(content@, entrypoint_pc, input@) == Some(t@),
            Err(_) => vm_outcome(content@, entrypoint_pc, input@) is None,
        },
{
    let bytes = encode_inputs(input);
    match vm_run(content, entrypoint_pc, &bytes) {
        Ok(pcs) => Ok(pair_transitions(&pcs)),
        Err(e) => Err(vm_error_text(&e)),
    }
}

/// Every entry of the coverage map records exactly the trace that the
/// machine produces from its representative input: running it again
/// yields that trace.
pub open spec fn coverage_faithful(s: Statistics, content: Seq<char>, entrypoint_pc: usize) -> bool {
    forall|i: int|
        0 <= i < s.cov().len() ==> vm_outcome(content, entrypoint_pc, s.cov()[i].1) == Some(
            s.cov()[i].0,
        )
}

/// A coverage map with no entries is faithful; every session starts
/// from one.
pub proof fn lemma_faithful_when_empty(s: Statistics, content: Seq<char>, entrypoint_pc: usize)
    ensures
        s.cov().len() == 0 ==> coverage_faithful(s, content, entrypoint_pc),
{
}

/// Recording a trace beside the input that just produced it keeps the
/// coverage map faithful.
pub proof fn lemma_faithful_after_push(
    pre: Statistics,
    post: Statistics,
    content: Seq<char>,
    entrypoint_pc: usize,
    t: Seq<(u32, u32)>,
    x: Seq<Felt>,
)
    requires
        post.cov() == pre.cov().push((t, x)),
    ensures
        coverage_faithful(pre, content, entrypoint_pc) && vm_outcome(content, entrypoint_pc, x)
            == Some(t) ==> coverage_faithful(post, content, entrypoint_pc),
{
    if coverage_faithful(pre, content, entrypoint_pc) && vm_outcome(content, entrypoint_pc, x)
        == Some(t) {
        assert forall|i: int|
            0 <= i < post.cov().len() implies vm_outcome(content, entrypoint_pc, post.cov()[i].1)
            == Some(post.cov()[i].0) by {
            if i < pre.cov().len() {
                assert(post.cov()[i] == pre.cov()[i]);
            } else {
                assert(post.cov()[i] == (t, x));
            }
        }
    }
}

/// A step that leaves the coverage map alone keeps it faithful.
pub proof fn lemma_faithful_unchanged(
    pre: Statistics,
    post: Statistics,
    content: Seq<char>,
    entrypoint_pc: usize,
)
    requires
        post.cov() == pre.cov(),
    ensures
        coverage_faithful(pre, content, entrypoint_pc) ==> coverage_faithful(
            post,
            content,
            entrypoint_pc,
        ),
{
    if coverage_faithful(pre, content, entrypoint_pc) {
        assert forall|i: int|
            0 <= i < post.cov().len() implies vm_outcome(content, entrypoint_pc, post.cov()[i].1)
            == Some(post.cov()[i].0) by {
            assert(post.cov()[i] == pre.cov()[i]);
        }
    }
}

/// With a deterministic machine, a faithful coverage map maps distinct
/// traces to distinct representative inputs.
pub proof fn lemma_faithful_implies_distinct_inputs(
    s: Statistics,
    content: Seq<char>,
    entrypoint_pc: usize,
)
    ensures
        s.wf() && coverage_faithful(s, content, entrypoint_pc) ==> (forall|i: int, j: int|
            0 <= i < j < s.cov().len() ==> s.cov()[i].1 != s.cov()[j].1),
{
    if s.wf() && coverage_faithful(s, content, entrypoint_pc) {
        assert forall|i: int, j: int|
            0 <= i < j < s.cov().len() implies s.cov()[i].1 != s.cov()[j].1 by {
            if s.cov()[i].1 == s.cov()[j].1 {
                assert(vm_outcome(content, entrypoint_pc, s.cov()[i].1) == Some(s.cov()[i].0));
                assert(vm_outcome(content, entrypoint_pc, s.cov()[j].1) == Some(s.cov()[j].0));
                assert(s.cov()[i].0 == s.cov()[j].0);
            }
        }
    }
}

/// A faithful coverage map never outgrows the input set.
pub proof fn lemma_coverage_le_inputs_faithful(
    s: Statistics,
    content: Seq<char>,
    entrypoint_pc: usize,
)
    ensures
        s.wf() && coverage_faithful(s, content, entrypoint_pc) ==> s.cov().len()
            <= s.inputs().len(),
{
    if s.wf() && coverage_faithful(s, content, entrypoint_pc) {
        lemma_faithful_implies_distinct_inputs(s, content, entrypoint_pc);
        crate::stats::lemma_coverage_le_inputs(s);
    }
}

} // verus!
