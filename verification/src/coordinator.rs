use crate::json::{
    first_match_from, function_result_matches, json_doc_of, json_get, parse_json,
    render_scalar_opt, Function, JsonValue,
};
use crate::mutator::Dict;
use crate::stats::{has_input, Statistics};
use crate::Felt;
use vstd::prelude::*;
use vstd::string::StrSliceExecFns;
use vstd::string::StringExecFns;

verus! {

/// The command line surface, one field per long option.
pub struct Opt {
    pub cores: i32,
    pub contract: String,
    pub function: String,
    pub workspace: String,
    pub inputfolder: String,
    pub crashfolder: String,
    pub inputfile: String,
    pub crashfile: String,
    pub dict: String,
    pub logs: bool,
    pub seed: Option<u64>,
    pub run_time: Option<u64>,
    pub config: Option<String>,
    pub replay: bool,
    pub minimizer: bool,
    pub proptesting: bool,
    pub iter: i64,
}

/// The effective startup parameters, merged from the command line or a
/// configuration file.
pub struct Config {
    pub workspace: String,
    pub contract_file: String,
    pub function_name: String,
    pub input_file: String,
    pub crash_file: String,
    pub input_folder: String,
    pub crash_folder: String,
    pub dict: String,
    pub cores: i32,
    pub logs: bool,
    pub seed: Option<u64>,
    pub run_time: Option<u64>,
    pub replay: bool,
    pub minimizer: bool,
    pub proptesting: bool,
    pub iter: i64,
}

/// What can go wrong before any worker starts.
#[derive(Debug)]
pub enum StartupError {
    /// No artifact path was given.
    MissingContract,
    /// No function name was given.
    MissingFunction,
    /// The artifact text does not parse, or holds no such function.
    ArtifactParse,
    /// The found function's entrypoint is not a program counter.
    EntrypointUnreadable,
}

impl StartupError {
    /// The line printed for this failure.
    pub fn message(&self) -> (r: String)
        ensures
            match *self {
                StartupError::MissingContract => r@
                    == "Fuzzer needs a contract path using --contract"@,
                StartupError::MissingFunction => r@
                    == "Fuzzer needs a function name to fuzz using --function"@,
                StartupError::ArtifactParse => r@ == "Error: Could not parse json file"@,
                StartupError::EntrypointUnreadable => r@
                    == "Error: Could not read the function entrypoint"@,
            },
    {
        match self {
            StartupError::MissingContract => "Fuzzer needs a contract path using --contract".to_owned(),
            StartupError::MissingFunction => "Fuzzer needs a function name to fuzz using --function".to_owned(),
            StartupError::ArtifactParse => "Error: Could not parse json file".to_owned(),
            StartupError::EntrypointUnreadable => "Error: Could not read the function entrypoint".to_owned(),
        }
    }
}

/// Merge command line options into the effective configuration, or say
/// which required option is missing. A configuration file, when one is
/// named, is read and applied by the caller instead.
pub fn resolve_config(opt: Opt) -> (r: Result<Config, StartupError>)
    ensures
        match r {
            Ok(c) => {
                &&& opt.contract@.len() > 0 || opt.proptesting
                &&& opt.function@.len() > 0 || opt.proptesting
                &&& c.workspace == opt.workspace
                &&& c.contract_file == opt.contract
                &&& c.function_name == opt.function
                &&& c.input_file == opt.inputfile
                &&& c.crash_file == opt.crashfile
                &&& c.input_folder == opt.inputfolder
                &&& c.crash_folder == opt.crashfolder
                &&& c.dict == opt.dict
                &&& c.cores == opt.cores
                &&& c.logs == opt.logs
                &&& c.seed == opt.seed
                &&& c.run_time == opt.run_time
                &&& c.replay == opt.replay
                &&& c.minimizer == opt.minimizer
                &&& c.proptesting == opt.proptesting
                &&& c.iter == opt.iter
            },
            Err(StartupError::MissingContract) => opt.contract@.len() == 0 && !opt.proptesting,
            Err(StartupError::MissingFunction) => opt.contract@.len() > 0 && opt.function@.len()
                == 0 && !opt.proptesting,
            Err(_) => false,
        },
{
    if opt.contract.as_str().unicode_len() == 0 && !opt.proptesting {
        return Err(StartupError::MissingContract);
    }
    if opt.function.as_str().unicode_len() == 0 && !opt.proptesting {
        return Err(StartupError::MissingFunction);
    }
    Ok(
        Config {
            workspace: opt.workspace,
            contract_file: opt.contract,
            function_name: opt.function,
            input_file: opt.inputfile,
            crash_file: opt.crashfile,
            input_folder: opt.inputfolder,
            crash_folder: opt.crashfolder,
            dict: opt.dict,
            cores: opt.cores,
            logs: opt.logs,
            seed: opt.seed,
            run_time: opt.run_time,
            replay: opt.replay,
            minimizer: opt.minimizer,
            proptesting: opt.proptesting,
            iter: opt.iter,
        },
    )
}

/// The seed handed to worker `i`: the base seed advanced by `i`,
/// wrapping at the top.
pub fn worker_seed(base: u64, i: u64) -> (r: u64)
    ensures
        r == (base + i) % 0x10000000000000000,
{
    if base > u64::MAX - i {
        ((base - (u64::MAX - i)) - 1)
    } else {
        base + i
    }
}

/// Whether the monitor must end the session: all replay workers are
/// finished, or a cap other than the unbounded `-1` lies below the case
/// count.
pub fn monitor_should_stop(
    replay: bool,
    threads_finished: u64,
    running_workers: u64,
    iter: i64,
    fuzz_cases: u64,
) -> (r: bool)
    ensures
        r == ((replay && threads_finished == running_workers) || (iter != -1 && (iter as int)
            < (fuzz_cases as int))),
{
    if replay && threads_finished == running_workers {
        true
    } else if iter == -1 {
        false
    } else if iter < 0 {
        true
    } else {
        fuzz_cases > (iter as u64)
    }
}

/// Whether `c` is a decimal digit.
pub open spec fn is_dec_digit(c: char) -> bool {
    48 <= c as int && c as int <= 57
}

/// The value of a decimal digit string.
pub open spec fn dec_value(s: Seq<char>) -> int
    decreases s.len(),
{
    if s.len() == 0 {
        0
    } else {
        dec_value(s.drop_last()) * 10 + (s.last() as int - 48)
    }
}

proof fn lemma_dec_value_nonneg(s: Seq<char>)
    requires
        forall|k: int| 0 <= k < s.len() ==> is_dec_digit(s[k]),
    ensures
        dec_value(s) >= 0,
    decreases s.len(),
{
    if s.len() > 0 {
        lemma_dec_value_nonneg(s.drop_last());
    }
}

proof fn lemma_dec_value_prefix_le(s: Seq<char>, j: int)
    requires
        forall|k: int| 0 <= k < s.len() ==> is_dec_digit(s[k]),
        0 <= j <= s.len(),
    ensures
        dec_value(s.take(j)) <= dec_value(s),
    decreases s.len() - j,
{
    if j < s.len() {
        lemma_dec_value_nonneg(s.take(j));
        assert(s.take(j + 1).drop_last() =~= s.take(j));
        assert(dec_value(s.take(j + 1)) == dec_value(s.take(j)) * 10 + (s[j] as int - 48));
        lemma_dec_value_prefix_le(s, j + 1);
    } else {
        assert(s.take(j) =~= s);
    }
}

/// Read a decimal string as a usize: the value exactly when the text is
/// one or more digits and fits, nothing otherwise.
pub fn parse_dec_usize(s: &str) -> (r: Option<usize>)
    ensures
        match r {
            Some(v) => s@.len() > 0 && (forall|k: int| 0 <= k < s@.len() ==> is_dec_digit(s@[k]))
                && v == dec_value(s@),
            None => !(s@.len() > 0 && (forall|k: int| 0 <= k < s@.len() ==> is_dec_digit(s@[k]))
                && dec_value(s@) <= usize::MAX),
        },
{
    let n = s.unicode_len();
    if n == 0 {
        return None;
    }
    let mut acc: usize = 0;
    let mut i: usize = 0;
    while i < n
        invariant
            n == s@.len(),
            0 <= i <= n,
            forall|k: int| 0 <= k < i ==> is_dec_digit(s@[k]),
            acc == dec_value(s@.take(i as int)),
        decreases n - i,
    {
        let c = s.get_char(i);
        let u = c as u32;
        if u < 48 || u > 57 {
            return None;
        }
        let d = (u - 48) as usize;
        if acc > (usize::MAX - d) / 10 {
            proof {
                assert(s@.take(i + 1).drop_last() =~= s@.take(i as int));
                assert(dec_value(s@.take(i + 1)) == acc * 10 + d);
                assert(acc * 10 + d > usize::MAX) by {
                    let q = (usize::MAX - d) / 10int;
                    assert(usize::MAX - d == 10 * q + (usize::MAX - d) % 10);
                };
                if forall|k: int| 0 <= k < s@.len() ==> is_dec_digit(s@[k]) {
                    lemma_dec_value_prefix_le(s@, i + 1);
                }
            }
            return None;
        }
        proof {
            assert(s@.take(i + 1).drop_last() =~= s@.take(i as int));
        }
        acc = acc * 10 + d;
        i += 1;
    }
    proof {
        assert(s@.take(n as int) =~= s@);
    }
    Some(acc)
}

/// Relies on rand::random_range over the thread generator: some index
/// below `bound`; nothing more is promised of it.
#[verifier::external_body]
fn rand_index(bound: usize) -> (r: usize)
    requires
        bound > 0,
    ensures
        r < bound,
{
    rand::random_range(0..bound)
}

/// One synthetic input per dictionary value: the value itself in the
/// first slot, the remaining slots drawn from the dictionary at random.
/// With no dictionary, or a function of no arguments, nothing is made.
pub fn dict_inputs(dict: &Dict, num_args: u64) -> (r: Vec<Vec<Felt>>)
    ensures
        r@.len() == (if num_args as usize >= 1 && dict.inputs@.len() > 0 {
            dict.inputs@.len()
        } else {
            0
        }),
        forall|k: int|
            0 <= k < r@.len() ==> r@[k]@.len() == num_args as usize && r@[k]@[0]
                == dict.inputs@[k],
        forall|k: int, m: int|
            0 <= k < r@.len() && 0 <= m < r@[k]@.len() ==> exists|j: int|
                0 <= j < dict.inputs@.len() && dict.inputs@[j] == #[trigger] r@[k]@[m],
{
    let mut r: Vec<Vec<Felt>> = Vec::new();
    #[verifier::truncate]
    let width = num_args as usize;
    if width == 0 || dict.inputs.len() == 0 {
        return r;
    }
    let n = dict.inputs.len();
    let mut k: usize = 0;
    while k < n
        invariant
            n == dict.inputs@.len(),
            n > 0,
            width == num_args as usize,
            width >= 1,
            0 <= k <= n,
            r@.len() == k,
            forall|x: int|
                0 <= x < k ==> #[trigger] r@[x]@.len() == width && r@[x]@[0] == dict.inputs@[x],
            forall|x: int, m: int|
                0 <= x < k && 0 <= m < r@[x]@.len() ==> exists|j: int|
                    0 <= j < dict.inputs@.len() && dict.inputs@[j] == #[trigger] r@[x]@[m],
        decreases n - k,
    {
        let mut one: Vec<Felt> = Vec::new();
        one.push(dict.inputs[k]);
        let mut m: usize = 1;
        while m < width
            invariant
                n == dict.inputs@.len(),
                n > 0,
                width >= 1,
                1 <= m <= width,
                one@.len() == m,
                one@[0] == dict.inputs@[k as int],
                k < n,
                forall|x: int|
                    0 <= x < m ==> exists|j: int|
                        0 <= j < dict.inputs@.len() && dict.inputs@[j] == #[trigger] one@[x],
            decreases width - m,
        {
            let j = rand_index(n);
            one.push(dict.inputs[j]);
            m += 1;
        }
        r.push(one);
        k += 1;
    }
    r
}

/// Every input of `more`, inserted in order into `base`, skipping the
/// ones already present.
pub open spec fn seeded_inputs(base: Seq<Seq<Felt>>, more: Seq<Seq<Felt>>) -> Seq<Seq<Felt>>
    decreases more.len(),
{
    if more.len() == 0 {
        base
    } else {
        let rest = seeded_inputs(base, more.drop_last());
        if has_input(rest, more.last()) {
            rest
        } else {
            rest.push(more.last())
        }
    }
}

/// Load seed inputs into the global corpus, deduplicating by content.
pub fn seed_corpus_inputs(global: &mut Statistics, inputs: &Vec<Vec<Felt>>)
    requires
        old(global).wf_global(),
    ensures
        final(global).wf_global(),
        final(global).inputs() == seeded_inputs(
            old(global).inputs(),
            inputs@.map_values(|v: Vec<Felt>| v@),
        ),
        final(global).cov() == old(global).cov(),
        final(global).crash_inputs() == old(global).crash_inputs(),
        final(global).crashes == old(global).crashes,
        final(global).fuzz_cases == old(global).fuzz_cases,
        final(global).threads_finished == old(global).threads_finished,
        old(global).inputs().is_prefix_of(final(global).inputs()),
        forall|k: int| 0 <= k < inputs@.len() ==> has_input(final(global).inputs(), inputs@[k]@),
{
    let ghost iv = inputs@.map_values(|v: Vec<Felt>| v@);
    let n = inputs.len();
    let mut i: usize = 0;
    while i < n
        invariant
            n == inputs@.len(),
            iv == inputs@.map_values(|v: Vec<Felt>| v@),
            0 <= i <= n,
            global.wf_global(),
            global.inputs() == seeded_inputs(old(global).inputs(), iv.take(i as int)),
            global.cov() == old(global).cov(),
            global.crash_inputs() == old(global).crash_inputs(),
            global.crashes == old(global).crashes,
            global.fuzz_cases == old(global).fuzz_cases,
            global.threads_finished == old(global).threads_finished,
            old(global).inputs().is_prefix_of(global.inputs()),
            forall|k: int| 0 <= k < i ==> has_input(global.inputs(), inputs@[k]@),
        decreases n - i,
    {
        let ghost pre = *global;
        global.insert_input(&inputs[i]);
        proof {
            assert(iv.take(i + 1).drop_last() =~= iv.take(i as int));
            assert(iv.take(i + 1).last() == iv[i as int]);
            assert(iv[i as int] == inputs@[i as int]@);
            assert(global.inputs() == seeded_inputs(old(global).inputs(), iv.take(i + 1)));
            if !has_input(pre.inputs(), inputs@[i as int]@) {
                assert(global.inputs()[pre.inputs().len() as int] == inputs@[i as int]@);
            }
            crate::replay::lemma_prefix_transitive(
                old(global).inputs(),
                pre.inputs(),
                global.inputs(),
            );
            assert forall|k: int| 0 <= k < i + 1 implies has_input(
                global.inputs(),
                inputs@[k]@,
            ) by {
                if k < i {
                    let w = choose|w: int|
                        0 <= w < pre.inputs().len() && pre.inputs()[w] == inputs@[k]@;
                    assert(global.inputs()[w] == inputs@[k]@);
                }
            }
        }
        i += 1;
    }
    proof {
        assert(iv.take(n as int) =~= iv);
    }
}

/// Load seed crashes: each one becomes a known input and a recorded
/// crash, and is counted.
pub fn seed_corpus_crashes(global: &mut Statistics, crashes: &Vec<Vec<Felt>>)
    requires
        old(global).wf_global(),
    ensures
        final(global).wf_global(),
        final(global).cov() == old(global).cov(),
        old(global).inputs().is_prefix_of(final(global).inputs()),
        old(global).crash_inputs().is_prefix_of(final(global).crash_inputs()),
        forall|k: int|
            0 <= k < crashes@.len() ==> has_input(final(global).crash_inputs(), crashes@[k]@),
        forall|k: int| 0 <= k < crashes@.len() ==> has_input(final(global).inputs(), crashes@[k]@),
        final(global).fuzz_cases == old(global).fuzz_cases,
        final(global).threads_finished == old(global).threads_finished,
        final(global).crashes == if old(global).crashes + crashes@.len() > u64::MAX {
            u64::MAX
        } else {
            (old(global).crashes + crashes@.len()) as u64
        },
        crashes@.len() == 0 ==> *final(global) == *old(global),
{
    let n = crashes.len();
    let mut i: usize = 0;
    while i < n
        invariant
            n == crashes@.len(),
            0 <= i <= n,
            global.wf_global(),
            global.cov() == old(global).cov(),
            old(global).inputs().is_prefix_of(global.inputs()),
            old(global).crash_inputs().is_prefix_of(global.crash_inputs()),
            forall|k: int| 0 <= k < i ==> has_input(global.crash_inputs(), crashes@[k]@),
            forall|k: int| 0 <= k < i ==> has_input(global.inputs(), crashes@[k]@),
            global.fuzz_cases == old(global).fuzz_cases,
            global.threads_finished == old(global).threads_finished,
            global.crashes == if old(global).crashes + i > u64::MAX {
                u64::MAX
            } else {
                (old(global).crashes + i) as u64
            },
            i == 0 ==> *global == *old(global),
        decreases n - i,
    {
        let ghost pre = *global;
        global.record_crash(&crashes[i]);
        proof {
            crate::replay::lemma_prefix_transitive(
                old(global).inputs(),
                pre.inputs(),
                global.inputs(),
            );
            crate::replay::lemma_prefix_transitive(
                old(global).crash_inputs(),
                pre.crash_inputs(),
                global.crash_inputs(),
            );
        }
        i += 1;
    }
}

/// The whole fuzzer: the artifact, the searched function, the shared
/// state, and every startup parameter the workers and the monitor read.
pub struct Fuzzer {
    /// Shared fuzzing statistics, placed under one lock by the caller.
    pub stats: Statistics,
    /// Number of worker threads to run.
    pub cores: i32,
    /// Path of the artifact.
    pub contract_file: String,
    /// Text of the artifact.
    pub contract_content: String,
    /// The function under fuzz.
    pub function: Function,
    /// Its entrypoint as a program counter.
    pub entrypoint_pc: usize,
    /// Whether to keep on-disk logs.
    pub logs: bool,
    /// Replay mode.
    pub replay: bool,
    /// Corpus minimisation, reserved.
    pub minimizer: bool,
    /// The session seed.
    pub seed: u64,
    /// Workspace directory name.
    pub workspace: String,
    /// Seconds the session may last, if bounded.
    pub run_time: Option<u64>,
    /// Workers actually spawned.
    pub running_workers: u64,
    /// Iteration cap; `-1` is unbounded.
    pub iter: i64,
    /// Property testing, reserved.
    pub proptesting: bool,
    /// The mutation dictionary.
    pub dict: Dict,
}

/// The entrypoint text of the function the search would find.
pub open spec fn found_entry_text(doc: JsonValue, fname: Seq<char>) -> Option<Seq<char>> {
    match json_get(doc, "identifiers"@) {
        Some(JsonValue::Obj(es)) => match first_match_from(es@, JsonValue::Obj(es), fname, 0) {
            Some(i) => Some(render_scalar_opt(json_get(es@[i].1, "pc"@))),
            None => None,
        },
        _ => None,
    }
}

/// Whether a text reads as a program counter.
pub open spec fn dec_parseable(t: Seq<char>) -> bool {
    t.len() > 0 && (forall|k: int| 0 <= k < t.len() ==> is_dec_digit(t[k])) && dec_value(t)
        <= usize::MAX
}

impl Fuzzer {
    /// Build the fuzzer: search the artifact for the function, then seed
    /// the shared state with the loaded inputs, the dictionary's
    /// synthetic inputs, and the loaded crashes. The caller reads the
    /// artifact and the corpora from disk and resolves the seed.
    pub fn new(
        config: &Config,
        contract_content: String,
        seed: u64,
        seed_inputs: &Vec<Vec<Felt>>,
        seed_crashes: &Vec<Vec<Felt>>,
        dict: Dict,
    ) -> (r: Result<Fuzzer, StartupError>)
        ensures
            match r {
                Ok(fz) => {
                    &&& fz.stats.wf_global()
                    &&& fz.stats.cov().len() == 0
                    &&& (match json_doc_of(contract_content@) {
                        Some(doc) => function_result_matches(
                            doc,
                            config.function_name@,
                            Some(fz.function),
                        ) && found_entry_text(doc, config.function_name@) == Some(
                            fz.function.entrypoint@,
                        ),
                        None => false,
                    })
                    &&& dec_parseable(fz.function.entrypoint@)
                    &&& fz.entrypoint_pc == dec_value(fz.function.entrypoint@)
                    &&& (forall|k: int|
                        0 <= k < seed_inputs@.len() ==> has_input(
                            fz.stats.inputs(),
                            seed_inputs@[k]@,
                        ))
                    &&& (forall|k: int|
                        0 <= k < seed_crashes@.len() ==> has_input(
                            fz.stats.crash_inputs(),
                            seed_crashes@[k]@,
                        ))
                    &&& (dict.inputs@.len() == 0 && seed_crashes@.len() == 0 ==> fz.stats.inputs()
                        == seeded_inputs(
                        Seq::<Seq<Felt>>::empty(),
                        seed_inputs@.map_values(|v: Vec<Felt>| v@),
                    ))
                    &&& fz.stats.fuzz_cases == 0
                    &&& fz.stats.threads_finished == 0
                    &&& fz.stats.crashes == if seed_crashes@.len() > u64::MAX {
                        u64::MAX
                    } else {
                        seed_crashes@.len() as u64
                    }
                    &&& fz.cores == config.cores
                    &&& fz.contract_content == contract_content
                    &&& fz.logs == config.logs
                    &&& fz.replay == config.replay
                    &&& fz.minimizer == config.minimizer
                    &&& fz.seed == seed
                    &&& fz.run_time == config.run_time
                    &&& fz.running_workers == 0
                    &&& fz.iter == config.iter
                    &&& fz.proptesting == config.proptesting
                },
                Err(StartupError::ArtifactParse) => match json_doc_of(contract_content@) {
                    Some(doc) => found_entry_text(doc, config.function_name@) is None,
                    None => true,
                },
                Err(StartupError::EntrypointUnreadable) => match json_doc_of(contract_content@) {
                    Some(doc) => match found_entry_text(doc, config.function_name@) {
                        Some(t) => !dec_parseable(t),
                        None => false,
                    },
                    None => false,
                },
                Err(_) => false,
            },
    {
        let function = match parse_json(&contract_content, &config.function_name) {
            Some(f) => f,
            None => {
                return Err(StartupError::ArtifactParse);
            },
        };
        let entrypoint_pc = match parse_dec_usize(function.entrypoint.as_str()) {
            Some(v) => v,
            None => {
                return Err(StartupError::EntrypointUnreadable);
            },
        };
        let mut stats = Statistics::new();
        proof {
            assert(stats.inputs() =~= Seq::<Seq<Felt>>::empty());
        }
        seed_corpus_inputs(&mut stats, seed_inputs);
        let synth = dict_inputs(&dict, function.num_args);
        let ghost stats_after_seeds = stats;
        seed_corpus_inputs(&mut stats, &synth);
        proof {
            if dict.inputs@.len() == 0 {
                assert(synth@.map_values(|v: Vec<Felt>| v@) =~= Seq::<Seq<Felt>>::empty());
                assert(stats.inputs() == stats_after_seeds.inputs());
            }
        }
        seed_corpus_crashes(&mut stats, seed_crashes);
        Ok(
            Fuzzer {
                stats,
                cores: config.cores,
                contract_file: config.contract_file.clone(),
                contract_content,
                function,
                entrypoint_pc,
                logs: config.logs,
                replay: config.replay,
                minimizer: config.minimizer,
                seed,
                workspace: config.workspace.clone(),
                run_time: config.run_time,
                running_workers: 0,
                iter: config.iter,
                proptesting: config.proptesting,
                dict,
            },
        )
    }
}

} // verus!
