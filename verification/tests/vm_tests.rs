use cairo_fuzz::json::parse_json;
use cairo_fuzz::replay::{replay_chunk, replay_classify};
use cairo_fuzz::stats::Statistics;
use cairo_fuzz::vm::run_function;
use cairo_fuzz::worker::{CairoWorker, CaseOutcome};
use cairo_fuzz::Felt;

fn noop_artifact() -> String {
    let mut s = String::new();
    s.push_str("{");
    s.push_str(
        "\"prime\": \"0x800000000000011000000000000000000000000000000000000000000000001\",",
    );
    s.push_str("\"builtins\": [],");
    s.push_str("\"data\": [\"0x208b7fff7fff7ffe\"],");
    s.push_str("\"identifiers\": {");
    s.push_str("\"__main__.noop\": {\"pc\": 0, \"type\": \"function\"},");
    s.push_str("\"__main__.noop.Args\": {\"size\": 0, \"members\": {}}");
    s.push_str("},");
    s.push_str("\"hints\": {},");
    s.push_str("\"reference_manager\": {\"references\": []},");
    s.push_str("\"attributes\": [],");
    s.push_str("\"debug_info\": null");
    s.push_str("}");
    s
}

#[test]
fn the_artifact_search_finds_the_noop_function() {
    let f = parse_json(&noop_artifact(), &"noop".to_string()).unwrap();
    assert_eq!(f.name, "noop");
    assert_eq!(f.entrypoint, "0");
    assert_eq!(f.num_args, 0);
    assert!(!f.hints);
}

#[test]
fn running_the_noop_function_succeeds_and_repeats() {
    let content = noop_artifact();
    let first = run_function(&content, 0, &Vec::new());
    let second = run_function(&content, 0, &Vec::new());
    let first = first.expect("the machine rejected the function");
    let second = second.expect("the machine rejected the function");
    assert_eq!(first, second);
}

#[test]
fn a_bad_entrypoint_is_classified_as_a_crash() {
    let content = noop_artifact();
    let outcome = run_function(&content, 9, &vec![Felt::from_u64(1)]);
    assert!(outcome.is_err());
    let mut stats = Statistics::new();
    let crashing = vec![Felt::from_u64(1)];
    assert!(replay_classify(&mut stats, &crashing, &outcome));
    assert_eq!(stats.crash_db.len(), 1);
    assert_eq!(stats.crashes, 1);
    assert_eq!(stats.input_db.len(), 1);
}

#[test]
fn broken_artifact_text_fails_the_run() {
    let outcome = run_function("not json at all", 0, &Vec::new());
    assert!(outcome.is_err());
}

#[test]
fn replaying_a_chunk_covers_each_distinct_trace_once() {
    let content = noop_artifact();
    let corpus: Vec<Vec<Felt>> = vec![Vec::new(), Vec::new(), Vec::new()];
    let mut stats = Statistics::new();
    let reported = replay_chunk(&mut stats, &content, 0, &corpus);
    assert_eq!(reported, 0);
    assert_eq!(stats.coverage_db.len(), 1);
    assert_eq!(stats.threads_finished, 1);
    assert_eq!(stats.fuzz_cases, 3);
    assert_eq!(stats.crash_db.len(), 0);
}

#[test]
fn replaying_a_failing_chunk_records_each_unique_crash() {
    let content = noop_artifact();
    let corpus = vec![
        vec![Felt::from_u64(1)],
        vec![Felt::from_u64(1)],
        vec![Felt::from_u64(2)],
    ];
    let mut stats = Statistics::new();
    let reported = replay_chunk(&mut stats, &content, 9, &corpus);
    assert_eq!(reported, 2);
    assert_eq!(stats.crash_db.len(), 2);
    assert_eq!(stats.crashes, 3);
    assert_eq!(stats.coverage_db.len(), 0);
    assert_eq!(stats.threads_finished, 1);
}

#[test]
fn whole_cases_against_the_noop_function_saturate_coverage() {
    let content = noop_artifact();
    let function = parse_json(&content, &"noop".to_string()).unwrap();
    let mut global = Statistics::new();
    let mut w = CairoWorker::new(0, content, 0, function, 1, -1);
    let mut new_coverage = 0;
    let mut known = 0;
    for _ in 0..100 {
        match w.run_case(&mut global) {
            CaseOutcome::NewCoverage(_) => new_coverage += 1,
            CaseOutcome::Known => known += 1,
            CaseOutcome::Skipped => {},
            CaseOutcome::Stopped => panic!("no cap was set"),
            CaseOutcome::CrashSeen(e, _) => panic!("unexpected crash: {}", e),
        }
    }
    assert_eq!(new_coverage, 1);
    assert_eq!(known, 99);
    assert_eq!(global.coverage_db.len(), 1);
    assert!(global.input_db.len() >= 1);
    assert_eq!(global.crashes, 0);
}

#[test]
fn whole_cases_against_a_broken_entrypoint_report_the_crash() {
    let content = noop_artifact();
    let mut function = parse_json(&content, &"noop".to_string()).unwrap();
    function.num_args = 1;
    let mut global = Statistics::new();
    let mut w = CairoWorker::new(0, content, 9, function, 1, -1);
    match w.run_case(&mut global) {
        CaseOutcome::CrashSeen(_, unique) => assert!(unique),
        _ => panic!("expected a crash"),
    }
    assert_eq!(global.crash_db.len(), 1);
    assert_eq!(global.crashes, 1);
}
