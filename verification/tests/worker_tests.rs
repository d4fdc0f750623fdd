use cairo_fuzz::json::Function;
use cairo_fuzz::stats::Statistics;
use cairo_fuzz::worker::{should_stop_cases, CairoWorker};
use cairo_fuzz::Felt;

fn function_with_args(num_args: u64) -> Function {
    Function {
        name: "target".to_string(),
        entrypoint: "0".to_string(),
        num_args,
        type_args: Vec::new(),
        hints: false,
        decorators: Vec::new(),
    }
}

#[test]
fn zero_iteration_cap_stops_at_once() {
    assert!(should_stop_cases(0, 0));
    assert!(should_stop_cases(0, 100));
}

#[test]
fn positive_cap_stops_once_exceeded() {
    assert!(!should_stop_cases(5, 5));
    assert!(should_stop_cases(5, 6));
    assert!(!should_stop_cases(5, 0));
}

#[test]
fn unbounded_cap_never_stops() {
    assert!(!should_stop_cases(-1, 0));
    assert!(!should_stop_cases(-1, u64::MAX));
}

#[test]
fn prepare_case_hands_back_num_args_elements() {
    let mut w = CairoWorker::new(0, String::new(), 0, function_with_args(3), 9, -1);
    for _ in 0..20 {
        let case = w.prepare_case().unwrap();
        assert_eq!(case.len(), 3);
    }
}

#[test]
fn zero_args_always_gives_the_empty_input() {
    let mut w = CairoWorker::new(0, String::new(), 0, function_with_args(0), 9, -1);
    for _ in 0..10 {
        let case = w.prepare_case().unwrap();
        assert!(case.is_empty());
    }
}

#[test]
fn equal_seeds_prepare_equal_cases() {
    let mut a = CairoWorker::new(0, String::new(), 0, function_with_args(2), 4242, -1);
    let mut b = CairoWorker::new(1, String::new(), 0, function_with_args(2), 4242, -1);
    for _ in 0..50 {
        assert_eq!(a.prepare_case(), b.prepare_case());
    }
}

#[test]
fn constant_trace_saturates_coverage_at_one() {
    let mut global = Statistics::new();
    let mut w = CairoWorker::new(0, String::new(), 0, function_with_args(1), 1, -1);
    for _ in 0..100 {
        w.local.refresh_from(&global);
        if let Some(case) = w.prepare_case() {
            let trace = vec![(0u32, 1u32)];
            if w.local.observe_coverage(&trace, &case) {
                global.commit_coverage(&trace, &case);
            }
        }
    }
    assert_eq!(global.coverage_db.len(), 1);
    assert!(global.input_db.len() >= 1);
    assert_eq!(global.crashes, 0);
    assert_eq!(global.crash_db.len(), 0);
}

#[test]
fn modular_trace_lengths_reach_full_coverage() {
    let mut global = Statistics::new();
    global.insert_input(&vec![Felt::zero()]);
    let mut w = CairoWorker::new(0, String::new(), 0, function_with_args(1), 1, 10000);
    for _ in 0..10000 {
        w.local.refresh_from(&global);
        if let Some(case) = w.prepare_case() {
            let len = (case[0].d0 % 8) as u32;
            let mut trace: Vec<(u32, u32)> = Vec::new();
            for k in 0..len {
                trace.push((k, k + 1));
            }
            if w.local.observe_coverage(&trace, &case) {
                global.commit_coverage(&trace, &case);
            }
        }
    }
    assert_eq!(global.coverage_db.len(), 8);
}

#[test]
fn the_counter_remainder_is_flushed_on_return() {
    let mut global = Statistics::new();
    let mut w = CairoWorker::new(0, String::new(), 0, function_with_args(1), 3, -1);
    w.local.add_fuzz_cases(5);
    w.flush_remaining_cases(&mut global);
    assert_eq!(global.fuzz_cases, 5);
    w.local.add_fuzz_cases(1000);
    w.flush_remaining_cases(&mut global);
    assert_eq!(global.fuzz_cases, 10);
}

#[test]
fn crash_on_a_specific_value_is_recorded_once() {
    let mut global = Statistics::new();
    global.insert_input(&vec![Felt::from_u64(42)]);
    let mut w = CairoWorker::new(0, String::new(), 0, function_with_args(1), 7, -1);
    let crashing = vec![Felt::from_u64(42)];
    w.local.record_crash_local(&crashing);
    let first = global.record_crash(&crashing);
    assert!(first);
    let second = global.record_crash(&crashing);
    assert!(!second);
    assert_eq!(global.crash_db.len(), 1);
    assert_eq!(global.crashes, 2);
}
