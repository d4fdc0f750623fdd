use cairo_fuzz::stats::Statistics;
use cairo_fuzz::Felt;

fn input(vals: &[u64]) -> Vec<Felt> {
    let mut v = Vec::new();
    for x in vals {
        v.push(Felt::from_u64(*x));
    }
    v
}

#[test]
fn insert_input_deduplicates_and_mirrors_list() {
    let mut s = Statistics::new();
    let a = input(&[1, 2]);
    let b = input(&[3]);
    assert!(s.insert_input(&a));
    assert!(s.insert_input(&b));
    assert!(!s.insert_input(&a));
    assert_eq!(s.input_db.len(), 2);
    assert_eq!(s.input_list.len(), 2);
    assert_eq!(s.input_len, 2);
}

#[test]
fn coverage_is_bounded_by_inputs() {
    let mut s = Statistics::new();
    for i in 0..10u64 {
        let x = input(&[i]);
        let trace = vec![(i as u32, i as u32 + 1)];
        s.commit_coverage(&trace, &x);
        assert!(s.coverage_db.len() <= s.input_db.len());
    }
    assert_eq!(s.coverage_db.len(), 10);
    assert_eq!(s.input_db.len(), 10);
}

#[test]
fn crashes_are_a_subset_of_inputs() {
    let mut s = Statistics::new();
    let a = input(&[42]);
    let b = input(&[7]);
    assert!(s.record_crash(&a));
    assert!(s.record_crash(&b));
    assert!(!s.record_crash(&a));
    assert_eq!(s.crash_db.len(), 2);
    assert_eq!(s.crashes, 3);
    for c in &s.crash_db {
        let mut found = false;
        for i in &s.input_db {
            if i == c {
                found = true;
            }
        }
        assert!(found);
    }
}

#[test]
fn sizes_agree_after_mixed_operations() {
    let mut s = Statistics::new();
    s.insert_input(&input(&[1]));
    s.commit_coverage(&vec![(0, 1)], &input(&[2]));
    s.record_crash(&input(&[3]));
    assert_eq!(s.input_db.len(), s.input_list.len());
    assert_eq!(s.input_db.len(), s.input_len);
}

#[test]
fn coverage_and_crashes_are_monotonic() {
    let mut s = Statistics::new();
    s.commit_coverage(&vec![(0, 1)], &input(&[1]));
    s.record_crash(&input(&[9]));
    let cov_before: Vec<Vec<(u32, u32)>> = s.coverage_db.iter().map(|p| p.0.clone()).collect();
    let crashes_before = s.crash_db.clone();
    s.commit_coverage(&vec![(1, 2)], &input(&[2]));
    s.commit_coverage(&vec![(0, 1)], &input(&[5]));
    s.record_crash(&input(&[10]));
    for (k, t) in cov_before.iter().enumerate() {
        assert_eq!(&s.coverage_db[k].0, t);
    }
    for (k, c) in crashes_before.iter().enumerate() {
        assert_eq!(&s.crash_db[k], c);
    }
}

#[test]
fn double_check_keeps_first_representative() {
    let mut s = Statistics::new();
    let first = input(&[1]);
    let second = input(&[2]);
    let trace = vec![(0, 1), (1, 2)];
    let (new_trace, added) = s.commit_coverage(&trace, &first);
    assert!(new_trace);
    assert!(added);
    let (new_trace2, added2) = s.commit_coverage(&trace, &second);
    assert!(!new_trace2);
    assert!(!added2);
    assert_eq!(s.coverage_db.len(), 1);
    assert_eq!(s.coverage_db[0].1, first);
}

#[test]
fn refresh_copies_global_into_shadow() {
    let mut global = Statistics::new();
    global.commit_coverage(&vec![(0, 1)], &input(&[1]));
    global.commit_coverage(&vec![(1, 2)], &input(&[2]));
    let mut shadow = Statistics::new();
    shadow.fuzz_cases = 55;
    shadow.refresh_from(&global);
    assert_eq!(shadow.coverage_db.len(), 2);
    assert_eq!(shadow.input_db.len(), 2);
    assert_eq!(shadow.input_len, global.input_len);
    assert_eq!(shadow.fuzz_cases, 55);
    let snapshot = shadow.input_len;
    shadow.refresh_from(&global);
    assert_eq!(shadow.input_len, snapshot);
}

#[test]
fn counters_batch_and_saturate() {
    let mut s = Statistics::new();
    s.add_fuzz_cases(1000);
    s.add_fuzz_cases(1000);
    assert_eq!(s.fuzz_cases, 2000);
    s.fuzz_cases = u64::MAX - 1;
    s.add_fuzz_cases(1000);
    assert_eq!(s.fuzz_cases, u64::MAX);
    s.mark_thread_finished();
    assert_eq!(s.threads_finished, 1);
}
