use cairo_fuzz::replay::replay_classify;
use cairo_fuzz::stats::Statistics;
use cairo_fuzz::Felt;

fn batch() -> Vec<(Vec<Felt>, Result<Vec<(u32, u32)>, String>)> {
    vec![
        (vec![Felt::from_u64(1)], Ok(vec![(0, 1)])),
        (vec![Felt::from_u64(2)], Ok(vec![(0, 1)])),
        (vec![Felt::from_u64(3)], Ok(vec![(1, 2), (2, 3)])),
        (vec![Felt::from_u64(4)], Err("boom".to_string())),
        (vec![Felt::from_u64(5)], Err("boom".to_string())),
    ]
}

fn apply_in_order(order: &[usize]) -> Statistics {
    let mut s = Statistics::new();
    let cases = batch();
    for &k in order {
        let (input, outcome) = &cases[k];
        replay_classify(&mut s, input, outcome);
    }
    s
}

fn sorted_traces(s: &Statistics) -> Vec<Vec<(u32, u32)>> {
    let mut traces: Vec<Vec<(u32, u32)>> = s.coverage_db.iter().map(|p| p.0.clone()).collect();
    traces.sort();
    traces
}

fn sorted_crashes(s: &Statistics) -> Vec<Vec<u64>> {
    let mut crashes: Vec<Vec<u64>> = s
        .crash_db
        .iter()
        .map(|c| c.iter().map(|f| f.d0).collect())
        .collect();
    crashes.sort();
    crashes
}

#[test]
fn replay_contents_do_not_depend_on_order() {
    let forward = apply_in_order(&[0, 1, 2, 3, 4]);
    let backward = apply_in_order(&[4, 3, 2, 1, 0]);
    let shuffled = apply_in_order(&[2, 4, 0, 3, 1]);
    assert_eq!(sorted_traces(&forward), sorted_traces(&backward));
    assert_eq!(sorted_traces(&forward), sorted_traces(&shuffled));
    assert_eq!(sorted_crashes(&forward), sorted_crashes(&backward));
    assert_eq!(sorted_crashes(&forward), sorted_crashes(&shuffled));
}

#[test]
fn replay_coverage_is_the_set_of_distinct_traces() {
    let s = apply_in_order(&[0, 1, 2, 3, 4]);
    assert!(s.coverage_db.len() <= 5);
    assert_eq!(s.coverage_db.len(), 2);
    let traces = sorted_traces(&s);
    assert_eq!(traces[0], vec![(0, 1)]);
    assert_eq!(traces[1], vec![(1, 2), (2, 3)]);
}

#[test]
fn replay_crashes_report_once_and_never_stop() {
    let mut s = Statistics::new();
    let input = vec![Felt::from_u64(4)];
    let failed: Result<Vec<(u32, u32)>, String> = Err("boom".to_string());
    assert!(replay_classify(&mut s, &input, &failed));
    assert!(!replay_classify(&mut s, &input, &failed));
    assert_eq!(s.crash_db.len(), 1);
    assert_eq!(s.crashes, 2);
}

#[test]
fn finished_workers_are_counted_for_the_monitor() {
    let mut s = Statistics::new();
    s.mark_thread_finished();
    s.mark_thread_finished();
    assert_eq!(s.threads_finished, 2);
}
