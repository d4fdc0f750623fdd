use cairo_fuzz::coordinator::{
    dict_inputs, monitor_should_stop, parse_dec_usize, resolve_config, seed_corpus_inputs,
    worker_seed, Config, Fuzzer, Opt, StartupError,
};
use cairo_fuzz::mutator::Dict;
use cairo_fuzz::stats::Statistics;
use cairo_fuzz::Felt;

fn base_opt() -> Opt {
    Opt {
        cores: 1,
        contract: "artifact.json".to_string(),
        function: "fuzzme".to_string(),
        workspace: "fuzzer_workspace".to_string(),
        inputfolder: String::new(),
        crashfolder: String::new(),
        inputfile: String::new(),
        crashfile: String::new(),
        dict: String::new(),
        logs: false,
        seed: Some(1),
        run_time: None,
        config: None,
        replay: false,
        minimizer: false,
        proptesting: false,
        iter: -1,
    }
}

fn base_config() -> Config {
    Config {
        workspace: "fuzzer_workspace".to_string(),
        contract_file: "artifact.json".to_string(),
        function_name: "fuzzme".to_string(),
        input_file: String::new(),
        crash_file: String::new(),
        input_folder: String::new(),
        crash_folder: String::new(),
        dict: String::new(),
        cores: 1,
        logs: false,
        seed: Some(1),
        run_time: None,
        replay: false,
        minimizer: false,
        proptesting: false,
        iter: -1,
    }
}

fn artifact_text() -> String {
    "{\"identifiers\": {\
        \"__main__.fuzzme\": {\"pc\": 5, \"type\": \"function\"},\
        \"__main__.fuzzme.Args\": {\"size\": 1, \"members\": {\
            \"a\": {\"cairo_type\": \"felt\", \"offset\": 0}}}}}"
        .to_string()
}

#[test]
fn resolve_config_copies_every_option() {
    let c = resolve_config(base_opt()).unwrap();
    assert_eq!(c.contract_file, "artifact.json");
    assert_eq!(c.function_name, "fuzzme");
    assert_eq!(c.workspace, "fuzzer_workspace");
    assert_eq!(c.cores, 1);
    assert_eq!(c.seed, Some(1));
    assert_eq!(c.iter, -1);
}

#[test]
fn resolve_config_requires_a_contract_and_a_function() {
    let mut opt = base_opt();
    opt.contract = String::new();
    match resolve_config(opt) {
        Err(StartupError::MissingContract) => {},
        _ => panic!("expected the missing contract error"),
    }
    let mut opt = base_opt();
    opt.function = String::new();
    match resolve_config(opt) {
        Err(StartupError::MissingFunction) => {},
        _ => panic!("expected the missing function error"),
    }
    let mut opt = base_opt();
    opt.contract = String::new();
    opt.function = String::new();
    opt.proptesting = true;
    assert!(resolve_config(opt).is_ok());
}

#[test]
fn startup_error_messages_match_the_cli() {
    assert_eq!(
        StartupError::MissingContract.message(),
        "Fuzzer needs a contract path using --contract"
    );
    assert_eq!(
        StartupError::ArtifactParse.message(),
        "Error: Could not parse json file"
    );
}

#[test]
fn worker_seeds_advance_and_wrap() {
    assert_eq!(worker_seed(5, 3), 8);
    assert_eq!(worker_seed(u64::MAX, 1), 0);
    assert_eq!(worker_seed(u64::MAX, 0), u64::MAX);
}

#[test]
fn monitor_stops_on_finished_replay_or_exceeded_cap() {
    assert!(monitor_should_stop(true, 4, 4, -1, 0));
    assert!(!monitor_should_stop(true, 3, 4, -1, 0));
    assert!(monitor_should_stop(false, 0, 4, 10, 11));
    assert!(!monitor_should_stop(false, 0, 4, 10, 10));
    assert!(!monitor_should_stop(false, 0, 4, -1, u64::MAX));
}

#[test]
fn decimal_parsing_is_exact() {
    assert_eq!(parse_dec_usize("0"), Some(0));
    assert_eq!(parse_dec_usize("123"), Some(123));
    assert_eq!(parse_dec_usize(""), None);
    assert_eq!(parse_dec_usize("12a"), None);
    assert_eq!(parse_dec_usize("99999999999999999999999999"), None);
}

#[test]
fn dictionary_synthesis_places_each_value_first() {
    let dict = Dict {
        inputs: vec![Felt::from_u64(10), Felt::from_u64(20)],
    };
    let made = dict_inputs(&dict, 3);
    assert_eq!(made.len(), 2);
    for (k, input) in made.iter().enumerate() {
        assert_eq!(input.len(), 3);
        assert_eq!(input[0], dict.inputs[k]);
        for x in input {
            assert!(dict.inputs.contains(x));
        }
    }
    assert!(dict_inputs(&Dict::empty(), 3).is_empty());
    assert!(dict_inputs(&dict, 0).is_empty());
}

#[test]
fn seeded_inputs_land_before_any_worker_runs() {
    let mut stats = Statistics::new();
    let a = vec![Felt::from_u64(1)];
    let b = vec![Felt::from_u64(2)];
    seed_corpus_inputs(&mut stats, &vec![a.clone(), b.clone()]);
    assert_eq!(stats.input_len, 2);
    assert_eq!(stats.input_db.len(), 2);
    assert_eq!(stats.coverage_db.len(), 0);
}

#[test]
fn fuzzer_startup_seeds_the_corpus() {
    let seeds = vec![vec![Felt::from_u64(1)], vec![Felt::from_u64(2)]];
    let fz = Fuzzer::new(
        &base_config(),
        artifact_text(),
        7,
        &seeds,
        &Vec::new(),
        Dict::empty(),
    )
    .unwrap();
    assert_eq!(fz.function.name, "fuzzme");
    assert_eq!(fz.function.num_args, 1);
    assert_eq!(fz.entrypoint_pc, 5);
    assert_eq!(fz.stats.input_len, 2);
    assert_eq!(fz.stats.coverage_db.len(), 0);
    assert_eq!(fz.stats.crashes, 0);
    assert_eq!(fz.stats.fuzz_cases, 0);
    assert_eq!(fz.seed, 7);
    assert_eq!(fz.running_workers, 0);
}

#[test]
fn fuzzer_startup_counts_loaded_crashes() {
    let crashing = vec![vec![Felt::from_u64(42)], vec![Felt::from_u64(43)]];
    let fz = Fuzzer::new(
        &base_config(),
        artifact_text(),
        7,
        &Vec::new(),
        &crashing,
        Dict::empty(),
    )
    .unwrap();
    assert_eq!(fz.stats.crashes, 2);
    assert_eq!(fz.stats.crash_db.len(), 2);
    assert_eq!(fz.stats.input_db.len(), 2);
    assert_eq!(fz.stats.input_len, 2);
}

#[test]
fn fuzzer_startup_fails_on_a_missing_function() {
    let r = Fuzzer::new(
        &base_config(),
        "{\"identifiers\": {}}".to_string(),
        7,
        &Vec::new(),
        &Vec::new(),
        Dict::empty(),
    );
    match r {
        Err(StartupError::ArtifactParse) => {},
        _ => panic!("expected the artifact parse error"),
    }
}

#[test]
fn fuzzer_startup_fails_on_a_textual_entrypoint() {
    let text = "{\"identifiers\": {\
        \"__main__.fuzzme\": {\"pc\": \"start\", \"type\": \"function\"},\
        \"__main__.fuzzme.Args\": {\"size\": 1, \"members\": {}}}}"
        .to_string();
    let r = Fuzzer::new(&base_config(), text, 7, &Vec::new(), &Vec::new(), Dict::empty());
    match r {
        Err(StartupError::EntrypointUnreadable) => {},
        _ => panic!("expected the entrypoint error"),
    }
}
