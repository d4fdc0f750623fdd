use cairo_fuzz::corpus::{dump_corpus_bytes, CrashFile, InputFile};
use cairo_fuzz::Felt;

#[test]
fn dump_of_an_empty_corpus() {
    let bytes = dump_corpus_bytes(&Vec::new());
    assert_eq!(String::from_utf8(bytes).unwrap(), "{\"inputs\":[]}");
}

#[test]
fn dump_writes_fixed_width_hex() {
    let one = vec![vec![Felt::from_u64(0x2a)]];
    let bytes = dump_corpus_bytes(&one);
    let expected = format!(
        "{{\"inputs\":[[\"0x{}{}\"]]}}",
        "0".repeat(62),
        "2a"
    );
    assert_eq!(String::from_utf8(bytes).unwrap(), expected);
}

#[test]
fn dump_separates_inputs_and_elements_with_commas() {
    let corpus = vec![
        vec![Felt::from_u64(1), Felt::from_u64(2)],
        vec![Felt::from_u64(3)],
    ];
    let text = String::from_utf8(dump_corpus_bytes(&corpus)).unwrap();
    assert_eq!(text.matches(',').count(), 2);
    assert_eq!(text.matches('[').count(), 3);
    assert_eq!(text.matches(']').count(), 3);
}

#[test]
fn dump_is_idempotent() {
    let corpus = vec![
        vec![Felt::from_u64(5), Felt::from_byte(7)],
        vec![Felt::zero()],
    ];
    let first = dump_corpus_bytes(&corpus);
    let second = dump_corpus_bytes(&corpus);
    assert_eq!(first, second);
}

#[test]
fn sinks_dump_their_contents() {
    let mut input_file = InputFile::new();
    input_file.inputs.push(vec![Felt::from_u64(1)]);
    let mut crash_file = CrashFile::new();
    crash_file.crashes.push(vec![Felt::from_u64(1)]);
    assert_eq!(input_file.dump_bytes(), crash_file.dump_bytes());
    let again = input_file.dump_bytes();
    assert_eq!(input_file.dump_bytes(), again);
}
