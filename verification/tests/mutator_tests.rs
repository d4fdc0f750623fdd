use cairo_fuzz::mutator::{Dict, Mutator};
use cairo_fuzz::rng::Rng;
use cairo_fuzz::Felt;

#[test]
fn rng_is_reproducible_per_seed() {
    let mut a = Rng::seeded(7);
    let mut b = Rng::seeded(7);
    for _ in 0..100 {
        assert_eq!(a.rand_u64(), b.rand_u64());
    }
    let mut c = Rng::seeded(8);
    let mut d = Rng::seeded(7);
    let mut same = true;
    for _ in 0..4 {
        if c.rand_u64() != d.rand_u64() {
            same = false;
        }
    }
    assert!(!same);
}

#[test]
fn mutate_keeps_the_buffer_length() {
    let mut m = Mutator::new().seed(1).max_input_size(5);
    let src = vec![
        Felt::from_u64(1),
        Felt::from_u64(2),
        Felt::from_u64(3),
        Felt::from_u64(4),
        Felt::from_u64(5),
    ];
    m.extend_from_slice(&src);
    for _ in 0..50 {
        m.mutate(4, &Dict::empty());
        assert_eq!(m.input.len(), 5);
    }
}

#[test]
fn mutate_on_empty_buffer_is_a_no_op() {
    let mut m = Mutator::new().seed(3).max_input_size(0);
    m.mutate(4, &Dict::empty());
    assert_eq!(m.input.len(), 0);
    let state_before = m.rng;
    m.mutate(4, &Dict::empty());
    assert_eq!(m.rng, state_before);
}

#[test]
fn extend_truncates_at_the_size_cap() {
    let mut m = Mutator::new().seed(1).max_input_size(2);
    let src = vec![Felt::from_u64(1), Felt::from_u64(2), Felt::from_u64(3)];
    m.extend_from_slice(&src);
    assert_eq!(m.input.len(), 2);
    assert_eq!(m.input[0], Felt::from_u64(1));
    assert_eq!(m.input[1], Felt::from_u64(2));
}

#[test]
fn empty_dictionary_behaves_as_the_disabled_sentinel() {
    let mut with_empty_dict = Mutator::new().seed(11).max_input_size(4);
    let mut with_sentinel = Mutator::new().seed(11).max_input_size(4);
    let src = vec![
        Felt::from_u64(9),
        Felt::from_u64(8),
        Felt::from_u64(7),
        Felt::from_u64(6),
    ];
    with_empty_dict.extend_from_slice(&src);
    with_sentinel.extend_from_slice(&src);
    let empty_dict = Dict { inputs: Vec::new() };
    for _ in 0..20 {
        with_empty_dict.mutate(4, &empty_dict);
        with_sentinel.mutate(4, &Dict::empty());
        assert_eq!(with_empty_dict.input, with_sentinel.input);
        assert_eq!(with_empty_dict.rng, with_sentinel.rng);
    }
}

#[test]
fn dictionary_values_can_reach_the_buffer() {
    let special = Felt::from_u64(0xDEAD);
    let dict = Dict { inputs: vec![special] };
    let mut m = Mutator::new().seed(2).max_input_size(3);
    m.extend_from_slice(&vec![Felt::zero(), Felt::zero(), Felt::zero()]);
    let mut seen = false;
    for _ in 0..200 {
        m.mutate(4, &dict);
        for x in &m.input {
            if *x == special {
                seen = true;
            }
        }
    }
    assert!(seen);
}

#[test]
fn equal_seeds_give_equal_mutation_streams() {
    let mut a = Mutator::new().seed(21).max_input_size(3);
    let mut b = Mutator::new().seed(21).max_input_size(3);
    let src = vec![Felt::from_u64(1), Felt::from_u64(2), Felt::from_u64(3)];
    a.extend_from_slice(&src);
    b.extend_from_slice(&src);
    for _ in 0..100 {
        a.mutate(4, &Dict::empty());
        b.mutate(4, &Dict::empty());
        assert_eq!(a.input, b.input);
    }
}
