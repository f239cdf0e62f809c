use world_prototype::rng::{mix64, DeterministicRng, RangeError, SeedMaterial, GOLDEN_GAMMA};

#[test]
fn splitmix_sequence_is_stable() {
    let mut rng = DeterministicRng::from_seed(0x0123_4567_89ab_cdef);
    assert_eq!(rng.next_u64(), 0x157a_3807_a48f_aa9d);
    assert_eq!(rng.next_u64(), 0xd573_529b_34a1_d093);
    assert_eq!(rng.next_u64(), 0x2f90_b72e_996d_ccbe);
}

#[test]
fn feature_streams_do_not_depend_on_other_stream_consumption() {
    let root = DeterministicRng::from_seed(99);
    let mut vegetation = root.fork(1);
    let mut buildings = root.fork(2);

    let first_building = buildings.next_u64();
    for _ in 0..100 {
        vegetation.next_u64();
    }

    let mut buildings_again = root.fork(2);
    assert_eq!(first_building, buildings_again.next_u64());
}

#[test]
fn rejects_empty_range() {
    let mut rng = DeterministicRng::from_seed(0);
    assert!(matches!(
        rng.range_u64(4, 4),
        Err(RangeError::EmptyOrReversed { .. })
    ));
}

#[test]
fn reversed_range_is_rejected_without_drawing() {
    let mut rng = DeterministicRng::from_seed(7);
    assert_eq!(
        rng.range_u64(9, 3),
        Err(RangeError::EmptyOrReversed { start: 9, end_exclusive: 3 })
    );
    assert_eq!(rng.state(), 7);
    assert_eq!(
        RangeError::EmptyOrReversed { start: 9, end_exclusive: 3 }.message(),
        "invalid integer range 9..3"
    );
}

#[test]
fn range_values_stay_inside_the_range() {
    let mut rng = DeterministicRng::from_seed(0xfeed);
    for _ in 0..1000 {
        let value = rng.range_u64(10, 17).expect("non-empty range");
        assert!((10..17).contains(&value));
    }
}

#[test]
fn single_value_range_returns_its_start_after_one_draw() {
    let mut rng = DeterministicRng::from_seed(5);
    assert_eq!(rng.range_u64(41, 42), Ok(41));
    assert_eq!(rng.state(), 5u64.wrapping_add(GOLDEN_GAMMA));
}

#[test]
fn next_u64_advances_by_the_golden_gamma() {
    let mut rng = DeterministicRng::from_seed(u64::MAX);
    let value = rng.next_u64();
    assert_eq!(rng.state(), u64::MAX.wrapping_add(GOLDEN_GAMMA));
    assert_eq!(value, mix64(rng.state()));
}

#[test]
fn mix64_of_zero_is_zero_and_known_values_match() {
    assert_eq!(mix64(0), 0);
    assert_eq!(mix64(0xcf9a_04af_fa6b_adc0), u64::MAX);
}

#[test]
fn derived_seeds_are_stable_and_material_sensitive() {
    let material = SeedMaterial {
        world_seed: 1,
        stage_id: 2,
        spatial_key: 3,
        feature_key: 4,
    };
    let again = material;
    assert_eq!(material.derive(), again.derive());
    assert_eq!(material.derive(), 0xb763_5553_88e6_369b);
    let other = SeedMaterial { feature_key: 5, ..material };
    assert_ne!(material.derive(), other.derive());
    assert_eq!(
        DeterministicRng::from_material(material).state(),
        material.derive()
    );
}

#[test]
fn fork_depends_on_both_halves_of_the_key() {
    let root = DeterministicRng::from_seed(123);
    let low = root.fork(1);
    let high = root.fork(1u128 << 64);
    assert_ne!(low.state(), high.state());
    assert_eq!(low.state(), 0x8aeb_093d_93e7_1bbf);
    assert_eq!(root.state(), 123);
}

#[test]
fn range_error_message_writes_both_ends_in_decimal() {
    assert_eq!(
        RangeError::EmptyOrReversed { start: 1_234_567_890_123, end_exclusive: 0 }.message(),
        "invalid integer range 1234567890123..0"
    );
    assert_eq!(
        RangeError::EmptyOrReversed { start: u64::MAX, end_exclusive: 10 }.message(),
        "invalid integer range 18446744073709551615..10"
    );
}
