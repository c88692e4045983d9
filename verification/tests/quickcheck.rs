use crucible::quickcheck::{check, check_with_seed, seed_from_clock, Arbitrary, Config, Rng, SorobanAmount};

/// Runs a property, returning its failure report instead of failing.
fn check_reporting<T: Arbitrary + Clone, F: Fn(T) -> Result<(), String>>(
    config: Config,
    property: F,
) -> Option<String> {
    check::<T, F>("property", config, property).err()
}

fn fixed_seed() -> Config {
    Config {
        seed: Some(0xC0FF_EE00),
        ..Config::default()
    }
}

#[test]
fn the_rng_is_deterministic_for_a_seed() {
    let a: Vec<u64> = (0..8).map(|_| Rng::new(7).next_u64()).collect();
    let b: Vec<u64> = (0..8).map(|_| Rng::new(7).next_u64()).collect();
    assert_eq!(a, b);
}

#[test]
fn different_seeds_diverge() {
    assert_ne!(Rng::new(1).next_u64(), Rng::new(2).next_u64());
}

#[test]
fn a_holding_property_passes() {
    let outcome = check::<i32, _>("addition commutes", fixed_seed(), |x: i32| {
        if x.wrapping_add(0) == x {
            Ok(())
        } else {
            Err(format!("{} + 0 != {}", x, x))
        }
    });
    assert_eq!(outcome, Ok(()));
}

#[test]
fn a_failing_property_reports_the_seed_for_reproduction() {
    let report = check_reporting::<u32, _>(fixed_seed(), |x: u32| {
        if x < 10 {
            Ok(())
        } else {
            Err("value too large".to_string())
        }
    })
    .expect("the property must fail");

    assert!(report.contains("CRUCIBLE_QUICKCHECK_SEED="), "{report}");
    assert!(report.contains("Minimal failing input"), "{report}");
}

#[test]
fn shrinking_reduces_an_integer_to_the_boundary() {
    let report = check_reporting::<u32, _>(fixed_seed(), |x: u32| {
        if x < 10 {
            Ok(())
        } else {
            Err("too large".to_string())
        }
    })
    .expect("the property must fail");

    assert!(
        report.contains("Minimal failing input : 10"),
        "expected the shrinker to reach 10, got:\n{report}"
    );
}

#[test]
fn shrinking_a_tuple_simplifies_every_position() {
    let report = check_reporting::<(u32, u32), _>(
        Config {
            cases: 512,
            ..fixed_seed()
        },
        |(a, b): (u32, u32)| {
            if a < 5 || b < 5 {
                Ok(())
            } else {
                Err("both too large".to_string())
            }
        },
    )
    .expect("the property must fail");

    assert!(
        report.contains("Minimal failing input : (5, 5)"),
        "expected both positions to shrink to 5, got:\n{report}"
    );
}

#[test]
fn a_fixed_seed_reproduces_the_same_minimal_case() {
    let run = || {
        check_reporting::<u64, _>(fixed_seed(), |x: u64| {
            if x < 1_000 {
                Ok(())
            } else {
                Err("too large".to_string())
            }
        })
        .expect("the property must fail")
    };
    assert_eq!(run(), run());
}

#[test]
fn shrink_chains_always_terminate() {
    for value in [0_u32, 1, 2, 7, u32::MAX] {
        for candidate in value.shrink() {
            assert!(candidate < value, "{candidate} is not simpler than {value}");
        }
    }
    for value in [0_i64, -1, 1, i64::MIN, i64::MAX] {
        for candidate in value.shrink() {
            assert!(
                candidate.unsigned_abs() < value.unsigned_abs(),
                "{candidate} is not simpler than {value}"
            );
        }
    }
}

#[test]
fn soroban_amounts_are_never_negative() {
    let mut rng = Rng::new(99);
    for _ in 0..1_000 {
        assert!(SorobanAmount::arbitrary(&mut rng, 32).get() >= 0);
    }
}

#[test]
fn soroban_newtypes_shrink_within_their_bounds() {
    for candidate in SorobanAmount(i128::MAX).shrink() {
        assert!(
            candidate.get() >= SorobanAmount::MIN,
            "{candidate:?} escaped the lower bound"
        );
    }
    assert!(SorobanAmount(i128::MAX)
        .shrink()
        .iter()
        .all(|candidate| candidate.get() >= 0));
}

#[test]
fn generators_reach_their_boundary_values() {
    let mut rng = Rng::new(5);
    let mut saw_zero = false;
    let mut saw_max = false;
    for _ in 0..10_000 {
        match SorobanAmount::arbitrary(&mut rng, 32).get() {
            0 => saw_zero = true,
            v if v == i128::MAX => saw_max = true,
            _ => {}
        }
    }
    assert!(saw_zero, "the generator must produce 0");
    assert!(saw_max, "the generator must produce i128::MAX");
}

#[test]
fn the_report_names_the_property_and_the_case() {
    let report = check::<u8, _>("bytes are small", fixed_seed(), |x: u8| {
        if x < 200 {
            Ok(())
        } else {
            Err("big byte".to_string())
        }
    })
    .unwrap_err();
    assert!(report.starts_with("bytes are small failed on case "), "{report}");
    assert!(report.contains("Minimal failing input : 200"), "{report}");
    assert!(report.contains("Panic                 : big byte"), "{report}");
    assert!(report.contains("Seed                  : 3237998080"), "{report}");
}

#[test]
fn below_stays_below_its_bound() {
    let mut rng = Rng::new(42);
    for bound in [1_u64, 2, 3, 10, 1000, u64::MAX] {
        for _ in 0..100 {
            assert!(rng.below(bound) < bound);
        }
    }
}

#[test]
fn shrinking_reduces_a_vector_to_the_shortest_failing_case() {
    // Any vector of two or more elements fails, so the minimum is length 2.
    let report = check_reporting::<Vec<u8>, _>(
        Config {
            cases: 512,
            ..fixed_seed()
        },
        |values: Vec<u8>| {
            if values.len() < 2 {
                Ok(())
            } else {
                Err("too long".to_string())
            }
        },
    )
    .expect("the property must fail");

    assert!(
        report.contains("Minimal failing input : [0, 0]"),
        "expected a two-element minimum, got:\n{report}"
    );
}

#[test]
fn zero_and_false_are_already_minimal() {
    assert!(0_u32.shrink().is_empty());
    assert!(0_i128.shrink().is_empty());
    assert!(false.shrink().is_empty());
    assert!(String::new().shrink().is_empty());
    assert!(Vec::<u8>::new().shrink().is_empty());
    assert!(None::<u32>.shrink().is_empty());
}

#[test]
fn environment_overrides_only_defaulted_fields() {
    let explicit = Config {
        cases: 8,
        ..Config::default()
    };
    let config = explicit.with_env_overrides(Some(1000), Some(5), Some(3));
    assert_eq!(config.cases, 8);
    assert_eq!(config.shrink_iters, 5);
    assert_eq!(config.seed, Some(3));
    assert_eq!(config.size, 32);

    let seeded = Config {
        seed: Some(11),
        ..Config::default()
    };
    let config = seeded.with_env_overrides(Some(1000), None, Some(3));
    assert_eq!(config.cases, 1000);
    assert_eq!(config.shrink_iters, Config::default().shrink_iters);
    assert_eq!(config.seed, Some(11));
}

#[test]
fn vector_shrink_candidates_come_shortest_first() {
    let candidates = vec![3_u8, 0, 7].shrink();
    assert_eq!(candidates[0], Vec::<u8>::new());
    assert_eq!(candidates[1], vec![3]);
    assert_eq!(candidates[2], vec![0, 7]);
    assert_eq!(candidates[3], vec![3, 7]);
    assert_eq!(candidates[4], vec![3, 0]);
    for candidate in &candidates[5..] {
        assert_eq!(candidate.len(), 3);
        let changed = candidate.iter().zip([3_u8, 0, 7].iter()).filter(|(a, b)| a != b).count();
        assert_eq!(changed, 1);
    }
}

#[test]
fn tuple_shrink_candidates_change_one_position() {
    let candidates = (4_u32, true).shrink();
    assert!(!candidates.is_empty());
    for (a, b) in candidates {
        assert!(a == 4 || b);
        assert!(a < 4 || !b);
    }
}

#[test]
fn vector_element_candidates_follow_each_elements_own_shrink() {
    let candidates = vec![3_u8, 0, 7].shrink();
    let mut expected: Vec<Vec<u8>> = Vec::new();
    for c in 3_u8.shrink() {
        expected.push(vec![c, 0, 7]);
    }
    for c in 0_u8.shrink() {
        expected.push(vec![3, c, 7]);
    }
    for c in 7_u8.shrink() {
        expected.push(vec![3, 0, c]);
    }
    assert_eq!(candidates[5..].to_vec(), expected);
}

#[test]
fn a_configured_seed_runs_exactly_as_that_seed() {
    let property = |x: u32| if x < 10 { Ok(()) } else { Err("value too large".to_string()) };
    let via_config = check::<u32, _>("p", fixed_seed(), property);
    let via_seed = check_with_seed::<u32, _>("p", fixed_seed(), 0xC0FF_EE00, property);
    assert_eq!(via_config, via_seed);
    assert!(via_seed.unwrap_err().contains("Minimal failing input : 10"));
}

#[test]
fn shrinking_stops_only_at_a_candidate_free_failure_or_the_step_limit() {
    let property = |x: u64| if x < 1000 { Ok(()) } else { Err("big".to_string()) };
    let report = check_with_seed::<u64, _>(
        "p",
        Config { shrink_iters: 1, ..fixed_seed() },
        7,
        property,
    )
    .unwrap_err();
    assert!(report.contains("Shrink steps          : 1\n"), "{report}");
}

#[test]
fn a_clock_reading_becomes_a_seed() {
    assert_eq!(seed_from_clock(None), 0x5EED);
    assert_eq!(seed_from_clock(Some(42)), 42);
    assert_eq!(seed_from_clock(Some((1_u128 << 64) + 5)), 5);
}
