use dtr::error::DtrError;
use dtr::types::{
    CheckpointToken, DatasetId, LeaseId, QuorumPolicy, ShardRange, TargetId, WorkerId,
};

fn fraction(value: f64) -> QuorumPolicy {
    QuorumPolicy::Fraction(value.to_bits())
}

#[test]
fn shard_range_enforces_order() {
    assert!(ShardRange::new(5, 3).is_err());
    let r = ShardRange::new(3, 7).unwrap();
    assert_eq!(r.len(), 4);
    assert!(r.contains(3) && r.contains(6));
    assert!(!r.contains(7));
}

#[test]
fn empty_range_is_valid() {
    let r = ShardRange::new(4, 4).unwrap();
    assert!(r.is_empty());
    assert_eq!(r.len(), 0);
}

#[test]
fn range_error_names_both_ends() {
    let err = ShardRange::new(5, 3).unwrap_err();
    assert_eq!(
        err.to_string(),
        "invalid argument: shard range begin (5) must be <= end (3)"
    );
    assert!(matches!(err, DtrError::InvalidArgument(_)));
}

#[test]
fn quorum_all_ranks() {
    assert_eq!(QuorumPolicy::AllRanks.required(8), 8);
}

#[test]
fn quorum_fraction_rounds_up_and_clamps() {
    assert_eq!(fraction(0.5).required(7), 4); // ceil(3.5)
    assert_eq!(fraction(0.01).required(8), 1); // floor at 1
    assert_eq!(fraction(1.0).required(8), 8);
}

#[test]
fn quorum_rounds_the_product_as_doubles_do() {
    // 0.1 is a little more than one tenth, but the product rounds to 1 exactly.
    assert_eq!(fraction(0.1).required(10), 1);
    assert_eq!(fraction(0.7).required(10), 7);
    let mut state: u64 = 0x9E37_79B9_7F4A_7C15;
    for _ in 0..20000 {
        state = state
            .wrapping_mul(6364136223846793005)
            .wrapping_add(1442695040888963407);
        let value = (state >> 11) as f64 / (1u64 << 53) as f64;
        let expected = (state % 5000) as u32 + 1;
        let req = (value * expected as f64).ceil() as u32;
        assert_eq!(fraction(value).required(expected), req.clamp(1, expected));
    }
}

#[test]
fn quorum_of_extreme_fractions() {
    for expected in [1u32, 2, 7, 1000, u32::MAX] {
        for value in [
            f64::MIN_POSITIVE,
            5e-324,
            1.0 / 3.0,
            0.9,
            1.0 - f64::EPSILON / 2.0,
            1.0,
            1.5,
            f64::MAX,
            f64::INFINITY,
            -1.0,
            -0.0,
            0.0,
            f64::NAN,
        ] {
            let req = (value * expected as f64).ceil() as u32;
            assert_eq!(fraction(value).required(expected), req.clamp(1, expected));
        }
    }
}

#[test]
fn fraction_validity() {
    assert!(QuorumPolicy::AllRanks.is_valid());
    assert!(fraction(0.9).is_valid());
    assert!(fraction(1.0).is_valid());
    assert!(fraction(5e-324).is_valid());
    for value in [0.0, -0.0, -0.5, 1.5, f64::INFINITY, f64::NAN] {
        assert!(!fraction(value).is_valid());
    }
}

#[test]
fn ids_are_distinct_types() {
    // Compile-time property; runtime sanity that display round-trips.
    let w = WorkerId::new("rank-0");
    assert_eq!(w.to_string(), "rank-0");
    assert_eq!(w.as_str(), "rank-0");
}

#[test]
fn ids_compare_and_convert() {
    let w: WorkerId = "rank-0".into();
    assert_eq!(w, WorkerId::new("rank-0"));
    assert_eq!(w.clone(), w);
    assert_ne!(DatasetId::from("a"), DatasetId::new("b"));
    assert_eq!(LeaseId::from("l").as_str(), "l");
    assert_eq!(CheckpointToken::from("c").to_string(), "c");
    assert_eq!(TargetId::new("t").0, "t");
}

#[test]
fn quorum_of_nobody() {
    assert_eq!(QuorumPolicy::Fraction(0.5f64.to_bits()).required(0), 1);
    assert_eq!(QuorumPolicy::Fraction(1f64.to_bits()).required(0), 1);
    assert_eq!(QuorumPolicy::AllRanks.required(0), 0);
}

#[test]
fn quorum_grows_with_the_fraction_and_the_ranks() {
    let fractions = [1e-300, 0.1, 0.3, 1.0 / 3.0, 0.5, 0.9, 1.0 - f64::EPSILON / 2.0, 1.0];
    for n in [1u32, 2, 3, 7, 10, 1000, u32::MAX - 1] {
        let mut before = 1;
        for f in fractions {
            let policy = QuorumPolicy::Fraction(f.to_bits());
            let required = policy.required(n);
            assert_eq!(required, ((f * n as f64).ceil() as u32).clamp(1, n));
            assert!(before <= required && required <= n);
            assert!(required <= policy.required(n + 1));
            before = required;
        }
    }
}
