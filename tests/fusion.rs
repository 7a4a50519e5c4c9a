use graphrag_search::fusion::{fuse, FusionConfig, SCORE_SCALE};
use graphrag_search::search::rank_score;

#[test]
fn exact_distance_only() {
    assert_eq!(rank_score(Some(0), None), 700_000);
    assert_eq!(rank_score(Some(1_000_000), None), 350_000);
    assert_eq!(rank_score(Some(3_000_000), None), 175_000);
}

#[test]
fn exact_text_only() {
    assert_eq!(rank_score(None, Some(5_000_000)), 150_000);
    assert_eq!(rank_score(None, Some(10_000_000)), 300_000);
    assert_eq!(rank_score(None, Some(40_000_000)), 300_000);
}

#[test]
fn exact_both_signals() {
    assert_eq!(rank_score(Some(1_000_000), Some(5_000_000)), 500_000);
    assert_eq!(rank_score(Some(0), Some(10_000_000)), SCORE_SCALE);
}

#[test]
fn absent_signals_give_zero() {
    assert_eq!(rank_score(None, None), 0);
}

#[test]
fn negative_distance_counts_as_zero() {
    assert_eq!(rank_score(Some(-5_000_000), None), rank_score(Some(0), None));
}

#[test]
fn huge_distance_gives_no_vector_component() {
    assert_eq!(rank_score(Some(i64::MAX), None), 0);
    assert_eq!(rank_score(Some(i64::MAX), Some(u64::MAX)), 300_000);
}

#[test]
fn fused_scores_stay_in_unit_range() {
    let distances = [None, Some(i64::MIN), Some(-1), Some(0), Some(1), Some(999_999), Some(1_000_000), Some(i64::MAX)];
    let texts = [None, Some(0u64), Some(1), Some(9_999_999), Some(10_000_000), Some(u64::MAX)];
    for d in distances {
        for t in texts {
            let s = rank_score(d, t);
            assert!(s <= SCORE_SCALE);
        }
    }
}

#[test]
fn configurable_weights() {
    let config = FusionConfig { vector_weight: 5, text_weight: 5, text_divisor: 20 };
    assert_eq!(fuse(&config, Some(0), Some(10_000_000)), 750_000);
    let standard = FusionConfig::standard();
    assert_eq!((standard.vector_weight, standard.text_weight, standard.text_divisor), (7, 3, 10));
}
