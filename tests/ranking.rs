use dropcamp_exporter::ranking::{
    ActivitiesGroup, Activity, Archway, Curve, Ecosystem, Social, MAX_RANKING, MIN_RANKING,
    saturating_score,
};
use dropcamp_exporter::text::centi_text_of;

fn activity(numerator: u64, denominator: u64) -> Activity {
    Activity { weight: 100, goal: 0, curve: Curve { numerator, denominator } }
}

#[test]
fn ranking_curve_at_three_scores() {
    // numerator 100 %, half-saturation at 50: scores 0, 50 and 5000.
    let a = activity(10000, 5000);
    let ranks: Vec<u64> = vec![0u64, 5000, 500000].into_iter().map(|s| a.ranking(s)).collect();
    assert_eq!(ranks, vec![0, 5000, 9901]);
    let texts: Vec<String> = ranks.iter().map(|r| centi_text_of(*r as u128)).collect();
    assert_eq!(texts, vec!["0.00", "50.00", "99.01"]);
}

#[test]
fn ranking_zero_score_is_zero() {
    assert_eq!(activity(10000, 5000).ranking(0), 0);
    assert_eq!(activity(10000, 0).ranking(0), 0);
}

#[test]
fn ranking_zero_numerator_is_zero() {
    assert_eq!(activity(0, 5000).ranking(123456), 0);
}

#[test]
fn ranking_half_saturation() {
    assert_eq!(activity(8000, 300).ranking(300), 4000);
    assert_eq!(activity(8001, 300).ranking(300), 4001);
}

#[test]
fn ranking_small_values_clamp_up() {
    // 100 * 1 / (1000000 + 1) rounds to 0, yet is not zero: it becomes the minimum.
    assert_eq!(activity(100, 1_000_000).ranking(1), MIN_RANKING);
}

#[test]
fn ranking_large_numerator_clamps_down() {
    assert_eq!(activity(50000, 10).ranking(1_000_000), MAX_RANKING);
}

#[test]
fn ranking_bounds_on_many_scores() {
    let a = activity(12345, 678);
    for score in [0u64, 1, 2, 10, 99, 678, 1000, 99999, u64::MAX] {
        let r = a.ranking(score);
        assert!(r == 0 || (MIN_RANKING <= r && r <= MAX_RANKING));
    }
}

#[test]
fn ranking_is_monotone_on_many_scores() {
    let a = activity(10000, 5000);
    let mut last = 0;
    for score in [0u64, 1, 3, 50, 499, 5000, 5001, 70000, 10_000_000, u64::MAX] {
        let r = a.ranking(score);
        assert!(r >= last);
        last = r;
    }
}

#[test]
fn ranking_extreme_inputs_do_not_overflow() {
    assert_eq!(activity(u64::MAX, u64::MAX).ranking(u64::MAX), MAX_RANKING);
    assert_eq!(activity(u64::MAX, 0).ranking(1), MAX_RANKING);
}

#[test]
fn social_weighted_ranking() {
    let group = ActivitiesGroup { weight: 150, activities: Some(Social {}) };
    assert_eq!(group.weighted_ranking(42), 6300);
    assert_eq!(group.weighted_ranking(0), 0);
}

#[test]
fn score_saturates() {
    assert_eq!(saturating_score(1234), 1234);
    assert_eq!(saturating_score(u128::MAX), u64::MAX);
}

#[test]
fn group_weights_scale_summed_rankings() {
    let a = activity(10000, 5000);
    let archway = ActivitiesGroup { weight: 50, activities: Archway { stake: a, ibc: a } };
    // 50.00 + 99.01 percent, at a weight of 0.50.
    assert_eq!(archway.weighted_ranking(5000, 500000), 7450);
    let ecosystem = ActivitiesGroup { weight: 200, activities: Ecosystem { archid: a, astrovault: a, liquid_finance: a } };
    assert_eq!(ecosystem.weighted_ranking(0, 5000, 0), 10000);
}
