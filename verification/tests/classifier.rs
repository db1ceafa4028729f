use dyss::classifier::{Classifier, MatchOutcome, ACCEPT, INSUFFICIENT, REJECT};
use dyss::signal::trim_front;

fn sample_classifier(querysize: usize) -> Classifier {
    Classifier::assemble(10, 1, querysize, 20, Some((21_700_000, 950_000)), true, Some(4000))
        .unwrap()
}

#[test]
fn assemble_packages_every_parameter() {
    let c = sample_classifier(20);
    assert_eq!(c.threshold_micros, 21_700_000);
    assert_eq!(c.num_scouts, 10);
    assert_eq!(c.num_packs, 1);
    assert_eq!(c.querysize, 20);
    assert_eq!(c.power_percent, 20);
    assert_eq!(c.reference_len, 4000);
}

#[test]
fn assemble_fails_without_calibration() {
    assert!(Classifier::assemble(10, 1, 20, 20, None, true, Some(4000)).is_none());
}

#[test]
fn assemble_fails_without_model() {
    assert!(Classifier::assemble(10, 1, 20, 20, Some((21_700_000, 950_000)), false, Some(4000))
        .is_none());
}

#[test]
fn assemble_fails_without_reference() {
    assert!(Classifier::assemble(10, 1, 20, 20, Some((21_700_000, 950_000)), true, None)
        .is_none());
    assert!(Classifier::assemble(10, 1, 20, 20, Some((21_700_000, 950_000)), true, Some(0))
        .is_none());
}

#[test]
fn short_event_sequence_is_insufficient() {
    let c = sample_classifier(20);
    assert_eq!(c.classify_core(3, 0, MatchOutcome::NoMatch), INSUFFICIENT);
    assert_eq!(c.classify_core(3, 0, MatchOutcome::ScoreBelowThreshold), INSUFFICIENT);
    assert_eq!(c.classify_core(19, 25, MatchOutcome::ScoreBelowThreshold), INSUFFICIENT);
}

#[test]
fn short_dedup_sequence_is_insufficient() {
    let c = sample_classifier(20);
    assert_eq!(c.classify_core(25, 19, MatchOutcome::ScoreBelowThreshold), INSUFFICIENT);
    assert_eq!(c.classify_core(25, 0, MatchOutcome::NoMatch), INSUFFICIENT);
}

#[test]
fn verdict_follows_matcher_outcome() {
    let c = sample_classifier(20);
    assert_eq!(c.classify_core(25, 22, MatchOutcome::ScoreBelowThreshold), ACCEPT);
    assert_eq!(c.classify_core(25, 22, MatchOutcome::ScoreAtOrAboveThreshold), REJECT);
    assert_eq!(c.classify_core(25, 22, MatchOutcome::NoMatch), REJECT);
}

#[test]
fn classification_is_deterministic() {
    let c = sample_classifier(20);
    for outcome in [
        MatchOutcome::NoMatch,
        MatchOutcome::ScoreBelowThreshold,
        MatchOutcome::ScoreAtOrAboveThreshold,
    ] {
        assert_eq!(c.classify_core(25, 22, outcome), c.classify_core(25, 22, outcome));
    }
}

#[test]
fn too_short_compares_against_querysize() {
    let c = sample_classifier(20);
    assert!(c.too_short(19));
    assert!(!c.too_short(20));
    assert!(!c.too_short(21));
}

#[test]
fn trim_front_drops_leading_samples() {
    let q: Vec<i32> = (0..100).collect();
    let trimmed = trim_front(&q, 70, 15);
    assert_eq!(trimmed.len(), 30);
    assert_eq!(trimmed[0], 70);
    assert_eq!(trimmed[29], 99);
}

#[test]
fn trim_front_requires_minimum_remainder() {
    let q: Vec<i32> = (0..84).collect();
    assert!(trim_front(&q, 70, 15).is_empty());
    let q: Vec<i32> = (0..85).collect();
    assert_eq!(trim_front(&q, 70, 15).len(), 15);
    let q: Vec<i32> = (0..10).collect();
    assert!(trim_front(&q, 70, 15).is_empty());
}
