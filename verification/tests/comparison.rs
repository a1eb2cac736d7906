//! The comparator end to end, the level scale, and the derived
//! summaries.

use nlu_align::all_levels;
use nlu_align::compare;
use nlu_align::level_from_str;
use nlu_align::levels_satisfy;
use nlu_align::worst_of;
use nlu_align::Annotation;
use nlu_align::AnnotationComparison;
use nlu_align::AsStr;
use nlu_align::CompareMode;
use nlu_align::CompareOp;

fn slot(k: &str, v: &str) -> (String, String) {
    (k.to_string(), v.to_string())
}

fn ann_dom(domain: &str, intent: &str, slots: Vec<(String, String)>) -> Annotation {
    Annotation { domain: domain.to_string(), intent: intent.to_string(), values: slots }
}

#[test]
fn compare_near_miss_yields_same_properties() {
    let gold = vec![ann_dom("Music", "Music_play", vec![slot("artist", "Joan Baez")])];
    let left = vec![ann_dom("Music", "Music_play", vec![slot("artist", "John Baez")])];
    assert_eq!(compare(&gold, &left), vec![AnnotationComparison::SameProperties]);
}

#[test]
fn compare_other_intent_and_domain_yields_different() {
    let gold = vec![ann_dom("Music", "Music_play", vec![slot("artist", "Joan Baez")])];
    let right = vec![ann_dom("Television", "Movie_play", vec![slot("artist", "John Baez")])];
    assert_eq!(compare(&gold, &right), vec![AnnotationComparison::Different]);
}

#[test]
fn compare_other_intent_same_domain_yields_same_domains() {
    let gold = vec![ann_dom("Music", "Music_play", vec![])];
    let left = vec![ann_dom("Music", "Music_pause", vec![])];
    assert_eq!(compare(&gold, &left), vec![AnnotationComparison::SameDomains]);
}

#[test]
fn compare_same_intent_far_values_yields_same_intents() {
    // artist matches the key only (10), "volume" and "album" stay
    // unmatched (100 each): distance 210, so only the intent agrees.
    let gold = vec![ann_dom(
        "Music",
        "Music_play",
        vec![slot("artist", "Joan Baez"), slot("volume", "high")],
    )];
    let left = vec![ann_dom(
        "Music",
        "Music_play",
        vec![slot("artist", "John Baez"), slot("album", "x")],
    )];
    assert_eq!(compare(&gold, &left), vec![AnnotationComparison::SameIntents]);
}

#[test]
fn compare_identical_lists_yields_all_same_values() {
    let gold = vec![
        ann_dom("Music", "Music_play", vec![slot("artist", "Joan Baez")]),
        ann_dom("Radio", "Radio_on", vec![]),
    ];
    assert_eq!(
        compare(&gold, &gold),
        vec![AnnotationComparison::SameValues, AnnotationComparison::SameValues]
    );
}

#[test]
fn compare_absent_side_yields_different() {
    let gold: Vec<Annotation> = vec![];
    let left = vec![ann_dom("Music", "Music_play", vec![slot("artist", "Joan Baez")])];
    assert_eq!(compare(&gold, &left), vec![AnnotationComparison::Different]);
}

#[test]
fn compare_empty_against_empty_is_empty() {
    let gold: Vec<Annotation> = vec![];
    let left: Vec<Annotation> = vec![];
    assert_eq!(compare(&gold, &left), vec![]);
}

#[test]
fn level_order_is_total_and_matches_declaration() {
    let l = all_levels();
    assert_eq!(l.len(), 5);
    assert_eq!(l[0], AnnotationComparison::Different);
    assert_eq!(l[1], AnnotationComparison::SameDomains);
    assert_eq!(l[2], AnnotationComparison::SameIntents);
    assert_eq!(l[3], AnnotationComparison::SameProperties);
    assert_eq!(l[4], AnnotationComparison::SameValues);
    for i in 0..5 {
        for j in 0..5 {
            assert_eq!(l[i].le(&l[j]), i <= j);
            // The derived ordering agrees with the scale.
            assert_eq!(l[i] <= l[j], i <= j);
        }
    }
}

#[test]
fn level_labels_round_trip() {
    for level in all_levels() {
        assert_eq!(level_from_str(level.as_str()), Some(level));
    }
    assert_eq!(level_from_str("same everything"), None);
    assert_eq!(AnnotationComparison::Different.as_str(), "different");
    assert_eq!(AnnotationComparison::SameValues.as_str(), "same values");
}

#[test]
fn default_level_is_different() {
    assert_eq!(AnnotationComparison::default(), AnnotationComparison::Different);
}

#[test]
fn worst_of_picks_the_least_level() {
    let levels = vec![
        AnnotationComparison::SameValues,
        AnnotationComparison::SameDomains,
        AnnotationComparison::SameIntents,
    ];
    assert_eq!(worst_of(&levels), AnnotationComparison::SameDomains);
    assert_eq!(worst_of(&vec![]), AnnotationComparison::SameValues);
}

#[test]
fn filter_any_and_all() {
    let levels = vec![
        AnnotationComparison::SameValues,
        AnnotationComparison::SameDomains,
        AnnotationComparison::SameIntents,
    ];
    assert!(levels_satisfy(
        &levels,
        CompareMode::Any,
        CompareOp::AtMost,
        AnnotationComparison::SameDomains
    ));
    assert!(!levels_satisfy(
        &levels,
        CompareMode::All,
        CompareOp::AtMost,
        AnnotationComparison::SameDomains
    ));
    assert!(levels_satisfy(
        &levels,
        CompareMode::All,
        CompareOp::AtLeast,
        AnnotationComparison::SameDomains
    ));
    assert!(levels_satisfy(
        &levels,
        CompareMode::Any,
        CompareOp::EqualTo,
        AnnotationComparison::SameIntents
    ));
    assert!(!levels_satisfy(
        &levels,
        CompareMode::Any,
        CompareOp::EqualTo,
        AnnotationComparison::SameProperties
    ));
    assert!(levels_satisfy(
        &levels,
        CompareMode::All,
        CompareOp::NotEqualTo,
        AnnotationComparison::Different
    ));
}

#[test]
fn filter_includes_every_case_at_most_its_worst() {
    // The ordering law in action: whenever the worst-case summary sits
    // at or under a threshold, the existential at-most filter agrees.
    let samples = vec![
        vec![AnnotationComparison::SameValues, AnnotationComparison::Different],
        vec![AnnotationComparison::SameIntents],
        vec![AnnotationComparison::SameDomains, AnnotationComparison::SameProperties],
    ];
    for levels in &samples {
        let worst = worst_of(levels);
        for threshold in all_levels() {
            if worst.le(&threshold) {
                assert!(levels_satisfy(
                    levels,
                    CompareMode::Any,
                    CompareOp::AtMost,
                    threshold
                ));
            }
        }
    }
}
