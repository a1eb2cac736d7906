//! The corpus: domain lookup, the materialize pass, and its idempotence.

use nlu_align::Annotation;
use nlu_align::AnnotationComparison;
use nlu_align::Case;
use nlu_align::Corpus;
use nlu_align::IntentMapping;

fn slot(k: &str, v: &str) -> (String, String) {
    (k.to_string(), v.to_string())
}

fn ann(intent: &str, slots: Vec<(String, String)>) -> Annotation {
    Annotation { domain: String::new(), intent: intent.to_string(), values: slots }
}

fn mapping() -> IntentMapping {
    IntentMapping {
        val: vec![
            ("Music_play".to_string(), "Music".to_string()),
            ("Movie_play".to_string(), "Television".to_string()),
        ],
    }
}

fn sample_case() -> Case {
    Case {
        text: "play joan baez".to_string(),
        reference: 7,
        count: 3,
        gold: vec![ann("Music_play", vec![slot("artist", "Joan Baez")])],
        left: vec![ann("Music_play", vec![slot("artist", "John Baez")])],
        right: vec![ann("Movie_play", vec![slot("artist", "John Baez")])],
        gold_vs_left: AnnotationComparison::default(),
        gold_vs_right: AnnotationComparison::default(),
        left_vs_right: AnnotationComparison::default(),
    }
}

#[test]
fn domain_of_known_and_unknown_intents() {
    let m = mapping();
    assert_eq!(m.domain_of(&"Music_play".to_string()), "Music");
    assert_eq!(m.domain_of(&"Movie_play".to_string()), "Television");
    // A lookup miss is not an error: it yields the empty domain.
    assert_eq!(m.domain_of(&"Lights_on".to_string()), "");
}

#[test]
fn empty_corpus_has_nothing() {
    let c = Corpus::empty();
    assert!(c.intent_mapping.val.is_empty());
    assert!(c.cases.is_empty());
}

#[test]
fn populate_backfills_domains_and_verdicts() {
    let mut corpus = Corpus { intent_mapping: mapping(), cases: vec![sample_case()] };
    corpus.populate();
    let case = &corpus.cases[0];
    assert_eq!(case.text, "play joan baez");
    assert_eq!(case.reference, 7);
    assert_eq!(case.count, 3);
    assert_eq!(case.gold[0].domain, "Music");
    assert_eq!(case.left[0].domain, "Music");
    assert_eq!(case.right[0].domain, "Television");
    // Same intent, near-miss value: the worst (and only) level.
    assert_eq!(case.gold_vs_left, AnnotationComparison::SameProperties);
    // Other intent, other domain.
    assert_eq!(case.gold_vs_right, AnnotationComparison::Different);
    assert_eq!(case.left_vs_right, AnnotationComparison::Different);
}

#[test]
fn populate_defaults_unknown_domains_to_empty() {
    let mut corpus = Corpus {
        intent_mapping: IntentMapping { val: vec![] },
        cases: vec![sample_case()],
    };
    corpus.populate();
    assert_eq!(corpus.cases[0].gold[0].domain, "");
    // With every domain equal (empty), differing intents grade
    // SameDomains rather than Different.
    assert_eq!(corpus.cases[0].gold_vs_right, AnnotationComparison::SameDomains);
}

#[test]
fn populate_twice_changes_nothing() {
    let mut once = Corpus { intent_mapping: mapping(), cases: vec![sample_case()] };
    once.populate();
    let mut twice = Corpus { intent_mapping: mapping(), cases: vec![sample_case()] };
    twice.populate();
    twice.populate();
    assert_eq!(once, twice);
}

#[test]
fn populate_overwrites_stale_derived_data() {
    let mut corpus = Corpus { intent_mapping: mapping(), cases: vec![sample_case()] };
    corpus.populate();
    // Poison the derived fields, then materialize again: the pass must
    // restore them from the mapping and the annotation lists alone.
    corpus.cases[0].gold[0].domain = "Garbage".to_string();
    corpus.cases[0].gold_vs_left = AnnotationComparison::SameValues;
    corpus.populate();
    assert_eq!(corpus.cases[0].gold[0].domain, "Music");
    assert_eq!(corpus.cases[0].gold_vs_left, AnnotationComparison::SameProperties);
}
