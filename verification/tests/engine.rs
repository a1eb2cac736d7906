//! Distances and aligners on concrete slot and annotation lists.

use nlu_align::annotation_align;
use nlu_align::annotation_dist;
use nlu_align::kv_align;
use nlu_align::kv_dist;
use nlu_align::Annotation;

fn slot(k: &str, v: &str) -> (String, String) {
    (k.to_string(), v.to_string())
}

fn ann(intent: &str, slots: Vec<(String, String)>) -> Annotation {
    Annotation { domain: String::new(), intent: intent.to_string(), values: slots }
}

fn ann_dom(domain: &str, intent: &str, slots: Vec<(String, String)>) -> Annotation {
    Annotation { domain: domain.to_string(), intent: intent.to_string(), values: slots }
}

#[test]
fn kv_dist_equal_slots() {
    assert_eq!(kv_dist(&slot("artist", "Joan Baez"), &slot("artist", "Joan Baez")), 0);
}

#[test]
fn kv_dist_same_key_other_value() {
    assert_eq!(kv_dist(&slot("artist", "Joan Baez"), &slot("artist", "John Baez")), 10);
}

#[test]
fn kv_dist_different_keys() {
    assert_eq!(kv_dist(&slot("artist", "x"), &slot("album", "x")), 100);
}

#[test]
fn kv_dist_symmetric() {
    let a = slot("artist", "Joan Baez");
    let b = slot("album", "Diamonds");
    let c = slot("artist", "John Baez");
    assert_eq!(kv_dist(&a, &b), kv_dist(&b, &a));
    assert_eq!(kv_dist(&a, &c), kv_dist(&c, &a));
    assert_eq!(kv_dist(&a, &a), kv_dist(&a, &a));
}

#[test]
fn kv_align_self_all_matched() {
    let a = vec![slot("artist", "Joan Baez"), slot("album", "Diamonds & Rust")];
    let r = kv_align(&a, &a);
    assert_eq!(r.len(), 2);
    for (i, (d, l, rgt)) in r.iter().enumerate() {
        assert_eq!(*d, 0);
        assert_eq!(l.as_ref(), Some(&a[i]));
        assert_eq!(rgt.as_ref(), Some(&a[i]));
    }
}

#[test]
fn kv_align_empty_against_one() {
    let a: Vec<(String, String)> = vec![];
    let b = vec![slot("x", "y")];
    let r = kv_align(&a, &b);
    assert_eq!(r.len(), 1);
    assert_eq!(r[0], (100, None, Some(slot("x", "y"))));
}

#[test]
fn kv_align_one_against_two() {
    let a = vec![slot("k1", "v1")];
    let b = vec![slot("k1", "v1"), slot("k2", "v2")];
    let r = kv_align(&a, &b);
    assert_eq!(r.len(), 2);
    assert_eq!(r[0], (0, Some(slot("k1", "v1")), Some(slot("k1", "v1"))));
    assert_eq!(r[1], (100, None, Some(slot("k2", "v2"))));
}

#[test]
fn kv_align_sides_follow_inputs_when_first_is_larger() {
    let a = vec![slot("k1", "v1"), slot("k2", "v2")];
    let b = vec![slot("k2", "v2")];
    let r = kv_align(&a, &b);
    assert_eq!(r.len(), 2);
    // The matched entry keeps the element of `a` on the left and the
    // element of `b` on the right even though `b` drove the scan.
    assert_eq!(r[0], (0, Some(slot("k2", "v2")), Some(slot("k2", "v2"))));
    assert_eq!(r[1], (100, Some(slot("k1", "v1")), None));
}

#[test]
fn kv_align_prefers_first_nearest() {
    let a = vec![slot("k", "v1")];
    let b = vec![slot("k", "v2"), slot("k", "v1")];
    let r = kv_align(&a, &b);
    assert_eq!(r.len(), 2);
    // The exact match at index 1 wins over the near miss at index 0.
    assert_eq!(r[0], (0, Some(slot("k", "v1")), Some(slot("k", "v1"))));
    assert_eq!(r[1], (100, None, Some(slot("k", "v2"))));
}

#[test]
fn kv_align_unmatched_key_spends_nothing() {
    // "open" finds no usable match (different keys), so it must not
    // consume anything from the other side: "k" still trails as an
    // unmatched leftover.
    let a = vec![slot("open", "x")];
    let b = vec![slot("k", "v")];
    let r = kv_align(&a, &b);
    assert_eq!(r.len(), 2);
    assert_eq!(r[0], (100, Some(slot("open", "x")), None));
    assert_eq!(r[1], (100, None, Some(slot("k", "v"))));
}

#[test]
fn annotation_dist_self_is_zero() {
    let a = ann("Music_play", vec![slot("artist", "Joan Baez")]);
    assert_eq!(annotation_dist(&a, &a), 0);
}

#[test]
fn annotation_dist_ignores_domain() {
    let a = ann_dom("Music", "Music_play", vec![slot("artist", "Joan Baez")]);
    let b = ann_dom("Radio", "Music_play", vec![slot("artist", "Joan Baez")]);
    assert_eq!(annotation_dist(&a, &b), 0);
}

#[test]
fn annotation_dist_different_intents_is_1000() {
    let a = ann("Music_play", vec![slot("artist", "Joan Baez")]);
    let b = ann("Movie_play", vec![slot("artist", "Joan Baez")]);
    assert_eq!(annotation_dist(&a, &b), 1000);
    let c = ann("Music_play", vec![]);
    let d = ann("Movie_play", vec![slot("q", "r"), slot("s", "t")]);
    assert_eq!(annotation_dist(&c, &d), 1000);
}

#[test]
fn annotation_dist_same_intent_sums_slot_distances() {
    let a = ann("Music_play", vec![slot("artist", "Joan Baez"), slot("album", "x")]);
    let b = ann("Music_play", vec![slot("artist", "John Baez"), slot("album", "x")]);
    // One near miss (10) and one exact match (0).
    assert_eq!(annotation_dist(&a, &b), 10);
    let c = ann("Music_play", vec![slot("artist", "Joan Baez"), slot("volume", "high")]);
    // "volume" is unmatched (100) on one side, "album" leftover (100) on
    // the other, artist matches exactly.
    assert_eq!(annotation_dist(&a, &c), 200);
}

#[test]
fn annotation_align_intent_mismatch_still_matches() {
    let a = vec![ann("Music_play", vec![])];
    let b = vec![ann("Movie_play", vec![])];
    let r = annotation_align(&a, &b);
    assert_eq!(r.len(), 1);
    let (d, l, rgt) = &r[0];
    assert_eq!(*d, 1000);
    assert!(l.is_some());
    assert!(rgt.is_some());
}

#[test]
fn annotation_align_beyond_1000_is_no_match() {
    // Eleven slots with keys the other side lacks: distance 1100 > 1000,
    // so both annotations stay unmatched.
    let slots: Vec<(String, String)> =
        (0..11).map(|i| slot(&format!("k{}", i), "v")).collect();
    let a = vec![ann("Music_play", slots)];
    let b = vec![ann("Music_play", vec![])];
    let r = annotation_align(&a, &b);
    assert_eq!(r.len(), 2);
    let (d0, l0, r0) = &r[0];
    assert_eq!(*d0, 100);
    assert!(l0.is_some());
    assert!(r0.is_none());
    let (d1, l1, r1) = &r[1];
    assert_eq!(*d1, 100);
    assert!(l1.is_none());
    assert!(r1.is_some());
}

#[test]
fn annotation_align_self_matches_in_order() {
    let a = vec![
        ann("Music_play", vec![slot("artist", "Joan Baez")]),
        ann("Radio_on", vec![]),
    ];
    let r = annotation_align(&a, &a);
    assert_eq!(r.len(), 2);
    for (i, (d, l, rgt)) in r.iter().enumerate() {
        assert_eq!(*d, 0);
        assert_eq!(l.as_ref(), Some(&a[i]));
        assert_eq!(rgt.as_ref(), Some(&a[i]));
    }
}

#[test]
fn empty_annotation_has_no_content() {
    let a = Annotation::empty();
    assert_eq!(a.domain, "");
    assert_eq!(a.intent, "");
    assert!(a.values.is_empty());
}
