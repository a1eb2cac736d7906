//! The comparator: walks an annotation alignment and grades each aligned
//! pair on the similarity scale.

use vstd::prelude::*;

use crate::align::ann_result_view;
use crate::align::annotation_align;
use crate::align::annotation_align_spec;
use crate::align::anns_bounded;
use crate::greedy::AlignEntry;
use crate::levels::AnnotationComparison;
use crate::model::Annotation;
use crate::model::AnnotationView;

verus! {

/// Level for one alignment entry.  An unmatched element grades
/// `Different`.  A matched pair with differing intents grades by domain:
/// `Different` when the domains differ too, else `SameDomains`.  With
/// equal intents the slot distance decides: 0 grades `SameValues`,
/// below 100 `SameProperties` (only near misses), else `SameIntents`.
pub open spec fn classify_spec(e: AlignEntry<AnnotationView>) -> AnnotationComparison {
    match (e.1, e.2) {
        (Some(x), Some(y)) => {
            if x.intent != y.intent {
                if x.domain != y.domain {
                    AnnotationComparison::Different
                } else {
                    AnnotationComparison::SameDomains
                }
            } else if e.0 == 0 {
                AnnotationComparison::SameValues
            } else if e.0 < 100 {
                AnnotationComparison::SameProperties
            } else {
                AnnotationComparison::SameIntents
            }
        },
        _ => AnnotationComparison::Different,
    }
}

/// The comparator's result: one level per entry of the annotation
/// alignment of `a` and `b`, in alignment order.
pub open spec fn compare_spec(a: Seq<AnnotationView>, b: Seq<AnnotationView>) -> Seq<
    AnnotationComparison,
> {
    annotation_align_spec(a, b).map_values(|e: AlignEntry<AnnotationView>| classify_spec(e))
}

fn classify(d: u32, x: &Annotation, y: &Annotation) -> (r: AnnotationComparison)
    ensures
        r == classify_spec((d as int, Some(x@), Some(y@))),
{
    if !(x.intent == y.intent) {
        if !(x.domain == y.domain) {
            AnnotationComparison::Different
        } else {
            AnnotationComparison::SameDomains
        }
    } else if d == 0 {
        AnnotationComparison::SameValues
    } else if d < 100 {
        AnnotationComparison::SameProperties
    } else {
        AnnotationComparison::SameIntents
    }
}

/// Compares two annotation lists: aligns them greedily and grades each
/// aligned pair, one level per alignment entry, in alignment order.
#[verifier::loop_isolation(false)]
pub fn compare(a: &Vec<Annotation>, b: &Vec<Annotation>) -> (r: Vec<AnnotationComparison>)
    requires
        anns_bounded(a.deep_view()),
        anns_bounded(b.deep_view()),
    ensures
        r@ == compare_spec(a.deep_view(), b.deep_view()),
{
    let al = annotation_align(a, b);
    let ghost entries = ann_result_view(al@);
    let mut r: Vec<AnnotationComparison> = Vec::new();
    let mut i: usize = 0;
    while i < al.len()
        invariant
            i <= al@.len(),
            r@.len() == i,
            forall|j: int| 0 <= j < i ==> r@[j] == classify_spec(entries[j]),
        decreases al@.len() - i,
    {
        let e = &al[i];
        let level: AnnotationComparison;
        match (&e.1, &e.2) {
            (Some(x), Some(y)) => {
                level = classify(e.0, x, y);
                proof {
                    assert(entries[i as int] == (e.0 as int, Some(x@), Some(y@)));
                }
            },
            _ => {
                level = AnnotationComparison::Different;
                proof {
                    assert(classify_spec(entries[i as int]) == AnnotationComparison::Different);
                }
            },
        }
        r.push(level);
        i = i + 1;
    }
    proof {
        assert(r@ =~= compare_spec(a.deep_view(), b.deep_view()));
    }
    r
}

} // verus!
