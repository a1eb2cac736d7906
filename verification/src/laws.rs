//! The laws the engine obeys, stated once over the specification
//! functions and proved: distance laws, self-alignment and
//! self-comparison, idempotence of the materialize pass, and the total
//! order on similarity levels with its worst-case/filter agreement.

use vstd::multiset::Multiset;
use vstd::prelude::*;

use crate::align::kv_align_spec;
use crate::align::lemma_kv_align_bounds;
use crate::align::lemma_kv_align_eq_multiset;
use crate::align::lemma_kv_align_sum_zero;
use crate::compare::classify_spec;
use crate::compare::compare_spec;
use crate::corpus::fill_spec;
use crate::corpus::populate_case_spec;
use crate::corpus::populate_spec;
use crate::corpus::CorpusView;
use crate::distance::ann_d;
use crate::distance::ann_no_match;
use crate::distance::annotation_dist_spec;
use crate::distance::kv_dist_spec;
use crate::distance::lemma_annotation_dist_zero;
use crate::distance::lemma_sum_prefix_bounds;
use crate::distance::sum_dists;
use crate::greedy::greedy_loop;
use crate::greedy::leftover_entries;
use crate::greedy::lemma_greedy_loop_all_matched;
use crate::levels::level_le_spec;
use crate::levels::level_rank;
use crate::levels::op_holds;
use crate::levels::satisfy_spec;
use crate::levels::worst_prefix;
use crate::levels::worst_spec;
use crate::levels::AnnotationComparison;
use crate::levels::CompareMode;
use crate::levels::CompareOp;
use crate::model::AnnotationView;
use crate::model::SlotView;

verus! {

/// Slot distance laws: a slot is at distance 0 from itself, a shared
/// key with another value scores 10, different keys score 100, and the
/// distance is symmetric.
pub proof fn lemma_kv_dist_laws(a: SlotView, b: SlotView)
    ensures
        kv_dist_spec(a, a) == 0,
        a.0 == b.0 && a.1 != b.1 ==> kv_dist_spec(a, b) == 10,
        a.0 != b.0 ==> kv_dist_spec(a, b) == 100,
        kv_dist_spec(a, b) == kv_dist_spec(b, a),
{
}

/// Aligning a slot list against itself matches every slot, in order,
/// with an equal slot at distance 0, one entry per slot.
pub proof fn lemma_kv_align_self(a: Seq<SlotView>)
    ensures
        kv_align_spec(a, a).len() == a.len(),
        forall|i: int|
            0 <= i < a.len() ==> #[trigger] kv_align_spec(a, a)[i] == (
                0int,
                Some(a[i]),
                Some(a[i]),
            ),
{
    lemma_kv_align_eq_multiset(a, a);
}

/// Annotation distance laws: an annotation is at distance 0 from
/// itself, differing intents score 1000 regardless of the slots, and
/// same-intent annotations score the summed distance of their aligned
/// slot lists.
pub proof fn lemma_annotation_dist_laws(a: AnnotationView, b: AnnotationView)
    ensures
        annotation_dist_spec(a, a) == 0,
        a.intent != b.intent ==> annotation_dist_spec(a, b) == 1000,
        a.intent == b.intent ==> annotation_dist_spec(a, b) == sum_dists(
            kv_align_spec(a.values, b.values),
        ),
{
    if a.intent == b.intent && a.values == b.values {
        lemma_kv_align_sum_zero(a.values, b.values);
    }
}

/// The annotation key whose equality is exactly "annotation distance
/// 0": the intent together with the slots as a multiset.
pub open spec fn ann_key() -> spec_fn(AnnotationView) -> (Seq<char>, Multiset<SlotView>) {
    |x: AnnotationView| (x.intent, x.values.to_multiset())
}

/// Comparing an annotation list against itself grades every pair
/// `SameValues`, one level per annotation.
pub proof fn lemma_compare_self(a: Seq<AnnotationView>)
    ensures
        compare_spec(a, a).len() == a.len(),
        forall|i: int|
            0 <= i < a.len() ==> #[trigger] compare_spec(a, a)[i]
                == AnnotationComparison::SameValues,
{
    assert(ann_no_match()(9999int));
    assert(!ann_no_match()(0int));
    assert forall|x: AnnotationView, y: AnnotationView| #[trigger] ann_d()(x, y) >= 0 by {
        assert(ann_d()(x, y) == annotation_dist_spec(x, y));
        if !(x.intent != y.intent) && !crate::model::annotation_eq(x, y) {
            lemma_kv_align_bounds(x.values, y.values);
            let entries = kv_align_spec(x.values, y.values);
            lemma_sum_prefix_bounds(entries, entries.len() as int, 0, 100);
        }
    }
    assert forall|x: AnnotationView, y: AnnotationView| (#[trigger] ann_d()(x, y) == 0)
        <==> ann_key()(x) == ann_key()(y) by {
        assert(ann_d()(x, y) == annotation_dist_spec(x, y));
        lemma_annotation_dist_zero(x, y);
        assert(ann_key()(x) == (x.intent, x.values.to_multiset()));
        assert(ann_key()(y) == (y.intent, y.values.to_multiset()));
    }
    lemma_greedy_loop_all_matched(a, a, ann_d(), ann_no_match(), true, ann_key());
    let r = greedy_loop(a, a, ann_d(), ann_no_match(), true);
    assert(leftover_entries(r.1, true).len() == 0);
    assert(crate::align::annotation_align_spec(a, a) =~= r.0);
    assert forall|i: int| 0 <= i < a.len() implies #[trigger] compare_spec(a, a)[i]
        == AnnotationComparison::SameValues by {
        let e = r.0[i];
        assert(compare_spec(a, a)[i] == classify_spec(e));
        assert(e.1 == Some(a[i]));
        let y = e.2.unwrap();
        assert(e.2 == Some(y));
        assert(ann_key()(y) == ann_key()(a[i]));
        assert(y.intent == a[i].intent);
        assert(e.0 == 0);
    }
}

/// Backfilling domains is idempotent: a second pass with the same
/// mapping looks every intent up to the same domain again.
pub proof fn lemma_fill_idempotent(m: Seq<(Seq<char>, Seq<char>)>, s: Seq<AnnotationView>)
    ensures
        fill_spec(m, fill_spec(m, s)) == fill_spec(m, s),
{
    assert(fill_spec(m, fill_spec(m, s)) =~= fill_spec(m, s));
}

/// The materialize pass is idempotent: domains and cached verdicts
/// recomputed on an already populated corpus come out unchanged, because
/// both derive from the mapping, the intents and the slots alone, which
/// the pass never alters.
pub proof fn lemma_populate_idempotent(c: CorpusView)
    ensures
        populate_spec(populate_spec(c)) == populate_spec(c),
{
    let m = c.intent_mapping;
    let p = populate_spec(c);
    assert(p.intent_mapping == m);
    assert forall|j: int| 0 <= j < p.cases.len() implies #[trigger] populate_spec(p).cases[j]
        == p.cases[j] by {
        assert(p.cases[j] == populate_case_spec(m, c.cases[j]));
        let pc = p.cases[j];
        lemma_fill_idempotent(m, c.cases[j].gold);
        lemma_fill_idempotent(m, c.cases[j].left);
        lemma_fill_idempotent(m, c.cases[j].right);
        assert(populate_spec(p).cases[j] == populate_case_spec(m, pc));
        assert(populate_case_spec(m, pc) =~~= pc);
    }
    assert(populate_spec(p) =~~= p);
}

/// The five levels are totally ordered, with `Different` the unique
/// minimum and `SameValues` the unique maximum.
pub proof fn lemma_level_order(
    x: AnnotationComparison,
    y: AnnotationComparison,
    z: AnnotationComparison,
)
    ensures
        level_le_spec(x, x),
        level_le_spec(x, y) && level_le_spec(y, x) ==> x == y,
        level_le_spec(x, y) && level_le_spec(y, z) ==> level_le_spec(x, z),
        level_le_spec(x, y) || level_le_spec(y, x),
        level_le_spec(AnnotationComparison::Different, x),
        level_le_spec(x, AnnotationComparison::SameValues),
        level_le_spec(AnnotationComparison::SameValues, x) ==> x
            == AnnotationComparison::SameValues,
        level_le_spec(x, AnnotationComparison::Different) ==> x
            == AnnotationComparison::Different,
{
}

/// The worst level of a nonempty prefix undercuts every entry of the
/// prefix and is attained by one of them.
pub proof fn lemma_worst_prefix_props(s: Seq<AnnotationComparison>, n: int)
    requires
        0 <= n <= s.len(),
    ensures
        forall|i: int| 0 <= i < n ==> level_le_spec(worst_prefix(s, n), #[trigger] s[i]),
        n > 0 ==> exists|i: int| 0 <= i < n && #[trigger] s[i] == worst_prefix(s, n),
    decreases n,
{
    if n > 0 {
        lemma_worst_prefix_props(s, n - 1);
        let w = worst_prefix(s, n - 1);
        let v = worst_prefix(s, n);
        if level_rank(s[n - 1]) < level_rank(w) {
            assert(s[n - 1] == v);
        } else if n - 1 > 0 {
            let i = choose|i: int| 0 <= i < n - 1 && #[trigger] s[i] == w;
            assert(s[i] == v);
        } else {
            assert(w == AnnotationComparison::SameValues);
            assert(level_rank(s[0]) >= 4);
            assert(s[0] == v);
        }
    }
}

/// The worst-case summary agrees with the existential filter: the worst
/// level of a nonempty sequence undercuts every entry, is attained by
/// one of them, and whenever it passes an at-most threshold, the filter
/// finds an entry passing it too.
pub proof fn lemma_worst_filter(levels: Seq<AnnotationComparison>, threshold: AnnotationComparison)
    requires
        levels.len() > 0,
    ensures
        forall|i: int|
            0 <= i < levels.len() ==> level_le_spec(worst_spec(levels), #[trigger] levels[i]),
        exists|i: int| 0 <= i < levels.len() && #[trigger] levels[i] == worst_spec(levels),
        level_le_spec(worst_spec(levels), threshold) ==> satisfy_spec(
            levels,
            CompareMode::Any,
            CompareOp::AtMost,
            threshold,
        ),
{
    lemma_worst_prefix_props(levels, levels.len() as int);
    if level_le_spec(worst_spec(levels), threshold) {
        let w = choose|i: int|
            0 <= i < levels.len() && #[trigger] levels[i] == worst_spec(levels);
        assert(op_holds(CompareOp::AtMost, levels[w], threshold));
    }
}

} // verus!
