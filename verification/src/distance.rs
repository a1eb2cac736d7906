//! Distances between slots and between annotations.
//!
//! Slots score on a deliberately coarse 0/10/100 scale: 0 for an equal
//! pair, 10 for the same key with another value (a near miss), 100 for
//! different keys (different properties entirely).  Annotations score 0
//! when equal, 1000 when their intents differ, and otherwise the summed
//! distance of their aligned slot lists, which has no fixed upper bound.

use vstd::prelude::*;

use crate::align::kv_align;
use crate::align::kv_align_spec;
use crate::align::kv_result_view;
use crate::align::lemma_kv_align_bounds;
use crate::greedy::AlignEntry;
use crate::model::annotation_eq;
use crate::model::Annotation;
use crate::model::AnnotationView;
use crate::model::SlotView;

verus! {

/// Cap on one annotation's slot count accepted by the aligners; two
/// such lists summed stay within `MAX_ALIGN_SLOTS`.
pub const MAX_ANNOTATION_SLOTS: usize = 21_474_836;

/// Cap on the combined slot count of two annotations handed to the
/// slot distance sum, so that the sum, at most 100 per entry, fits the
/// 32-bit distance type.
pub const MAX_ALIGN_SLOTS: usize = 42_949_672;

/// Distance between two slots: 0 when equal, 100 when the keys differ,
/// 10 otherwise (same key, another value).
pub open spec fn kv_dist_spec(a: SlotView, b: SlotView) -> int {
    if a == b {
        0
    } else if a.0 != b.0 {
        100
    } else {
        10
    }
}

/// The slot distance as a function value, for the greedy alignment.
pub open spec fn kv_d() -> spec_fn(SlotView, SlotView) -> int {
    |a: SlotView, b: SlotView| kv_dist_spec(a, b)
}

/// The slot aligner discards a nearest match at distance 100 or more:
/// a different key is no usable match.
pub open spec fn kv_no_match() -> spec_fn(int) -> bool {
    |v: int| v >= 100
}

/// Distance between two (key, value) slots on the 0/10/100 scale.
pub fn kv_dist(a: &(String, String), b: &(String, String)) -> (r: u32)
    ensures
        r as int == kv_dist_spec(a.deep_view(), b.deep_view()),
{
    if a.0 == b.0 {
        if a.1 == b.1 {
            proof {
                assert(a.deep_view() == b.deep_view());
            }
            0
        } else {
            10
        }
    } else {
        100
    }
}

/// Whether two slot lists are equal: same length, same keys, same
/// values, same order.
pub fn slots_eq(a: &Vec<(String, String)>, b: &Vec<(String, String)>) -> (r: bool)
    ensures
        r == (a.deep_view() == b.deep_view()),
{
    if a.len() != b.len() {
        proof {
            assert(a.deep_view().len() != b.deep_view().len());
        }
        return false;
    }
    let mut i: usize = 0;
    while i < a.len()
        invariant
            i <= a.len(),
            a@.len() == b@.len(),
            forall|j: int| 0 <= j < i ==> a.deep_view()[j] == b.deep_view()[j],
        decreases a.len() - i,
    {
        if !(a[i].0 == b[i].0) || !(a[i].1 == b[i].1) {
            proof {
                assert(a.deep_view()[i as int] != b.deep_view()[i as int]);
            }
            return false;
        }
        proof {
            assert(a.deep_view()[i as int] == b.deep_view()[i as int]);
        }
        i = i + 1;
    }
    proof {
        assert(a.deep_view() =~~= b.deep_view());
    }
    true
}

/// Sum of the distances of the first `n` alignment entries.
pub open spec fn sum_prefix<T>(s: Seq<AlignEntry<T>>, n: int) -> int
    decreases n,
{
    if n <= 0 {
        0
    } else {
        sum_prefix(s, n - 1) + s[n - 1].0
    }
}

/// Summed distance of a whole alignment.
pub open spec fn sum_dists<T>(s: Seq<AlignEntry<T>>) -> int {
    sum_prefix(s, s.len() as int)
}

/// Entry distances between `lo` and `hi` keep every prefix sum between
/// `lo * n` and `hi * n`.
pub proof fn lemma_sum_prefix_bounds<T>(s: Seq<AlignEntry<T>>, n: int, lo: int, hi: int)
    requires
        0 <= n <= s.len(),
        forall|i: int| 0 <= i < s.len() ==> lo <= #[trigger] s[i].0 <= hi,
    ensures
        lo * n <= sum_prefix(s, n) <= hi * n,
    decreases n,
{
    if n > 0 {
        lemma_sum_prefix_bounds(s, n - 1, lo, hi);
        assert(lo <= s[n - 1].0 <= hi);
        assert(lo * n == lo * (n - 1) + lo) by (nonlinear_arith);
        assert(hi * n == hi * (n - 1) + hi) by (nonlinear_arith);
    } else {
        assert(lo * 0 == 0) by (nonlinear_arith);
        assert(hi * 0 == 0) by (nonlinear_arith);
        assert(lo * n <= 0 <= hi * n) by (nonlinear_arith)
            requires
                n == 0,
        ;
    }
}

/// Nonnegative entries keep every prefix sum nonnegative.
pub proof fn lemma_sum_prefix_nonneg<T>(s: Seq<AlignEntry<T>>, n: int)
    requires
        n <= s.len(),
        forall|i: int| 0 <= i < s.len() ==> #[trigger] s[i].0 >= 0,
    ensures
        sum_prefix(s, n) >= 0,
    decreases n,
{
    if n > 0 {
        lemma_sum_prefix_nonneg(s, n - 1);
    }
}

/// A zero sum over nonnegative entries means every summed entry is zero.
pub proof fn lemma_sum_prefix_zero<T>(s: Seq<AlignEntry<T>>, n: int)
    requires
        0 <= n <= s.len(),
        sum_prefix(s, n) == 0,
        forall|i: int| 0 <= i < s.len() ==> #[trigger] s[i].0 >= 0,
    ensures
        forall|i: int| 0 <= i < n ==> #[trigger] s[i].0 == 0,
    decreases n,
{
    if n > 0 {
        lemma_sum_prefix_nonneg(s, n - 1);
        assert(s[n - 1].0 >= 0);
        assert(sum_prefix(s, n - 1) == 0);
        lemma_sum_prefix_zero(s, n - 1);
    }
}

/// Distance between two annotations: 0 when they are the same
/// annotation (same intent, same slot sequence), 1000 when the intents
/// differ, and otherwise the summed distance of their aligned slots.
pub open spec fn annotation_dist_spec(a: AnnotationView, b: AnnotationView) -> int {
    if annotation_eq(a, b) {
        0
    } else if a.intent != b.intent {
        1000
    } else {
        sum_dists(kv_align_spec(a.values, b.values))
    }
}

/// The annotation distance as a function value, for the greedy
/// alignment.
pub open spec fn ann_d() -> spec_fn(AnnotationView, AnnotationView) -> int {
    |a: AnnotationView, b: AnnotationView| annotation_dist_spec(a, b)
}

/// The annotation aligner discards a nearest match only beyond 1000: an
/// intent mismatch alone, exactly 1000, still counts as a (poor) match.
pub open spec fn ann_no_match() -> spec_fn(int) -> bool {
    |v: int| v > 1000
}

/// Two annotations sit at distance 0 exactly when they carry the same
/// intent and the same slots with the same multiplicities (possibly in
/// another order): the greedy slot alignment pairs equal slots off one
/// for one at total distance 0, and nothing else sums to 0.
pub proof fn lemma_annotation_dist_zero(a: AnnotationView, b: AnnotationView)
    ensures
        (annotation_dist_spec(a, b) == 0) <==> (a.intent == b.intent
            && a.values.to_multiset() == b.values.to_multiset()),
{
    if annotation_eq(a, b) {
    } else if a.intent == b.intent {
        if a.values.to_multiset() == b.values.to_multiset() {
            crate::align::lemma_kv_align_sum_zero(a.values, b.values);
        }
        if annotation_dist_spec(a, b) == 0 {
            crate::align::lemma_kv_align_zero_multiset(a.values, b.values);
        }
    }
}

/// Distance between two annotations; the slot lists together must stay
/// within `MAX_ALIGN_SLOTS` so that the sum fits the result type.
pub fn annotation_dist(a: &Annotation, b: &Annotation) -> (r: u32)
    requires
        a@.values.len() + b@.values.len() <= MAX_ALIGN_SLOTS as int,
    ensures
        r as int == annotation_dist_spec(a@, b@),
{
    if a.intent == b.intent && slots_eq(&a.values, &b.values) {
        proof {
            assert(annotation_eq(a@, b@));
        }
        return 0;
    }
    if !(a.intent == b.intent) {
        return 1000;
    }
    let al = kv_align(&a.values, &b.values);
    let ghost entries = kv_result_view(al@);
    proof {
        lemma_kv_align_bounds(a@.values, b@.values);
    }
    let mut total: u32 = 0;
    let mut i: usize = 0;
    while i < al.len()
        invariant
            i <= al@.len(),
            al@.len() == entries.len(),
            entries == kv_align_spec(a@.values, b@.values),
            entries.len() <= MAX_ALIGN_SLOTS as int,
            forall|j: int| 0 <= j < entries.len() ==> 0 <= #[trigger] entries[j].0 <= 100,
            forall|j: int| 0 <= j < entries.len() ==> entries[j].0 == al@[j].0 as int,
            total as int == sum_prefix(entries, i as int),
            total as int <= 100 * i as int,
        decreases al@.len() - i,
    {
        proof {
            lemma_sum_prefix_bounds(entries, i + 1 as int, 0, 100);
            assert(100 * (i + 1 as int) <= 100 * MAX_ALIGN_SLOTS as int) by (nonlinear_arith)
                requires
                    i + 1 as int <= MAX_ALIGN_SLOTS as int,
            ;
        }
        total = total + al[i].0;
        i = i + 1;
    }
    total
}

} // verus!
