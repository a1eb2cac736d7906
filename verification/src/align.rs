//! The two aligners: slot lists against slot lists, annotation lists
//! against annotation lists.  Both run the same greedy nearest-neighbour
//! pass; they differ in the distance used and in the threshold beyond
//! which a nearest match is discarded.

use vstd::prelude::*;

use crate::distance::ann_d;
use crate::distance::ann_no_match;
use crate::distance::annotation_dist;
use crate::distance::annotation_dist_spec;
use crate::distance::kv_d;
use crate::distance::kv_dist;
use crate::distance::kv_dist_spec;
use crate::distance::kv_no_match;
use crate::distance::lemma_sum_prefix_bounds;
use crate::distance::lemma_sum_prefix_zero;
use crate::distance::sum_dists;
use crate::distance::MAX_ANNOTATION_SLOTS;
use crate::greedy::best_fold;
use crate::greedy::best_of;
use crate::greedy::greedy_align;
use crate::greedy::greedy_align_oriented;
use crate::greedy::greedy_loop;
use crate::greedy::leftover_entries;
use crate::greedy::lemma_best_fold_props;
use crate::greedy::lemma_greedy_loop_all_matched;
use crate::greedy::lemma_greedy_loop_bounds;
use crate::greedy::lemma_greedy_loop_matched_multiset;
use crate::greedy::lemma_greedy_loop_shape;
use crate::greedy::matched_entry;
use crate::greedy::swap_removed;
use crate::greedy::unmatched_entry;
use crate::greedy::AlignEntry;
use crate::model::clone_slots;
use crate::model::Annotation;
use crate::model::AnnotationView;
use crate::model::SlotView;

verus! {

/// One entry of a slot alignment as executable data.
pub type KvAligned = (u32, Option<(String, String)>, Option<(String, String)>);

/// One entry of an annotation alignment as executable data.
pub type AnnAligned = (u32, Option<Annotation>, Option<Annotation>);

/// Greedy alignment of two slot lists.
pub open spec fn kv_align_spec(a: Seq<SlotView>, b: Seq<SlotView>) -> Seq<AlignEntry<SlotView>> {
    greedy_align(a, b, kv_d(), kv_no_match())
}

/// Greedy alignment of two annotation lists.
pub open spec fn annotation_align_spec(a: Seq<AnnotationView>, b: Seq<AnnotationView>) -> Seq<
    AlignEntry<AnnotationView>,
> {
    greedy_align(a, b, ann_d(), ann_no_match())
}

/// The mathematical reading of an executable slot alignment.
pub open spec fn kv_result_view(r: Seq<KvAligned>) -> Seq<AlignEntry<SlotView>> {
    r.map_values(|e: KvAligned| (e.0 as int, e.1.deep_view(), e.2.deep_view()))
}

/// The mathematical reading of an executable annotation alignment.
pub open spec fn ann_result_view(r: Seq<AnnAligned>) -> Seq<AlignEntry<AnnotationView>> {
    r.map_values(|e: AnnAligned| (e.0 as int, e.1.deep_view(), e.2.deep_view()))
}

/// A slot alignment has at most one entry per input element, each at a
/// distance between 0 and 100.
pub proof fn lemma_kv_align_bounds(a: Seq<SlotView>, b: Seq<SlotView>)
    ensures
        kv_align_spec(a, b).len() <= a.len() + b.len(),
        forall|i: int|
            0 <= i < kv_align_spec(a, b).len() ==> 0 <= #[trigger] kv_align_spec(a, b)[i].0
                <= 100,
{
    assert(kv_no_match()(9999int));
    assert forall|x: SlotView, y: SlotView| #[trigger] kv_d()(x, y) >= 0 by {
        assert(kv_d()(x, y) == kv_dist_spec(x, y));
    }
    assert forall|v: int| !#[trigger] kv_no_match()(v) implies v <= 100 by {}
    if a.len() <= b.len() {
        lemma_kv_align_bounds_oriented(a, b, true);
    } else {
        lemma_kv_align_bounds_oriented(b, a, false);
    }
}

proof fn lemma_kv_align_bounds_oriented(small: Seq<SlotView>, large: Seq<SlotView>, flag: bool)
    ensures
        greedy_align_oriented(small, large, kv_d(), kv_no_match(), flag).len() <= small.len()
            + large.len(),
        forall|i: int|
            0 <= i < greedy_align_oriented(small, large, kv_d(), kv_no_match(), flag).len()
                ==> 0 <= #[trigger] greedy_align_oriented(
                small,
                large,
                kv_d(),
                kv_no_match(),
                flag,
            )[i].0 <= 100,
{
    assert(kv_no_match()(9999int));
    assert forall|x: SlotView, y: SlotView| #[trigger] kv_d()(x, y) >= 0 by {
        assert(kv_d()(x, y) == kv_dist_spec(x, y));
    }
    assert forall|v: int| !#[trigger] kv_no_match()(v) implies v <= 100 by {}
    lemma_greedy_loop_shape(small, large, kv_d(), kv_no_match(), flag);
    lemma_greedy_loop_bounds(small, large, kv_d(), kv_no_match(), flag, 100);
    let r = greedy_loop(small, large, kv_d(), kv_no_match(), flag);
    let whole = greedy_align_oriented(small, large, kv_d(), kv_no_match(), flag);
    assert(whole == r.0 + leftover_entries(r.1, flag));
    assert forall|i: int| 0 <= i < whole.len() implies 0 <= #[trigger] whole[i].0 <= 100 by {
        if i < r.0.len() {
            assert(whole[i] == r.0[i]);
        } else {
            assert(whole[i] == leftover_entries(r.1, flag)[i - r.0.len()]);
        }
    }
}

/// The identity key on slots: two slots are "the same" exactly when the
/// slot distance between them is 0.
pub open spec fn slot_key() -> spec_fn(SlotView) -> SlotView {
    |s: SlotView| s
}

/// Aligning two slot lists that hold the same slots with the same
/// multiplicities matches every slot of `a`, in order, at distance 0
/// with an equal slot, and leaves nothing over.
pub proof fn lemma_kv_align_eq_multiset(a: Seq<SlotView>, b: Seq<SlotView>)
    requires
        a.to_multiset() == b.to_multiset(),
    ensures
        kv_align_spec(a, b).len() == a.len(),
        forall|i: int|
            0 <= i < a.len() ==> #[trigger] kv_align_spec(a, b)[i] == (
                0int,
                Some(a[i]),
                Some(a[i]),
            ),
{
    broadcast use vstd::seq_lib::group_to_multiset_ensures;

    assert(a.to_multiset().len() == a.len());
    assert(b.to_multiset().len() == b.len());
    assert(a.len() == b.len());
    assert(kv_no_match()(9999int));
    assert(!kv_no_match()(0int));
    assert forall|x: SlotView, y: SlotView| #[trigger] kv_d()(x, y) >= 0 by {
        assert(kv_d()(x, y) == kv_dist_spec(x, y));
    }
    assert forall|x: SlotView, y: SlotView| (#[trigger] kv_d()(x, y) == 0) <==> slot_key()(x)
        == slot_key()(y) by {
        assert(kv_d()(x, y) == kv_dist_spec(x, y));
        assert(slot_key()(x) == x && slot_key()(y) == y);
    }
    assert(a.map_values(slot_key()) =~= a);
    assert(b.map_values(slot_key()) =~= b);
    lemma_greedy_loop_all_matched(a, b, kv_d(), kv_no_match(), true, slot_key());
    let r = greedy_loop(a, b, kv_d(), kv_no_match(), true);
    assert(leftover_entries(r.1, true).len() == 0);
    assert(kv_align_spec(a, b) =~= r.0);
    assert forall|i: int| 0 <= i < a.len() implies #[trigger] kv_align_spec(a, b)[i] == (
        0int,
        Some(a[i]),
        Some(a[i]),
    ) by {
        let e = r.0[i];
        assert(slot_key()(e.2.unwrap()) == slot_key()(a[i]));
        assert(e.2.unwrap() == a[i]);
        assert(e.2 == Some(a[i]));
        assert(e.1 == Some(a[i]));
        assert(e.0 == 0);
    }
}

/// Same-multiset slot lists align at total distance 0.
pub proof fn lemma_kv_align_sum_zero(a: Seq<SlotView>, b: Seq<SlotView>)
    requires
        a.to_multiset() == b.to_multiset(),
    ensures
        sum_dists(kv_align_spec(a, b)) == 0,
{
    lemma_kv_align_eq_multiset(a, b);
    let entries = kv_align_spec(a, b);
    lemma_sum_prefix_bounds(entries, entries.len() as int, 0, 0);
}

/// A slot alignment at total distance 0 can only pair equal slots off
/// one for one: the two lists hold the same slots with the same
/// multiplicities.
pub proof fn lemma_kv_align_zero_multiset(a: Seq<SlotView>, b: Seq<SlotView>)
    requires
        sum_dists(kv_align_spec(a, b)) == 0,
    ensures
        a.to_multiset() == b.to_multiset(),
{
    broadcast use vstd::seq_lib::group_to_multiset_ensures;

    assert(kv_no_match()(9999int));
    assert forall|x: SlotView, y: SlotView| (#[trigger] kv_d()(x, y) == 0) <==> slot_key()(x)
        == slot_key()(y) by {
        assert(kv_d()(x, y) == kv_dist_spec(x, y));
        assert(slot_key()(x) == x && slot_key()(y) == y);
    }
    lemma_kv_align_bounds(a, b);
    let entries = kv_align_spec(a, b);
    lemma_sum_prefix_zero(entries, entries.len() as int);
    if a.len() <= b.len() {
        lemma_kv_align_zero_oriented(a, b, true);
    } else {
        lemma_kv_align_zero_oriented(b, a, false);
    }
    assert(a.map_values(slot_key()) =~= a);
    assert(b.map_values(slot_key()) =~= b);
}

proof fn lemma_kv_align_zero_oriented(small: Seq<SlotView>, large: Seq<SlotView>, flag: bool)
    requires
        forall|i: int|
            0 <= i < greedy_align_oriented(small, large, kv_d(), kv_no_match(), flag).len()
                ==> #[trigger] greedy_align_oriented(small, large, kv_d(), kv_no_match(), flag)[i].0
                == 0,
    ensures
        small.map_values(slot_key()).to_multiset() == large.map_values(slot_key()).to_multiset(),
{
    assert forall|x: SlotView, y: SlotView| (#[trigger] kv_d()(x, y) == 0) <==> slot_key()(x)
        == slot_key()(y) by {
        assert(kv_d()(x, y) == kv_dist_spec(x, y));
        assert(slot_key()(x) == x && slot_key()(y) == y);
    }
    let r = greedy_loop(small, large, kv_d(), kv_no_match(), flag);
    let whole = greedy_align_oriented(small, large, kv_d(), kv_no_match(), flag);
    assert(whole == r.0 + leftover_entries(r.1, flag));
    if r.1.len() > 0 {
        let bad = r.0.len() as int;
        assert(whole[bad] == leftover_entries(r.1, flag)[0]);
        assert(whole[bad].0 == 100);
        assert(false);
    }
    assert forall|i: int| 0 <= i < r.0.len() implies (#[trigger] r.0[i]).0 == 0 by {
        assert(r.0[i] == whole[i]);
    }
    lemma_greedy_loop_matched_multiset(small, large, kv_d(), kv_no_match(), flag, slot_key());
}

/// Runs the greedy pass with `small` walked in order against a working
/// copy of `large`, then emits the leftovers of `large`.
#[verifier::loop_isolation(false)]
fn kv_align_inner(small: &Vec<(String, String)>, large0: &Vec<(String, String)>, flag: bool) -> (r:
    Vec<KvAligned>)
    ensures
        kv_result_view(r@) == greedy_align_oriented(
            small.deep_view(),
            large0.deep_view(),
            kv_d(),
            kv_no_match(),
            flag,
        ),
{
    let ghost sv = small.deep_view();
    let ghost full = greedy_loop(sv, large0.deep_view(), kv_d(), kv_no_match(), flag);
    let mut large = clone_slots(large0);
    let mut result: Vec<KvAligned> = Vec::new();
    proof {
        assert(sv.skip(0) =~= sv);
        assert(kv_result_view(result@) + full.0 =~= full.0);
    }
    let mut i: usize = 0;
    while i < small.len()
        invariant
            i <= small.len(),
            full.0 == kv_result_view(result@) + greedy_loop(
                sv.skip(i as int),
                large.deep_view(),
                kv_d(),
                kv_no_match(),
                flag,
            ).0,
            full.1 == greedy_loop(
                sv.skip(i as int),
                large.deep_view(),
                kv_d(),
                kv_no_match(),
                flag,
            ).1,
        decreases small.len() - i,
    {
        let ghost lv = large.deep_view();
        let mut best_i: usize = 0;
        let mut best_d: u32 = 9999;
        let mut j: usize = 0;
        while j < large.len()
            invariant
                j <= large.len(),
                best_fold(
                    sv[i as int],
                    lv,
                    kv_d(),
                    j as int,
                    (best_i as int, best_d as int),
                ) == best_of(sv[i as int], lv, kv_d()),
                (best_i == 0 && best_d == 9999) || (best_i < j && best_d < 9999 && best_d as int
                    == kv_dist_spec(sv[i as int], lv[best_i as int])),
            decreases large.len() - j,
        {
            let dj = kv_dist(&small[i], &large[j]);
            proof {
                assert(kv_d()(sv[i as int], lv[j as int]) == kv_dist_spec(
                    sv[i as int],
                    lv[j as int],
                ));
            }
            if dj < best_d {
                best_i = j;
                best_d = dj;
            }
            j = j + 1;
        }
        let ghost b = best_of(sv[i as int], lv, kv_d());
        proof {
            assert(b == (best_i as int, best_d as int));
            assert(sv.skip(i as int)[0] == sv[i as int]);
            assert(sv.skip(i as int).drop_first() =~= sv.skip(i as int + 1));
        }
        let ghost pre_result = result@;
        let xc = (small[i].0.clone(), small[i].1.clone());
        let ghost entry_v: AlignEntry<SlotView>;
        if best_d >= 100 {
            proof {
                assert(kv_no_match()(b.1));
                entry_v = unmatched_entry(sv[i as int], flag);
            }
            if flag {
                result.push((100, Some(xc), None));
            } else {
                result.push((100, None, Some(xc)));
            }
            proof {
                assert(result@[pre_result.len() as int].1.deep_view() == entry_v.1);
                assert(result@[pre_result.len() as int].2.deep_view() == entry_v.2);
            }
        } else {
            proof {
                assert(!kv_no_match()(b.1));
                entry_v = matched_entry(b.1, sv[i as int], lv[best_i as int], flag);
            }
            let y = large.swap_remove(best_i);
            proof {
                assert(y.deep_view() == lv[best_i as int]);
                assert(large.deep_view() =~~= swap_removed(lv, best_i as int));
            }
            if flag {
                result.push((best_d, Some(xc), Some(y)));
            } else {
                result.push((best_d, Some(y), Some(xc)));
            }
            proof {
                assert(result@[pre_result.len() as int].1.deep_view() == entry_v.1);
                assert(result@[pre_result.len() as int].2.deep_view() == entry_v.2);
            }
        }
        proof {
            assert(kv_result_view(result@) =~= kv_result_view(pre_result).push(entry_v));
            assert(kv_result_view(pre_result) + (seq![entry_v] + greedy_loop(
                sv.skip(i as int + 1),
                large.deep_view(),
                kv_d(),
                kv_no_match(),
                flag,
            ).0) =~= kv_result_view(result@) + greedy_loop(
                sv.skip(i as int + 1),
                large.deep_view(),
                kv_d(),
                kv_no_match(),
                flag,
            ).0);
        }
        i = i + 1;
    }
    proof {
        assert(sv.skip(sv.len() as int) =~= Seq::<SlotView>::empty());
        assert(full.0 + Seq::<AlignEntry<SlotView>>::empty() =~= full.0);
        assert(kv_result_view(result@) == full.0);
        assert(full.1 == large.deep_view());
    }
    let mut k: usize = 0;
    while k < large.len()
        invariant
            k <= large.len(),
            kv_result_view(result@) == full.0 + leftover_entries(
                large.deep_view().take(k as int),
                flag,
            ),
        decreases large.len() - k,
    {
        let ghost pre_result = result@;
        let zc = (large[k].0.clone(), large[k].1.clone());
        let ghost entry_v: AlignEntry<SlotView>;
        proof {
            entry_v = leftover_entries(large.deep_view(), flag)[k as int];
        }
        if flag {
            result.push((100, None, Some(zc)));
        } else {
            result.push((100, Some(zc), None));
        }
        proof {
            assert(result@[pre_result.len() as int].1.deep_view() == entry_v.1);
            assert(result@[pre_result.len() as int].2.deep_view() == entry_v.2);
            assert(kv_result_view(result@) =~= kv_result_view(pre_result).push(entry_v));
            assert(full.0 + leftover_entries(large.deep_view().take(k as int + 1), flag) =~= (
            full.0 + leftover_entries(large.deep_view().take(k as int), flag)).push(entry_v));
        }
        k = k + 1;
    }
    proof {
        assert(large.deep_view().take(large@.len() as int) =~= large.deep_view());
    }
    result
}

/// Greedily aligns two slot lists: each slot of the shorter list takes
/// the first nearest slot of the other list, a nearest distance of 100
/// or more (different keys) stays unmatched at penalty 100, and the
/// unused slots of the longer list trail as unmatched entries.
pub fn kv_align(a: &Vec<(String, String)>, b: &Vec<(String, String)>) -> (r: Vec<KvAligned>)
    ensures
        kv_result_view(r@) == kv_align_spec(a.deep_view(), b.deep_view()),
{
    if a.len() <= b.len() {
        kv_align_inner(a, b, true)
    } else {
        kv_align_inner(b, a, false)
    }
}

/// Whether every annotation of the list keeps its slot count within
/// `MAX_ANNOTATION_SLOTS`, so that any two of them may be handed to the
/// annotation distance.
pub open spec fn anns_bounded(s: Seq<AnnotationView>) -> bool {
    forall|i: int| 0 <= i < s.len() ==> #[trigger] s[i].values.len() <= MAX_ANNOTATION_SLOTS as int
}

/// Copies an annotation list; the copy has the same view as the
/// original.
pub fn clone_annotations(v: &Vec<Annotation>) -> (r: Vec<Annotation>)
    ensures
        r.deep_view() == v.deep_view(),
{
    let mut r: Vec<Annotation> = Vec::new();
    let mut i: usize = 0;
    while i < v.len()
        invariant
            i <= v.len(),
            r@.len() == i,
            forall|j: int| 0 <= j < i ==> r.deep_view()[j] == v.deep_view()[j],
        decreases v.len() - i,
    {
        let ghost prev = r@;
        let c = v[i].clone();
        r.push(c);
        proof {
            assert forall|j: int| 0 <= j < i + 1 implies r.deep_view()[j] == v.deep_view()[j] by {
                assert(r.deep_view()[j] == r@[j].deep_view());
                if j < i {
                    assert(r@[j] == prev[j]);
                    assert(prev[j].deep_view() == v.deep_view()[j]);
                } else {
                    assert(r@[j] == c);
                }
            }
        }
        i = i + 1;
    }
    proof {
        assert(r.deep_view() =~~= v.deep_view());
    }
    r
}

/// Runs the greedy pass over annotations with `small` walked in order
/// against a working copy of `large`, then emits the leftovers.
#[verifier::loop_isolation(false)]
fn annotation_align_inner(small: &Vec<Annotation>, large0: &Vec<Annotation>, flag: bool) -> (r: Vec<
    AnnAligned,
>)
    requires
        anns_bounded(small.deep_view()),
        anns_bounded(large0.deep_view()),
    ensures
        ann_result_view(r@) == greedy_align_oriented(
            small.deep_view(),
            large0.deep_view(),
            ann_d(),
            ann_no_match(),
            flag,
        ),
{
    let ghost sv = small.deep_view();
    let ghost full = greedy_loop(sv, large0.deep_view(), ann_d(), ann_no_match(), flag);
    let mut large = clone_annotations(large0);
    let mut result: Vec<AnnAligned> = Vec::new();
    proof {
        assert(sv.skip(0) =~= sv);
        assert(ann_result_view(result@) + full.0 =~= full.0);
    }
    let mut i: usize = 0;
    while i < small.len()
        invariant
            i <= small.len(),
            anns_bounded(large.deep_view()),
            full.0 == ann_result_view(result@) + greedy_loop(
                sv.skip(i as int),
                large.deep_view(),
                ann_d(),
                ann_no_match(),
                flag,
            ).0,
            full.1 == greedy_loop(
                sv.skip(i as int),
                large.deep_view(),
                ann_d(),
                ann_no_match(),
                flag,
            ).1,
        decreases small.len() - i,
    {
        let ghost lv = large.deep_view();
        let mut best_i: usize = 0;
        let mut best_d: u32 = 9999;
        let mut j: usize = 0;
        while j < large.len()
            invariant
                j <= large.len(),
                best_fold(
                    sv[i as int],
                    lv,
                    ann_d(),
                    j as int,
                    (best_i as int, best_d as int),
                ) == best_of(sv[i as int], lv, ann_d()),
                (best_i == 0 && best_d == 9999) || (best_i < j && best_d < 9999 && best_d as int
                    == annotation_dist_spec(sv[i as int], lv[best_i as int])),
            decreases large.len() - j,
        {
            proof {
                assert(sv[i as int].values.len() <= MAX_ANNOTATION_SLOTS as int);
                assert(lv[j as int].values.len() <= MAX_ANNOTATION_SLOTS as int);
            }
            let dj = annotation_dist(&small[i], &large[j]);
            proof {
                assert(ann_d()(sv[i as int], lv[j as int]) == annotation_dist_spec(
                    sv[i as int],
                    lv[j as int],
                ));
            }
            if dj < best_d {
                best_i = j;
                best_d = dj;
            }
            j = j + 1;
        }
        let ghost b = best_of(sv[i as int], lv, ann_d());
        proof {
            assert(b == (best_i as int, best_d as int));
            assert(sv.skip(i as int)[0] == sv[i as int]);
            assert(sv.skip(i as int).drop_first() =~= sv.skip(i as int + 1));
        }
        let ghost pre_result = result@;
        let xc = small[i].clone();
        if best_d > 1000 {
            let ghost entry_v = unmatched_entry(sv[i as int], flag);
            proof {
                assert(ann_no_match()(b.1));
            }
            if flag {
                result.push((100, Some(xc), None));
            } else {
                result.push((100, None, Some(xc)));
            }
            proof {
                assert(result@[pre_result.len() as int].1.deep_view() == entry_v.1);
                assert(result@[pre_result.len() as int].2.deep_view() == entry_v.2);
                assert(ann_result_view(result@) =~= ann_result_view(pre_result).push(entry_v));
                assert(ann_result_view(pre_result) + (seq![entry_v] + greedy_loop(
                    sv.skip(i as int + 1),
                    large.deep_view(),
                    ann_d(),
                    ann_no_match(),
                    flag,
                ).0) =~= ann_result_view(result@) + greedy_loop(
                    sv.skip(i as int + 1),
                    large.deep_view(),
                    ann_d(),
                    ann_no_match(),
                    flag,
                ).0);
            }
        } else {
            let ghost entry_v = matched_entry(b.1, sv[i as int], lv[best_i as int], flag);
            proof {
                assert(!ann_no_match()(b.1));
            }
            let y = large.swap_remove(best_i);
            proof {
                assert(y.deep_view() == lv[best_i as int]);
                assert(large.deep_view() =~~= swap_removed(lv, best_i as int));
                assert forall|m: int| 0 <= m < large.deep_view().len() implies #[trigger] large
                    .deep_view()[m].values.len() <= MAX_ANNOTATION_SLOTS as int by {
                    if m == best_i as int {
                        assert(large.deep_view()[m] == lv[lv.len() - 1]);
                    } else {
                        assert(large.deep_view()[m] == lv[m]);
                    }
                }
            }
            if flag {
                result.push((best_d, Some(xc), Some(y)));
            } else {
                result.push((best_d, Some(y), Some(xc)));
            }
            proof {
                assert(result@[pre_result.len() as int].1.deep_view() == entry_v.1);
                assert(result@[pre_result.len() as int].2.deep_view() == entry_v.2);
                assert(ann_result_view(result@) =~= ann_result_view(pre_result).push(entry_v));
                assert(ann_result_view(pre_result) + (seq![entry_v] + greedy_loop(
                    sv.skip(i as int + 1),
                    large.deep_view(),
                    ann_d(),
                    ann_no_match(),
                    flag,
                ).0) =~= ann_result_view(result@) + greedy_loop(
                    sv.skip(i as int + 1),
                    large.deep_view(),
                    ann_d(),
                    ann_no_match(),
                    flag,
                ).0);
            }
        }
        i = i + 1;
    }
    proof {
        assert(sv.skip(sv.len() as int) =~= Seq::<AnnotationView>::empty());
        assert(full.0 + Seq::<AlignEntry<AnnotationView>>::empty() =~= full.0);
        assert(ann_result_view(result@) == full.0);
        assert(full.1 == large.deep_view());
    }
    let mut k: usize = 0;
    while k < large.len()
        invariant
            k <= large.len(),
            ann_result_view(result@) == full.0 + leftover_entries(
                large.deep_view().take(k as int),
                flag,
            ),
        decreases large.len() - k,
    {
        let ghost pre_result = result@;
        let zc = large[k].clone();
        let ghost entry_v = leftover_entries(large.deep_view(), flag)[k as int];
        if flag {
            result.push((100, None, Some(zc)));
        } else {
            result.push((100, Some(zc), None));
        }
        proof {
            assert(result@[pre_result.len() as int].1.deep_view() == entry_v.1);
            assert(result@[pre_result.len() as int].2.deep_view() == entry_v.2);
            assert(ann_result_view(result@) =~= ann_result_view(pre_result).push(entry_v));
            assert(full.0 + leftover_entries(large.deep_view().take(k as int + 1), flag) =~= (
            full.0 + leftover_entries(large.deep_view().take(k as int), flag)).push(entry_v));
        }
        k = k + 1;
    }
    proof {
        assert(large.deep_view().take(large@.len() as int) =~= large.deep_view());
    }
    result
}

/// Greedily aligns two annotation lists: each annotation of the shorter
/// list takes the first nearest annotation of the other list, a nearest
/// distance beyond 1000 stays unmatched at penalty 100 (an intent
/// mismatch alone, exactly 1000, still matches), and the unused
/// annotations of the longer list trail as unmatched entries.
pub fn annotation_align(a: &Vec<Annotation>, b: &Vec<Annotation>) -> (r: Vec<AnnAligned>)
    requires
        anns_bounded(a.deep_view()),
        anns_bounded(b.deep_view()),
    ensures
        ann_result_view(r@) == annotation_align_spec(a.deep_view(), b.deep_view()),
{
    if a.len() <= b.len() {
        annotation_align_inner(a, b, true)
    } else {
        annotation_align_inner(b, a, false)
    }
}

} // verus!
