//! Greedy nearest-neighbour alignment of two unordered sequences,
//! described once for any item type and any distance.
//!
//! The smaller sequence is walked in order; each element picks the first
//! nearest element still available on the other side, which is then
//! spent.  An element whose nearest distance crosses the "no usable
//! match" threshold stays unmatched at penalty 100, and spends nothing.
//! Whatever remains of the larger sequence ends up unmatched at penalty
//! 100 as well.  The result deliberately keeps this greedy, first-found
//! behaviour rather than a minimum-cost matching: classifications
//! downstream depend on it.

use vstd::prelude::*;

verus! {

/// One alignment entry: a distance, the item from the left input, and
/// the item from the right input.  Exactly one item is absent when the
/// entry records an unmatched element; both absent never occurs.
pub type AlignEntry<T> = (int, Option<T>, Option<T>);

/// Scans `l` from index `j` on, folding in the first index with the
/// least distance to `x`; `best` carries the (index, distance) found so
/// far.  Strict improvement is required, so the first of equally near
/// elements wins.
pub open spec fn best_fold<T>(
    x: T,
    l: Seq<T>,
    d: spec_fn(T, T) -> int,
    j: int,
    best: (int, int),
) -> (int, int)
    decreases l.len() - j,
{
    if j >= l.len() {
        best
    } else {
        let dd = d(x, l[j]);
        best_fold(x, l, d, j + 1, if dd < best.1 { (j, dd) } else { best })
    }
}

/// The first nearest element of `l` to `x`: its index and distance,
/// starting from the sentinel pair (0, 9999).
pub open spec fn best_of<T>(x: T, l: Seq<T>, d: spec_fn(T, T) -> int) -> (int, int) {
    best_fold(x, l, d, 0, (0, 9999))
}

/// `l` without the element at `i`, the way `Vec::swap_remove` leaves it:
/// the last element moves into the hole.
pub open spec fn swap_removed<T>(l: Seq<T>, i: int) -> Seq<T> {
    l.update(i, l.last()).drop_last()
}

/// Entry for a matched pair; which side each item lands on records which
/// original input it came from.
pub open spec fn matched_entry<T>(dist: int, x: T, y: T, small_is_left: bool) -> AlignEntry<T> {
    if small_is_left {
        (dist, Some(x), Some(y))
    } else {
        (dist, Some(y), Some(x))
    }
}

/// Entry for an element of the smaller input that found no usable match.
pub open spec fn unmatched_entry<T>(x: T, small_is_left: bool) -> AlignEntry<T> {
    if small_is_left {
        (100int, Some(x), None)
    } else {
        (100int, None, Some(x))
    }
}

/// Entries for the elements of the larger input left over at the end.
pub open spec fn leftover_entries<T>(l: Seq<T>, small_is_left: bool) -> Seq<AlignEntry<T>> {
    l.map_values(
        |z: T|
            if small_is_left {
                (100int, None::<T>, Some(z))
            } else {
                (100int, Some(z), None::<T>)
            },
    )
}

/// The main pass: one entry per element of `small`, in `small`'s order,
/// together with what remains of `large` afterwards.  `no_match` is the
/// threshold test on the nearest distance.
pub open spec fn greedy_loop<T>(
    small: Seq<T>,
    large: Seq<T>,
    d: spec_fn(T, T) -> int,
    no_match: spec_fn(int) -> bool,
    small_is_left: bool,
) -> (Seq<AlignEntry<T>>, Seq<T>)
    decreases small.len(),
{
    if small.len() == 0 {
        (Seq::empty(), large)
    } else {
        let b = best_of(small[0], large, d);
        if no_match(b.1) {
            let rest = greedy_loop(small.drop_first(), large, d, no_match, small_is_left);
            (seq![unmatched_entry(small[0], small_is_left)] + rest.0, rest.1)
        } else {
            let rest = greedy_loop(
                small.drop_first(),
                swap_removed(large, b.0),
                d,
                no_match,
                small_is_left,
            );
            (seq![matched_entry(b.1, small[0], large[b.0], small_is_left)] + rest.0, rest.1)
        }
    }
}

/// The main pass followed by the leftover entries.
pub open spec fn greedy_align_oriented<T>(
    small: Seq<T>,
    large: Seq<T>,
    d: spec_fn(T, T) -> int,
    no_match: spec_fn(int) -> bool,
    small_is_left: bool,
) -> Seq<AlignEntry<T>> {
    let r = greedy_loop(small, large, d, no_match, small_is_left);
    r.0 + leftover_entries(r.1, small_is_left)
}

/// Greedy alignment of `a` against `b`: the shorter input (ties: `a`)
/// plays the role of `small`, but each item still lands on the side of
/// the input it came from.
pub open spec fn greedy_align<T>(
    a: Seq<T>,
    b: Seq<T>,
    d: spec_fn(T, T) -> int,
    no_match: spec_fn(int) -> bool,
) -> Seq<AlignEntry<T>> {
    if a.len() <= b.len() {
        greedy_align_oriented(a, b, d, no_match, true)
    } else {
        greedy_align_oriented(b, a, d, no_match, false)
    }
}

/// What the scan of `best_fold` guarantees: the distance found never
/// grows, undercuts every scanned element, and either nothing improved
/// on `best` or the result points at a scanned element at its distance.
pub proof fn lemma_best_fold_props<T>(
    x: T,
    l: Seq<T>,
    d: spec_fn(T, T) -> int,
    j: int,
    best: (int, int),
)
    requires
        0 <= j,
    ensures
        ({
            let r = best_fold(x, l, d, j, best);
            &&& r.1 <= best.1
            &&& forall|m: int| j <= m < l.len() ==> r.1 <= #[trigger] d(x, l[m])
            &&& (r == best || (j <= r.0 < l.len() && d(x, l[r.0]) == r.1))
        }),
    decreases l.len() - j,
{
    if j < l.len() {
        let dd = d(x, l[j]);
        let nb = if dd < best.1 {
            (j, dd)
        } else {
            best
        };
        lemma_best_fold_props(x, l, d, j + 1, nb);
    }
}

/// The main pass yields one entry per element of `small` and never grows
/// `large`: a matched step spends one element of it.
pub proof fn lemma_greedy_loop_shape<T>(
    small: Seq<T>,
    large: Seq<T>,
    d: spec_fn(T, T) -> int,
    no_match: spec_fn(int) -> bool,
    small_is_left: bool,
)
    requires
        no_match(9999int),
    ensures
        ({
            let r = greedy_loop(small, large, d, no_match, small_is_left);
            &&& r.0.len() == small.len()
            &&& large.len() - small.len() <= r.1.len() <= large.len()
        }),
    decreases small.len(),
{
    if small.len() > 0 {
        let b = best_of(small[0], large, d);
        lemma_best_fold_props(small[0], large, d, 0, (0, 9999));
        if no_match(b.1) {
            lemma_greedy_loop_shape(small.drop_first(), large, d, no_match, small_is_left);
        } else {
            lemma_greedy_loop_shape(
                small.drop_first(),
                swap_removed(large, b.0),
                d,
                no_match,
                small_is_left,
            );
        }
    }
}

/// `swap_removed` takes exactly one occurrence of the removed element
/// out of the sequence's multiset.
pub proof fn lemma_swap_removed_multiset<T>(s: Seq<T>, i: int)
    requires
        0 <= i < s.len(),
    ensures
        swap_removed(s, i).to_multiset() == s.to_multiset().remove(s[i]),
{
    broadcast use vstd::seq_lib::group_to_multiset_ensures;
    broadcast use vstd::multiset::group_multiset_axioms;

    let n = s.len() as int;
    if i == n - 1 {
        assert(s.update(i, s.last()) =~= s);
        assert(swap_removed(s, i) =~= s.remove(i));
        vstd::seq_lib::to_multiset_remove(s, i);
    } else {
        let u = s.update(i, s.last());
        assert(u =~= s.remove(i).insert(i, s.last()));
        vstd::seq_lib::to_multiset_remove(s, i);
        vstd::seq_lib::to_multiset_insert(s.remove(i), i, s.last());
        assert(u.to_multiset() == s.to_multiset().remove(s[i]).insert(s.last()));
        assert(swap_removed(s, i) =~= u.remove(n - 1));
        vstd::seq_lib::to_multiset_remove(u, n - 1);
        assert(u[n - 1] == s.last());
        assert(swap_removed(s, i).to_multiset() =~= s.to_multiset().remove(s[i]));
    }
}

/// When distance 0 means exactly "same key" and the two sides carry the
/// same keys with the same multiplicities, the greedy pass matches every
/// element of `small` at distance 0 with a same-keyed partner, in
/// `small`'s order, and exhausts `large`.
pub proof fn lemma_greedy_loop_all_matched<T, K>(
    small: Seq<T>,
    large: Seq<T>,
    d: spec_fn(T, T) -> int,
    no_match: spec_fn(int) -> bool,
    small_is_left: bool,
    key: spec_fn(T) -> K,
)
    requires
        no_match(9999int),
        !no_match(0int),
        forall|x: T, y: T| #[trigger] d(x, y) >= 0,
        forall|x: T, y: T| (#[trigger] d(x, y) == 0) <==> key(x) == key(y),
        small.map_values(key).to_multiset() == large.map_values(key).to_multiset(),
    ensures
        ({
            let r = greedy_loop(small, large, d, no_match, small_is_left);
            &&& r.0.len() == small.len()
            &&& r.1.len() == 0
            &&& forall|i: int|
                0 <= i < small.len() ==> {
                    let e = #[trigger] r.0[i];
                    &&& e.0 == 0
                    &&& e.1 is Some
                    &&& e.2 is Some
                    &&& key(e.1.unwrap()) == key(small[i])
                    &&& key(e.2.unwrap()) == key(small[i])
                    &&& (small_is_left ==> e.1 == Some(small[i]))
                    &&& (!small_is_left ==> e.2 == Some(small[i]))
                }
        }),
    decreases small.len(),
{
    broadcast use vstd::seq_lib::group_to_multiset_ensures;
    broadcast use vstd::multiset::group_multiset_axioms;

    let r = greedy_loop(small, large, d, no_match, small_is_left);
    if small.len() == 0 {
        assert(small.map_values(key).to_multiset().len() == 0);
        assert(large.map_values(key).len() == 0);
        assert(r.1.len() == 0);
    } else {
        let x = small[0];
        let kx = key(x);
        assert(small.map_values(key)[0] == kx);
        assert(small.map_values(key).contains(kx));
        assert(small.map_values(key).to_multiset().count(kx) > 0);
        assert(large.map_values(key).to_multiset().count(kx) > 0);
        assert(large.map_values(key).contains(kx));
        let w = choose|w: int|
            0 <= w < large.map_values(key).len() && large.map_values(key)[w] == kx;
        assert(key(large[w]) == kx);
        assert(d(x, large[w]) == 0);
        lemma_best_fold_props(x, large, d, 0, (0, 9999));
        let b = best_of(x, large, d);
        assert(b.1 <= 0);
        assert(0 <= b.0 < large.len() && d(x, large[b.0]) == b.1);
        assert(b.1 == 0);
        assert(!no_match(b.1));
        let y = large[b.0];
        assert(key(y) == kx);
        let large2 = swap_removed(large, b.0);
        assert(large2.map_values(key) =~= swap_removed(large.map_values(key), b.0));
        lemma_swap_removed_multiset(large.map_values(key), b.0);
        assert(large.map_values(key)[b.0] == kx);
        assert(large2.map_values(key).to_multiset() == large.map_values(
            key,
        ).to_multiset().remove(kx));
        assert(small.drop_first().map_values(key) =~= small.map_values(key).remove(0));
        vstd::seq_lib::to_multiset_remove(small.map_values(key), 0);
        assert(small.drop_first().map_values(key).to_multiset() == small.map_values(
            key,
        ).to_multiset().remove(kx));
        lemma_greedy_loop_all_matched(
            small.drop_first(),
            large2,
            d,
            no_match,
            small_is_left,
            key,
        );
        let rest = greedy_loop(small.drop_first(), large2, d, no_match, small_is_left);
        assert(r.0 == seq![matched_entry(b.1, x, y, small_is_left)] + rest.0);
        assert(r.1 == rest.1);
        assert forall|i: int| 0 <= i < small.len() implies {
            let e = #[trigger] r.0[i];
            &&& e.0 == 0
            &&& e.1 is Some
            &&& e.2 is Some
            &&& key(e.1.unwrap()) == key(small[i])
            &&& key(e.2.unwrap()) == key(small[i])
            &&& (small_is_left ==> e.1 == Some(small[i]))
            &&& (!small_is_left ==> e.2 == Some(small[i]))
        } by {
            if i == 0 {
                assert(r.0[0] == matched_entry(0, x, y, small_is_left));
            } else {
                assert(r.0[i] == rest.0[i - 1]);
                assert(small.drop_first()[i - 1] == small[i]);
            }
        }
    }
}

/// Conversely: a greedy pass whose entries all sit at distance 0 and
/// which exhausted `large` pairs the two sides' keys off one for one,
/// so their key multisets agree.
pub proof fn lemma_greedy_loop_matched_multiset<T, K>(
    small: Seq<T>,
    large: Seq<T>,
    d: spec_fn(T, T) -> int,
    no_match: spec_fn(int) -> bool,
    small_is_left: bool,
    key: spec_fn(T) -> K,
)
    requires
        forall|x: T, y: T| (#[trigger] d(x, y) == 0) <==> key(x) == key(y),
        greedy_loop(small, large, d, no_match, small_is_left).1.len() == 0,
        forall|i: int|
            0 <= i < greedy_loop(small, large, d, no_match, small_is_left).0.len()
                ==> (#[trigger] greedy_loop(small, large, d, no_match, small_is_left).0[i]).0 == 0,
    ensures
        small.map_values(key).to_multiset() == large.map_values(key).to_multiset(),
    decreases small.len(),
{
    broadcast use vstd::seq_lib::group_to_multiset_ensures;
    broadcast use vstd::multiset::group_multiset_axioms;

    let r = greedy_loop(small, large, d, no_match, small_is_left);
    if small.len() == 0 {
        assert(large.len() == 0);
        assert(small.map_values(key) =~= large.map_values(key));
    } else {
        let x = small[0];
        let kx = key(x);
        let b = best_of(x, large, d);
        lemma_best_fold_props(x, large, d, 0, (0, 9999));
        if no_match(b.1) {
            assert(r.0[0] == unmatched_entry(x, small_is_left));
            assert(r.0[0].0 == 100);
            assert(false);
        }
        assert(r.0[0] == matched_entry(b.1, x, large[b.0], small_is_left));
        assert(b.1 == 0);
        assert(0 <= b.0 < large.len() && d(x, large[b.0]) == 0);
        let y = large[b.0];
        assert(key(y) == kx);
        let large2 = swap_removed(large, b.0);
        let rest = greedy_loop(small.drop_first(), large2, d, no_match, small_is_left);
        assert(r.1 == rest.1);
        assert forall|i: int| 0 <= i < rest.0.len() implies (#[trigger] rest.0[i]).0 == 0 by {
            assert(rest.0[i] == r.0[i + 1]);
        }
        lemma_greedy_loop_matched_multiset(
            small.drop_first(),
            large2,
            d,
            no_match,
            small_is_left,
            key,
        );
        assert(large2.map_values(key) =~= swap_removed(large.map_values(key), b.0));
        lemma_swap_removed_multiset(large.map_values(key), b.0);
        assert(large.map_values(key)[b.0] == kx);
        assert(large.map_values(key).contains(kx));
        assert(large.map_values(key).to_multiset().count(kx) > 0);
        assert(large2.map_values(key).to_multiset() == large.map_values(
            key,
        ).to_multiset().remove(kx));
        assert(large.map_values(key).to_multiset() =~= large2.map_values(
            key,
        ).to_multiset().insert(kx));
        assert(small.drop_first().map_values(key) =~= small.map_values(key).remove(0));
        vstd::seq_lib::to_multiset_remove(small.map_values(key), 0);
        assert(small.map_values(key)[0] == kx);
        assert(small.map_values(key).contains(kx));
        assert(small.map_values(key).to_multiset().count(kx) > 0);
        assert(small.map_values(key).to_multiset() =~= small.drop_first().map_values(
            key,
        ).to_multiset().insert(kx));
    }
}

/// When every distance is at least 0 and any distance a match may keep
/// stays at most `bound`, every entry of the main pass carries a
/// distance between 0 and `bound`.
pub proof fn lemma_greedy_loop_bounds<T>(
    small: Seq<T>,
    large: Seq<T>,
    d: spec_fn(T, T) -> int,
    no_match: spec_fn(int) -> bool,
    small_is_left: bool,
    bound: int,
)
    requires
        100 <= bound < 9999,
        no_match(9999int),
        forall|x: T, y: T| #[trigger] d(x, y) >= 0,
        forall|v: int| !#[trigger] no_match(v) ==> v <= bound,
    ensures
        ({
            let r = greedy_loop(small, large, d, no_match, small_is_left);
            forall|i: int| 0 <= i < r.0.len() ==> 0 <= #[trigger] r.0[i].0 <= bound
        }),
    decreases small.len(),
{
    if small.len() > 0 {
        let b = best_of(small[0], large, d);
        lemma_best_fold_props(small[0], large, d, 0, (0, 9999));
        let r = greedy_loop(small, large, d, no_match, small_is_left);
        if no_match(b.1) {
            lemma_greedy_loop_bounds(small.drop_first(), large, d, no_match, small_is_left, bound);
            let rest = greedy_loop(small.drop_first(), large, d, no_match, small_is_left);
            assert forall|i: int| 0 <= i < r.0.len() implies 0 <= #[trigger] r.0[i].0 <= bound by {
                if i == 0 {
                    assert(r.0[0] == unmatched_entry(small[0], small_is_left));
                } else {
                    assert(r.0[i] == rest.0[i - 1]);
                }
            }
        } else {
            lemma_greedy_loop_bounds(
                small.drop_first(),
                swap_removed(large, b.0),
                d,
                no_match,
                small_is_left,
                bound,
            );
            let rest = greedy_loop(
                small.drop_first(),
                swap_removed(large, b.0),
                d,
                no_match,
                small_is_left,
            );
            assert(b.1 <= bound);
            assert(d(small[0], large[b.0]) == b.1);
            assert forall|i: int| 0 <= i < r.0.len() implies 0 <= #[trigger] r.0[i].0 <= bound by {
                if i == 0 {
                    assert(r.0[0] == matched_entry(b.1, small[0], large[b.0], small_is_left));
                } else {
                    assert(r.0[i] == rest.0[i - 1]);
                }
            }
        }
    }
}

} // verus!
