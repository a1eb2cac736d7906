//! The five-step similarity scale for compared annotations, its total
//! order, its display labels, and the summaries that consumers derive
//! from a sequence of levels (worst case, and threshold filtering).

use vstd::prelude::*;

verus! {

/// How similar two aligned annotations are, from least to most similar.
/// The declaration order carries the total order used by filters and by
/// worst-case summaries: `Different < SameDomains < SameIntents <
/// SameProperties < SameValues`.
#[derive(Clone, Copy, Debug, Hash, PartialEq, Eq, PartialOrd, Ord, Structural)]
pub enum AnnotationComparison {
    Different,
    SameDomains,
    SameIntents,
    SameProperties,
    SameValues,
}

/// Whether a filter asks for every entry, or for at least one entry,
/// to meet its criterion.
#[derive(Clone, Copy, Debug, PartialEq, Eq, Structural)]
pub enum CompareMode {
    All,
    Any,
}

/// The comparison operator of a level filter.
#[derive(Clone, Copy, Debug, PartialEq, Eq, Structural)]
pub enum CompareOp {
    AtMost,
    AtLeast,
    EqualTo,
    NotEqualTo,
}

/// Position of a level on the scale: 0 for `Different` up to 4 for
/// `SameValues`.
pub open spec fn level_rank(l: AnnotationComparison) -> int {
    match l {
        AnnotationComparison::Different => 0,
        AnnotationComparison::SameDomains => 1,
        AnnotationComparison::SameIntents => 2,
        AnnotationComparison::SameProperties => 3,
        AnnotationComparison::SameValues => 4,
    }
}

/// The total order on levels: `a` is at most as similar as `b`.
pub open spec fn level_le_spec(a: AnnotationComparison, b: AnnotationComparison) -> bool {
    level_rank(a) <= level_rank(b)
}

impl AnnotationComparison {
    /// Position of the level on the scale, least similar first.
    pub fn rank(&self) -> (r: u8)
        ensures
            r as int == level_rank(*self),
    {
        match self {
            AnnotationComparison::Different => 0,
            AnnotationComparison::SameDomains => 1,
            AnnotationComparison::SameIntents => 2,
            AnnotationComparison::SameProperties => 3,
            AnnotationComparison::SameValues => 4,
        }
    }

    /// Whether `self` is at most as similar as `other` on the scale.
    pub fn le(&self, other: &AnnotationComparison) -> (r: bool)
        ensures
            r == level_le_spec(*self, *other),
    {
        self.rank() <= other.rank()
    }
}

impl Default for AnnotationComparison {
    /// A fresh, not yet compared pair counts as entirely different.
    fn default() -> (r: Self)
        ensures
            r == AnnotationComparison::Different,
    {
        AnnotationComparison::Different
    }
}

/// A type with a stable display label.
pub trait AsStr {
    /// The label as a character sequence, for contracts.
    spec fn label(&self) -> Seq<char>;

    /// The display label.
    fn as_str(&self) -> (r: &str)
        ensures
            r@ == self.label(),
    ;
}

impl AsStr for AnnotationComparison {
    open spec fn label(&self) -> Seq<char> {
        match *self {
            AnnotationComparison::Different => "different"@,
            AnnotationComparison::SameDomains => "same domains"@,
            AnnotationComparison::SameIntents => "same intents"@,
            AnnotationComparison::SameProperties => "same properties"@,
            AnnotationComparison::SameValues => "same values"@,
        }
    }

    fn as_str(&self) -> (r: &str)
        ensures
            r@ == self.label(),
    {
        match self {
            AnnotationComparison::Different => "different",
            AnnotationComparison::SameDomains => "same domains",
            AnnotationComparison::SameIntents => "same intents",
            AnnotationComparison::SameProperties => "same properties",
            AnnotationComparison::SameValues => "same values",
        }
    }
}

/// The level whose label is `s`, if any.
pub open spec fn level_of_label(s: Seq<char>) -> Option<AnnotationComparison> {
    if s == "different"@ {
        Some(AnnotationComparison::Different)
    } else if s == "same domains"@ {
        Some(AnnotationComparison::SameDomains)
    } else if s == "same intents"@ {
        Some(AnnotationComparison::SameIntents)
    } else if s == "same properties"@ {
        Some(AnnotationComparison::SameProperties)
    } else if s == "same values"@ {
        Some(AnnotationComparison::SameValues)
    } else {
        None
    }
}

/// The level whose display label is `s`: the inverse of `as_str`.
pub fn level_from_str(s: &str) -> (r: Option<AnnotationComparison>)
    ensures
        r == level_of_label(s@),
{
    let o = s.to_owned();
    if o == "different".to_owned() {
        Some(AnnotationComparison::Different)
    } else if o == "same domains".to_owned() {
        Some(AnnotationComparison::SameDomains)
    } else if o == "same intents".to_owned() {
        Some(AnnotationComparison::SameIntents)
    } else if o == "same properties".to_owned() {
        Some(AnnotationComparison::SameProperties)
    } else if o == "same values".to_owned() {
        Some(AnnotationComparison::SameValues)
    } else {
        None
    }
}

/// All five levels, least similar first.
pub fn all_levels() -> (r: Vec<AnnotationComparison>)
    ensures
        r@.len() == 5,
        forall|i: int| 0 <= i < 5 ==> level_rank(r@[i]) == i,
{
    let mut r: Vec<AnnotationComparison> = Vec::new();
    r.push(AnnotationComparison::Different);
    r.push(AnnotationComparison::SameDomains);
    r.push(AnnotationComparison::SameIntents);
    r.push(AnnotationComparison::SameProperties);
    r.push(AnnotationComparison::SameValues);
    r
}

/// Worst level among the first `n` entries of `s`; `SameValues` when
/// there are none.  The most-different pair dominates.
pub open spec fn worst_prefix(s: Seq<AnnotationComparison>, n: int) -> AnnotationComparison
    decreases n,
{
    if n <= 0 {
        AnnotationComparison::SameValues
    } else {
        let w = worst_prefix(s, n - 1);
        if level_rank(s[n - 1]) < level_rank(w) {
            s[n - 1]
        } else {
            w
        }
    }
}

/// Worst-case summary of a level sequence: its least element, or
/// `SameValues` for an empty sequence.
pub open spec fn worst_spec(s: Seq<AnnotationComparison>) -> AnnotationComparison {
    worst_prefix(s, s.len() as int)
}

/// Worst level in `levels`: the single verdict for a case.
pub fn worst_of(levels: &Vec<AnnotationComparison>) -> (r: AnnotationComparison)
    ensures
        r == worst_spec(levels@),
{
    let mut w = AnnotationComparison::SameValues;
    let mut i: usize = 0;
    while i < levels.len()
        invariant
            i <= levels.len(),
            w == worst_prefix(levels@, i as int),
        decreases levels.len() - i,
    {
        let x = levels[i];
        if x.rank() < w.rank() {
            w = x;
        }
        i = i + 1;
    }
    w
}

/// Whether level `x` stands in relation `op` to the threshold `t`.
pub open spec fn op_holds(op: CompareOp, x: AnnotationComparison, t: AnnotationComparison) -> bool {
    match op {
        CompareOp::AtMost => level_le_spec(x, t),
        CompareOp::AtLeast => level_le_spec(t, x),
        CompareOp::EqualTo => x == t,
        CompareOp::NotEqualTo => x != t,
    }
}

/// Whether a level sequence meets the filter: under `Any`, some entry
/// stands in relation `op` to the threshold; under `All`, every entry
/// does.
pub open spec fn satisfy_spec(
    s: Seq<AnnotationComparison>,
    mode: CompareMode,
    op: CompareOp,
    t: AnnotationComparison,
) -> bool {
    match mode {
        CompareMode::Any => exists|i: int| 0 <= i < s.len() && op_holds(op, s[i], t),
        CompareMode::All => forall|i: int| 0 <= i < s.len() ==> op_holds(op, s[i], t),
    }
}

fn op_test(op: CompareOp, x: AnnotationComparison, t: AnnotationComparison) -> (r: bool)
    ensures
        r == op_holds(op, x, t),
{
    match op {
        CompareOp::AtMost => x.le(&t),
        CompareOp::AtLeast => t.le(&x),
        CompareOp::EqualTo => x.rank() == t.rank(),
        CompareOp::NotEqualTo => x.rank() != t.rank(),
    }
}

/// Evaluates the filter over `levels`: under `CompareMode::Any`, does any
/// entry stand in relation `op` to the threshold `t`; under
/// `CompareMode::All`, do all entries.
#[verifier::loop_isolation(false)]
pub fn levels_satisfy(
    levels: &Vec<AnnotationComparison>,
    mode: CompareMode,
    op: CompareOp,
    t: AnnotationComparison,
) -> (r: bool)
    ensures
        r == satisfy_spec(levels@, mode, op, t),
{
    match mode {
        CompareMode::Any => {
            let mut i: usize = 0;
            while i < levels.len()
                invariant
                    i <= levels.len(),
                    forall|j: int| 0 <= j < i ==> !op_holds(op, levels@[j], t),
                decreases levels.len() - i,
            {
                if op_test(op, levels[i], t) {
                    proof {
                        assert(0 <= i < levels@.len() && op_holds(op, levels@[i as int], t));
                    }
                    return true;
                }
                i = i + 1;
            }
            false
        },
        CompareMode::All => {
            let mut i: usize = 0;
            while i < levels.len()
                invariant
                    i <= levels.len(),
                    forall|j: int| 0 <= j < i ==> op_holds(op, levels@[j], t),
                decreases levels.len() - i,
            {
                if !op_test(op, levels[i], t) {
                    return false;
                }
                i = i + 1;
            }
            true
        },
    }
}

} // verus!
