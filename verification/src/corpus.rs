//! The corpus: an intent-to-domain mapping plus an ordered list of
//! cases, each holding one sentence's three parallel annotation lists
//! and that case's three cached pairwise verdicts.
//!
//! The domain fields and the cached verdicts are derived data: they are
//! recomputed by one `populate` pass after any load or mapping change,
//! never treated as authoritative input.

use vstd::prelude::*;

use crate::align::anns_bounded;
use crate::compare::compare;
use crate::compare::compare_spec;
use crate::levels::worst_of;
use crate::levels::worst_spec;
use crate::levels::AnnotationComparison;
use crate::model::clone_slots;
use crate::model::Annotation;
use crate::model::AnnotationView;

verus! {

/// The intent-to-domain mapping; keys are intents and are unique.
#[derive(Debug, PartialEq, Eq)]
pub struct IntentMapping {
    pub val: Vec<(String, String)>,
}

/// Looks `intent` up among the pairs of `m`: the domain of the first
/// pair carrying it, or the empty domain when no pair does.
pub open spec fn lookup_spec(m: Seq<(Seq<char>, Seq<char>)>, intent: Seq<char>) -> Seq<char>
    decreases m.len(),
{
    if m.len() == 0 {
        Seq::empty()
    } else if m[0].0 == intent {
        m[0].1
    } else {
        lookup_spec(m.drop_first(), intent)
    }
}

/// Keys of the mapping are pairwise distinct.
pub open spec fn mapping_wf(m: Seq<(Seq<char>, Seq<char>)>) -> bool {
    forall|i: int, j: int| 0 <= i < j < m.len() ==> (#[trigger] m[i]).0 != (#[trigger] m[j]).0
}

impl View for IntentMapping {
    type V = Seq<(Seq<char>, Seq<char>)>;

    open spec fn view(&self) -> Seq<(Seq<char>, Seq<char>)> {
        self.val.deep_view()
    }
}

impl IntentMapping {
    /// The mapping's invariant: no intent appears twice.
    pub open spec fn wf(&self) -> bool {
        mapping_wf(self@)
    }

    /// The domain of `intent`, or the empty string when the mapping
    /// does not know the intent: a lookup miss is not an error.
    #[verifier::loop_isolation(false)]
    pub fn domain_of(&self, intent: &String) -> (r: String)
        ensures
            r@ == lookup_spec(self@, intent@),
    {
        proof {
            assert(self@.skip(0) =~= self@);
        }
        let mut i: usize = 0;
        while i < self.val.len()
            invariant
                i <= self.val@.len(),
                lookup_spec(self@, intent@) == lookup_spec(self@.skip(i as int), intent@),
            decreases self.val@.len() - i,
        {
            proof {
                assert(self@.skip(i as int)[0] == self@[i as int]);
                assert(self@.skip(i as int).drop_first() =~= self@.skip(i as int + 1));
            }
            if self.val[i].0 == *intent {
                return self.val[i].1.clone();
            }
            i = i + 1;
        }
        proof {
            assert(self@.skip(self@.len() as int) =~= Seq::<(Seq<char>, Seq<char>)>::empty());
        }
        String::new()
    }
}

/// Mathematical view of a case.
#[verifier::ext_equal]
pub struct CaseView {
    pub text: Seq<char>,
    pub reference: int,
    pub count: int,
    pub gold: Seq<AnnotationView>,
    pub left: Seq<AnnotationView>,
    pub right: Seq<AnnotationView>,
    pub gold_vs_left: AnnotationComparison,
    pub gold_vs_right: AnnotationComparison,
    pub left_vs_right: AnnotationComparison,
}

/// One sentence with its three parallel annotation lists (a reference
/// labelling and two candidates), a stable reference identifier, the
/// number of identical source utterances it stands for, and the three
/// cached pairwise verdicts, one per unordered pair of lists.
#[derive(Debug, Hash, PartialEq, Eq)]
pub struct Case {
    pub text: String,
    pub reference: usize,
    pub count: usize,
    pub gold: Vec<Annotation>,
    pub left: Vec<Annotation>,
    pub right: Vec<Annotation>,
    pub gold_vs_left: AnnotationComparison,
    pub gold_vs_right: AnnotationComparison,
    pub left_vs_right: AnnotationComparison,
}

impl View for Case {
    type V = CaseView;

    open spec fn view(&self) -> CaseView {
        CaseView {
            text: self.text@,
            reference: self.reference as int,
            count: self.count as int,
            gold: self.gold.deep_view(),
            left: self.left.deep_view(),
            right: self.right.deep_view(),
            gold_vs_left: self.gold_vs_left,
            gold_vs_right: self.gold_vs_right,
            left_vs_right: self.left_vs_right,
        }
    }
}

impl DeepView for Case {
    type V = CaseView;

    open spec fn deep_view(&self) -> CaseView {
        self.view()
    }
}

/// Mathematical view of a corpus.
#[verifier::ext_equal]
pub struct CorpusView {
    pub intent_mapping: Seq<(Seq<char>, Seq<char>)>,
    pub cases: Seq<CaseView>,
}

/// The whole data set: the intent-to-domain mapping and the cases.
#[derive(Debug, PartialEq, Eq)]
pub struct Corpus {
    pub intent_mapping: IntentMapping,
    pub cases: Vec<Case>,
}

impl View for Corpus {
    type V = CorpusView;

    open spec fn view(&self) -> CorpusView {
        CorpusView { intent_mapping: self.intent_mapping@, cases: self.cases.deep_view() }
    }
}

/// Every annotation list of the case stays within the aligners' slot
/// cap.
pub open spec fn case_bounded(c: CaseView) -> bool {
    anns_bounded(c.gold) && anns_bounded(c.left) && anns_bounded(c.right)
}

/// Every case of the corpus stays within the aligners' slot cap.
pub open spec fn corpus_bounded(c: CorpusView) -> bool {
    forall|i: int| 0 <= i < c.cases.len() ==> case_bounded(#[trigger] c.cases[i])
}

/// An annotation list with every domain freshly derived from the
/// mapping; intents and slots stay as they are.
pub open spec fn fill_spec(m: Seq<(Seq<char>, Seq<char>)>, s: Seq<AnnotationView>) -> Seq<
    AnnotationView,
> {
    s.map_values(
        |a: AnnotationView|
            AnnotationView { domain: lookup_spec(m, a.intent), intent: a.intent, values: a.values },
    )
}

/// A case with domains backfilled from the mapping and the three cached
/// verdicts recomputed from the freshly filled lists: each cache is the
/// worst level of the pairwise comparison.
pub open spec fn populate_case_spec(m: Seq<(Seq<char>, Seq<char>)>, c: CaseView) -> CaseView {
    let g = fill_spec(m, c.gold);
    let l = fill_spec(m, c.left);
    let r = fill_spec(m, c.right);
    CaseView {
        text: c.text,
        reference: c.reference,
        count: c.count,
        gold: g,
        left: l,
        right: r,
        gold_vs_left: worst_spec(compare_spec(g, l)),
        gold_vs_right: worst_spec(compare_spec(g, r)),
        left_vs_right: worst_spec(compare_spec(l, r)),
    }
}

/// The corpus after one materialize pass: mapping unchanged, every case
/// populated.
pub open spec fn populate_spec(c: CorpusView) -> CorpusView {
    CorpusView {
        intent_mapping: c.intent_mapping,
        cases: c.cases.map_values(|cs: CaseView| populate_case_spec(c.intent_mapping, cs)),
    }
}

/// Copies an annotation list while deriving each annotation's domain
/// from the mapping.
#[verifier::loop_isolation(false)]
fn fill_annotations(m: &IntentMapping, v: &Vec<Annotation>) -> (r: Vec<Annotation>)
    ensures
        r.deep_view() == fill_spec(m@, v.deep_view()),
{
    let mut r: Vec<Annotation> = Vec::new();
    let mut i: usize = 0;
    while i < v.len()
        invariant
            i <= v.len(),
            r@.len() == i,
            forall|j: int| 0 <= j < i ==> r.deep_view()[j] == fill_spec(m@, v.deep_view())[j],
        decreases v.len() - i,
    {
        let ghost prev = r@;
        let ghost pre = r.deep_view();
        let a = &v[i];
        let filled = Annotation {
            domain: m.domain_of(&a.intent),
            intent: a.intent.clone(),
            values: clone_slots(&a.values),
        };
        proof {
            assert(filled@ =~= fill_spec(m@, v.deep_view())[i as int]);
        }
        r.push(filled);
        proof {
            assert forall|j: int| 0 <= j < i + 1 implies r.deep_view()[j] == fill_spec(
                m@,
                v.deep_view(),
            )[j] by {
                assert(r.deep_view()[j] == r@[j].deep_view());
                if j < i {
                    assert(r@[j] == prev[j]);
                    assert(pre[j] == fill_spec(m@, v.deep_view())[j]);
                    assert(pre[j] == prev[j].deep_view());
                }
            }
        }
        i = i + 1;
    }
    proof {
        assert(r.deep_view() =~~= fill_spec(m@, v.deep_view()));
    }
    r
}

impl Corpus {
    /// The corpus with no mapping entries and no cases.
    pub fn empty() -> (r: Self)
        ensures
            r@.intent_mapping == Seq::<(Seq<char>, Seq<char>)>::empty(),
            r@.cases == Seq::<CaseView>::empty(),
    {
        let r = Corpus { intent_mapping: IntentMapping { val: Vec::new() }, cases: Vec::new() };
        proof {
            assert(r@.intent_mapping =~= Seq::<(Seq<char>, Seq<char>)>::empty());
            assert(r@.cases =~= Seq::<CaseView>::empty());
        }
        r
    }

    /// The materialize pass: derives every annotation's domain from the
    /// mapping, then recomputes the three cached verdicts of every case
    /// from the freshly filled lists.  Run it once after a load or a
    /// mapping change, before any display or filter logic reads the
    /// derived fields.
    #[verifier::loop_isolation(false)]
    pub fn populate(&mut self)
        requires
            corpus_bounded(old(self)@),
        ensures
            final(self)@ == populate_spec(old(self)@),
    {
        let ghost m = old(self)@.intent_mapping;
        let mut new_cases: Vec<Case> = Vec::new();
        let mut i: usize = 0;
        while i < self.cases.len()
            invariant
                i <= self.cases@.len(),
                new_cases@.len() == i,
                forall|j: int|
                    0 <= j < i ==> new_cases.deep_view()[j] == populate_case_spec(
                        m,
                        old(self)@.cases[j],
                    ),
        decreases self.cases@.len() - i,
        {
            let ghost prev = new_cases@;
            let ghost pre = new_cases.deep_view();
            let ghost cv = old(self)@.cases[i as int];
            let c = &self.cases[i];
            proof {
                assert(case_bounded(cv));
            }
            let g = fill_annotations(&self.intent_mapping, &c.gold);
            let l = fill_annotations(&self.intent_mapping, &c.left);
            let rt = fill_annotations(&self.intent_mapping, &c.right);
            proof {
                assert(anns_bounded(g.deep_view()));
                assert(anns_bounded(l.deep_view()));
                assert(anns_bounded(rt.deep_view()));
            }
            let cmp_gl = compare(&g, &l);
            let gl = worst_of(&cmp_gl);
            let cmp_gr = compare(&g, &rt);
            let gr = worst_of(&cmp_gr);
            let cmp_lr = compare(&l, &rt);
            let lr = worst_of(&cmp_lr);
            let filled = Case {
                text: c.text.clone(),
                reference: c.reference,
                count: c.count,
                gold: g,
                left: l,
                right: rt,
                gold_vs_left: gl,
                gold_vs_right: gr,
                left_vs_right: lr,
            };
            proof {
                assert(filled@ =~= populate_case_spec(m, cv));
            }
            new_cases.push(filled);
            proof {
                assert forall|j: int| 0 <= j < i + 1 implies new_cases.deep_view()[j]
                    == populate_case_spec(m, old(self)@.cases[j]) by {
                    assert(new_cases.deep_view()[j] == new_cases@[j].deep_view());
                    if j < i {
                        assert(new_cases@[j] == prev[j]);
                        assert(pre[j] == populate_case_spec(m, old(self)@.cases[j]));
                        assert(pre[j] == prev[j].deep_view());
                    }
                }
            }
            i = i + 1;
        }
        self.cases = new_cases;
        proof {
            assert(self@ =~~= populate_spec(old(self)@));
        }
    }
}

} // verus!
