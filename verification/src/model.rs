//! The annotation data model: slots (key/value pairs) and annotations
//! (an intent plus an ordered slot list and a derived domain).

use vstd::prelude::*;

verus! {

/// Mathematical view of a slot: the key and the value as character sequences.
pub type SlotView = (Seq<char>, Seq<char>);

/// Mathematical view of an annotation.
#[verifier::ext_equal]
pub struct AnnotationView {
    pub domain: Seq<char>,
    pub intent: Seq<char>,
    pub values: Seq<SlotView>,
}

/// One interpretation of a sentence: an intent label together with the
/// (key, value) slot pairs extracted for it.  `domain` is derived from the
/// intent through the corpus-level mapping and is not part of an
/// annotation's identity.
#[derive(Debug, PartialEq, Eq, PartialOrd, Ord, Hash)]
pub struct Annotation {
    pub domain: String,
    pub intent: String,
    pub values: Vec<(String, String)>,
}

impl View for Annotation {
    type V = AnnotationView;

    open spec fn view(&self) -> AnnotationView {
        AnnotationView {
            domain: self.domain@,
            intent: self.intent@,
            values: self.values.deep_view(),
        }
    }
}

impl DeepView for Annotation {
    type V = AnnotationView;

    open spec fn deep_view(&self) -> AnnotationView {
        self.view()
    }
}

/// Two annotations are the same when they carry the same intent and the
/// same slot sequence (same keys, same values, same order); the derived
/// domain does not take part.
pub open spec fn annotation_eq(a: AnnotationView, b: AnnotationView) -> bool {
    a.intent == b.intent && a.values == b.values
}

impl Annotation {
    /// The annotation with empty intent, empty domain and no slots.
    pub fn empty() -> (r: Self)
        ensures
            r@.domain == Seq::<char>::empty(),
            r@.intent == Seq::<char>::empty(),
            r@.values == Seq::<SlotView>::empty(),
    {
        let r = Annotation { domain: String::new(), intent: String::new(), values: Vec::new() };
        proof {
            assert(r@.values =~= Seq::<SlotView>::empty());
        }
        r
    }
}

impl Clone for Annotation {
    fn clone(&self) -> (r: Self)
        ensures
            r@ == self@,
    {
        let r = Annotation {
            domain: self.domain.clone(),
            intent: self.intent.clone(),
            values: clone_slots(&self.values),
        };
        proof {
            assert(r@ =~= self@);
        }
        r
    }
}

/// Copies a slot list; the copy has the same view as the original.
pub fn clone_slots(v: &Vec<(String, String)>) -> (r: Vec<(String, String)>)
    ensures
        r.deep_view() == v.deep_view(),
{
    let mut r: Vec<(String, String)> = Vec::new();
    let mut i: usize = 0;
    while i < v.len()
        invariant
            i <= v.len(),
            r@.len() == i,
            forall|j: int| 0 <= j < i ==> r.deep_view()[j] == v.deep_view()[j],
        decreases v.len() - i,
    {
        let key = v[i].0.clone();
        let value = v[i].1.clone();
        proof {
            assert(key@ == v@[i as int].0@);
            assert(v.deep_view()[i as int] == (v@[i as int].0@, v@[i as int].1@));
        }
        let ghost prev = r@;
        r.push((key, value));
        proof {
            assert forall|j: int| 0 <= j < i + 1 implies r.deep_view()[j] == v.deep_view()[j] by {
                assert(r.deep_view()[j] == r@[j].deep_view());
                if j < i {
                    assert(r@[j] == prev[j]);
                    assert(prev[j].deep_view() == v.deep_view()[j]);
                } else {
                    assert(r@[j] == (key, value));
                }
            }
        }
        i = i + 1;
    }
    proof {
        assert(r.deep_view() =~~= v.deep_view());
    }
    r
}

} // verus!
