//! Alignment and comparison engine for natural-language-understanding
//! annotations.
//!
//! An annotation labels one sentence with an intent and a list of
//! (key, value) slot pairs.  Given two unordered annotation lists for the
//! same sentence, the engine greedily matches them up and classifies each
//! aligned pair on a five-step similarity scale, from `Different` up to
//! `SameValues`.

use vstd::prelude::*;

pub mod align;
pub mod compare;
pub mod corpus;
pub mod distance;
pub mod greedy;
pub mod laws;
pub mod levels;
pub mod model;

verus! {

pub use crate::align::annotation_align;
pub use crate::align::kv_align;
pub use crate::compare::compare;
pub use crate::corpus::Case;
pub use crate::corpus::Corpus;
pub use crate::corpus::IntentMapping;
pub use crate::distance::annotation_dist;
pub use crate::distance::kv_dist;
pub use crate::levels::all_levels;
pub use crate::levels::level_from_str;
pub use crate::levels::levels_satisfy;
pub use crate::levels::worst_of;
pub use crate::levels::AnnotationComparison;
pub use crate::levels::AsStr;
pub use crate::levels::CompareMode;
pub use crate::levels::CompareOp;
pub use crate::model::Annotation;

} // verus!
