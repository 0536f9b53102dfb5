//! Score fusion methods of hybrid (vector + fulltext) search.
use vstd::prelude::*;
use crate::bytes::str_equal;

verus! {

/// Score fusion method for hybrid search.
#[derive(Debug, Clone, Copy, PartialEq, Eq)]
pub enum FusionMethod {
    Weighted,
    Rrf,
}

impl Default for FusionMethod {
    fn default() -> (r: Self)
        ensures
            r == FusionMethod::Weighted,
    {
        FusionMethod::Weighted
    }
}

/// Reciprocal rank fusion constant.
pub const RRF_K: u32 = 60;

impl FusionMethod {
    /// Strict parse: only `weighted` and `rrf`.
    pub fn parse(s: &str) -> (r: Option<Self>)
        ensures
            r == if s@ == "weighted"@ {
                Some(FusionMethod::Weighted)
            } else if s@ == "rrf"@ {
                Some(FusionMethod::Rrf)
            } else {
                None
            },
    {
        if str_equal(s, "weighted") {
            Some(FusionMethod::Weighted)
        } else if str_equal(s, "rrf") {
            Some(FusionMethod::Rrf)
        } else {
            None
        }
    }
}

} // verus!
