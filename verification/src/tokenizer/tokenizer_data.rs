use vstd::prelude::*;

verus! {

/// Token ids of a source file with their positions, attention groups and line lengths.
#[derive(Clone, Debug)]
pub struct TokenizedData {
    pub ids: Vec<u32>,
    pub positions: Vec<u32>,
    pub attention_mask: Vec<Vec<u32>>,
    pub gaps: Vec<usize>,
}

} // verus!
