use vstd::prelude::*;

verus! {

/// Columns of the text and the labels in a multi-label table.
#[derive(Clone, Copy, Debug)]
pub struct MultiArrowGenerator {
    pub t: usize,
    pub l: usize,
}

} // verus!
