use vstd::prelude::*;

verus! {

/// Columns of the text and the label in a single-label table.
#[derive(Clone, Copy, Debug)]
pub struct SingleClassArrowGenerator {
    pub t: usize,
    pub l: usize,
}

} // verus!
