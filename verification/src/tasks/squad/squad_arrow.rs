use vstd::prelude::*;

verus! {

/// Columns of the question, the context and the answers in a question-answering table.
#[derive(Clone, Copy, Debug)]
pub struct SquadArrowGenerator {
    pub q: usize,
    pub c: usize,
    pub a: usize,
}

} // verus!
