use vstd::prelude::*;

verus! {

/// The prepared single-label cases.
#[derive(Clone, Copy, Debug, PartialEq, Eq, Structural)]
pub enum Cases {
    Imdb,
}

} // verus!
