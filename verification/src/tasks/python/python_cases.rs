use vstd::prelude::*;

verus! {

/// The prepared Python cases.
#[derive(Clone, Copy, Debug, PartialEq, Eq, Structural)]
pub enum Cases {
    Basic,
    Context,
    Span,
}

} // verus!
