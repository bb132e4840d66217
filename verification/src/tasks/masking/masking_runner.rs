use vstd::prelude::*;

verus! {

/// Kind of language-model masking.
#[derive(Clone, Copy, Debug, PartialEq, Eq, Structural)]
pub enum MaskType {
    Mlm,
    Causal,
    Span,
}

} // verus!
