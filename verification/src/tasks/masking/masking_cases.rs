use vstd::prelude::*;

verus! {

/// The prepared masking cases.
#[derive(Clone, Copy, Debug, PartialEq, Eq, Structural)]
pub enum MaskingCases {
    Test,
    Basic,
}

} // verus!
