use vstd::prelude::*;

verus! {

/// A text with its labels.
#[derive(Debug, Clone)]
pub struct MultiTransport {
    pub text: String,
    pub labels: Vec<u32>,
}

} // verus!
