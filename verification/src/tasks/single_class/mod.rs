pub mod single_data;
pub mod single_arrow;
pub mod single_cases;

use vstd::prelude::*;

verus! {

/// Settings of single-label classification batches (none so far).
#[derive(Clone, Copy, Debug)]
pub struct SingleClassConfig {}

} // verus!
