pub mod multi_data;
pub mod multi_arrow;

use vstd::prelude::*;

verus! {

/// Settings of multi-label classification: the number of labels.
#[derive(Clone, Copy, Debug)]
pub struct MultiConfig {
    pub number_labels: usize,
}

} // verus!
