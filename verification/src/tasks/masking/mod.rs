pub mod masked_data;
pub mod masking_test_endpoint;
pub mod gpt2_test_endpoint;
pub mod t5_test_endpoint;
pub mod masking_runner;
pub mod masking_cases;

use vstd::prelude::*;

verus! {

/// Masking settings: how many positions of each row are masked.
#[derive(Clone, Copy, Debug)]
pub struct MaskingConfig {
    pub mask_length: usize,
}

} // verus!
