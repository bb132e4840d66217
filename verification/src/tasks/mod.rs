pub mod python;
pub mod masking;
pub mod single_class;
pub mod squad;
pub mod multi_label;
pub mod task_config;
pub mod cases;
pub mod runner_simple;

use vstd::prelude::*;

verus! {

/// Name and length of a dataset.
#[derive(Debug, Clone)]
pub struct DatasetInfo {
    pub name: String,
    pub length: u32,
}

} // verus!
