use vstd::prelude::*;

verus! {

/// Test endpoint for masked batches; it accepts every batch.
pub struct MaskingEndpoint {}

impl MaskingEndpoint {
    /// An endpoint; the training configuration is not read.
    pub fn new<C>(_config: C) -> (r: Self) {
        Self {}
    }

    /// Accepts the batch.
    pub fn check_batch<T>(&self, _data: T) -> (r: bool)
        ensures
            r,
    {
        true
    }
}

} // verus!
