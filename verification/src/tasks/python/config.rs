use vstd::prelude::*;

verus! {

/// Settings of the hierarchical Python batches: masked positions per row and the sizes of
/// the attention layers.
#[derive(Clone, Debug)]
pub struct PythonConfig {
    pub mask_length: usize,
    pub context_shape: Vec<usize>,
}

impl PythonConfig {
    /// A copy of this configuration.
    pub fn copy(&self) -> (r: Self)
        ensures
            r.mask_length == self.mask_length,
            r.context_shape@ == self.context_shape@,
    {
        let mut shape: Vec<usize> = Vec::with_capacity(self.context_shape.len());
        let mut k: usize = 0;
        while k < self.context_shape.len()
            invariant
                k <= self.context_shape@.len(),
                shape@ == self.context_shape@.take(k as int),
            decreases self.context_shape@.len() - k,
        {
            shape.push(self.context_shape[k]);
            k = k + 1;
            assert(shape@ =~= self.context_shape@.take(k as int));
        }
        assert(self.context_shape@.take(k as int) =~= self.context_shape@);
        PythonConfig { mask_length: self.mask_length, context_shape: shape }
    }
}

} // verus!
