use vstd::prelude::*;

verus! {

/// Shape of a batch: rows per batch and tokens per row.
#[derive(Clone, Copy, Debug)]
pub struct BatchConfig {
    pub batch_size: usize,
    pub sequence_length: usize,
}

/// A row of `n` copies of `v`.
pub fn filled_row<T: Copy>(n: usize, v: T) -> (r: Vec<T>)
    ensures
        r@ == Seq::new(n as nat, |i: int| v),
{
    let mut r: Vec<T> = Vec::with_capacity(n);
    let mut k: usize = 0;
    while k < n
        invariant
            k <= n,
            r@ == Seq::new(k as nat, |i: int| v),
        decreases n - k,
    {
        r.push(v);
        k = k + 1;
        assert(r@ =~= Seq::new(k as nat, |i: int| v));
    }
    r
}

/// `rows` rows of `n` copies of `v`.
pub fn filled_rows<T: Copy>(rows: usize, n: usize, v: T) -> (r: Vec<Vec<T>>)
    ensures
        r@.len() == rows,
        forall|i: int| 0 <= i < rows ==> (#[trigger] r@[i])@ == Seq::new(n as nat, |j: int| v),
{
    let mut r: Vec<Vec<T>> = Vec::with_capacity(rows);
    let mut k: usize = 0;
    while k < rows
        invariant
            k <= rows,
            r@.len() == k,
            forall|i: int| 0 <= i < k ==> (#[trigger] r@[i])@ == Seq::new(n as nat, |j: int| v),
        decreases rows - k,
    {
        let row = filled_row(n, v);
        r.push(row);
        k = k + 1;
    }
    r
}

impl BatchConfig {
    /// A batch filled with `v`: `batch_size` rows of `sequence_length` copies.
    pub fn create_vector(&self, v: u32) -> (r: Vec<Vec<u32>>)
        ensures
            r@.len() == self.batch_size,
            forall|i: int| 0 <= i < self.batch_size ==> (#[trigger] r@[i])@ == Seq::new(self.sequence_length as nat, |j: int| v),
    {
        filled_rows(self.batch_size, self.sequence_length, v)
    }

    /// `batch_size` copies of `v`.
    pub fn create_vector_1d(&self, v: u32) -> (r: Vec<u32>)
        ensures
            r@ == Seq::new(self.batch_size as nat, |i: int| v),
    {
        filled_row(self.batch_size, v)
    }
}

} // verus!
