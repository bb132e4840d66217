use vstd::prelude::*;

use crate::batcher::{filled_rows, filled_row};
use crate::tasks::masking::masked_data::{shaped, put_front, put_back};

verus! {

/// A batch of Python rows whose labels are their own ids.
#[derive(Debug)]
pub struct PythonData {
    pub input_ids: Vec<Vec<u32>>,
    pub attention_mask: Vec<Vec<u32>>,
    pub labels: Vec<Vec<i32>>,
    pub original: Option<Vec<Vec<u32>>>,
    pub index: usize,
    pub batch_size: usize,
    pub sequence_length: usize,
    pub attention_base: Vec<u32>,
    pub label_base: Vec<i32>,
}

/// Ids as labels.
pub open spec fn as_labels(ids: Seq<u32>) -> Seq<i32> {
    ids.map_values(|v: u32| v as i32)
}

impl PythonData {
    /// Rows of the batch's shape, attention base 0 and label base -100.
    pub open spec fn wf(&self) -> bool {
        let b = self.batch_size as nat;
        let n = self.sequence_length as nat;
        &&& shaped(self.input_ids@, b, n)
        &&& shaped(self.attention_mask@, b, n)
        &&& shaped(self.labels@, b, n)
        &&& self.attention_base@ == Seq::new(n, |i: int| 0u32)
        &&& self.label_base@ == Seq::new(n, |i: int| -100i32)
        &&& self.index <= b
    }

    /// An empty batch: ids 0, attention 1, labels -100.
    pub fn new(batch_size: usize, sequence_length: usize) -> (r: Self)
        ensures
            r.wf(),
            r.index == 0,
            r.batch_size == batch_size,
            r.sequence_length == sequence_length,
            r.original is None,
            forall|i: int| 0 <= i < batch_size ==> {
                &&& (#[trigger] r.input_ids@[i])@ == Seq::new(sequence_length as nat, |j: int| 0u32)
                &&& r.attention_mask@[i]@ == Seq::new(sequence_length as nat, |j: int| 1u32)
                &&& r.labels@[i]@ == Seq::new(sequence_length as nat, |j: int| -100i32)
            },
    {
        Self {
            input_ids: filled_rows(batch_size, sequence_length, 0u32),
            attention_mask: filled_rows(batch_size, sequence_length, 1u32),
            labels: filled_rows(batch_size, sequence_length, -100i32),
            original: None,
            index: 0,
            batch_size: batch_size,
            sequence_length: sequence_length,
            attention_base: filled_row(sequence_length, 0u32),
            label_base: filled_row(sequence_length, -100i32),
        }
    }

    /// A fresh empty batch of the same shape.
    pub fn new_data(&mut self) -> (r: Self)
        ensures
            r.wf(),
            r.index == 0,
            r.batch_size == old(self).batch_size,
            r.sequence_length == old(self).sequence_length,
            *final(self) == *old(self),
    {
        PythonData::new(self.batch_size, self.sequence_length)
    }

    /// Writes `ids` to the front of the current row and labels the row with its ids; when
    /// the row is not full, the labels and attention of its last `ids.len()` places are
    /// reset to -100 and 0. Moves to the next row; true when the batch is full.
    pub fn put_data(&mut self, ids: &[u32]) -> (r: bool)
        requires
            old(self).wf(),
            old(self).index < old(self).batch_size,
            ids@.len() <= old(self).sequence_length,
        ensures
            final(self).wf(),
            final(self).index == old(self).index + 1,
            r == (final(self).index == final(self).input_ids@.len()),
            ({
                let i = old(self).index as int;
                let n = old(self).sequence_length as nat;
                let l = ids@.len();
                let row = put_front(old(self).input_ids@[i]@, ids@);
                &&& final(self).input_ids@ == old(self).input_ids@.update(i, final(self).input_ids@[i])
                &&& final(self).labels@ == old(self).labels@.update(i, final(self).labels@[i])
                &&& final(self).attention_mask@ == old(self).attention_mask@.update(i, final(self).attention_mask@[i])
                &&& final(self).input_ids@[i]@ == row
                &&& final(self).labels@[i]@ == if l < n {
                    put_back(as_labels(row), old(self).label_base@, l)
                } else {
                    as_labels(row)
                }
                &&& final(self).attention_mask@[i]@ == if l < n {
                    put_back(old(self).attention_mask@[i]@, old(self).attention_base@, l)
                } else {
                    old(self).attention_mask@[i]@
                }
            }),
            final(self).batch_size == old(self).batch_size,
            final(self).sequence_length == old(self).sequence_length,
            final(self).attention_base == old(self).attention_base,
            final(self).label_base == old(self).label_base,
            final(self).original == old(self).original,
    {
        let i = self.index;
        let n = self.sequence_length;
        let l = ids.len();
        let mut row: Vec<u32> = Vec::new();
        std::mem::swap(&mut row, &mut self.input_ids[i]);
        let ghost row0 = row@;
        let mut k: usize = 0;
        while k < l
            invariant
                k <= l == ids@.len() <= row0.len(),
                row@ == put_front(row0, ids@.take(k as int)),
            decreases l - k,
        {
            row.set(k, ids[k]);
            k = k + 1;
            assert(row@ =~= put_front(row0, ids@.take(k as int)));
        }
        assert(ids@.take(k as int) =~= ids@);
        let mut labels: Vec<i32> = Vec::with_capacity(n);
        let mut k: usize = 0;
        while k < row.len()
            invariant
                k <= row@.len(),
                labels@ == as_labels(row@).take(k as int),
            decreases row@.len() - k,
        {
            labels.push(row[k] as i32);
            k = k + 1;
            assert(labels@ =~= as_labels(row@).take(k as int));
        }
        assert(labels@ =~= as_labels(row@));
        std::mem::swap(&mut row, &mut self.input_ids[i]);
        let mut att: Vec<u32> = Vec::new();
        std::mem::swap(&mut att, &mut self.attention_mask[i]);
        let ghost att0 = att@;
        if l < n {
            let ghost lab0 = labels@;
            let mut k: usize = n - l;
            while k < n
                invariant
                    l < n,
                    n - l <= k <= n,
                    att0.len() == n,
                    lab0.len() == n,
                    att@.len() == n,
                    labels@.len() == n,
                    self.attention_base@.len() == n,
                    self.label_base@.len() == n,
                    att@ == att0.take(n - l) + self.attention_base@.subrange(n - l, k as int) + att0.skip(k as int),
                    labels@ == lab0.take(n - l) + self.label_base@.subrange(n - l, k as int) + lab0.skip(k as int),
                decreases n - k,
            {
                att.set(k, self.attention_base[k]);
                labels.set(k, self.label_base[k]);
                k = k + 1;
                assert(att@ =~= att0.take(n - l) + self.attention_base@.subrange(n - l, k as int) + att0.skip(k as int));
                assert(labels@ =~= lab0.take(n - l) + self.label_base@.subrange(n - l, k as int) + lab0.skip(k as int));
            }
            assert(att@ =~= put_back(att0, self.attention_base@, l as nat));
            assert(labels@ =~= put_back(lab0, self.label_base@, l as nat));
        }
        std::mem::swap(&mut att, &mut self.attention_mask[i]);
        self.labels.set(i, labels);
        assert(self.input_ids@ =~= old(self).input_ids@.update(i as int, self.input_ids@[i as int]));
        assert(self.attention_mask@ =~= old(self).attention_mask@.update(i as int, self.attention_mask@[i as int]));
        self.index = self.index + 1;
        self.done()
    }

    /// Whether every row is filled.
    pub fn done(&self) -> (r: bool)
        ensures
            r == (self.index == self.input_ids@.len()),
    {
        self.index == self.input_ids.len()
    }
}

} // verus!
