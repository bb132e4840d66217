use vstd::prelude::*;

use crate::batcher::BatchConfig;
use crate::tokenizer::encoding::EncodingData;
use crate::tasks::masking::masked_data::{shaped, put_front};
use super::SingleClassConfig;

verus! {

/// A batch of single-label classification rows.
#[derive(Debug)]
pub struct SingleClassData {
    pub input_ids: Vec<Vec<u32>>,
    pub attention_mask: Vec<Vec<u32>>,
    pub token_type_ids: Vec<Vec<u32>>,
    pub label: Vec<u32>,
    pub config: SingleClassConfig,
    pub batch_config: BatchConfig,
    pub index: usize,
}

/// Number of tokens of an encoding written to a row of `n` places.
pub open spec fn row_length(e: EncodingData, n: nat) -> nat {
    if e.ids@.len() < n {
        e.ids@.len()
    } else {
        n
    }
}

/// Writes the first `l` entries of `data` to the front of row `i` of `rows`.
pub fn copy_front_row(rows: &mut Vec<Vec<u32>>, i: usize, data: &Vec<u32>, l: usize)
    requires
        i < old(rows)@.len(),
        l <= data@.len(),
        l <= old(rows)@[i as int]@.len(),
    ensures
        final(rows)@ == old(rows)@.update(i as int, final(rows)@[i as int]),
        final(rows)@[i as int]@ == put_front(old(rows)@[i as int]@, data@.take(l as int)),
{
    let mut row: Vec<u32> = Vec::new();
    std::mem::swap(&mut row, &mut rows[i]);
    let ghost row0 = row@;
    let mut k: usize = 0;
    while k < l
        invariant
            k <= l <= data@.len(),
            l <= row0.len(),
            row@ == put_front(row0, data@.take(k as int)),
        decreases l - k,
    {
        row.set(k, data[k]);
        k = k + 1;
        assert(row@ =~= put_front(row0, data@.take(k as int)));
    }
    std::mem::swap(&mut row, &mut rows[i]);
    assert(rows@ =~= old(rows)@.update(i as int, rows@[i as int]));
}

impl SingleClassData {
    /// Rows of the batch's shape and one label per row.
    pub open spec fn wf(&self) -> bool {
        let b = self.batch_config.batch_size as nat;
        let n = self.batch_config.sequence_length as nat;
        &&& shaped(self.input_ids@, b, n)
        &&& shaped(self.attention_mask@, b, n)
        &&& shaped(self.token_type_ids@, b, n)
        &&& self.label@.len() == b
    }

    /// An empty batch: every entry 0.
    pub fn new(config: &SingleClassConfig, batch_config: BatchConfig) -> (r: Self)
        ensures
            r.wf(),
            r.index == 0,
            r.batch_config == batch_config,
            r.label@ == Seq::new(batch_config.batch_size as nat, |i: int| 0u32),
            forall|i: int| 0 <= i < batch_config.batch_size ==> {
                &&& (#[trigger] r.input_ids@[i])@ == Seq::new(batch_config.sequence_length as nat, |j: int| 0u32)
                &&& r.attention_mask@[i]@ == Seq::new(batch_config.sequence_length as nat, |j: int| 0u32)
                &&& r.token_type_ids@[i]@ == Seq::new(batch_config.sequence_length as nat, |j: int| 0u32)
            },
    {
        Self {
            input_ids: batch_config.create_vector(0),
            attention_mask: batch_config.create_vector(0),
            token_type_ids: batch_config.create_vector(0),
            label: batch_config.create_vector_1d(0),
            config: *config,
            batch_config: batch_config,
            index: 0,
        }
    }

    /// A fresh empty batch of the same configuration.
    pub fn new_data(&mut self) -> (r: Self)
        ensures
            r.wf(),
            r.index == 0,
            r.batch_config == old(self).batch_config,
            *final(self) == *old(self),
    {
        Self::new(&self.config, self.batch_config)
    }

    /// Writes an encoding (ids, type ids and attention mask, up to the row length) and its
    /// label to the current row and moves to the next; true when the batch is full.
    pub fn put_data(&mut self, result: &EncodingData, label: u32) -> (r: bool)
        requires
            old(self).wf(),
            old(self).index < old(self).batch_config.batch_size,
            result.type_ids@.len() >= row_length(*result, old(self).batch_config.sequence_length as nat),
            result.attention_mask@.len() >= row_length(*result, old(self).batch_config.sequence_length as nat),
        ensures
            final(self).wf(),
            final(self).index == old(self).index + 1,
            r == (final(self).index == final(self).batch_config.batch_size),
            ({
                let i = old(self).index as int;
                let l = row_length(*result, old(self).batch_config.sequence_length as nat) as int;
                &&& final(self).input_ids@ == old(self).input_ids@.update(i, final(self).input_ids@[i])
                &&& final(self).token_type_ids@ == old(self).token_type_ids@.update(i, final(self).token_type_ids@[i])
                &&& final(self).attention_mask@ == old(self).attention_mask@.update(i, final(self).attention_mask@[i])
                &&& final(self).input_ids@[i]@ == put_front(old(self).input_ids@[i]@, result.ids@.take(l))
                &&& final(self).token_type_ids@[i]@ == put_front(old(self).token_type_ids@[i]@, result.type_ids@.take(l))
                &&& final(self).attention_mask@[i]@ == put_front(old(self).attention_mask@[i]@, result.attention_mask@.take(l))
                &&& final(self).label@ == old(self).label@.update(i, label)
            }),
            final(self).batch_config == old(self).batch_config,
            final(self).config == old(self).config,
    {
        let i = self.index;
        let n = self.batch_config.sequence_length;
        let length = if result.ids.len() < n {
            result.ids.len()
        } else {
            n
        };
        copy_front_row(&mut self.input_ids, i, &result.ids, length);
        copy_front_row(&mut self.token_type_ids, i, &result.type_ids, length);
        copy_front_row(&mut self.attention_mask, i, &result.attention_mask, length);
        self.label.set(i, label);
        self.index = self.index + 1;
        self.done()
    }

    /// Whether every row is filled.
    pub fn done(&self) -> (r: bool)
        ensures
            r == (self.index == self.batch_config.batch_size),
    {
        self.index == self.batch_config.batch_size
    }
}

/// A text with its class.
#[derive(Debug, Clone)]
pub struct SingleClassTransport {
    pub text: String,
    pub label: u32,
}

} // verus!
