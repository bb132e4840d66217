use vstd::prelude::*;

use crate::batcher::{BatchConfig, filled_rows};
use crate::tokenizer::tokenizer_data::TokenizedData;
use crate::tasks::masking::masked_data::{shaped, put_front, mask_fold, rearranged, shuffle, mask_positions, is_position_perm, lemma_rearranged_perm};
use super::config::PythonConfig;

verus! {

/// A batch of hierarchical Python rows: ids, positions, one attention row per layer, and
/// masked labels.
#[derive(Debug)]
pub struct PythonData {
    pub input_ids: Vec<Vec<u32>>,
    pub position_ids: Vec<Vec<u32>>,
    pub attention_mask: Vec<Vec<Vec<u32>>>,
    pub labels: Vec<Vec<i32>>,
    pub index: usize,
    pub config: PythonConfig,
    pub batch_config: BatchConfig,
    pub masked_length: usize,
    pub mask: u32,
}

/// Attention of the batch: `b` rows of `layers` layers of `n` places.
pub open spec fn attention_shaped(a: Seq<Vec<Vec<u32>>>, b: nat, layers: nat, n: nat) -> bool {
    &&& a.len() == b
    &&& forall|i: int| 0 <= i < b ==> shaped((#[trigger] a[i])@, layers, n)
}

/// The positions `0..n` in order.
pub open spec fn in_order(n: nat) -> Seq<u32> {
    Seq::new(n, |j: int| j as u32)
}

/// Number of places taken from a tokenized file: its ids, up to the row length.
pub open spec fn taken(data: TokenizedData, n: nat) -> nat {
    if data.ids@.len() < n {
        data.ids@.len()
    } else {
        n
    }
}

/// A tokenized file can be written to a row of `n` places with `layers` layers.
pub open spec fn fits(data: TokenizedData, n: nat, layers: nat) -> bool {
    let l = taken(data, n);
    &&& data.positions@.len() >= l
    &&& data.attention_mask@.len() >= layers
    &&& forall|x: int| 0 <= x < layers ==> (#[trigger] data.attention_mask@[x])@.len() >= l
}

impl PythonData {
    /// Rows of the batch's shape, with one attention layer per entry of the context shape.
    pub open spec fn wf(&self) -> bool {
        let b = self.batch_config.batch_size as nat;
        let n = self.batch_config.sequence_length as nat;
        &&& shaped(self.input_ids@, b, n)
        &&& shaped(self.position_ids@, b, n)
        &&& shaped(self.labels@, b, n)
        &&& attention_shaped(self.attention_mask@, b, self.config.context_shape@.len(), n)
        &&& self.index <= b
        &&& n <= u32::MAX
    }

    /// An empty batch: ids and positions 0, attention 255, labels -100.
    pub fn new(config: PythonConfig, batch_config: BatchConfig, mask: u32) -> (r: Self)
        requires
            batch_config.sequence_length <= u32::MAX,
        ensures
            r.wf(),
            r.index == 0,
            r.config == config,
            r.batch_config == batch_config,
            r.masked_length == config.mask_length,
            r.mask == mask,
            forall|i: int| 0 <= i < batch_config.batch_size ==> {
                &&& (#[trigger] r.input_ids@[i])@ == Seq::new(batch_config.sequence_length as nat, |j: int| 0u32)
                &&& r.position_ids@[i]@ == Seq::new(batch_config.sequence_length as nat, |j: int| 0u32)
                &&& r.labels@[i]@ == Seq::new(batch_config.sequence_length as nat, |j: int| -100i32)
                &&& r.attention_mask@[i]@.len() == config.context_shape@.len()
                &&& forall|x: int| 0 <= x < config.context_shape@.len() ==> (#[trigger] r.attention_mask@[i]@[x])@ == Seq::new(batch_config.sequence_length as nat, |j: int| 255u32)
            },
    {
        let b = batch_config.batch_size;
        let n = batch_config.sequence_length;
        let layers = config.context_shape.len();
        let mut attention: Vec<Vec<Vec<u32>>> = Vec::with_capacity(b);
        let mut k: usize = 0;
        while k < b
            invariant
                k <= b,
                attention@.len() == k,
                forall|i: int| 0 <= i < k ==> {
                    &&& (#[trigger] attention@[i])@.len() == layers
                    &&& forall|x: int| 0 <= x < layers ==> (#[trigger] attention@[i]@[x])@ == Seq::new(n as nat, |j: int| 255u32)
                },
            decreases b - k,
        {
            attention.push(filled_rows(layers, n, 255u32));
            k = k + 1;
        }
        let mask_length = config.mask_length;
        Self {
            input_ids: batch_config.create_vector(0),
            position_ids: batch_config.create_vector(0),
            attention_mask: attention,
            labels: filled_rows(b, n, -100i32),
            index: 0,
            config: config,
            batch_config: batch_config,
            masked_length: mask_length,
            mask: mask,
        }
    }

    /// A fresh empty batch of the same configuration.
    pub fn new_data(&mut self) -> (r: Self)
        requires
            old(self).batch_config.sequence_length <= u32::MAX,
        ensures
            r.wf(),
            r.index == 0,
            r.config.mask_length == old(self).config.mask_length,
            r.config.context_shape@ == old(self).config.context_shape@,
            r.batch_config == old(self).batch_config,
            r.masked_length == old(self).config.mask_length,
            r.mask == old(self).mask,
            *final(self) == *old(self),
    {
        PythonData::new(self.config.copy(), self.batch_config, self.mask)
    }

    /// Masks `masked_length` places of the current row at random: the first places of a
    /// shuffle of all positions.
    pub fn mask_batch(&mut self)
        requires
            old(self).wf(),
            old(self).index < old(self).batch_config.batch_size,
            old(self).masked_length <= old(self).batch_config.sequence_length,
        ensures
            final(self).wf(),
            exists|ps: Seq<u32>| {
                let i = old(self).index as int;
                let (ids, labels) = mask_fold(old(self).input_ids@[i]@, old(self).labels@[i]@, ps, old(self).masked_length as nat, old(self).mask);
                &&& #[trigger] is_position_perm(ps, old(self).batch_config.sequence_length as nat)
                &&& final(self).input_ids@[i]@ == ids
                &&& final(self).labels@[i]@ == labels
            },
            final(self).input_ids@ == old(self).input_ids@.update(old(self).index as int, final(self).input_ids@[old(self).index as int]),
            final(self).labels@ == old(self).labels@.update(old(self).index as int, final(self).labels@[old(self).index as int]),
            final(self).position_ids == old(self).position_ids,
            final(self).attention_mask == old(self).attention_mask,
            final(self).index == old(self).index,
            final(self).config == old(self).config,
            final(self).batch_config == old(self).batch_config,
            final(self).masked_length == old(self).masked_length,
            final(self).mask == old(self).mask,
    {
        let n = self.batch_config.sequence_length;
        let mut position_base: Vec<u32> = Vec::with_capacity(n);
        let mut k: usize = 0;
        while k < n
            invariant
                k <= n <= u32::MAX,
                position_base@ == in_order(k as nat),
            decreases n - k,
        {
            position_base.push(k as u32);
            k = k + 1;
            assert(position_base@ =~= in_order(k as nat));
        }
        let ghost ordered = position_base@;
        assert(is_position_perm(ordered, n as nat));
        shuffle(&mut position_base);
        proof {
            lemma_rearranged_perm(position_base@, ordered, n as nat);
        }
        let i = self.index;
        let mut ids: Vec<u32> = Vec::new();
        let mut labels: Vec<i32> = Vec::new();
        std::mem::swap(&mut ids, &mut self.input_ids[i]);
        std::mem::swap(&mut labels, &mut self.labels[i]);
        mask_positions(&mut ids, &mut labels, &position_base, self.masked_length, self.mask);
        proof {
            crate::tasks::masking::masked_data::lemma_mask_fold_len(old(self).input_ids@[i as int]@, old(self).labels@[i as int]@, position_base@, self.masked_length as nat, self.mask);
        }
        std::mem::swap(&mut ids, &mut self.input_ids[i]);
        std::mem::swap(&mut labels, &mut self.labels[i]);
        assert(self.input_ids@ =~= old(self).input_ids@.update(i as int, self.input_ids@[i as int]));
        assert(self.labels@ =~= old(self).labels@.update(i as int, self.labels@[i as int]));
    }

    /// Writes a tokenized file of at least 64 ids to the current row (its first places up
    /// to the row length: ids, positions and each attention layer), masks the row and moves
    /// to the next; false without a change for a shorter file, else whether the batch is
    /// full.
    pub fn put_data(&mut self, data: TokenizedData) -> (r: bool)
        requires
            old(self).wf(),
            old(self).index < old(self).batch_config.batch_size,
            old(self).masked_length <= old(self).batch_config.sequence_length,
            data.ids@.len() >= 64 ==> fits(data, old(self).batch_config.sequence_length as nat, old(self).config.context_shape@.len()),
        ensures
            data.ids@.len() < 64 ==> !r && *final(self) == *old(self),
            data.ids@.len() >= 64 ==> {
                let i = old(self).index as int;
                let n = old(self).batch_config.sequence_length as nat;
                let l = taken(data, n) as int;
                let layers = old(self).config.context_shape@.len();
                &&& final(self).wf()
                &&& final(self).index == old(self).index + 1
                &&& r == (final(self).index == final(self).input_ids@.len())
                &&& final(self).position_ids@[i]@ == put_front(old(self).position_ids@[i]@, data.positions@.take(l))
                &&& final(self).attention_mask@[i]@.len() == layers
                &&& forall|x: int| 0 <= x < layers ==> (#[trigger] final(self).attention_mask@[i]@[x])@ == put_front(old(self).attention_mask@[i]@[x]@, data.attention_mask@[x]@.take(l))
                &&& exists|ps: Seq<u32>| {
                    let (ids, labels) = mask_fold(put_front(old(self).input_ids@[i]@, data.ids@.take(l)), old(self).labels@[i]@, ps, old(self).masked_length as nat, old(self).mask);
                    &&& #[trigger] is_position_perm(ps, n)
                    &&& final(self).input_ids@[i]@ == ids
                    &&& final(self).labels@[i]@ == labels
                }
                &&& forall|j: int| 0 <= j < old(self).input_ids@.len() && j != i ==> {
                    &&& final(self).input_ids@[j] == old(self).input_ids@[j]
                    &&& final(self).labels@[j] == old(self).labels@[j]
                    &&& final(self).position_ids@[j] == old(self).position_ids@[j]
                    &&& final(self).attention_mask@[j] == old(self).attention_mask@[j]
                }
                &&& final(self).config == old(self).config
                &&& final(self).batch_config == old(self).batch_config
                &&& final(self).masked_length == old(self).masked_length
                &&& final(self).mask == old(self).mask
            },
    {
        if data.ids.len() < 64 {
            return false;
        }
        let n = self.batch_config.sequence_length;
        let l = if n < data.ids.len() {
            n
        } else {
            data.ids.len()
        };
        let i = self.index;
        let ghost old_self = *self;
        copy_front(&mut self.input_ids, i, &data.ids, l);
        copy_front(&mut self.position_ids, i, &data.positions, l);
        let layers = self.config.context_shape.len();
        let mut att: Vec<Vec<u32>> = Vec::new();
        std::mem::swap(&mut att, &mut self.attention_mask[i]);
        let ghost att0 = att@;
        let mut x: usize = 0;
        while x < layers
            invariant
                x <= layers == old_self.config.context_shape@.len(),
                l <= n,
                shaped(att0, layers as nat, n as nat),
                fits(data, n as nat, layers as nat),
                l == taken(data, n as nat),
                att@.len() == layers,
                forall|y: int| 0 <= y < x ==> (#[trigger] att@[y])@ == put_front(att0[y]@, data.attention_mask@[y]@.take(l as int)),
                forall|y: int| x <= y < layers ==> #[trigger] att@[y] == att0[y],
            decreases layers - x,
        {
            copy_front(&mut att, x, &data.attention_mask[x], l);
            x = x + 1;
        }
        std::mem::swap(&mut att, &mut self.attention_mask[i]);
        let ghost before_mask = *self;
        assert(self.wf()) by {
            assert forall|j: int| 0 <= j < self.attention_mask@.len() implies shaped((#[trigger] self.attention_mask@[j])@, layers as nat, n as nat) by {
                if j != i {
                    assert(self.attention_mask@[j] == old_self.attention_mask@[j]);
                }
            }
        }
        self.mask_batch();
        self.index = self.index + 1;
        self.done()
    }

    /// Whether every row is filled.
    pub fn done(&self) -> (r: bool)
        ensures
            r == (self.index == self.input_ids@.len()),
    {
        self.index == self.input_ids.len()
    }
}

/// Writes the first `l` entries of `data` to the front of row `i` of `rows`.
fn copy_front(rows: &mut Vec<Vec<u32>>, i: usize, data: &Vec<u32>, l: usize)
    requires
        i < old(rows)@.len(),
        l <= data@.len(),
        l <= old(rows)@[i as int]@.len(),
    ensures
        final(rows)@.len() == old(rows)@.len(),
        final(rows)@[i as int]@ == put_front(old(rows)@[i as int]@, data@.take(l as int)),
        forall|j: int| 0 <= j < old(rows)@.len() && j != i ==> final(rows)@[j] == old(rows)@[j],
{
    let mut row: Vec<u32> = Vec::new();
    std::mem::swap(&mut row, &mut rows[i]);
    let ghost row0 = row@;
    let mut k: usize = 0;
    while k < l
        invariant
            k <= l <= data@.len(),
            l <= row0.len(),
            row@ == put_front(row0, data@.take(k as int)),
        decreases l - k,
    {
        row.set(k, data[k]);
        k = k + 1;
        assert(row@ =~= put_front(row0, data@.take(k as int)));
    }
    std::mem::swap(&mut row, &mut rows[i]);
}

} // verus!
