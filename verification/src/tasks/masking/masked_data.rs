use vstd::prelude::*;

use rand::seq::SliceRandom;
use rand::thread_rng;

use crate::batcher::{BatchConfig, filled_rows, filled_row};
use super::MaskingConfig;

verus! {

/// `p` maps each of `n` places to a different one of them.
pub open spec fn index_perm(p: Seq<int>, n: nat) -> bool {
    &&& p.len() == n
    &&& forall|i: int| 0 <= i < n ==> 0 <= #[trigger] p[i] < n
    &&& forall|i: int, j: int| 0 <= i < j < n ==> #[trigger] p[i] != #[trigger] p[j]
}

/// `a` holds the entries of `b` rearranged.
pub open spec fn rearranged(a: Seq<u32>, b: Seq<u32>) -> bool {
    &&& a.len() == b.len()
    &&& exists|p: Seq<int>| index_perm(p, b.len()) && forall|i: int| 0 <= i < a.len() ==> #[trigger] a[i] == b[p[i]]
}

/// `SliceRandom::shuffle` with the thread's generator: the entries of `v` in a random order.
/// Which order is left unsaid; every outcome is a rearrangement.
#[verifier::external_body]
pub(crate) fn shuffle(v: &mut Vec<u32>)
    ensures
        rearranged(final(v)@, old(v)@),
{
    v.shuffle(&mut thread_rng());
}

/// `v` holds each of `0..n` once.
pub open spec fn is_position_perm(v: Seq<u32>, n: nat) -> bool {
    &&& v.len() == n
    &&& forall|i: int| 0 <= i < n ==> #[trigger] v[i] < n
    &&& forall|i: int, j: int| 0 <= i < j < n ==> #[trigger] v[i] != #[trigger] v[j]
}

pub proof fn lemma_rearranged_perm(a: Seq<u32>, b: Seq<u32>, n: nat)
    requires
        rearranged(a, b),
        is_position_perm(b, n),
    ensures
        is_position_perm(a, n),
{
    let p = choose|p: Seq<int>| index_perm(p, b.len()) && forall|i: int| 0 <= i < a.len() ==> #[trigger] a[i] == b[p[i]];
    assert forall|i: int| 0 <= i < n implies #[trigger] a[i] < n by {
        assert(a[i] == b[p[i]]);
    }
    assert forall|i: int, j: int| 0 <= i < j < n implies #[trigger] a[i] != #[trigger] a[j] by {
        assert(a[i] == b[p[i]]);
        assert(a[j] == b[p[j]]);
        if p[i] < p[j] {
        } else {
            assert(p[j] < p[i]);
        }
    }
}

/// Row ids and labels after masking the first `k` of `positions`: a position holding a
/// non-zero id gets the mask id, and its label becomes that id.
pub open spec fn mask_fold(ids: Seq<u32>, labels: Seq<i32>, positions: Seq<u32>, k: nat, mask: u32) -> (Seq<u32>, Seq<i32>)
    decreases k,
{
    if k == 0 {
        (ids, labels)
    } else {
        let (i0, l0) = mask_fold(ids, labels, positions, (k - 1) as nat, mask);
        let p = positions[k - 1] as int;
        if i0[p] != 0 {
            (i0.update(p, mask), l0.update(p, i0[p] as i32))
        } else {
            (i0, l0)
        }
    }
}

pub proof fn lemma_mask_fold_len(ids: Seq<u32>, labels: Seq<i32>, positions: Seq<u32>, k: nat, mask: u32)
    requires
        k <= positions.len(),
        forall|i: int| 0 <= i < k ==> #[trigger] positions[i] < ids.len(),
        labels.len() == ids.len(),
    ensures
        mask_fold(ids, labels, positions, k, mask).0.len() == ids.len(),
        mask_fold(ids, labels, positions, k, mask).1.len() == labels.len(),
    decreases k,
{
    if k > 0 {
        lemma_mask_fold_len(ids, labels, positions, (k - 1) as nat, mask);
    }
}

/// Place `j` is among the first `k` positions.
pub open spec fn chosen(positions: Seq<u32>, k: nat, j: int) -> bool {
    exists|x: int| 0 <= x < k && positions[x] == j
}

/// Masking a row at distinct positions gives each chosen place holding a non-zero id the
/// mask id and that id as its label; every other place keeps its id and label.
pub proof fn lemma_mask_fold_exact(ids: Seq<u32>, labels: Seq<i32>, positions: Seq<u32>, k: nat, mask: u32)
    requires
        k <= positions.len(),
        forall|x: int| 0 <= x < k ==> #[trigger] positions[x] < ids.len(),
        forall|x: int, y: int| 0 <= x < y < k ==> #[trigger] positions[x] != #[trigger] positions[y],
        labels.len() == ids.len(),
    ensures
        forall|j: int| 0 <= j < ids.len() ==> {
            &&& (chosen(positions, k, j) && ids[j] != 0) ==> #[trigger] mask_fold(ids, labels, positions, k, mask).0[j] == mask
                && mask_fold(ids, labels, positions, k, mask).1[j] == ids[j] as i32
            &&& !(chosen(positions, k, j) && ids[j] != 0) ==> mask_fold(ids, labels, positions, k, mask).0[j] == ids[j]
                && mask_fold(ids, labels, positions, k, mask).1[j] == labels[j]
        },
    decreases k,
{
    lemma_mask_fold_len(ids, labels, positions, k, mask);
    if k > 0 {
        let k1 = (k - 1) as nat;
        lemma_mask_fold_exact(ids, labels, positions, k1, mask);
        lemma_mask_fold_len(ids, labels, positions, k1, mask);
        let p = positions[k - 1] as int;
        assert forall|j: int| 0 <= j < ids.len() implies {
            &&& (chosen(positions, k, j) && ids[j] != 0) ==> #[trigger] mask_fold(ids, labels, positions, k, mask).0[j] == mask
                && mask_fold(ids, labels, positions, k, mask).1[j] == ids[j] as i32
            &&& !(chosen(positions, k, j) && ids[j] != 0) ==> mask_fold(ids, labels, positions, k, mask).0[j] == ids[j]
                && mask_fold(ids, labels, positions, k, mask).1[j] == labels[j]
        } by {
            let (i0, l0) = mask_fold(ids, labels, positions, k1, mask);
            assert(mask_fold(ids, labels, positions, k1, mask).0[j] == i0[j]);
            if j == p {
                assert(chosen(positions, k, j));
                assert(!chosen(positions, k1, j)) by {
                    if chosen(positions, k1, j) {
                        let x = choose|x: int| 0 <= x < k1 && positions[x] == j;
                        assert(positions[x] != positions[k - 1]);
                    }
                }
                assert(i0[j] == ids[j]);
            } else {
                assert(chosen(positions, k, j) == chosen(positions, k1, j)) by {
                    if chosen(positions, k, j) {
                        let x = choose|x: int| 0 <= x < k && positions[x] == j;
                        assert(x != k - 1);
                    }
                }
            }
        }
    }
}

/// Masks the first `count` of `positions` in a row; see `mask_fold`.
pub fn mask_positions(ids: &mut Vec<u32>, labels: &mut Vec<i32>, positions: &Vec<u32>, count: usize, mask: u32)
    requires
        count <= positions@.len(),
        forall|i: int| 0 <= i < count ==> #[trigger] positions@[i] < old(ids)@.len(),
        old(labels)@.len() == old(ids)@.len(),
    ensures
        (final(ids)@, final(labels)@) == mask_fold(old(ids)@, old(labels)@, positions@, count as nat, mask),
{
    let mut x: usize = 0;
    while x < count
        invariant
            x <= count <= positions@.len(),
            forall|i: int| 0 <= i < count ==> #[trigger] positions@[i] < old(ids)@.len(),
            ids@.len() == old(ids)@.len(),
            labels@.len() == ids@.len(),
            (ids@, labels@) == mask_fold(old(ids)@, old(labels)@, positions@, x as nat, mask),
        decreases count - x,
    {
        let p = positions[x] as usize;
        if ids[p] != 0 {
            let v = ids[p];
            labels.set(p, v as i32);
            ids.set(p, mask);
        }
        x = x + 1;
    }
}

/// A batch of masked-language-model rows being filled.
#[derive(Debug)]
pub struct MaskedData {
    pub input_ids: Vec<Vec<u32>>,
    pub attention_mask: Vec<Vec<u32>>,
    pub labels: Vec<Vec<i32>>,
    pub index: usize,
    pub config: MaskingConfig,
    pub batch_config: BatchConfig,
    pub masked_length: usize,
    pub attention_base: Vec<u32>,
    pub position_base: Vec<u32>,
    pub mask: u32,
}

/// `rows` has `b` rows of `n` entries.
pub open spec fn shaped<T>(rows: Seq<Vec<T>>, b: nat, n: nat) -> bool {
    &&& rows.len() == b
    &&& forall|i: int| 0 <= i < b ==> (#[trigger] rows[i])@.len() == n
}

/// `row` with its first `data.len()` entries replaced by `data`.
pub open spec fn put_front<T>(row: Seq<T>, data: Seq<T>) -> Seq<T> {
    data + row.skip(data.len() as int)
}

/// `row` with its last `k` entries replaced by those of `base`.
pub open spec fn put_back<T>(row: Seq<T>, base: Seq<T>, k: nat) -> Seq<T> {
    row.take(row.len() - k) + base.skip(base.len() - k)
}

impl MaskedData {
    /// Rows are of the batch's shape, the attention base is zero, and the positions are a
    /// permutation of the row.
    pub open spec fn wf(&self) -> bool {
        let b = self.batch_config.batch_size as nat;
        let n = self.batch_config.sequence_length as nat;
        &&& shaped(self.input_ids@, b, n)
        &&& shaped(self.attention_mask@, b, n)
        &&& shaped(self.labels@, b, n)
        &&& self.attention_base@ == Seq::new(n, |i: int| 0u32)
        &&& is_position_perm(self.position_base@, n)
        &&& self.index <= b
    }

    /// An empty batch: ids 0, attention 1, labels -100, positions in order.
    pub fn new(config: MaskingConfig, batch_config: BatchConfig, mask: u32) -> (r: Self)
        requires
            batch_config.sequence_length <= u32::MAX,
        ensures
            r.wf(),
            r.index == 0,
            r.config == config,
            r.batch_config == batch_config,
            r.masked_length == config.mask_length,
            r.mask == mask,
            forall|i: int| 0 <= i < batch_config.batch_size ==> {
                &&& (#[trigger] r.input_ids@[i])@ == Seq::new(batch_config.sequence_length as nat, |j: int| 0u32)
                &&& r.attention_mask@[i]@ == Seq::new(batch_config.sequence_length as nat, |j: int| 1u32)
                &&& r.labels@[i]@ == Seq::new(batch_config.sequence_length as nat, |j: int| -100i32)
            },
            r.position_base@ == Seq::new(batch_config.sequence_length as nat, |j: int| j as u32),
    {
        let n = batch_config.sequence_length;
        let mut position_base: Vec<u32> = Vec::with_capacity(n);
        let mut k: usize = 0;
        while k < n
            invariant
                k <= n <= u32::MAX,
                position_base@ == Seq::new(k as nat, |j: int| j as u32),
            decreases n - k,
        {
            position_base.push(k as u32);
            k = k + 1;
            assert(position_base@ =~= Seq::new(k as nat, |j: int| j as u32));
        }
        let b = batch_config.batch_size;
        let mask_length = config.mask_length;
        Self {
            input_ids: filled_rows(b, n, 0u32),
            attention_mask: filled_rows(b, n, 1u32),
            labels: filled_rows(b, n, -100i32),
            index: 0,
            config: config,
            batch_config: batch_config,
            masked_length: mask_length,
            attention_base: filled_row(n, 0u32),
            position_base: position_base,
            mask: mask,
        }
    }

    /// A fresh empty batch of the same configuration.
    pub fn new_data(&mut self) -> (r: Self)
        requires
            old(self).batch_config.sequence_length <= u32::MAX,
        ensures
            r.wf(),
            r.index == 0,
            r.config == old(self).config,
            r.batch_config == old(self).batch_config,
            r.mask == old(self).mask,
            r.masked_length == old(self).config.mask_length,
            *final(self) == *old(self),
    {
        MaskedData::new(self.config, self.batch_config, self.mask)
    }

    /// Shuffles the positions and masks the first `masked_length` of them in the current row.
    pub fn mask_batch(&mut self)
        requires
            old(self).wf(),
            old(self).index < old(self).batch_config.batch_size,
            old(self).masked_length <= old(self).batch_config.sequence_length,
        ensures
            final(self).wf(),
            rearranged(final(self).position_base@, old(self).position_base@),
            ({
                let i = old(self).index as int;
                let (ids, labels) = mask_fold(old(self).input_ids@[i]@, old(self).labels@[i]@, final(self).position_base@, old(self).masked_length as nat, old(self).mask);
                &&& final(self).input_ids@ == old(self).input_ids@.update(i, final(self).input_ids@[i])
                &&& final(self).labels@ == old(self).labels@.update(i, final(self).labels@[i])
                &&& final(self).input_ids@[i]@ == ids
                &&& final(self).labels@[i]@ == labels
            }),
            final(self).attention_mask == old(self).attention_mask,
            final(self).index == old(self).index,
            final(self).config == old(self).config,
            final(self).batch_config == old(self).batch_config,
            final(self).masked_length == old(self).masked_length,
            final(self).mask == old(self).mask,
    {
        let n = self.batch_config.sequence_length;
        let ghost old_pos = self.position_base@;
        shuffle(&mut self.position_base);
        proof {
            lemma_rearranged_perm(self.position_base@, old_pos, n as nat);
            lemma_mask_fold_len(self.input_ids@[self.index as int]@, self.labels@[self.index as int]@, self.position_base@, self.masked_length as nat, self.mask);
        }
        let i = self.index;
        let mut ids: Vec<u32> = Vec::new();
        let mut labels: Vec<i32> = Vec::new();
        std::mem::swap(&mut ids, &mut self.input_ids[i]);
        std::mem::swap(&mut labels, &mut self.labels[i]);
        mask_positions(&mut ids, &mut labels, &self.position_base, self.masked_length, self.mask);
        std::mem::swap(&mut ids, &mut self.input_ids[i]);
        std::mem::swap(&mut labels, &mut self.labels[i]);
        assert(self.input_ids@ =~= old(self).input_ids@.update(i as int, self.input_ids@[i as int]));
        assert(self.labels@ =~= old(self).labels@.update(i as int, self.labels@[i as int]));
    }

    /// Writes `ids` to the front of the current row, zeroes the attention of the row's last
    /// `ids.len()` places when the row is not full, masks the row, and moves to the next
    /// row; true when the batch is full.
    pub fn put_data(&mut self, ids: &[u32]) -> (r: bool)
        requires
            old(self).wf(),
            old(self).index < old(self).batch_config.batch_size,
            old(self).masked_length <= old(self).batch_config.sequence_length,
            ids@.len() <= old(self).batch_config.sequence_length,
        ensures
            final(self).wf(),
            final(self).index == old(self).index + 1,
            r == (final(self).index == final(self).input_ids@.len()),
            ({
                let i = old(self).index as int;
                let n = old(self).batch_config.sequence_length as nat;
                let row = put_front(old(self).input_ids@[i]@, ids@);
                let (masked, labels) = mask_fold(row, old(self).labels@[i]@, final(self).position_base@, old(self).masked_length as nat, old(self).mask);
                &&& final(self).input_ids@ == old(self).input_ids@.update(i, final(self).input_ids@[i])
                &&& final(self).labels@ == old(self).labels@.update(i, final(self).labels@[i])
                &&& final(self).attention_mask@ == old(self).attention_mask@.update(i, final(self).attention_mask@[i])
                &&& final(self).input_ids@[i]@ == masked
                &&& final(self).labels@[i]@ == labels
                &&& final(self).attention_mask@[i]@ == if ids@.len() < n {
                    put_back(old(self).attention_mask@[i]@, old(self).attention_base@, ids@.len())
                } else {
                    old(self).attention_mask@[i]@
                }
            }),
            rearranged(final(self).position_base@, old(self).position_base@),
            final(self).config == old(self).config,
            final(self).batch_config == old(self).batch_config,
            final(self).masked_length == old(self).masked_length,
            final(self).mask == old(self).mask,
    {
        let i = self.index;
        let n = self.batch_config.sequence_length;
        let mut row: Vec<u32> = Vec::new();
        std::mem::swap(&mut row, &mut self.input_ids[i]);
        let mut k: usize = 0;
        let ghost row0 = row@;
        while k < ids.len()
            invariant
                k <= ids@.len() <= row0.len(),
                row@ == put_front(row0, ids@.take(k as int)),
            decreases ids@.len() - k,
        {
            row.set(k, ids[k]);
            k = k + 1;
            assert(row@ =~= put_front(row0, ids@.take(k as int)));
        }
        assert(ids@.take(k as int) =~= ids@);
        std::mem::swap(&mut row, &mut self.input_ids[i]);
        if ids.len() < n {
            let l = ids.len();
            let mut att: Vec<u32> = Vec::new();
            std::mem::swap(&mut att, &mut self.attention_mask[i]);
            let ghost att0 = att@;
            let mut k: usize = n - l;
            while k < n
                invariant
                    l < n,
                    n - l <= k <= n,
                    att0.len() == n,
                    att@.len() == n,
                    self.attention_base@.len() == n,
                    att@ == att0.take(n - l) + self.attention_base@.subrange(n - l, k as int) + att0.skip(k as int),
                decreases n - k,
            {
                att.set(k, self.attention_base[k]);
                k = k + 1;
                assert(att@ =~= att0.take(n - l) + self.attention_base@.subrange(n - l, k as int) + att0.skip(k as int));
            }
            assert(att@ =~= put_back(att0, self.attention_base@, l as nat));
            std::mem::swap(&mut att, &mut self.attention_mask[i]);
        }
        assert(self.attention_mask@ =~= old(self).attention_mask@.update(i as int, self.attention_mask@[i as int]));
        self.mask_batch();
        self.index = self.index + 1;
        self.done()
    }

    /// Whether every row is filled.
    pub fn done(&self) -> (r: bool)
        ensures
            r == (self.index == self.input_ids@.len()),
    {
        self.index == self.input_ids.len()
    }
}

} // verus!
