use vstd::prelude::*;

use crate::batcher::{filled_rows, filled_row};
use crate::tokenizer::encoding::{EncodingData, char_token, opt_int};
use crate::tasks::masking::masked_data::{shaped, put_front};
use crate::tasks::single_class::single_data::copy_front_row;
use super::SquadConfig;

verus! {

/// A question with its context and the answer's character span `[sp, ep)`; `offset` is the
/// number of bytes the context has beyond its characters, when it has any.
#[derive(Debug, Clone)]
pub struct SquadGeneral {
    pub question: String,
    pub context: String,
    pub sp: u32,
    pub ep: u32,
    pub offset: Option<usize>,
    pub answer: Option<String>,
}

/// A batch of question-answering rows.
#[derive(Debug)]
pub struct SquadData {
    pub input_ids: Vec<Vec<u32>>,
    pub attention_mask: Vec<Vec<u32>>,
    pub token_type_ids: Vec<Vec<u32>>,
    pub start_positions: Vec<u32>,
    pub end_positions: Vec<u32>,
    pub answers: Vec<Option<String>>,
    pub config: SquadConfig,
    pub index: usize,
}

/// Tokens of the first and last answer characters shifted by `x`.
pub open spec fn probe(e: EncodingData, sp: u32, ep: u32, x: int) -> (Option<int>, Option<int>) {
    (char_token(e, (sp + x) as usize, 1), char_token(e, (ep - 1 + x) as usize, 1))
}

/// The tokens at shift `x` start at character `sp + x` and end at `ep + x`.
pub open spec fn probe_hits(e: EncodingData, sp: u32, ep: u32, x: int) -> bool {
    match probe(e, sp, ep, x) {
        (Some(s), Some(t)) => e.offsets@[s].0 == sp + x && e.offsets@[t].1 == ep + x,
        _ => false,
    }
}

/// Answer tokens trying shifts `x..=last` in turn: the first shift whose tokens match the
/// span exactly, else the last shift's tokens.
pub open spec fn probe_from(e: EncodingData, sp: u32, ep: u32, x: int, last: int) -> (Option<int>, Option<int>)
    decreases last - x,
{
    if x >= last || probe_hits(e, sp, ep, x) {
        probe(e, sp, ep, x)
    } else {
        probe_from(e, sp, ep, x + 1, last)
    }
}

/// Answer tokens of `data` in an encoding: with a byte offset, shifts `0..=offset` are tried;
/// without one, the span as it stands.
pub open spec fn answer_tokens(e: EncodingData, data: SquadGeneral) -> (Option<int>, Option<int>) {
    match data.offset {
        Some(offset) => probe_from(e, data.sp, data.ep, 0, offset as int),
        None => probe(e, data.sp, data.ep, 0),
    }
}

/// Number of tokens of an encoding written to a row of `n` places.
pub open spec fn squad_length(e: EncodingData, n: nat) -> nat {
    if e.ids@.len() < n {
        e.ids@.len()
    } else {
        n
    }
}

/// Answer views.
pub open spec fn answer_view(a: Option<String>) -> Option<Seq<char>> {
    match a {
        Some(s) => Some(s@),
        None => None,
    }
}

impl SquadData {
    /// Rows of the batch's shape and one answer and span per row.
    pub open spec fn wf(&self) -> bool {
        let b = self.config.batch_size as nat;
        let n = self.config.sequence_length as nat;
        &&& shaped(self.input_ids@, b, n)
        &&& shaped(self.attention_mask@, b, n)
        &&& shaped(self.token_type_ids@, b, n)
        &&& self.start_positions@.len() == b
        &&& self.end_positions@.len() == b
        &&& self.answers@.len() == b
    }

    /// An empty batch: ids 0, attention and type ids 1, spans 0, no answers.
    pub fn new(config: &SquadConfig) -> (r: Self)
        ensures
            r.wf(),
            r.index == 0,
            r.config == *config,
            r.start_positions@ == Seq::new(config.batch_size as nat, |i: int| 0u32),
            r.end_positions@ == Seq::new(config.batch_size as nat, |i: int| 0u32),
            forall|i: int| 0 <= i < config.batch_size ==> (#[trigger] r.answers@[i]) is None,
            forall|i: int| 0 <= i < config.batch_size ==> {
                &&& (#[trigger] r.input_ids@[i])@ == Seq::new(config.sequence_length as nat, |j: int| 0u32)
                &&& r.attention_mask@[i]@ == Seq::new(config.sequence_length as nat, |j: int| 1u32)
                &&& r.token_type_ids@[i]@ == Seq::new(config.sequence_length as nat, |j: int| 1u32)
            },
    {
        let b = config.batch_size;
        let n = config.sequence_length;
        let mut answers: Vec<Option<String>> = Vec::with_capacity(b);
        let mut k: usize = 0;
        while k < b
            invariant
                k <= b,
                answers@.len() == k,
                forall|i: int| 0 <= i < k ==> (#[trigger] answers@[i]) is None,
            decreases b - k,
        {
            answers.push(None);
            k = k + 1;
        }
        Self {
            input_ids: filled_rows(b, n, 0u32),
            attention_mask: filled_rows(b, n, 1u32),
            token_type_ids: filled_rows(b, n, 1u32),
            start_positions: filled_row(b, 0u32),
            end_positions: filled_row(b, 0u32),
            answers: answers,
            config: *config,
            index: 0,
        }
    }

    /// A fresh empty batch of the same configuration.
    pub fn new_data(&self) -> (r: Self)
        ensures
            r.wf(),
            r.index == 0,
            r.config == self.config,
    {
        SquadData::new(&self.config)
    }

    /// Writes an encoding (ids, type ids and attention mask, up to the row length) and the
    /// answer to the current row, then finds the answer's tokens (see `answer_tokens`).
    /// False when either is missing (the row keeps what was written); else records the
    /// tokens, moves to the next row and says whether the batch is full.
    pub fn put_data(&mut self, result: &EncodingData, data: SquadGeneral) -> (r: bool)
        requires
            old(self).wf(),
            old(self).index < old(self).config.batch_size,
            result.type_ids@.len() >= squad_length(*result, old(self).config.sequence_length as nat),
            result.attention_mask@.len() >= squad_length(*result, old(self).config.sequence_length as nat),
            data.ep >= 1,
            data.offset matches Some(o) ==> data.sp + o + 1 <= usize::MAX && data.ep + o <= usize::MAX,
        ensures
            final(self).wf(),
            ({
                let i = old(self).index as int;
                let l = squad_length(*result, old(self).config.sequence_length as nat) as int;
                let (so, to) = answer_tokens(*result, data);
                &&& final(self).input_ids@ == old(self).input_ids@.update(i, final(self).input_ids@[i])
                &&& final(self).token_type_ids@ == old(self).token_type_ids@.update(i, final(self).token_type_ids@[i])
                &&& final(self).attention_mask@ == old(self).attention_mask@.update(i, final(self).attention_mask@[i])
                &&& final(self).input_ids@[i]@ == put_front(old(self).input_ids@[i]@, result.ids@.take(l))
                &&& final(self).token_type_ids@[i]@ == put_front(old(self).token_type_ids@[i]@, result.type_ids@.take(l))
                &&& final(self).attention_mask@[i]@ == put_front(old(self).attention_mask@[i]@, result.attention_mask@.take(l))
                &&& final(self).answers@.len() == old(self).answers@.len()
                &&& answer_view(final(self).answers@[i]) == answer_view(data.answer)
                &&& forall|j: int| 0 <= j < old(self).answers@.len() && j != i ==> final(self).answers@[j] == old(self).answers@[j]
                &&& (so is None || to is None) ==> {
                    &&& !r
                    &&& final(self).index == old(self).index
                    &&& final(self).start_positions == old(self).start_positions
                    &&& final(self).end_positions == old(self).end_positions
                }
                &&& (so is Some && to is Some) ==> {
                    &&& final(self).index == old(self).index + 1
                    &&& r == (final(self).index == final(self).config.batch_size)
                    &&& final(self).start_positions@ == old(self).start_positions@.update(i, so->0 as u32)
                    &&& final(self).end_positions@ == old(self).end_positions@.update(i, to->0 as u32)
                }
            }),
            final(self).config == old(self).config,
    {
        let i = self.index;
        let n = self.config.sequence_length;
        let length = if result.ids.len() < n {
            result.ids.len()
        } else {
            n
        };
        copy_front_row(&mut self.input_ids, i, &result.ids, length);
        copy_front_row(&mut self.token_type_ids, i, &result.type_ids, length);
        copy_front_row(&mut self.attention_mask, i, &result.attention_mask, length);
        self.answers.set(i, data.answer);
        let sp = data.sp as usize;
        let ep = data.ep as usize;
        let mut start_token: Option<usize> = None;
        let mut end_token: Option<usize> = None;
        match data.offset {
            Some(offset) => {
                let mut x: usize = 0;
                loop
                    invariant_except_break
                        x <= offset,
                        sp == data.sp,
                        ep == data.ep,
                        ep >= 1,
                        data.offset == Some(offset),
                        data.sp + offset + 1 <= usize::MAX,
                        data.ep + offset <= usize::MAX,
                        probe_from(*result, data.sp, data.ep, 0, offset as int) == probe_from(*result, data.sp, data.ep, x as int, offset as int),
                    ensures
                        (opt_int(start_token), opt_int(end_token)) == probe_from(*result, data.sp, data.ep, 0, offset as int),
                    decreases offset - x,
                {
                    start_token = result.char_to_token(sp + x, 1);
                    end_token = result.char_to_token(ep - 1 + x, 1);
                    let hit = match (start_token, end_token) {
                        (Some(s), Some(e)) => result.offsets[s].0 == sp + x && result.offsets[e].1 == ep + x,
                        _ => false,
                    };
                    assert((opt_int(start_token), opt_int(end_token)) == probe(*result, data.sp, data.ep, x as int));
                    assert(hit == probe_hits(*result, data.sp, data.ep, x as int));
                    if hit || x == offset {
                        break;
                    }
                    x = x + 1;
                }
            },
            None => {
                start_token = result.char_to_token(sp, 1);
                end_token = result.char_to_token(ep - 1, 1);
            },
        }
        match (start_token, end_token) {
            (Some(s), Some(e)) => {
                self.start_positions.set(i, s as u32);
                self.end_positions.set(i, e as u32);
                self.index = self.index + 1;
                self.done()
            },
            _ => false,
        }
    }

    /// Whether every row is filled.
    pub fn done(&self) -> (r: bool)
        ensures
            r == (self.index == self.config.batch_size),
    {
        self.index == self.config.batch_size
    }
}

} // verus!
