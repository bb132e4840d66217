use vstd::prelude::*;

verus! {

/// What the batch builders read of a tokenizer's encoding of a text: ids, type ids,
/// attention mask, each token's character span, and the token range of each sequence
/// (sequence id, first token, end token).
#[derive(Debug)]
pub struct EncodingData {
    pub ids: Vec<u32>,
    pub type_ids: Vec<u32>,
    pub attention_mask: Vec<u32>,
    pub offsets: Vec<(usize, usize)>,
    pub sequence_ranges: Vec<(usize, usize, usize)>,
}

/// Token range of sequence `seq`: its recorded range, or all tokens.
pub open spec fn range_of(ranges: Seq<(usize, usize, usize)>, len: nat, seq: usize) -> (int, int)
    decreases ranges.len(),
{
    if ranges.len() == 0 {
        (0, len as int)
    } else if ranges[0].0 == seq {
        (ranges[0].1 as int, ranges[0].2 as int)
    } else {
        range_of(ranges.drop_first(), len, seq)
    }
}

/// First token in `[a, b)` whose span holds character `pos`.
pub open spec fn first_covering(offsets: Seq<(usize, usize)>, pos: usize, a: int, b: int) -> Option<int>
    decreases b - a,
{
    if a >= b {
        None
    } else if offsets[a].0 <= pos && pos < offsets[a].1 {
        Some(a)
    } else {
        first_covering(offsets, pos, a + 1, b)
    }
}

/// The token of sequence `seq` whose span holds character `pos`, if any; none when the
/// sequence's range does not lie within the tokens.
pub open spec fn char_token(e: EncodingData, pos: usize, seq: usize) -> Option<int> {
    let (a, b) = range_of(e.sequence_ranges@, e.ids@.len(), seq);
    if a > b || b > e.offsets@.len() {
        None
    } else {
        first_covering(e.offsets@, pos, a, b)
    }
}

pub proof fn lemma_first_covering(offsets: Seq<(usize, usize)>, pos: usize, a: int, b: int)
    ensures
        first_covering(offsets, pos, a, b) matches Some(k) ==> a <= k < b,
    decreases b - a,
{
    if a < b {
        lemma_first_covering(offsets, pos, a + 1, b);
    }
}

proof fn lemma_first_covering_hit(offsets: Seq<(usize, usize)>, pos: usize, a: int, b: int)
    requires
        0 <= a,
        b <= offsets.len(),
    ensures
        first_covering(offsets, pos, a, b) matches Some(k) ==> offsets[k].0 <= pos < offsets[k].1,
        first_covering(offsets, pos, a, b) matches Some(k) ==> forall|m: int| a <= m < k ==> !(#[trigger] offsets[m].0 <= pos && pos < offsets[m].1),
        first_covering(offsets, pos, a, b) is None ==> forall|m: int| a <= m < b ==> !(#[trigger] offsets[m].0 <= pos && pos < offsets[m].1),
    decreases b - a,
{
    if a < b {
        lemma_first_covering_hit(offsets, pos, a + 1, b);
    }
}

/// The token found for a character is the first token of the sequence whose span holds
/// it; when none is found, no token of the sequence holds it.
pub proof fn lemma_char_token_covers(e: EncodingData, pos: usize, seq: usize)
    ensures
        char_token(e, pos, seq) matches Some(k) ==> {
            let (a, b) = range_of(e.sequence_ranges@, e.ids@.len(), seq);
            &&& a <= k < b
            &&& e.offsets@[k].0 <= pos < e.offsets@[k].1
            &&& forall|m: int| a <= m < k ==> !(#[trigger] e.offsets@[m].0 <= pos && pos < e.offsets@[m].1)
        },
        char_token(e, pos, seq) is None ==> {
            let (a, b) = range_of(e.sequence_ranges@, e.ids@.len(), seq);
            (a <= b && b <= e.offsets@.len()) ==> forall|m: int| a <= m < b ==> !(#[trigger] e.offsets@[m].0 <= pos && pos < e.offsets@[m].1)
        },
{
    let (a, b) = range_of(e.sequence_ranges@, e.ids@.len(), seq);
    lemma_range_of_nonneg(e.sequence_ranges@, e.ids@.len(), seq);
    if a <= b && b <= e.offsets@.len() {
        lemma_first_covering(e.offsets@, pos, a, b);
        lemma_first_covering_hit(e.offsets@, pos, a, b);
    }
}

proof fn lemma_range_of_nonneg(ranges: Seq<(usize, usize, usize)>, len: nat, seq: usize)
    ensures
        range_of(ranges, len, seq).0 >= 0,
    decreases ranges.len(),
{
    if ranges.len() > 0 && ranges[0].0 != seq {
        lemma_range_of_nonneg(ranges.drop_first(), len, seq);
    }
}

/// An optional index as an integer.
pub open spec fn opt_int(o: Option<usize>) -> Option<int> {
    match o {
        Some(v) => Some(v as int),
        None => None,
    }
}

impl EncodingData {
    /// Number of tokens.
    pub fn len(&self) -> (r: usize)
        ensures
            r == self.ids@.len(),
    {
        self.ids.len()
    }

    /// Token range of sequence `seq`.
    fn sequence_range(&self, seq: usize) -> (r: (usize, usize))
        ensures
            (r.0 as int, r.1 as int) == range_of(self.sequence_ranges@, self.ids@.len(), seq),
    {
        let mut k: usize = 0;
        assert(self.sequence_ranges@.skip(0) =~= self.sequence_ranges@);
        while k < self.sequence_ranges.len()
            invariant
                k <= self.sequence_ranges@.len(),
                range_of(self.sequence_ranges@, self.ids@.len(), seq) == range_of(self.sequence_ranges@.skip(k as int), self.ids@.len(), seq),
            decreases self.sequence_ranges@.len() - k,
        {
            let r = self.sequence_ranges[k];
            assert(self.sequence_ranges@.skip(k as int)[0] == r);
            assert(self.sequence_ranges@.skip(k as int).drop_first() =~= self.sequence_ranges@.skip(k + 1));
            if r.0 == seq {
                return (r.1, r.2);
            }
            k = k + 1;
        }
        assert(self.sequence_ranges@.skip(k as int) =~= Seq::<(usize, usize, usize)>::empty());
        (0, self.ids.len())
    }

    /// `Encoding::char_to_token`: the token of sequence `seq` whose span holds character
    /// `pos`.
    pub fn char_to_token(&self, pos: usize, seq: usize) -> (r: Option<usize>)
        ensures
            r == (match char_token(*self, pos, seq) {
                Some(k) => Some(k as usize),
                None => None,
            }),
            r matches Some(k) ==> k < self.offsets@.len(),
            opt_int(r) == char_token(*self, pos, seq),
    {
        let (a, b) = self.sequence_range(seq);
        proof {
            lemma_first_covering(self.offsets@, pos, a as int, b as int);
        }
        if a > b || b > self.offsets.len() {
            return None;
        }
        let mut k: usize = a;
        while k < b
            invariant
                a <= k <= b <= self.offsets@.len(),
                range_of(self.sequence_ranges@, self.ids@.len(), seq) == (a as int, b as int),
                first_covering(self.offsets@, pos, a as int, b as int) == first_covering(self.offsets@, pos, k as int, b as int),
            decreases b - k,
        {
            let (s, e) = self.offsets[k];
            if s <= pos && pos < e {
                assert(first_covering(self.offsets@, pos, k as int, b as int) == Some(k as int));
                assert(range_of(self.sequence_ranges@, self.ids@.len(), seq) == (a as int, b as int));
                assert(char_token(*self, pos, seq) == Some(k as int));
                return Some(k);
            }
            k = k + 1;
        }
        None
    }
}

} // verus!
