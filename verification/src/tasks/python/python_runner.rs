use vstd::prelude::*;

use super::python_parser::{PythonParserNew, parse_result};
use super::context_creator::{PythonContextCreator, counter_items, ident_words};
use super::lexer::lex_spec;
use crate::tokenizer::tokenizer_data::TokenizedData;
use crate::tokenizer::tokenizer_wrapper::TokenizerInfo;

verus! {

/// The Python tokenizers: the parser, or the identifier counter.
pub enum PythonTokenizer {
    Run(PythonParserNew),
    Context(PythonContextCreator),
}

impl PythonTokenizer {
    /// Encodes `data` with the parser, or counts its identifier words (giving nothing).
    pub fn encode(&mut self, data: String) -> (r: Option<TokenizedData>)
        requires
            *old(self) matches PythonTokenizer::Run(_) ==> data@.len() < u32::MAX,
            *old(self) matches PythonTokenizer::Context(c) ==> {
                &&& data@.len() + 4 <= usize::MAX
                &&& c.total() + 2 * data@.len() <= usize::MAX
                &&& c.count < usize::MAX
            },
        ensures
            *old(self) matches PythonTokenizer::Run(p) ==> *final(self) == *old(self) && parse_result(p.context_size, data@, r),
            *old(self) matches PythonTokenizer::Context(c) ==> {
                &&& r is None
                &&& *final(self) matches PythonTokenizer::Context(c2)
                &&& counter_items(c2.counter) == counter_items(c.counter).add(ident_words(data@, lex_spec(data@), 2).to_multiset())
                &&& c2.count == c.count + 1
                &&& c2.size == c.size
                &&& c2.path == c.path
            },
    {
        match self {
            PythonTokenizer::Run(x) => x.encode(data),
            PythonTokenizer::Context(x) => x.encode(data),
        }
    }

    /// Special ids of the Python vocabulary: class 1, separator 1, padding 0, mask 5,
    /// unknown 4, end 2, and extra ids 2500 to 2599.
    pub fn get_tokenizer_info(&self) -> (r: TokenizerInfo)
        ensures
            r.cls == 1,
            r.sep == 1,
            r.pad == 0,
            r.mask == 5,
            r.unk == 4,
            r.eos == 2,
            r.extra@ == Seq::new(100, |i: int| (2500 + i) as u32),
    {
        let mut extra: Vec<u32> = Vec::with_capacity(100);
        let mut k: u32 = 2500;
        while k < 2600
            invariant
                2500 <= k <= 2600,
                extra@ == Seq::new((k - 2500) as nat, |i: int| (2500 + i) as u32),
            decreases 2600 - k,
        {
            extra.push(k);
            k = k + 1;
            assert(extra@ =~= Seq::new((k - 2500) as nat, |i: int| (2500 + i) as u32));
        }
        TokenizerInfo { cls: 1, sep: 1, pad: 0, mask: 5, unk: 4, extra: extra, eos: 2 }
    }
}

/// Kind of language-model masking.
#[derive(Clone, Copy, Debug, PartialEq, Eq, Structural)]
pub enum MaskType {
    Mlm,
    Causal,
    Span,
}

} // verus!
