use vstd::prelude::*;

verus! {

/// Model family a tokenizer serves.
#[derive(Clone, Copy, Debug, PartialEq, Eq, Structural)]
pub enum TokenizerTask {
    Bert,
    Roberta,
    T5,
    Gpt,
}

/// Source of a tokenizer: a named pretrained one, or the Python parsers.
#[derive(Clone, Debug)]
pub enum TokenizerType {
    HuggingFace(String),
    Python,
    PythonContext,
}

/// A tokenizer's task and source.
#[derive(Clone, Debug)]
pub struct TokenizerInternalConfig {
    pub task: TokenizerTask,
    pub typ: TokenizerType,
}

} // verus!
