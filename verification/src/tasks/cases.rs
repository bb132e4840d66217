use vstd::prelude::*;

verus! {

/// The prepared training cases.
#[derive(Clone, Copy, Debug, PartialEq, Eq, Structural)]
pub enum BasicCases {
    Bert,
    Roberta,
    Gpt,
    T5,
    Squad,
    Multi,
    Single,
    Python,
    PythonContext,
    PythonSpan,
}

} // verus!
