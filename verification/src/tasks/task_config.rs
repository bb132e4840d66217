use vstd::prelude::*;

verus! {

/// Kind of classification task.
#[derive(Clone, Copy, Debug, PartialEq, Eq, Structural)]
pub enum TaskConfig {
    Single,
    Multi,
    Squad,
}

} // verus!
