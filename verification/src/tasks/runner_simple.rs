use vstd::prelude::*;

verus! {

/// A data provider given directly or through an asynchronous loader.
pub enum ProviderType<L, R> {
    Sync(L),
    Async(R),
}

} // verus!
