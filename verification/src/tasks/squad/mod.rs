pub mod squad_data;
pub mod squad_endpoint;
pub mod squad_arrow;

use vstd::prelude::*;

verus! {

/// Shape of question-answering batches.
#[derive(Clone, Copy, Debug)]
pub struct SquadConfig {
    pub batch_size: usize,
    pub sequence_length: usize,
}

} // verus!
