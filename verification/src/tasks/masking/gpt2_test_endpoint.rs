use vstd::prelude::*;

verus! {

/// A batch of causal-language-model rows.
#[derive(Debug)]
pub struct GptData {
    pub input_ids: Vec<Vec<u32>>,
    pub attention_mask: Vec<Vec<u32>>,
    pub labels: Vec<Vec<i32>>,
}

/// Places `(x, y)` checked: both below the number of rows.
pub open spec fn gpt_place_ok(d: GptData, x: int, y: int) -> bool {
    &&& d.attention_mask@[x]@[y] == 1 ==> d.input_ids@[x]@[y] as i32 == d.labels@[x]@[y]
    &&& d.attention_mask@[x]@[y] == 0 ==> d.labels@[x]@[y] == -100
}

/// Test endpoint for causal batches.
pub struct Gpt2Endpoint {}

impl Gpt2Endpoint {
    /// An endpoint; the training configuration is not read.
    pub fn new<C>(_config: C) -> (r: Self) {
        Self {}
    }

    /// Whether, over the square of places whose row and column are both below the number
    /// of rows, every attended place is labelled with its own id and every other unmasked
    /// place with -100.
    pub fn check_batch(&self, data: GptData) -> (r: bool)
        requires
            data.attention_mask@.len() >= data.input_ids@.len(),
            data.labels@.len() >= data.input_ids@.len(),
            forall|x: int| 0 <= x < data.input_ids@.len() ==> {
                &&& (#[trigger] data.input_ids@[x])@.len() >= data.input_ids@.len()
                &&& data.attention_mask@[x]@.len() >= data.input_ids@.len()
                &&& data.labels@[x]@.len() >= data.input_ids@.len()
            },
        ensures
            r == forall|x: int, y: int| 0 <= x < data.input_ids@.len() && 0 <= y < data.input_ids@.len() ==> #[trigger] gpt_place_ok(data, x, y),
    {
        let n = data.input_ids.len();
        let mut x: usize = 0;
        while x < n
            invariant
                x <= n == data.input_ids@.len(),
                data.attention_mask@.len() >= n,
                data.labels@.len() >= n,
                forall|x: int| 0 <= x < n ==> {
                    &&& (#[trigger] data.input_ids@[x])@.len() >= n
                    &&& data.attention_mask@[x]@.len() >= n
                    &&& data.labels@[x]@.len() >= n
                },
                forall|a: int, b: int| 0 <= a < x && 0 <= b < n ==> #[trigger] gpt_place_ok(data, a, b),
            decreases n - x,
        {
            let mut y: usize = 0;
            while y < n
                invariant
                    x < n == data.input_ids@.len(),
                    data.attention_mask@.len() >= n,
                    data.labels@.len() >= n,
                    forall|x: int| 0 <= x < n ==> {
                        &&& (#[trigger] data.input_ids@[x])@.len() >= n
                        &&& data.attention_mask@[x]@.len() >= n
                        &&& data.labels@[x]@.len() >= n
                    },
                    forall|a: int, b: int| 0 <= a < x && 0 <= b < n ==> #[trigger] gpt_place_ok(data, a, b),
                    forall|b: int| 0 <= b < y ==> #[trigger] gpt_place_ok(data, x as int, b),
                    y <= n,
                decreases n - y,
            {
                assert(data.input_ids@[x as int]@.len() >= n);
                let m = data.attention_mask[x][y];
                let id = data.input_ids[x][y];
                let l = data.labels[x][y];
                if m == 1 && id as i32 != l {
                    assert(!gpt_place_ok(data, x as int, y as int));
                    return false;
                } else if m == 0 && l != -100 {
                    assert(!gpt_place_ok(data, x as int, y as int));
                    return false;
                }
                y = y + 1;
            }
            x = x + 1;
        }
        true
    }
}

} // verus!
