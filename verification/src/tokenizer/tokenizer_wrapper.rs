use vstd::prelude::*;

use super::tokenizer_config::TokenizerTask;
use crate::text::{chars_of, string_push};
use crate::tasks::python::python_tokenizer::eq_lit;

verus! {

/// Special token ids of a tokenizer.
#[derive(Clone, Debug)]
pub struct TokenizerInfo {
    pub cls: u32,
    pub sep: u32,
    pub pad: u32,
    pub mask: u32,
    pub unk: u32,
    pub extra: Vec<u32>,
    pub eos: u32,
}

/// Id of a special token in the Python vocabulary.
pub open spec fn python_special(t: Seq<char>) -> Option<u32> {
    if t == seq!['<', 'm', 'a', 's', 'k', '>'] || t == seq!['[', 'M', 'A', 'S', 'K', ']'] {
        Some(5)
    } else if t == seq!['<', 'p', 'a', 'd', '>'] || t == seq!['[', 'P', 'A', 'D', ']'] {
        Some(0)
    } else if t == seq!['<', 's', '>'] || t == seq!['[', 'C', 'L', 'S', ']'] {
        Some(1)
    } else if t == seq!['<', '/', 's', '>'] {
        Some(2)
    } else if t == seq!['<', '|', 'e', 'n', 'd', 'o', 'f', 't', 'e', 'x', 't', '|', '>'] {
        Some(3)
    } else if t == seq!['<', 'u', 'n', 'k'] {
        Some(4)
    } else {
        None
    }
}

/// Id of a special token in the Python vocabulary: mask 5, padding 0, start 1, end 2,
/// end of text 3, unknown 4 (spelled `<unk`); none for any other token.
pub fn python_token_id(token: &str) -> (r: Option<u32>)
    ensures
        r == python_special(token@),
{
    let s = chars_of(token);
    let n = s.len();
    assert(s@.subrange(0, n as int) =~= token@);
    if eq_lit(&s, 0, n, &['<', 'm', 'a', 's', 'k', '>']) || eq_lit(&s, 0, n, &['[', 'M', 'A', 'S', 'K', ']']) {
        Some(5)
    } else if eq_lit(&s, 0, n, &['<', 'p', 'a', 'd', '>']) || eq_lit(&s, 0, n, &['[', 'P', 'A', 'D', ']']) {
        Some(0)
    } else if eq_lit(&s, 0, n, &['<', 's', '>']) || eq_lit(&s, 0, n, &['[', 'C', 'L', 'S', ']']) {
        Some(1)
    } else if eq_lit(&s, 0, n, &['<', '/', 's', '>']) {
        Some(2)
    } else if eq_lit(&s, 0, n, &['<', '|', 'e', 'n', 'd', 'o', 'f', 't', 'e', 'x', 't', '|', '>']) {
        Some(3)
    } else if eq_lit(&s, 0, n, &['<', 'u', 'n', 'k']) {
        Some(4)
    } else {
        None
    }
}

/// The character of decimal digit `d`.
pub open spec fn digit_char(d: nat) -> char {
    if d == 0 {
        '0'
    } else if d == 1 {
        '1'
    } else if d == 2 {
        '2'
    } else if d == 3 {
        '3'
    } else if d == 4 {
        '4'
    } else if d == 5 {
        '5'
    } else if d == 6 {
        '6'
    } else if d == 7 {
        '7'
    } else if d == 8 {
        '8'
    } else {
        '9'
    }
}

/// Decimal digits of `x`, for `x` below 100.
pub open spec fn decimal(x: nat) -> Seq<char> {
    if x < 10 {
        seq![digit_char(x)]
    } else {
        seq![digit_char(x / 10), digit_char(x % 10)]
    }
}

/// The name of extra token `x`: `<extra_id_x>`.
pub open spec fn extra_name(x: nat) -> Seq<char> {
    seq!['<', 'e', 'x', 't', 'r', 'a', '_', 'i', 'd', '_'] + decimal(x) + seq!['>']
}

/// Names of the special tokens whose ids make up a task's tokenizer info, in the order the
/// info takes them: `[CLS]`, `[SEP]`, `[PAD]`, `[MASK]` for Bert and Roberta;
/// `<|endoftext|>` for Gpt; `<extra_id_0>` to `<extra_id_99>`, `<pad>`, `</s>`, `<unk>`
/// for T5.
pub open spec fn special_names(task: TokenizerTask) -> Seq<Seq<char>> {
    match task {
        TokenizerTask::Bert | TokenizerTask::Roberta => seq![
            seq!['[', 'C', 'L', 'S', ']'],
            seq!['[', 'S', 'E', 'P', ']'],
            seq!['[', 'P', 'A', 'D', ']'],
            seq!['[', 'M', 'A', 'S', 'K', ']'],
        ],
        TokenizerTask::Gpt => seq![seq!['<', '|', 'e', 'n', 'd', 'o', 'f', 't', 'e', 'x', 't', '|', '>']],
        TokenizerTask::T5 => Seq::new(100, |x: int| extra_name(x as nat)) + seq![
            seq!['<', 'p', 'a', 'd', '>'],
            seq!['<', '/', 's', '>'],
            seq!['<', 'u', 'n', 'k', '>'],
        ],
    }
}

/// The id found for special token `i`.
pub open spec fn found(ids: Seq<Option<u32>>, i: int) -> u32 {
    match ids[i] {
        Some(x) => x,
        None => 0,
    }
}

/// Tokenizer info built from the ids found for `special_names(task)`: the ids a task does
/// not use are 0, and only T5 has extra ids.
pub open spec fn info_from(task: TokenizerTask, ids: Seq<Option<u32>>, info: TokenizerInfo) -> bool {
    match task {
        TokenizerTask::Bert | TokenizerTask::Roberta => {
            &&& info.cls == found(ids, 0)
            &&& info.sep == found(ids, 1)
            &&& info.pad == found(ids, 2)
            &&& info.mask == found(ids, 3)
            &&& info.unk == 0
            &&& info.eos == 0
            &&& info.extra@ == Seq::<u32>::empty()
        },
        TokenizerTask::Gpt => {
            &&& info.eos == found(ids, 0)
            &&& info.cls == 0
            &&& info.sep == 0
            &&& info.pad == 0
            &&& info.mask == 0
            &&& info.unk == 0
            &&& info.extra@ == Seq::<u32>::empty()
        },
        TokenizerTask::T5 => {
            &&& info.extra@ == Seq::new(100, |x: int| found(ids, x))
            &&& info.pad == found(ids, 100)
            &&& info.eos == found(ids, 101)
            &&& info.unk == found(ids, 102)
            &&& info.cls == 0
            &&& info.sep == 0
            &&& info.mask == 0
        },
    }
}

fn digit(d: u32) -> (r: char)
    requires
        d < 10,
    ensures
        r == digit_char(d as nat),
{
    if d == 0 {
        '0'
    } else if d == 1 {
        '1'
    } else if d == 2 {
        '2'
    } else if d == 3 {
        '3'
    } else if d == 4 {
        '4'
    } else if d == 5 {
        '5'
    } else if d == 6 {
        '6'
    } else if d == 7 {
        '7'
    } else if d == 8 {
        '8'
    } else {
        '9'
    }
}

fn string_of(cs: &[char]) -> (r: String)
    ensures
        r@ == cs@,
{
    let mut out = String::new();
    let mut k: usize = 0;
    while k < cs.len()
        invariant
            k <= cs@.len(),
            out@ == cs@.subrange(0, k as int),
        decreases cs@.len() - k,
    {
        string_push(&mut out, cs[k]);
        assert(out@ =~= cs@.subrange(0, k + 1));
        k = k + 1;
    }
    assert(cs@.subrange(0, cs@.len() as int) =~= cs@);
    out
}

/// `<extra_id_x>`.
fn extra_token(x: u32) -> (r: String)
    requires
        x < 100,
    ensures
        r@ == extra_name(x as nat),
{
    let mut out = string_of(&['<', 'e', 'x', 't', 'r', 'a', '_', 'i', 'd', '_']);
    if x < 10 {
        string_push(&mut out, digit(x));
    } else {
        string_push(&mut out, digit(x / 10));
        string_push(&mut out, digit(x % 10));
    }
    string_push(&mut out, '>');
    assert(out@ =~= extra_name(x as nat));
    out
}

/// The special tokens whose ids make up a task's tokenizer info; see `special_names`.
pub fn special_tokens(task: TokenizerTask) -> (r: Vec<String>)
    ensures
        r@.len() == special_names(task).len(),
        forall|i: int| 0 <= i < r@.len() ==> (#[trigger] r@[i])@ == special_names(task)[i],
{
    match task {
        TokenizerTask::Bert | TokenizerTask::Roberta => {
            let r = vec![
                string_of(&['[', 'C', 'L', 'S', ']']),
                string_of(&['[', 'S', 'E', 'P', ']']),
                string_of(&['[', 'P', 'A', 'D', ']']),
                string_of(&['[', 'M', 'A', 'S', 'K', ']']),
            ];
            r
        },
        TokenizerTask::Gpt => {
            let r = vec![string_of(&['<', '|', 'e', 'n', 'd', 'o', 'f', 't', 'e', 'x', 't', '|', '>'])];
            r
        },
        TokenizerTask::T5 => {
            let ghost names = special_names(task);
            let mut r: Vec<String> = Vec::with_capacity(103);
            let mut x: u32 = 0;
            while x < 100
                invariant
                    x <= 100,
                    names == special_names(TokenizerTask::T5),
                    r@.len() == x,
                    forall|i: int| 0 <= i < x ==> (#[trigger] r@[i])@ == extra_name(i as nat),
                decreases 100 - x,
            {
                r.push(extra_token(x));
                x = x + 1;
            }
            r.push(string_of(&['<', 'p', 'a', 'd', '>']));
            r.push(string_of(&['<', '/', 's', '>']));
            r.push(string_of(&['<', 'u', 'n', 'k', '>']));
            assert forall|i: int| 0 <= i < r@.len() implies (#[trigger] r@[i])@ == names[i] by {
                if i < 100 {
                    assert(names[i] == extra_name(i as nat));
                }
            }
            r
        },
    }
}

/// The tokenizer info of a task from the ids its tokenizer gives for
/// `special_tokens(task)`, in that order; none unless there is one id for each and every
/// one was found.
pub fn tokenizer_info(task: TokenizerTask, ids: Vec<Option<u32>>) -> (r: Option<TokenizerInfo>)
    ensures
        r is Some <==> (ids@.len() == special_names(task).len() && forall|i: int| 0 <= i < ids@.len() ==> (#[trigger] ids@[i]) is Some),
        r matches Some(info) ==> info_from(task, ids@, info),
{
    let n = ids.len();
    let mut k: usize = 0;
    while k < n
        invariant
            k <= n,
            n == ids@.len(),
            forall|i: int| 0 <= i < k ==> (#[trigger] ids@[i]) is Some,
        decreases n - k,
    {
        if ids[k].is_none() {
            return None;
        }
        k = k + 1;
    }
    match task {
        TokenizerTask::Bert | TokenizerTask::Roberta => {
            if n != 4 {
                return None;
            }
            Some(TokenizerInfo {
                cls: ids[0].unwrap(),
                sep: ids[1].unwrap(),
                pad: ids[2].unwrap(),
                mask: ids[3].unwrap(),
                unk: 0,
                extra: Vec::new(),
                eos: 0,
            })
        },
        TokenizerTask::Gpt => {
            if n != 1 {
                return None;
            }
            Some(TokenizerInfo { cls: 0, sep: 0, pad: 0, mask: 0, unk: 0, extra: Vec::new(), eos: ids[0].unwrap() })
        },
        TokenizerTask::T5 => {
            if n != 103 {
                return None;
            }
            let mut extra: Vec<u32> = Vec::with_capacity(100);
            let mut x: usize = 0;
            while x < 100
                invariant
                    x <= 100,
                    n == ids@.len(),
                    n == 103,
                    forall|i: int| 0 <= i < n ==> (#[trigger] ids@[i]) is Some,
                    extra@ == Seq::new(x as nat, |i: int| found(ids@, i)),
                decreases 100 - x,
            {
                extra.push(ids[x].unwrap());
                x = x + 1;
                assert(extra@ =~= Seq::new(x as nat, |i: int| found(ids@, i)));
            }
            Some(TokenizerInfo {
                cls: 0,
                sep: 0,
                pad: ids[100].unwrap(),
                mask: 0,
                unk: ids[102].unwrap(),
                extra: extra,
                eos: ids[101].unwrap(),
            })
        },
    }
}

/// Ids framed for a model: `[CLS] ids [SEP] [SEP]` for Bert and Roberta, `eos ids eos` for
/// Gpt and T5.
pub open spec fn framed(task: TokenizerTask, ids: Seq<u32>, info: TokenizerInfo) -> Seq<u32> {
    match task {
        TokenizerTask::Bert | TokenizerTask::Roberta => seq![info.cls] + ids + seq![info.sep, info.sep],
        _ => seq![info.eos] + ids + seq![info.eos],
    }
}

/// Frames the ids of a text with the special ids of the model; see `framed`.
pub fn frame_ids(task: TokenizerTask, ids: Vec<u32>, info: &TokenizerInfo) -> (r: Vec<u32>)
    ensures
        r@ == framed(task, ids@, *info),
{
    let mut ids = ids;
    let ghost ids0 = ids@;
    match task {
        TokenizerTask::Bert | TokenizerTask::Roberta => {
            ids.insert(0, info.cls);
            let l = ids.len();
            ids.insert(l, info.sep);
            let l = ids.len();
            ids.insert(l, info.sep);
            assert(ids@ =~= seq![info.cls] + ids0 + seq![info.sep, info.sep]);
        },
        _ => {
            ids.insert(0, info.eos);
            let l = ids.len();
            ids.insert(l, info.eos);
            assert(ids@ =~= seq![info.eos] + ids0 + seq![info.eos]);
        },
    }
    ids
}

} // verus!
