use vstd::prelude::*;

use super::python_tokenizer::{Token, token_id};
use super::lexer::Lexeme;
use super::python_line::{Line, Th, Ts, th_id, number_id, word_of};
use super::context_store::{ContextStore, StoreModel};
use super::python_line::{words_present, store_ready, kind_of, initial_state, updated_th, fold_state, lemma_updated_keeps, th_token, lemma_fold_levels};
use crate::text::{string_from_chars, chars_of};
use super::lexer::{lex, lex_spec, lemma_lex_tiles};
use super::python_tokenizer::{check_python, marker_count, MarkerSet};
use super::python_line::{create_import_context, line_is_valid};
use crate::tokenizer::tokenizer_data::TokenizedData;

verus! {

/// Tokens skipped at the start of a line.
pub open spec fn is_ignored(t: Token) -> bool {
    t == Token::Comment || t == Token::AString || t == Token::TString || t == Token::String || t
        == Token::WS || t == Token::Newline || t == Token::Tab
}

fn ignore(token: &Token) -> (r: bool)
    ensures
        r == is_ignored(*token),
{
    match token {
        Token::Comment | Token::AString | Token::TString | Token::String | Token::WS
        | Token::Newline | Token::Tab => true,
        _ => false,
    }
}

/// Abstract element of a line: a plain token, an identifier or a number with its text and id.
pub enum ElemView {
    Tok(Token),
    Word(Token, Seq<char>, u32),
    Num(Token, Seq<char>, u32),
}

pub open spec fn th_view(th: Th) -> ElemView {
    match th {
        Th::T(x) => ElemView::Tok(x),
        Th::I(x) => ElemView::Word(x.t, word_of(x), x.id),
        Th::N(x) => ElemView::Num(x.t, word_of(x), x.id),
    }
}

/// Abstract line: indent and elements.
pub struct LineView {
    pub indent: nat,
    pub elems: Seq<ElemView>,
}

pub open spec fn line_view(l: Line) -> LineView {
    LineView { indent: l.indent as nat, elems: l.tokens@.map_values(|th: Th| th_view(th)) }
}

pub open spec fn lines_view(ls: Seq<Line>) -> Seq<LineView> {
    ls.map_values(|l: Line| line_view(l))
}

/// State of the line splitter.
pub struct SplitState {
    /// A first kept token has been seen.
    pub started: bool,
    /// A newline was seen and the next line has not started yet.
    pub after_newline: bool,
    /// Width of the last run of spaces or tabs since that newline.
    pub indent: Option<nat>,
    /// Finished lines.
    pub lines: Seq<LineView>,
    /// The line being built.
    pub cur: LineView,
}

pub open spec fn push_elem(l: LineView, e: ElemView) -> LineView {
    LineView { indent: l.indent, elems: l.elems.push(e) }
}

/// Text of lexeme `x` in `src`.
pub open spec fn lexeme_text(src: Seq<char>, x: Lexeme) -> Seq<char> {
    src.subrange(x.start as int, x.end as int)
}

/// Splitter state after lexeme `x`.
pub open spec fn split_step(src: Seq<char>, st: SplitState, x: Lexeme) -> SplitState {
    let t = x.token;
    let text = lexeme_text(src, x);
    if !st.started {
        if !is_ignored(t) {
            SplitState { started: true, cur: push_elem(st.cur, ElemView::Tok(t)), ..st }
        } else {
            st
        }
    } else if st.after_newline {
        if !is_ignored(t) {
            let fresh = LineView {
                indent: match st.indent {
                    Some(n) => n,
                    None => 0,
                },
                elems: Seq::empty(),
            };
            let e = if t == Token::Ident || t == Token::Number {
                ElemView::Word(t, text, 0)
            } else {
                ElemView::Tok(t)
            };
            SplitState {
                after_newline: false,
                lines: st.lines.push(st.cur),
                cur: push_elem(fresh, e),
                ..st
            }
        } else {
            SplitState {
                indent: if t == Token::WS || t == Token::Tab {
                    Some((x.end - x.start) as nat)
                } else {
                    None
                },
                ..st
            }
        }
    } else {
        if t == Token::Newline {
            SplitState { after_newline: true, indent: None, ..st }
        } else if t == Token::Ident {
            SplitState { cur: push_elem(st.cur, ElemView::Word(t, text, 0)), ..st }
        } else if t == Token::Number {
            SplitState { cur: push_elem(st.cur, ElemView::Num(t, text, number_id(text))), ..st }
        } else if t == Token::WS || t == Token::Tab {
            st
        } else {
            SplitState { cur: push_elem(st.cur, ElemView::Tok(t)), ..st }
        }
    }
}

pub open spec fn split_fold(src: Seq<char>, st: SplitState, xs: Seq<Lexeme>) -> SplitState
    decreases xs.len(),
{
    if xs.len() == 0 {
        st
    } else {
        split_step(src, split_fold(src, st, xs.drop_last()), xs.last())
    }
}

pub open spec fn split_start() -> SplitState {
    SplitState {
        started: false,
        after_newline: false,
        indent: None,
        lines: Seq::empty(),
        cur: LineView { indent: 0, elems: Seq::empty() },
    }
}

/// The lines of a token stream: a newline ends a line once a kept token follows it; the
/// new line's indent is the width of the spaces or tabs right before that token.
pub open spec fn split_spec(src: Seq<char>, xs: Seq<Lexeme>) -> Seq<LineView> {
    let st = split_fold(src, split_start(), xs);
    st.lines.push(st.cur)
}

/// Element `e` is as a token after the first one of a line becomes: an identifier is a
/// word, a number is a number element carrying its text's number id, any other token is a
/// plain token.
pub open spec fn later_elem_ok(e: ElemView) -> bool {
    match e {
        ElemView::Word(t, _, _) => t == Token::Ident,
        ElemView::Num(t, text, id) => t == Token::Number && id == number_id(text),
        ElemView::Tok(t) => t != Token::Ident && t != Token::Number,
    }
}

/// Every element after the first of each line of `vs` is as `later_elem_ok` says.
pub open spec fn later_elems_ok(v: LineView) -> bool {
    forall|j: int| 1 <= j < v.elems.len() ==> later_elem_ok(#[trigger] v.elems[j])
}

proof fn lemma_split_fold_elems(src: Seq<char>, xs: Seq<Lexeme>)
    ensures
        ({
            let st = split_fold(src, split_start(), xs);
            &&& forall|i: int| 0 <= i < st.lines.len() ==> later_elems_ok(#[trigger] st.lines[i])
            &&& later_elems_ok(st.cur)
            &&& st.started ==> st.cur.elems.len() >= 1
            &&& !st.started ==> st.cur.elems.len() == 0 && !st.after_newline
        }),
    decreases xs.len(),
{
    if xs.len() > 0 {
        lemma_split_fold_elems(src, xs.drop_last());
        let st = split_fold(src, split_start(), xs.drop_last());
        let st2 = split_step(src, st, xs.last());
        assert forall|i: int| 0 <= i < st2.lines.len() implies later_elems_ok(#[trigger] st2.lines[i]) by {
            if i < st.lines.len() {
                assert(st2.lines[i] == st.lines[i]);
            }
        }
        assert forall|j: int| 1 <= j < st2.cur.elems.len() implies later_elem_ok(#[trigger] st2.cur.elems[j]) by {
            if j < st.cur.elems.len() && st2.cur.elems.len() >= st.cur.elems.len() && st2.cur.elems.len() <= st.cur.elems.len() + 1
                && st2.cur.elems.take(st.cur.elems.len() as int) == st.cur.elems {
                assert(st2.cur.elems[j] == st.cur.elems[j]);
            }
        }
    }
}

/// In the lines of a token stream, every element after the first of its line is as the
/// token it comes from: an identifier becomes a word, a number a number element with the
/// number id of its text (so a number is never looked up as a name), and any other token a
/// plain token.
pub proof fn law_split_elements(src: Seq<char>, xs: Seq<Lexeme>)
    ensures
        forall|i: int| 0 <= i < split_spec(src, xs).len() ==> later_elems_ok(#[trigger] split_spec(src, xs)[i]),
{
    lemma_split_fold_elems(src, xs);
    let st = split_fold(src, split_start(), xs);
    assert forall|i: int| 0 <= i < split_spec(src, xs).len() implies later_elems_ok(#[trigger] split_spec(src, xs)[i]) by {
        if i < st.lines.len() {
            assert(split_spec(src, xs)[i] == st.lines[i]);
        }
    }
}

/// Every line of `st` holds at most `k` elements, and at most `k` lines are finished.
pub open spec fn split_bounded(st: SplitState, k: nat) -> bool {
    &&& st.lines.len() <= k
    &&& st.cur.elems.len() <= k
    &&& forall|i: int| 0 <= i < st.lines.len() ==> (#[trigger] st.lines[i]).elems.len() <= k
}

proof fn lemma_split_fold_bounded(src: Seq<char>, xs: Seq<Lexeme>)
    ensures
        split_bounded(split_fold(src, split_start(), xs), xs.len()),
    decreases xs.len(),
{
    if xs.len() > 0 {
        lemma_split_fold_bounded(src, xs.drop_last());
        let st = split_fold(src, split_start(), xs.drop_last());
        let st2 = split_step(src, st, xs.last());
        assert forall|i: int| 0 <= i < st2.lines.len() implies (#[trigger] st2.lines[i]).elems.len() <= xs.len() by {
            if i < st.lines.len() {
                assert(st2.lines[i] == st.lines[i]);
            }
        }
    }
}

/// A token stream of `n` lexemes gives at most `n + 1` lines of at most `n` elements each.
pub proof fn lemma_split_spec_bounded(src: Seq<char>, xs: Seq<Lexeme>)
    ensures
        split_spec(src, xs).len() <= xs.len() + 1,
        forall|i: int| 0 <= i < split_spec(src, xs).len() ==> (#[trigger] split_spec(src, xs)[i]).elems.len() <= xs.len(),
{
    lemma_split_fold_bounded(src, xs);
    let st = split_fold(src, split_start(), xs);
    assert forall|i: int| 0 <= i < split_spec(src, xs).len() implies (#[trigger] split_spec(src, xs)[i]).elems.len() <= xs.len() by {
        if i < st.lines.len() {
            assert(split_spec(src, xs)[i] == st.lines[i]);
        }
    }
}

/// Lexemes lie within the source text.
pub open spec fn lexemes_in(src: Seq<char>, xs: Seq<Lexeme>) -> bool {
    forall|i: int| 0 <= i < xs.len() ==> #[trigger] xs[i].start <= xs[i].end && xs[i].end <= src.len()
}

/// Lines hold text for each identifier and number, and ids 0 on identifiers.
pub open spec fn lines_fresh(ls: Seq<Line>) -> bool {
    forall|i: int, j: int|
        0 <= i < ls.len() && 0 <= j < ls[i].tokens@.len() ==> (match #[trigger] ls[i].tokens@[j] {
            Th::I(x) => x.d is Some,
            Th::N(x) => x.d is Some,
            Th::T(_) => true,
        })
}

/// Splits a token stream into lines.
pub fn split_lines(src: &Vec<char>, tokens: &Vec<Lexeme>) -> (r: Vec<Line>)
    requires
        lexemes_in(src@, tokens@),
    ensures
        lines_view(r@) == split_spec(src@, tokens@),
        lines_fresh(r@),
        forall|i: int| 0 <= i < r@.len() ==> (#[trigger] r@[i]).length == 1,
{
    let mut lines: Vec<Line> = Vec::with_capacity(256);
    let mut line = Line::new(0);
    let mut started = false;
    let mut after_newline = false;
    let mut indent: Option<usize> = None;
    let mut i: usize = 0;
    assert(tokens@.take(0) =~= Seq::<Lexeme>::empty());
    assert(lines_view(lines@) =~= Seq::<LineView>::empty());
    assert(line_view(line).elems =~= Seq::<ElemView>::empty());
    while i < tokens.len()
        invariant
            i <= tokens@.len(),
            lexemes_in(src@, tokens@),
            ({
                let st = split_fold(src@, split_start(), tokens@.take(i as int));
                &&& st.started == started
                &&& st.after_newline == after_newline
                &&& st.indent == match indent {
                    Some(n) => Some(n as nat),
                    None => None::<nat>,
                }
                &&& st.lines == lines_view(lines@)
                &&& st.cur == line_view(line)
            }),
            lines_fresh(lines@),
            lines_fresh(seq![line]),
            line.length == 1,
            forall|k: int| 0 <= k < lines@.len() ==> (#[trigger] lines@[k]).length == 1,
        decreases tokens@.len() - i,
    {
        let x = tokens[i];
        let t = x.token;
        assert(tokens@.take(i + 1).drop_last() =~= tokens@.take(i as int));
        assert(tokens@.take(i + 1).last() == x);
        let ghost old_lines = lines@;
        let ghost old_line = line;
        if !started {
            if !ignore(&t) {
                line.push(t);
                started = true;
            }
        } else if after_newline {
            if !ignore(&t) {
                let ind = match indent {
                    Some(n) => n,
                    None => 0,
                };
                lines.push(line);
                line = Line::new(ind);
                match t {
                    Token::Ident | Token::Number => {
                        line.push_string(t, string_from_chars(src, x.start, x.end));
                    },
                    y => {
                        line.push(y);
                    },
                }
                after_newline = false;
                assert(lines_view(lines@) =~= lines_view(old_lines).push(line_view(old_line)));
            } else {
                indent = match t {
                    Token::WS | Token::Tab => Some(x.end - x.start),
                    _ => None,
                };
            }
        } else {
            match t {
                Token::Newline => {
                    after_newline = true;
                    indent = None;
                },
                Token::Ident => {
                    line.push_string(t, string_from_chars(src, x.start, x.end));
                },
                Token::Number => {
                    line.push_number(t, string_from_chars(src, x.start, x.end));
                },
                Token::WS | Token::Tab => {},
                y => {
                    line.push(y);
                },
            }
        }
        assert(line_view(line).elems =~= split_fold(src@, split_start(), tokens@.take(i + 1)).cur.elems);
        assert(lines_fresh(seq![line])) by {
            assert forall|a: int, b: int| 0 <= a < 1 && 0 <= b < seq![line][a].tokens@.len() implies (match #[trigger] seq![line][a].tokens@[b] {
                Th::I(x) => x.d is Some,
                Th::N(x) => x.d is Some,
                Th::T(_) => true,
            }) by {
                if b < old_line.tokens@.len() && line.tokens@.len() == old_line.tokens@.len() + 1 {
                    assert(seq![old_line][0].tokens@[b] == line.tokens@[b]);
                }
            }
        }
        assert(lines_fresh(lines@)) by {
            assert forall|a: int, b: int| 0 <= a < lines@.len() && 0 <= b < lines@[a].tokens@.len() implies (match #[trigger] lines@[a].tokens@[b] {
                Th::I(x) => x.d is Some,
                Th::N(x) => x.d is Some,
                Th::T(_) => true,
            }) by {
                if a < old_lines.len() {
                    assert(old_lines[a] == lines@[a]);
                } else {
                    assert(seq![old_line][0] == lines@[a]);
                }
            }
        }
        i = i + 1;
    }
    let ghost old_lines = lines@;
    lines.push(line);
    assert(tokens@.take(i as int) =~= tokens@);
    assert(lines_view(lines@) =~= lines_view(old_lines).push(line_view(line)));
    assert(lines_fresh(lines@)) by {
        assert forall|a: int, b: int| 0 <= a < lines@.len() && 0 <= b < lines@[a].tokens@.len() implies (match #[trigger] lines@[a].tokens@[b] {
            Th::I(x) => x.d is Some,
            Th::N(x) => x.d is Some,
            Th::T(_) => true,
        }) by {
            if a < old_lines.len() {
                assert(old_lines[a] == lines@[a]);
            } else {
                assert(seq![line][0] == lines@[a]);
            }
        }
    }
    lines
}

/// Kind of a group of lines.
#[derive(Clone, Copy, Debug)]
pub enum Holder {
    Body,
    Def,
    Class,
}

/// A group of lines `[sp, ep)` with its nested groups.
#[derive(Debug)]
pub struct Split {
    pub _typ: Holder,
    pub sp: usize,
    pub ep: usize,
    pub children: Vec<Split>,
}

/// Children are non-empty, ordered and within `[lo, hi]`.
pub open spec fn ranges_ok(cs: Seq<Split>, lo: int, hi: int) -> bool {
    &&& forall|k: int| 0 <= k < cs.len() ==> lo <= (#[trigger] cs[k]).sp < cs[k].ep <= hi
    &&& forall|a: int, b: int| #![trigger cs[a], cs[b]] 0 <= a < b < cs.len() ==> cs[a].ep <= cs[b].sp
}

/// Every group in `cs` is well formed.
pub open spec fn all_wf(cs: Seq<Split>, n: nat) -> bool {
    forall|k: int| 0 <= k < cs.len() ==> split_wf(#[trigger] cs[k], n)
}

/// Ranges are ordered and within `[0, n]`, and children are non-empty, ordered and within
/// their parent, at every depth.
#[verifier::opaque]
pub open spec fn split_wf(s: Split, n: nat) -> bool
    decreases s,
{
    &&& s.sp <= s.ep <= n
    &&& ranges_ok(s.children@, s.sp as int, s.ep as int)
    &&& forall|k: int| 0 <= k < s.children@.len() ==> split_wf(#[trigger] s.children@[k], n)
}

/// Prefix lengths are non-decreasing.
pub open spec fn lengths_sorted(sl: Seq<usize>) -> bool {
    forall|a: int, b: int| 0 <= a <= b < sl.len() ==> sl[a] <= sl[b]
}

/// Number of mask groups of `s` at depth `level`.
pub open spec fn leaves(s: Split, level: nat) -> nat
    decreases s, 0nat,
{
    if level == 0 || s.children@.len() == 0 {
        1
    } else {
        children_leaves(s.children@, (level - 1) as nat)
    }
}

pub open spec fn children_leaves(cs: Seq<Split>, level: nat) -> nat
    decreases cs, 1nat,
{
    if cs.len() == 0 {
        0
    } else {
        children_leaves(cs.drop_last(), level) + leaves(cs.last(), level)
    }
}

/// Attention group of each token of the lines of `s` at depth `level`: the tokens of a
/// group at that depth (or of a group without subgroups above it) share one group number,
/// numbered from `off` in order.
pub open spec fn mask_ids(s: Split, sl: Seq<usize>, off: int, level: nat) -> Seq<u32>
    decreases s, 0nat,
{
    if level == 0 || s.children@.len() == 0 {
        Seq::new((sl[s.ep as int] - sl[s.sp as int]) as nat, |i: int| off as u32)
    } else {
        children_mask_ids(s.children@, sl, off, (level - 1) as nat)
    }
}

pub open spec fn children_mask_ids(cs: Seq<Split>, sl: Seq<usize>, off: int, level: nat) -> Seq<u32>
    decreases cs, 1nat,
{
    if cs.len() == 0 {
        Seq::empty()
    } else {
        children_mask_ids(cs.drop_last(), sl, off, level) + mask_ids(
            cs.last(),
            sl,
            off + children_leaves(cs.drop_last(), level),
            level,
        )
    }
}

impl Split {
    /// An empty group of kind `_typ` starting at line `sp`.
    pub fn new(_typ: Holder, sp: usize) -> (r: Self)
        ensures
            r._typ == _typ,
            r.sp == sp,
            r.ep == sp,
            r.children@.len() == 0,
    {
        Self { _typ, sp, ep: sp, children: Vec::with_capacity(4) }
    }
}


impl Split {
    /// Group numbers of the tokens of this group at depth `level`, numbered from `offset`,
    /// with the next free number.
    pub fn create_mask(&self, context: &ContextStore, s_length: &Vec<usize>, offset: u32, level: usize) -> (r: (Vec<u32>, u32))
        requires
            s_length@.len() >= 1,
            split_wf(*self, (s_length@.len() - 1) as nat),
            lengths_sorted(s_length@),
            offset + leaves(*self, level as nat) <= u32::MAX,
        ensures
            r.0@ == mask_ids(*self, s_length@, offset as int, level as nat),
            r.1 == offset + leaves(*self, level as nat),
        decreases self,
    {
        proof {
            lemma_split_wf_range(*self, (s_length@.len() - 1) as nat);
        }
        let l = s_length[self.ep] - s_length[self.sp];
        let mut off = offset;
        if level == 0 || self.children.len() == 0 {
            let result = vec![off; l];
            assert(result@ =~= mask_ids(*self, s_length@, offset as int, level as nat));
            off = off + 1;
            (result, off)
        } else {
            let mut result: Vec<u32> = Vec::with_capacity(level);
            let mut k: usize = 0;
            let ghost cs = self.children@;
            assert(cs.take(0) =~= Seq::<Split>::empty());
            while k < self.children.len()
                invariant
                    k <= cs.len(),
                    cs == self.children@,
                    level > 0,
                    s_length@.len() >= 1,
                    split_wf(*self, (s_length@.len() - 1) as nat),
                    lengths_sorted(s_length@),
                    offset + leaves(*self, level as nat) <= u32::MAX,
                    leaves(*self, level as nat) == children_leaves(cs, (level - 1) as nat),
                    result@ == children_mask_ids(cs.take(k as int), s_length@, offset as int, (level - 1) as nat),
                    off == offset + children_leaves(cs.take(k as int), (level - 1) as nat),
                decreases cs.len() - k,
            {
                let child = &self.children[k];
                assert(cs.take(k + 1).drop_last() =~= cs.take(k as int));
                assert(cs.take(k + 1).last() == *child);
                proof {
                    lemma_children_leaves_prefix(cs, (level - 1) as nat, k + 1);
                    lemma_split_wf_child(*self, (s_length@.len() - 1) as nat, k as int);
                }
                let res = child.create_mask(context, s_length, off, level - 1);
                let mut part = res.0;
                result.append(&mut part);
                off = res.1;
                k = k + 1;
            }
            assert(cs.take(k as int) =~= cs);
            (result, off)
        }
    }
}

/// Groups lie side by side from `lo` to `hi`.
pub open spec fn side_by_side(cs: Seq<Split>, lo: int, hi: int) -> bool {
    if cs.len() == 0 {
        lo == hi
    } else {
        &&& cs[0].sp == lo
        &&& cs.last().ep == hi
        &&& forall|k: int| 0 <= k < cs.len() - 1 ==> #[trigger] cs[k].ep == cs[k + 1].sp
    }
}

/// A group with subgroups is covered by them exactly, at every depth.
#[verifier::opaque]
pub open spec fn tiled(s: Split) -> bool
    decreases s,
{
    &&& (s.children@.len() > 0 ==> side_by_side(s.children@, s.sp as int, s.ep as int))
    &&& forall|k: int| 0 <= k < s.children@.len() ==> tiled(#[trigger] s.children@[k])
}

proof fn lemma_tiled_intro(s: Split)
    requires
        s.children@.len() > 0 ==> side_by_side(s.children@, s.sp as int, s.ep as int),
        forall|k: int| 0 <= k < s.children@.len() ==> tiled(#[trigger] s.children@[k]),
    ensures
        tiled(s),
{
    reveal(tiled);
}

proof fn lemma_tiled_elim(s: Split)
    requires
        tiled(s),
    ensures
        s.children@.len() > 0 ==> side_by_side(s.children@, s.sp as int, s.ep as int),
        forall|k: int| 0 <= k < s.children@.len() ==> tiled(#[trigger] s.children@[k]),
{
    reveal(tiled);
}

proof fn lemma_side_push(cs: Seq<Split>, lo: int, mid: int, c: Split)
    requires
        side_by_side(cs, lo, mid),
        forall|k: int| 0 <= k < cs.len() ==> tiled(#[trigger] cs[k]),
        c.sp == mid,
        tiled(c),
    ensures
        side_by_side(cs.push(c), lo, c.ep as int),
        forall|k: int| 0 <= k < cs.len() + 1 ==> tiled(#[trigger] cs.push(c)[k]),
{
    let cs2 = cs.push(c);
    assert forall|k: int| 0 <= k < cs2.len() - 1 implies #[trigger] cs2[k].ep == cs2[k + 1].sp by {
        assert(cs2[k] == cs[k]);
        if k + 1 < cs.len() {
            assert(cs2[k + 1] == cs[k + 1]);
        }
    }
    assert forall|k: int| 0 <= k < cs.len() + 1 implies tiled(#[trigger] cs2[k]) by {
        if k < cs.len() {
            assert(cs2[k] == cs[k]);
        }
    }
}

/// In a tiled group, every depth gives one group number per token of its lines.
pub proof fn lemma_mask_len(s: Split, sl: Seq<usize>, off: int, level: nat, n: nat)
    requires
        split_wf(s, n),
        tiled(s),
        lengths_sorted(sl),
        sl.len() == n + 1,
    ensures
        mask_ids(s, sl, off, level).len() == sl[s.ep as int] - sl[s.sp as int],
    decreases s, 0nat,
{
    lemma_split_wf_range(s, n);
    lemma_tiled_elim(s);
    if level == 0 || s.children@.len() == 0 {
    } else {
        let cs = s.children@;
        assert forall|k: int| 0 <= k < cs.len() implies split_wf(#[trigger] cs[k], n) by {
            lemma_split_wf_child(s, n, k);
        }
        lemma_children_mask_len(cs, sl, off, (level - 1) as nat, n);
    }
}

proof fn lemma_children_mask_len(cs: Seq<Split>, sl: Seq<usize>, off: int, level: nat, n: nat)
    requires
        cs.len() > 0,
        forall|k: int| 0 <= k < cs.len() ==> split_wf(#[trigger] cs[k], n),
        forall|k: int| 0 <= k < cs.len() ==> tiled(#[trigger] cs[k]),
        forall|k: int| 0 <= k < cs.len() - 1 ==> #[trigger] cs[k].ep == cs[k + 1].sp,
        lengths_sorted(sl),
        sl.len() == n + 1,
    ensures
        children_mask_ids(cs, sl, off, level).len() == sl[cs.last().ep as int] - sl[cs[0].sp as int],
    decreases cs, 1nat,
{
    let last = cs.last();
    assert(split_wf(cs[cs.len() - 1], n));
    assert(tiled(cs[cs.len() - 1]));
    lemma_mask_len(last, sl, off + children_leaves(cs.drop_last(), level), level, n);
    if cs.len() > 1 {
        let init = cs.drop_last();
        assert forall|k: int| 0 <= k < init.len() implies split_wf(#[trigger] init[k], n) && tiled(init[k]) by {
            assert(init[k] == cs[k]);
        }
        assert forall|k: int| 0 <= k < init.len() - 1 implies #[trigger] init[k].ep == init[k + 1].sp by {
            assert(init[k] == cs[k]);
            assert(init[k + 1] == cs[k + 1]);
        }
        lemma_children_mask_len(init, sl, off, level, n);
        assert(init.last() == cs[cs.len() - 2]);
        assert(cs[cs.len() - 2].ep == cs[cs.len() - 1].sp);
        assert(init[0] == cs[0]);
        lemma_split_wf_range(cs[cs.len() - 2], n);
        lemma_split_wf_range(cs[0], n);
    } else {
        assert(cs.drop_last() =~= Seq::<Split>::empty());
        assert(children_mask_ids(cs.drop_last(), sl, off, level) =~= Seq::<u32>::empty());
        assert(cs[0] == last);
    }
    lemma_split_wf_range(last, n);
}

proof fn lemma_children_push(cs: Seq<Split>, lo: int, mid: int, hi: int, n: nat, c: Split)
    requires
        ranges_ok(cs, lo, mid),
        all_wf(cs, n),
        lo <= mid <= c.sp < c.ep <= hi,
        split_wf(c, n),
    ensures
        ranges_ok(cs.push(c), lo, hi),
        all_wf(cs.push(c), n),
{
    let cs2 = cs.push(c);
    assert forall|k: int| 0 <= k < cs2.len() implies lo <= (#[trigger] cs2[k]).sp < cs2[k].ep <= hi by {
        if k < cs.len() {
            assert(cs2[k] == cs[k]);
        }
    }
    assert forall|a: int, b: int| #![trigger cs2[a], cs2[b]] 0 <= a < b < cs2.len() implies cs2[a].ep <= cs2[b].sp by {
        assert(cs2[a] == cs[a]);
        if b < cs.len() {
            assert(cs2[b] == cs[b]);
        }
    }
    assert forall|k: int| 0 <= k < cs2.len() implies split_wf(#[trigger] cs2[k], n) by {
        if k < cs.len() {
            assert(cs2[k] == cs[k]);
        }
    }
}

proof fn lemma_split_wf_child(s: Split, n: nat, k: int)
    requires
        split_wf(s, n),
        0 <= k < s.children@.len(),
    ensures
        split_wf(s.children@[k], n),
        s.sp <= s.children@[k].sp < s.children@[k].ep <= s.ep,
        s.ep <= n,
{
    reveal(split_wf);
    let c = s.children@[k];
    assert(s.sp <= c.sp < c.ep <= s.ep && split_wf(c, n));
}

proof fn lemma_split_wf_intro(s: Split, n: nat)
    requires
        s.sp <= s.ep <= n,
        ranges_ok(s.children@, s.sp as int, s.ep as int),
        all_wf(s.children@, n),
    ensures
        split_wf(s, n),
{
    reveal(split_wf);
}

proof fn lemma_split_wf_range(s: Split, n: nat)
    requires
        split_wf(s, n),
    ensures
        s.sp <= s.ep <= n,
{
    reveal(split_wf);
}

/// A group has at most one mask group per line, and one when it has no lines.
pub proof fn lemma_leaves_bound(s: Split, n: nat, level: nat)
    requires
        split_wf(s, n),
    ensures
        leaves(s, level) <= if s.ep > s.sp { s.ep - s.sp } else { 1 },
    decreases s, 0nat,
{
    reveal(split_wf);
    if level == 0 || s.children@.len() == 0 {
    } else {
        let c = s.children@[0];
        assert(s.sp <= c.sp < c.ep <= s.ep);
        lemma_children_leaves_bound(s.children@, s.sp as int, s.ep as int, n, (level - 1) as nat);
    }
}

proof fn lemma_children_leaves_bound(cs: Seq<Split>, lo: int, hi: int, n: nat, level: nat)
    requires
        lo <= hi,
        ranges_ok(cs, lo, hi),
        all_wf(cs, n),
    ensures
        children_leaves(cs, level) <= hi - lo,
    decreases cs, 1nat,
{
    if cs.len() > 0 {
        let last = cs.last();
        assert(split_wf(cs[cs.len() - 1], n));
        assert(lo <= last.sp < last.ep <= hi);
        let init = cs.drop_last();
        assert forall|k: int| 0 <= k < init.len() implies lo <= (#[trigger] init[k]).sp < init[k].ep <= last.sp by {
            assert(init[k] == cs[k]);
            assert(cs[k].ep <= cs[cs.len() - 1].sp);
        }
        assert forall|a: int, b: int| #![trigger init[a], init[b]] 0 <= a < b < init.len() implies init[a].ep <= init[b].sp by {
            assert(init[a] == cs[a]);
            assert(init[b] == cs[b]);
        }
        assert forall|k: int| 0 <= k < init.len() implies split_wf(#[trigger] init[k], n) by {
            assert(init[k] == cs[k]);
        }
        lemma_children_leaves_bound(init, lo, last.sp as int, n, level);
        lemma_leaves_bound(last, n, level);
    }
}

proof fn lemma_children_leaves_prefix(cs: Seq<Split>, level: nat, k: int)
    requires
        0 <= k <= cs.len(),
    ensures
        children_leaves(cs.take(k), level) <= children_leaves(cs, level),
    decreases cs.len() - k,
{
    if k < cs.len() {
        lemma_children_leaves_prefix(cs, level, k + 1);
        assert(cs.take(k + 1).drop_last() =~= cs.take(k));
    } else {
        assert(cs.take(k) =~= cs);
    }
}

/// Abstract group of lines: kind, line range and subgroups.
pub struct GroupView {
    pub typ: Holder,
    pub sp: nat,
    pub ep: nat,
    pub children: Seq<GroupView>,
}

/// `s` is the group `g`, at every depth.
#[verifier::opaque]
pub open spec fn split_is(s: Split, g: GroupView) -> bool
    decreases s,
{
    &&& s._typ == g.typ
    &&& s.sp == g.sp
    &&& s.ep == g.ep
    &&& s.children@.len() == g.children.len()
    &&& forall|k: int| 0 <= k < s.children@.len() ==> split_is(#[trigger] s.children@[k], g.children[k])
}

/// Groups `cs` are the groups `gs`.
pub open spec fn splits_are(cs: Seq<Split>, gs: Seq<GroupView>) -> bool {
    &&& cs.len() == gs.len()
    &&& forall|k: int| 0 <= k < cs.len() ==> split_is(#[trigger] cs[k], gs[k])
}

proof fn lemma_split_is_intro(s: Split, g: GroupView)
    requires
        s._typ == g.typ,
        s.sp == g.sp,
        s.ep == g.ep,
        splits_are(s.children@, g.children),
    ensures
        split_is(s, g),
{
    reveal(split_is);
}

proof fn lemma_splits_push(cs: Seq<Split>, gs: Seq<GroupView>, c: Split, g: GroupView)
    requires
        splits_are(cs, gs),
        split_is(c, g),
    ensures
        splits_are(cs.push(c), gs.push(g)),
{
    assert forall|k: int| 0 <= k < cs.len() + 1 implies split_is(#[trigger] cs.push(c)[k], gs.push(g)[k]) by {
        if k < cs.len() {
            assert(cs.push(c)[k] == cs[k]);
            assert(gs.push(g)[k] == gs[k]);
        }
    }
}

/// A group of lines `[sp, ep)` without subgroups.
pub open spec fn body_group(sp: int, ep: int) -> GroupView {
    GroupView { typ: Holder::Body, sp: sp as nat, ep: ep as nat, children: Seq::empty() }
}

/// Tokens of a line once its identifiers have their ids, and the store after it.
pub open spec fn line_update(ts: Seq<Th>, m: StoreModel) -> (Seq<Th>, StoreModel) {
    let kind = kind_of(ts);
    let st0 = initial_state(kind, m);
    (Seq::new(ts.len(), |j: int| updated_th(kind, st0, ts, j)), fold_state(kind, st0, ts).m)
}

/// Store with its innermost level dropped, if any.
pub open spec fn pop_level(m: StoreModel) -> StoreModel {
    m.with_levels(
        if m.levels.len() > 0 {
            m.levels.drop_last()
        } else {
            m.levels
        },
    )
}

/// Result of grouping lines: their tokens, the store, the subgroups and the end line.
pub struct GroupRun {
    pub toks: Seq<Seq<Th>>,
    pub m: StoreModel,
    pub children: Seq<GroupView>,
    pub ep: nat,
}

/// Grouping of the lines from `index` on, with subgroups `children` found so far and the
/// current run of plain lines starting at `cc`; `toks` are the lines' tokens and `ind`
/// their indents.
///
/// A group started at indent `level` ends at the first line indented no deeper. A `def` or
/// `class` line closes the current run and opens a group of its own kind, with a new store
/// level, running over the lines after it (the line's identifiers get their ids in the new
/// level); a new run starts after it. Any other line gets its ids and joins the current
/// run. At the end of the lines the current run becomes a subgroup only when there are
/// others.
pub open spec fn group_from(
    toks: Seq<Seq<Th>>,
    ind: Seq<usize>,
    m: StoreModel,
    level: Option<usize>,
    index: int,
    children: Seq<GroupView>,
    cc: int,
) -> GroupRun
    decreases ind.len() - index,
{
    if index < 0 || index >= ind.len() {
        GroupRun {
            toks,
            m,
            children: if children.len() != 0 && cc != index {
                children.push(body_group(cc, index))
            } else {
                children
            },
            ep: index as nat,
        }
    } else if level is Some && ind[index] <= level->0 {
        GroupRun {
            toks,
            m,
            children: if cc < index {
                children.push(body_group(cc, index))
            } else {
                children
            },
            ep: index as nat,
        }
    } else {
        let t = th_token(toks[index][0]);
        if t == Token::KeyDef || t == Token::KeyClass {
            let cs1 = if index != cc {
                children.push(body_group(cc, index))
            } else {
                children
            };
            let m1 = m.with_levels(m.levels.push(Seq::empty()));
            let (line1, m2) = line_update(toks[index], m1);
            let inner = group_from(toks.update(index, line1), ind, m2, Some(ind[index]), index + 1, Seq::empty(), index);
            let child = GroupView {
                typ: if t == Token::KeyDef {
                    Holder::Def
                } else {
                    Holder::Class
                },
                sp: index as nat,
                ep: inner.ep,
                children: inner.children,
            };
            if index < inner.ep && inner.ep <= ind.len() {
                group_from(inner.toks, ind, pop_level(inner.m), level, inner.ep as int, cs1.push(child), inner.ep as int)
            } else {
                inner
            }
        } else {
            let (line1, m2) = line_update(toks[index], m);
            group_from(toks.update(index, line1), ind, m2, level, index + 1, children, cc)
        }
    }
}

/// Tokens of each line.
pub open spec fn tokens_of(ls: Seq<Line>) -> Seq<Seq<Th>> {
    ls.map_values(|l: Line| l.tokens@)
}

/// Indent of each line.
pub open spec fn indents_of(ls: Seq<Line>) -> Seq<usize> {
    ls.map_values(|l: Line| l.indent)
}

/// Every line has a first token and text on each identifier.
pub open spec fn lines_ok(ls: Seq<Line>) -> bool {
    forall|i: int| 0 <= i < ls.len() ==> (#[trigger] ls[i]).tokens@.len() > 0 && words_present(ls[i].tokens@)
}

/// The store has room for `extra` more levels.
pub open spec fn room(m: StoreModel, extra: int) -> bool {
    m.offset + (m.levels.len() + extra) * m.size <= u32::MAX
}

/// Whether a line indented `x` is inside a group started at indent `level`.
pub open spec fn above(level: Option<usize>, x: usize) -> bool {
    match level {
        None => true,
        Some(l) => x > l,
    }
}

/// Longest run of lines from `from` on whose indents rise strictly, all inside `level`:
/// a bound on how many groups the lines from `from` on can open one inside another, as a
/// nested group starts at a line indented deeper than the one that opened the outer group.
pub open spec fn nest_depth(ind: Seq<usize>, level: Option<usize>, from: int) -> nat
    decreases ind.len() - from,
{
    if from < 0 || from >= ind.len() {
        0
    } else {
        let skip = nest_depth(ind, level, from + 1);
        let take: nat = if above(level, ind[from]) {
            1 + nest_depth(ind, Some(ind[from]), from + 1)
        } else {
            0
        };
        if take > skip {
            take
        } else {
            skip
        }
    }
}

/// Sum of the indents from `from` on.
pub open spec fn indent_sum(ind: Seq<usize>, from: int) -> int
    decreases ind.len() - from,
{
    if from < 0 || from >= ind.len() {
        0
    } else {
        ind[from] + indent_sum(ind, from + 1)
    }
}

proof fn lemma_nest_mono(ind: Seq<usize>, level: Option<usize>, a: int, b: int)
    requires
        0 <= a <= b,
    ensures
        nest_depth(ind, level, b) <= nest_depth(ind, level, a),
    decreases b - a,
{
    if a < b {
        lemma_nest_mono(ind, level, a + 1, b);
    }
}

/// Rising indents cost characters: `d` lines with strictly rising indents above `level`
/// have indents adding up to at least `d * (level + 1) + d * (d - 1) / 2`.
proof fn lemma_nest_sum(ind: Seq<usize>, level: Option<usize>, from: int)
    requires
        0 <= from,
    ensures
        ({
            let d = nest_depth(ind, level, from) as int;
            let b: int = match level {
                None => 0,
                Some(l) => l + 1,
            };
            2 * d * b + d * (d - 1) <= 2 * indent_sum(ind, from)
        }),
    decreases ind.len() - from,
{
    if from < ind.len() {
        lemma_nest_sum(ind, level, from + 1);
        let l = ind[from];
        lemma_nest_sum(ind, Some(l), from + 1);
        let b: int = match level {
            None => 0,
            Some(l) => l + 1,
        };
        let skip = nest_depth(ind, level, from + 1) as int;
        let inner = nest_depth(ind, Some(l), from + 1) as int;
        let rest = indent_sum(ind, from + 1);
        assert(2 * skip * b + skip * (skip - 1) <= 2 * rest);
        assert(2 * inner * (l + 1) + inner * (inner - 1) <= 2 * rest);
        assert(indent_sum(ind, from) == l + rest);
        assert(2 * skip * b + skip * (skip - 1) <= 2 * (l + rest));
        let d = nest_depth(ind, level, from) as int;
        if above(level, l) && 1 + inner > skip {
            assert(d == inner + 1);
            assert(b <= l);
            assert(2 * (inner + 1) * b + (inner + 1) * inner <= 2 * (l + rest)) by (nonlinear_arith)
                requires
                    0 <= b <= l,
                    0 <= inner,
                    2 * inner * (l + 1) + inner * (inner - 1) <= 2 * rest,
            ;
            assert(2 * d * b + d * (d - 1) <= 2 * indent_sum(ind, from));
        } else {
            assert(d == skip);
            assert(2 * d * b + d * (d - 1) <= 2 * indent_sum(ind, from));
        }
    } else {
        let d = nest_depth(ind, level, from) as int;
        let b: int = match level {
            None => 0,
            Some(l) => l + 1,
        };
        assert(d == 0);
        assert(indent_sum(ind, from) == 0);
        assert(2 * d * b + d * (d - 1) == 0) by (nonlinear_arith)
            requires
                d == 0,
        ;
    }
}

proof fn lemma_indent_sum_last(ind: Seq<usize>, from: int)
    requires
        0 <= from < ind.len(),
    ensures
        indent_sum(ind, from) == indent_sum(ind.drop_last(), from) + ind.last(),
    decreases ind.len() - from,
{
    let dl = ind.drop_last();
    if from < ind.len() - 1 {
        lemma_indent_sum_last(ind, from + 1);
        assert(dl[from] == ind[from]);
        assert(indent_sum(dl, from) == dl[from] + indent_sum(dl, from + 1));
    } else {
        assert(indent_sum(ind, from + 1) == 0);
        assert(indent_sum(dl, from) == 0);
    }
}

/// Sum of the indents of some lines.
pub open spec fn view_indents(vs: Seq<LineView>) -> int
    decreases vs.len(),
{
    if vs.len() == 0 {
        0
    } else {
        view_indents(vs.drop_last()) + vs.last().indent
    }
}

proof fn lemma_indents_views(ls: Seq<Line>)
    ensures
        indent_sum(indents_of(ls), 0) == view_indents(lines_view(ls)),
    decreases ls.len(),
{
    if ls.len() > 0 {
        lemma_indents_views(ls.drop_last());
        lemma_indent_sum_last(indents_of(ls), 0);
        assert(indents_of(ls).drop_last() =~= indents_of(ls.drop_last()));
        assert(lines_view(ls).drop_last() =~= lines_view(ls.drop_last()));
    }
}

/// Indent characters the splitter has used: those of the finished lines, the current line,
/// and the pending one after a newline.
pub open spec fn split_weight(st: SplitState) -> int {
    view_indents(st.lines) + st.cur.indent + if st.after_newline {
        match st.indent {
            Some(n) => n as int,
            None => 0,
        }
    } else {
        0
    }
}

proof fn lemma_split_weight(src: Seq<char>, xs: Seq<Lexeme>)
    requires
        forall|k: int| 0 <= k < xs.len() ==> #[trigger] xs[k].start < xs[k].end,
        forall|k: int| 0 <= k < xs.len() - 1 ==> #[trigger] xs[k].end == xs[k + 1].start,
    ensures
        split_weight(split_fold(src, split_start(), xs)) <= if xs.len() > 0 { xs.last().end as int } else { 0 },
        !split_fold(src, split_start(), xs).started ==> !split_fold(src, split_start(), xs).after_newline
            && split_fold(src, split_start(), xs).cur.indent == 0 && split_fold(src, split_start(), xs).lines.len() == 0,
    decreases xs.len(),
{
    if xs.len() > 0 {
        let init = xs.drop_last();
        assert forall|k: int| 0 <= k < init.len() - 1 implies #[trigger] init[k].end == init[k + 1].start by {
            assert(init[k] == xs[k] && init[k + 1] == xs[k + 1]);
        }
        assert forall|k: int| 0 <= k < init.len() implies #[trigger] init[k].start < init[k].end by {
            assert(init[k] == xs[k]);
        }
        lemma_split_weight(src, init);
        let st = split_fold(src, split_start(), init);
        let x = xs.last();
        if init.len() > 0 {
            assert(init.last().end == x.start) by {
                assert(xs[xs.len() - 2].end == xs[xs.len() - 1].start);
            }
        }
        assert(x.start < x.end) by {
            assert(xs[xs.len() - 1].start < xs[xs.len() - 1].end);
        }
        if st.started && st.after_newline && !is_ignored(x.token) {
            assert(st.lines.push(st.cur).drop_last() =~= st.lines);
        }
    }
}

proof fn lemma_kept_indents(vs: Seq<LineView>)
    ensures
        view_indents(kept_views(vs)) <= view_indents(vs),
    decreases vs.len(),
{
    if vs.len() > 0 {
        lemma_kept_indents(vs.drop_last());
        if view_is_kept(vs.last()) {
            assert(kept_views(vs).drop_last() =~= kept_views(vs.drop_last()));
        }
    }
}

/// The indents of the parsed lines of `text` add up to at most its length.
proof fn lemma_source_indents(text: Seq<char>)
    requires
        text.len() <= usize::MAX,
    ensures
        view_indents(source_lines(text)) <= text.len(),
{
    let xs = lex_spec(text);
    lemma_lex_tiles(text);
    lemma_split_weight(text, xs);
    let st = split_fold(text, split_start(), xs);
    assert(split_spec(text, xs).drop_last() =~= st.lines);
    lemma_kept_indents(split_spec(text, xs));
}

/// Lines `a` and `b` agree on everything but the identifier ids.
pub open spec fn same_shape(a: Line, b: Line) -> bool {
    &&& a.indent == b.indent
    &&& a.length == b.length
    &&& a.tokens@.len() == b.tokens@.len()
    &&& forall|j: int| 0 <= j < a.tokens@.len() ==> th_token(#[trigger] a.tokens@[j]) == th_token(b.tokens@[j])
}

proof fn lemma_room_step(m: StoreModel, extra: int, smaller: int)
    requires
        room(m, extra),
        0 <= smaller <= extra,
    ensures
        room(m, smaller),
        m.fits(),
{
    let a = m.levels.len() + smaller;
    let b = m.levels.len() + extra;
    let c = m.levels.len() as int;
    let sz = m.size as int;
    assert(a * sz <= b * sz) by (nonlinear_arith)
        requires
            a <= b,
            0 <= sz,
    ;
    assert(c * sz <= b * sz) by (nonlinear_arith)
        requires
            c <= b,
            0 <= sz,
    ;
}

/// Updates line `index` in place from the store.
fn update_line(lines: &mut Vec<Line>, index: usize, context: &mut ContextStore)
    requires
        index < old(lines)@.len(),
        lines_ok(old(lines)@),
        store_ready(old(context)),
    ensures
        final(lines)@.len() == old(lines)@.len(),
        lines_ok(final(lines)@),
        forall|i: int| 0 <= i < old(lines)@.len() && i != index ==> final(lines)@[i] == old(lines)@[i],
        same_shape(final(lines)@[index as int], old(lines)@[index as int]),
        ({
            let ts = old(lines)@[index as int].tokens@;
            let kind = kind_of(ts);
            let st0 = initial_state(kind, old(context).model());
            &&& forall|j: int| 0 <= j < ts.len() ==> final(lines)@[index as int].tokens@[j] == updated_th(kind, st0, ts, j)
            &&& final(context).model() == fold_state(kind, st0, ts).m
        }),
        store_ready(final(context)),
        final(context).levels().len() == old(context).levels().len(),
        final(context).size() == old(context).size(),
        final(context).offset() == old(context).offset(),
        tokens_of(final(lines)@) == tokens_of(old(lines)@).update(index as int, line_update(old(lines)@[index as int].tokens@, old(context).model()).0),
        final(context).model() == line_update(old(lines)@[index as int].tokens@, old(context).model()).1,
        indents_of(final(lines)@) == indents_of(old(lines)@),
{
    let ghost ts = lines@[index as int].tokens@;
    lines[index].update_context(context);
    proof {
        lemma_fold_levels(kind_of(ts), initial_state(kind_of(ts), old(context).model()), ts);
    }
    assert forall|j: int| 0 <= j < ts.len() implies th_token(#[trigger] lines@[index as int].tokens@[j]) == th_token(ts[j]) by {
        lemma_updated_keeps(kind_of(ts), initial_state(kind_of(ts), old(context).model()), ts, j);
    }
    assert(words_present(lines@[index as int].tokens@)) by {
        assert forall|j: int| 0 <= j < ts.len() implies (#[trigger] lines@[index as int].tokens@[j] matches Th::I(x) ==> x.d is Some) by {
            lemma_updated_keeps(kind_of(ts), initial_state(kind_of(ts), old(context).model()), ts, j);
        }
    }
    assert(lines_ok(lines@)) by {
        assert forall|i: int| 0 <= i < lines@.len() implies (#[trigger] lines@[i]).tokens@.len() > 0 && words_present(lines@[i].tokens@) by {
            if i != index {
                assert(lines@[i] == old(lines)@[i]);
            }
        }
    }
    assert(lines@[index as int].tokens@ =~= line_update(ts, old(context).model()).0);
    assert(tokens_of(lines@) =~= tokens_of(old(lines)@).update(index as int, line_update(ts, old(context).model()).0)) by {
        assert forall|i: int| 0 <= i < lines@.len() && i != index implies lines@[i] == old(lines)@[i] by {}
    }
    assert(indents_of(lines@) =~= indents_of(old(lines)@)) by {
        assert forall|i: int| 0 <= i < lines@.len() && i != index implies lines@[i] == old(lines)@[i] by {}
    }
}

/// Groups the lines from `line` on into `split`: each `def` or `class` line opens a child
/// group, with its own context level, running until the next line indented no deeper than
/// it; runs of other lines between them form body children. A group started at an indent
/// (`level`) ends at the first line indented no deeper than that. Each line's identifiers
/// get their ids on the way.
#[verifier::spinoff_prover]
#[verifier::rlimit(100)]
fn parse_lines(lines: &mut Vec<Line>, split: &mut Split, level: Option<usize>, line: usize, context: &mut ContextStore)
    requires
        old(split).sp <= line <= old(lines)@.len(),
        old(split).children@.len() == 0,
        lines_ok(old(lines)@),
        store_ready(old(context)),
        room(old(context).model(), nest_depth(indents_of(old(lines)@), level, line as int) as int),
    ensures
        final(lines)@.len() == old(lines)@.len(),
        lines_ok(final(lines)@),
        forall|i: int| 0 <= i < old(lines)@.len() ==> same_shape(#[trigger] final(lines)@[i], old(lines)@[i]),
        final(split).sp == old(split).sp,
        line <= final(split).ep <= old(lines)@.len(),
        level is None ==> final(split).ep == old(lines)@.len(),
        split_wf(*final(split), old(lines)@.len() as nat),
        tiled(*final(split)),
        store_ready(final(context)),
        final(context).levels().len() == old(context).levels().len(),
        final(context).size() == old(context).size(),
        final(context).offset() == old(context).offset(),
        final(split)._typ == old(split)._typ,
        ({
            let r = group_from(tokens_of(old(lines)@), indents_of(old(lines)@), old(context).model(), level, line as int, Seq::empty(), old(split).sp as int);
            &&& tokens_of(final(lines)@) == r.toks
            &&& final(context).model() == r.m
            &&& splits_are(final(split).children@, r.children)
            &&& final(split).ep == r.ep
        }),
    decreases old(lines)@.len() - line,
{
    let n = lines.len();
    let mut index = line;
    let mut current_child = Split::new(Holder::Body, split.sp);
    let ghost levels0 = context.levels().len();
    let ghost ind0 = indents_of(old(lines)@);
    let ghost whole = group_from(tokens_of(old(lines)@), ind0, old(context).model(), level, line as int, Seq::empty(), old(split).sp as int);
    let ghost mut gcs: Seq<GroupView> = Seq::empty();
    assert(split.children@ =~= Seq::<Split>::empty());
    while index < lines.len()
        invariant
            index <= n,
            n == lines@.len(),
            n == old(lines)@.len(),
            line <= index,
            split.sp == old(split).sp,
            split.sp <= current_child.sp <= index,
            current_child.children@.len() == 0,
            lines_ok(lines@),
            forall|i: int| 0 <= i < n ==> same_shape(#[trigger] lines@[i], old(lines)@[i]),
            ranges_ok(split.children@, split.sp as int, current_child.sp as int),
            all_wf(split.children@, n as nat),
            side_by_side(split.children@, split.sp as int, current_child.sp as int),
            forall|k: int| 0 <= k < split.children@.len() ==> tiled(#[trigger] split.children@[k]),
            store_ready(context),
            context.levels().len() == levels0,
            levels0 == old(context).levels().len(),
            context.size() == old(context).size(),
            context.offset() == old(context).offset(),
            room(context.model(), nest_depth(ind0, level, index as int) as int),
            ind0.len() == n,
            indents_of(lines@) == ind0,
            ind0 == indents_of(old(lines)@),
            whole == group_from(tokens_of(old(lines)@), ind0, old(context).model(), level, line as int, Seq::empty(), old(split).sp as int),
            splits_are(split.children@, gcs),
            current_child._typ == Holder::Body,
            split._typ == old(split)._typ,
            group_from(tokens_of(lines@), ind0, context.model(), level, index as int, gcs, current_child.sp as int) == whole,
        decreases n - index,
    {
        if level.is_some() && lines[index].indent <= level.unwrap() {
            assert(lines@[index as int].indent == ind0[index as int]);
            if current_child.sp < index {
                current_child.ep = index;
                proof {
                    lemma_split_is_intro(current_child, body_group(current_child.sp as int, index as int));
                    lemma_splits_push(split.children@, gcs, current_child, body_group(current_child.sp as int, index as int));
                    gcs = gcs.push(body_group(current_child.sp as int, index as int));
                    lemma_split_wf_intro(current_child, n as nat);
                    lemma_children_push(split.children@, split.sp as int, current_child.sp as int, index as int, n as nat, current_child);
                    lemma_tiled_intro(current_child);
                    lemma_side_push(split.children@, split.sp as int, current_child.sp as int, current_child);
                }
                split.children.push(current_child);
            } else {

            }
            split.ep = index;
            proof {
                lemma_split_wf_intro(*split, n as nat);
                lemma_tiled_intro(*split);
            }
            return;
        }
        let token = lines[index].token();
        match token {
            Token::KeyDef | Token::KeyClass => {
                let ghost toks0 = tokens_of(lines@);
                let ghost m_start = context.model();
                let ghost gcs0 = gcs;
                let ghost cc0 = current_child.sp as int;
                if index != current_child.sp {
                    current_child.ep = index;
                    proof {
                        lemma_split_is_intro(current_child, body_group(current_child.sp as int, index as int));
                        lemma_splits_push(split.children@, gcs, current_child, body_group(current_child.sp as int, index as int));
                        gcs = gcs.push(body_group(current_child.sp as int, index as int));
                            lemma_split_wf_intro(current_child, n as nat);
                        lemma_children_push(split.children@, split.sp as int, current_child.sp as int, index as int, n as nat, current_child);
                    lemma_tiled_intro(current_child);
                    lemma_side_push(split.children@, split.sp as int, current_child.sp as int, current_child);
                    }
                    split.children.push(current_child);
                } else {

                }
                let holder_type = if token == Token::KeyDef {
                    Holder::Def
                } else {
                    Holder::Class
                };
                current_child = Split::new(holder_type, index);
                let ghost m0 = context.model();
                context.push_context();
                proof {
                    let ind = ind0[index as int];
                    let inner_need = nest_depth(ind0, Some(ind), index + 1) as int;
                    assert(above(level, ind));
                    assert(1 + inner_need <= nest_depth(ind0, level, index as int));
                    lemma_room_step(m0, nest_depth(ind0, level, index as int) as int, 1 + inner_need);
                    let a = m0.levels.len() + (1 + inner_need);
                    let b = context.model().levels.len() + inner_need;
                    assert(a == b);
                    assert(room(context.model(), inner_need));
                    lemma_room_step(context.model(), inner_need, 0);
                }
                update_line(lines, index, context);
                let ind = lines[index].indent;
                assert(ind == ind0[index as int]);
                let ghost inner_run = group_from(tokens_of(lines@), ind0, context.model(), Some(ind), index + 1, Seq::empty(), index as int);
                parse_lines(lines, &mut current_child, Some(ind), index + 1, context);
                context.pop_context();
                proof {
                    lemma_split_wf_range(current_child, n as nat);
                    lemma_nest_mono(ind0, level, index as int, current_child.ep as int);
                    lemma_room_step(m0, nest_depth(ind0, level, index as int) as int, nest_depth(ind0, level, current_child.ep as int) as int);
                    lemma_children_push(split.children@, split.sp as int, index as int, current_child.ep as int, n as nat, current_child);
                    lemma_side_push(split.children@, split.sp as int, index as int, current_child);
                }
                proof {
                    let child = GroupView { typ: holder_type, sp: index as nat, ep: current_child.ep as nat, children: inner_run.children };
                    lemma_split_is_intro(current_child, child);
                    lemma_splits_push(split.children@, gcs, current_child, child);
                    gcs = gcs.push(child);
                }
                index = current_child.ep;
                split.children.push(current_child);
                current_child = Split::new(Holder::Body, index);
            },
            _ => {
                proof {
                    lemma_room_step(context.model(), nest_depth(ind0, level, index as int) as int, 0);
                }
                update_line(lines, index, context);
                proof {
                    lemma_nest_mono(ind0, level, index as int, index + 1);
                    lemma_room_step(context.model(), nest_depth(ind0, level, index as int) as int, nest_depth(ind0, level, index + 1) as int);
                }
                index = index + 1;
            },
        }
    }
    split.ep = index;
    if split.children.len() != 0 && current_child.sp != index {
        current_child.ep = index;
        proof {
            lemma_split_is_intro(current_child, body_group(current_child.sp as int, index as int));
            lemma_splits_push(split.children@, gcs, current_child, body_group(current_child.sp as int, index as int));
            gcs = gcs.push(body_group(current_child.sp as int, index as int));
            lemma_split_wf_intro(current_child, n as nat);
            lemma_children_push(split.children@, split.sp as int, current_child.sp as int, index as int, n as nat, current_child);
                    lemma_tiled_intro(current_child);
                    lemma_side_push(split.children@, split.sp as int, current_child.sp as int, current_child);
        }
        split.children.push(current_child);
    } else {

    }
    proof {
        lemma_split_wf_intro(*split, n as nat);
                lemma_tiled_intro(*split);
    }
}

/// Cumulative line lengths: entry `k` is the sum of the lengths of the first `k` lines.
pub open spec fn prefix_lengths(ls: Seq<Line>) -> Seq<int>
    decreases ls.len(),
{
    if ls.len() == 0 {
        seq![0]
    } else {
        let p = prefix_lengths(ls.drop_last());
        p.push(p.last() + ls.last().length)
    }
}

proof fn lemma_prefix_lengths(ls: Seq<Line>)
    ensures
        prefix_lengths(ls).len() == ls.len() + 1,
        prefix_lengths(ls)[0] == 0,
        forall|a: int, b: int| 0 <= a <= b < prefix_lengths(ls).len() ==> prefix_lengths(ls)[a] <= prefix_lengths(ls)[b],
    decreases ls.len(),
{
    if ls.len() > 0 {
        lemma_prefix_lengths(ls.drop_last());
        let p = prefix_lengths(ls.drop_last());
        assert forall|a: int, b: int| 0 <= a <= b < prefix_lengths(ls).len() implies prefix_lengths(ls)[a] <= prefix_lengths(ls)[b] by {
            if b < p.len() {
                assert(prefix_lengths(ls)[a] == p[a]);
                assert(prefix_lengths(ls)[b] == p[b]);
            } else if a < p.len() {
                assert(prefix_lengths(ls)[a] == p[a]);
                assert(p[a] <= p[p.len() - 1]);
            }
        }
    }
}

/// The table of cumulative token counts per line.
fn create_lengths(lines: &mut Vec<Line>) -> (r: Vec<usize>)
    requires
        prefix_lengths(old(lines)@).last() <= usize::MAX,
    ensures
        *final(lines) == *old(lines),
        r@.len() == prefix_lengths(old(lines)@).len(),
        forall|k: int| 0 <= k < r@.len() ==> r@[k] == prefix_lengths(old(lines)@)[k],
        lengths_sorted(r@),
{
    proof {
        lemma_prefix_lengths(lines@);
    }
    let mut s_length: Vec<usize> = Vec::new();
    s_length.push(0);
    let mut x: usize = 0;
    while x < lines.len()
        invariant
            x <= lines@.len(),
            *lines == *old(lines),
            prefix_lengths(lines@).len() == lines@.len() + 1,
            forall|a: int, b: int| 0 <= a <= b < prefix_lengths(lines@).len() ==> prefix_lengths(lines@)[a] <= prefix_lengths(lines@)[b],
            prefix_lengths(lines@).last() <= usize::MAX,
            s_length@.len() == x + 1,
            forall|k: int| 0 <= k <= x ==> s_length@[k] == prefix_lengths(lines@.take(x as int))[k],
            prefix_lengths(lines@.take(x as int)) =~= prefix_lengths(lines@).take(x + 1),
        decreases lines@.len() - x,
    {
        proof {
            assert(lines@.take(x + 1).drop_last() =~= lines@.take(x as int));
            assert(prefix_lengths(lines@).take(x + 2) =~= prefix_lengths(lines@.take(x + 1))) by {
                lemma_prefix_take(lines@, x + 1);
            }
            let p1 = prefix_lengths(lines@.take(x + 1));
            assert(p1.last() == prefix_lengths(lines@.take(x as int)).last() + lines@[x as int].length);
            assert(p1.last() == prefix_lengths(lines@)[x + 1]);
            assert(prefix_lengths(lines@.take(x as int)).last() == s_length@[x as int]);
            assert(prefix_lengths(lines@)[x + 1] <= prefix_lengths(lines@).last());
        }
        let next = s_length[x] + lines[x].length;
        s_length.push(next);
        x = x + 1;
    }
    assert(lines@.take(x as int) =~= lines@);
    s_length
}

proof fn lemma_prefix_take(ls: Seq<Line>, k: int)
    requires
        0 <= k <= ls.len(),
    ensures
        prefix_lengths(ls.take(k)) =~= prefix_lengths(ls).take(k + 1),
    decreases ls.len() - k,
{
    if k < ls.len() {
        lemma_prefix_take(ls, k + 1);
        assert(ls.take(k + 1).drop_last() =~= ls.take(k));
        lemma_prefix_lengths(ls.take(k + 1));
        lemma_prefix_lengths(ls);
    } else {
        assert(ls.take(k) =~= ls);
        lemma_prefix_lengths(ls);
    }
}

/// Number of ids a line produces: its tokens and a newline.
pub open spec fn line_len(l: Line) -> nat {
    l.tokens@.len() + 1
}

/// Ids of all lines, in order.
pub open spec fn all_ids(ls: Seq<Line>) -> Seq<u32>
    decreases ls.len(),
{
    if ls.len() == 0 {
        Seq::empty()
    } else {
        all_ids(ls.drop_last()) + super::python_line::line_ids(ls.last().tokens@)
    }
}

/// Position of each id within its line.
pub open spec fn all_positions(ls: Seq<Line>) -> Seq<u32>
    decreases ls.len(),
{
    if ls.len() == 0 {
        Seq::empty()
    } else {
        all_positions(ls.drop_last()) + Seq::new(line_len(ls.last()), |j: int| j as u32)
    }
}

/// Line number of each id.
pub open spec fn all_lines(ls: Seq<Line>) -> Seq<u32>
    decreases ls.len(),
{
    if ls.len() == 0 {
        Seq::empty()
    } else {
        all_lines(ls.drop_last()) + Seq::new(line_len(ls.last()), |j: int| (ls.len() - 1) as u32)
    }
}

/// Lines with their length recorded.
pub open spec fn lengths_recorded(ls: Seq<Line>, old_ls: Seq<Line>) -> bool {
    &&& ls.len() == old_ls.len()
    &&& forall|i: int| 0 <= i < ls.len() ==> {
        &&& (#[trigger] ls[i]).tokens@ == old_ls[i].tokens@
        &&& ls[i].indent == old_ls[i].indent
        &&& ls[i].length == line_len(old_ls[i])
    }
}

/// The ids, positions, line numbers and lengths of all lines; records each line's length.
fn create_ids(lines: &mut Vec<Line>, context: &ContextStore) -> (r: (Vec<u32>, Vec<u32>, Vec<u32>, Vec<usize>))
    requires
        old(lines)@.len() <= u32::MAX,
        forall|i: int| 0 <= i < old(lines)@.len() ==> line_len(#[trigger] old(lines)@[i]) <= u32::MAX,
    ensures
        lengths_recorded(final(lines)@, old(lines)@),
        r.0@ == all_ids(old(lines)@),
        r.1@ == all_positions(old(lines)@),
        r.2@ == all_lines(old(lines)@),
        r.3@ == old(lines)@.map_values(|l: Line| line_len(l) as usize),
{
    let mut ids: Vec<u32> = Vec::with_capacity(512);
    let mut positions: Vec<u32> = Vec::with_capacity(512);
    let mut attentions: Vec<u32> = Vec::with_capacity(512);
    let mut gaps: Vec<usize> = Vec::with_capacity(128);
    let ghost ls = lines@;
    let mut index: u32 = 0;
    let mut x: usize = 0;
    assert(ls.take(0) =~= Seq::<Line>::empty());
    while x < lines.len()
        invariant
            x <= ls.len(),
            x == index,
            ls == old(lines)@,
            ls.len() <= u32::MAX,
            forall|i: int| 0 <= i < ls.len() ==> line_len(#[trigger] ls[i]) <= u32::MAX,
            lines@.len() == ls.len(),
            forall|i: int| x <= i < ls.len() ==> (#[trigger] lines@[i]) == ls[i],
            lengths_recorded(lines@.take(x as int), ls.take(x as int)),
            ids@ == all_ids(ls.take(x as int)),
            positions@ == all_positions(ls.take(x as int)),
            attentions@ == all_lines(ls.take(x as int)),
            gaps@ == ls.take(x as int).map_values(|l: Line| line_len(l) as usize),
        decreases ls.len() - x,
    {
        let ghost pre = ls.take(x as int);
        assert(ls.take(x + 1).drop_last() =~= pre);
        assert(ls.take(x + 1).last() == ls[x as int]);
        let ghost lines0 = lines@;
        let data = lines[x].create_ids(context);
        let mut d = data;
        ids.append(&mut d);
        let l = lines[x].length;
        let mut p: u32 = 0;
        let ghost pos0 = positions@;
        let ghost att0 = attentions@;
        let ghost lines1 = lines@;
        assert(lines1[x as int].tokens@ == ls[x as int].tokens@);
        assert(lines1[x as int].length == line_len(ls[x as int]));
        assert(lines1[x as int].indent == ls[x as int].indent);
        assert(lines1.take(x as int) =~= lines0.take(x as int));
        while p < l as u32
            invariant
                lines@ == lines1,
                p <= l,
                l <= u32::MAX,
                positions@ == pos0 + Seq::new(p as nat, |j: int| j as u32),
                attentions@ == att0 + Seq::new(p as nat, |j: int| index),
            decreases l - p,
        {
            positions.push(p);
            attentions.push(index);
            assert(positions@ =~= pos0 + Seq::new((p + 1) as nat, |j: int| j as u32));
            assert(attentions@ =~= att0 + Seq::new((p + 1) as nat, |j: int| index));
            p = p + 1;
        }
        gaps.push(l);
        assert(ids@ =~= all_ids(ls.take(x + 1)));
        assert(positions@ =~= all_positions(ls.take(x + 1)));
        assert(attentions@ =~= all_lines(ls.take(x + 1)));
        assert(gaps@ =~= ls.take(x + 1).map_values(|l: Line| line_len(l) as usize));
        assert(lengths_recorded(lines@.take(x + 1), ls.take(x + 1))) by {
            assert forall|i: int| 0 <= i < x + 1 implies {
                &&& (#[trigger] lines@.take(x + 1)[i]).tokens@ == ls.take(x + 1)[i].tokens@
                &&& lines@.take(x + 1)[i].indent == ls.take(x + 1)[i].indent
                &&& lines@.take(x + 1)[i].length == line_len(ls.take(x + 1)[i])
            } by {
                if i < x {
                    assert(lines@.take(x + 1)[i] == lines0.take(x as int)[i]);
                    assert(ls.take(x + 1)[i] == ls.take(x as int)[i]);
                } else {
                    assert(lines@.take(x + 1)[i] == lines1[x as int]);
                }
            }
        }
        index = index + 1;
        x = x + 1;
    }
    assert(ls.take(x as int) =~= ls);
    assert(lines@.take(x as int) =~= lines@);
    (ids, positions, attentions, gaps)
}


/// Token of an element.
pub open spec fn elem_token(e: ElemView) -> Token {
    match e {
        ElemView::Tok(t) => t,
        ElemView::Word(t, _, _) => t,
        ElemView::Num(t, _, _) => t,
    }
}

/// A line kept for parsing: it has a token and does not start with `import` or `from`.
pub open spec fn view_is_kept(v: LineView) -> bool {
    v.elems.len() > 0 && elem_token(v.elems[0]) != Token::KeyImport && elem_token(v.elems[0])
        != Token::KeyFrom
}

/// The lines kept for parsing, in order.
pub open spec fn kept_views(vs: Seq<LineView>) -> Seq<LineView>
    decreases vs.len(),
{
    if vs.len() == 0 {
        Seq::empty()
    } else if view_is_kept(vs.last()) {
        kept_views(vs.drop_last()).push(vs.last())
    } else {
        kept_views(vs.drop_last())
    }
}

/// The lines of a source text that are parsed: its lines without empty and import lines.
pub open spec fn source_lines(text: Seq<char>) -> Seq<LineView> {
    kept_views(split_spec(text, lex_spec(text)))
}

/// Number of ids of a line: its elements and a newline.
pub open spec fn width(v: LineView) -> nat {
    v.elems.len() + 1
}

/// Position of each id within its line.
pub open spec fn positions_of(vs: Seq<LineView>) -> Seq<u32>
    decreases vs.len(),
{
    if vs.len() == 0 {
        Seq::empty()
    } else {
        positions_of(vs.drop_last()) + Seq::new(width(vs.last()), |j: int| j as u32)
    }
}

/// Line number of each id.
pub open spec fn line_numbers_of(vs: Seq<LineView>) -> Seq<u32>
    decreases vs.len(),
{
    if vs.len() == 0 {
        Seq::empty()
    } else {
        line_numbers_of(vs.drop_last()) + Seq::new(width(vs.last()), |j: int| (vs.len() - 1) as u32)
    }
}

proof fn lemma_kept_bounded(vs: Seq<LineView>, b: nat)
    requires
        forall|i: int| 0 <= i < vs.len() ==> (#[trigger] vs[i]).elems.len() <= b,
    ensures
        kept_views(vs).len() <= vs.len(),
        forall|i: int| 0 <= i < kept_views(vs).len() ==> (#[trigger] kept_views(vs)[i]).elems.len() <= b,
    decreases vs.len(),
{
    if vs.len() > 0 {
        let init = vs.drop_last();
        assert forall|i: int| 0 <= i < init.len() implies (#[trigger] init[i]).elems.len() <= b by {
            assert(init[i] == vs[i]);
        }
        lemma_kept_bounded(init, b);
        let k = kept_views(vs);
        assert forall|i: int| 0 <= i < k.len() implies (#[trigger] k[i]).elems.len() <= b by {
            if i < kept_views(init).len() {
                assert(k[i] == kept_views(init)[i]);
            } else {
                assert(k[i] == vs[vs.len() - 1]);
            }
        }
    }
}

proof fn lemma_positions_view(ls: Seq<Line>)
    ensures
        all_positions(ls) == positions_of(lines_view(ls)),
        all_lines(ls) == line_numbers_of(lines_view(ls)),
        all_ids(ls).len() == all_positions(ls).len(),
        all_lines(ls).len() == all_positions(ls).len(),
    decreases ls.len(),
{
    if ls.len() > 0 {
        lemma_positions_view(ls.drop_last());
        assert(lines_view(ls).drop_last() =~= lines_view(ls.drop_last()));
        assert(lines_view(ls).last() == line_view(ls.last()));
        assert(line_len(ls.last()) == width(line_view(ls.last())));
    }
}

proof fn lemma_positions_shape(a: Seq<Line>, b: Seq<Line>)
    requires
        a.len() == b.len(),
        forall|i: int| 0 <= i < a.len() ==> (#[trigger] a[i]).tokens@.len() == b[i].tokens@.len(),
    ensures
        all_positions(a) == all_positions(b),
        all_lines(a) == all_lines(b),
        all_ids(a).len() == all_ids(b).len(),
    decreases a.len(),
{
    if a.len() > 0 {
        assert forall|i: int| 0 <= i < a.len() - 1 implies (#[trigger] a.drop_last()[i]).tokens@.len() == b.drop_last()[i].tokens@.len() by {
            assert(a.drop_last()[i] == a[i]);
            assert(b.drop_last()[i] == b[i]);
        }
        lemma_positions_shape(a.drop_last(), b.drop_last());
        assert(a.last().tokens@.len() == b.last().tokens@.len());
    }
}

/// The total of the line lengths once each line's length is recorded is the number of ids.
proof fn lemma_prefix_total(ls: Seq<Line>, old_ls: Seq<Line>)
    requires
        lengths_recorded(ls, old_ls),
    ensures
        prefix_lengths(ls).last() == all_positions(old_ls).len(),
    decreases ls.len(),
{
    if ls.len() > 0 {
        assert forall|i: int| 0 <= i < ls.len() - 1 implies {
            &&& (#[trigger] ls.drop_last()[i]).tokens@ == old_ls.drop_last()[i].tokens@
            &&& ls.drop_last()[i].indent == old_ls.drop_last()[i].indent
            &&& ls.drop_last()[i].length == line_len(old_ls.drop_last()[i])
        } by {
            assert(ls.drop_last()[i] == ls[i]);
            assert(old_ls.drop_last()[i] == old_ls[i]);
        }
        lemma_prefix_total(ls.drop_last(), old_ls.drop_last());
        assert(ls[ls.len() - 1].length == line_len(old_ls[old_ls.len() - 1]));
    }
}

/// The lines kept for parsing, moved out of `base` in order.
fn keep_valid(base: Vec<Line>) -> (r: Vec<Line>)
    requires
        lines_fresh(base@),
    ensures
        lines_view(r@) == kept_views(lines_view(base@)),
        lines_ok(r@),
{
    let ghost b0 = base@;
    let mut base = base;
    let mut r: Vec<Line> = Vec::with_capacity(base.len());
    let mut i: usize = 0;
    assert(lines_view(b0).take(0) =~= Seq::<LineView>::empty());
    assert(lines_view(r@) =~= Seq::<LineView>::empty());
    while i < base.len()
        invariant
            i <= b0.len(),
            base@.len() == b0.len(),
            lines_fresh(b0),
            forall|j: int| i <= j < b0.len() ==> (#[trigger] base@[j]) == b0[j],
            lines_view(r@) == kept_views(lines_view(b0).take(i as int)),
            lines_ok(r@),
        decreases b0.len() - i,
    {
        let mut tmp = Line::new(0);
        std::mem::swap(&mut base[i], &mut tmp);
        assert(tmp == b0[i as int]);
        let ghost vs = lines_view(b0).take(i + 1);
        assert(vs.drop_last() =~= lines_view(b0).take(i as int));
        assert(vs.last() == line_view(tmp));
        let keep = tmp.valid_line();
        assert(keep == view_is_kept(line_view(tmp))) by {
            if tmp.tokens@.len() > 0 {
                assert(line_view(tmp).elems[0] == th_view(tmp.tokens@[0]));
            }
        }
        if keep {
            let ghost r0 = r@;
            r.push(tmp);
            assert(lines_view(r@) =~= lines_view(r0).push(line_view(tmp)));
            assert(lines_ok(r@)) by {
                assert forall|k: int| 0 <= k < r@.len() implies (#[trigger] r@[k]).tokens@.len() > 0 && words_present(r@[k].tokens@) by {
                    if k < r0.len() {
                        assert(r@[k] == r0[k]);
                    } else {
                        assert(r@[k] == b0[i as int]);
                        assert forall|j: int| 0 <= j < r@[k].tokens@.len() implies (#[trigger] r@[k].tokens@[j] matches Th::I(x) ==> x.d is Some) by {
                            assert(b0[i as int].tokens@[j] == r@[k].tokens@[j]);
                        }
                    }
                }
            }
        }
        i = i + 1;
    }
    assert(lines_view(b0).take(i as int) =~= lines_view(b0));
    r
}

/// Ids of lines given their tokens: one per token and one per line end.
pub open spec fn toks_ids(ts: Seq<Seq<Th>>) -> Seq<u32>
    decreases ts.len(),
{
    if ts.len() == 0 {
        Seq::empty()
    } else {
        toks_ids(ts.drop_last()) + super::python_line::line_ids(ts.last())
    }
}

/// Cumulative id counts of lines given their tokens.
pub open spec fn toks_prefix(ts: Seq<Seq<Th>>) -> Seq<int>
    decreases ts.len(),
{
    if ts.len() == 0 {
        seq![0]
    } else {
        let p = toks_prefix(ts.drop_last());
        p.push(p.last() + ts.last().len() + 1)
    }
}

/// Store a file starts with: its imported names, no identifiers yet.
pub open spec fn file_store(imports: Set<Seq<char>>) -> StoreModel {
    StoreModel { imports, import_id: 299, levels: seq![Seq::<Seq<char>>::empty()], offset: 300, size: 300 }
}

/// `d` is the encoding of `text` given its lines `bs`, the kept lines `ls`, the top group
/// `body` and the cumulative id counts `sl`: the lines are grouped and their identifiers
/// numbered as `group_from` says, starting from a store holding the imported names; the
/// ids are those of the grouped lines, and row `k` (for `k` from 1) numbers the groups at
/// depth `context_size - k`.
pub open spec fn parsed_as(text: Seq<char>, bs: Seq<Line>, ls: Seq<Line>, body: Split, sl: Seq<usize>, d: TokenizedData, context_size: usize) -> bool {
    let r = group_from(tokens_of(ls), indents_of(ls), file_store(super::python_line::import_names(bs)), None, 0, Seq::empty(), 0);
    &&& lines_view(bs) == split_spec(text, lex_spec(text))
    &&& lines_view(ls) == kept_views(lines_view(bs))
    &&& split_is(body, GroupView { typ: Holder::Body, sp: 0, ep: r.ep, children: r.children })
    &&& sl.len() == r.toks.len() + 1
    &&& forall|i: int| 0 <= i < sl.len() ==> #[trigger] sl[i] as int == toks_prefix(r.toks)[i]
    &&& d.ids@ == toks_ids(r.toks)
    &&& forall|k: int| 1 <= k <= context_size ==> (#[trigger] d.attention_mask@[k])@ == mask_ids(body, sl, 0, (context_size - k) as nat)
}

proof fn lemma_toks_ids(ls: Seq<Line>)
    ensures
        all_ids(ls) == toks_ids(tokens_of(ls)),
    decreases ls.len(),
{
    if ls.len() > 0 {
        lemma_toks_ids(ls.drop_last());
        assert(tokens_of(ls).drop_last() =~= tokens_of(ls.drop_last()));
    }
}

proof fn lemma_toks_prefix(ls: Seq<Line>, old_ls: Seq<Line>)
    requires
        lengths_recorded(ls, old_ls),
    ensures
        prefix_lengths(ls) == toks_prefix(tokens_of(old_ls)),
    decreases ls.len(),
{
    if ls.len() > 0 {
        assert forall|i: int| 0 <= i < ls.len() - 1 implies {
            &&& (#[trigger] ls.drop_last()[i]).tokens@ == old_ls.drop_last()[i].tokens@
            &&& ls.drop_last()[i].indent == old_ls.drop_last()[i].indent
            &&& ls.drop_last()[i].length == line_len(old_ls.drop_last()[i])
        } by {
            assert(ls.drop_last()[i] == ls[i]);
            assert(old_ls.drop_last()[i] == old_ls[i]);
        }
        lemma_toks_prefix(ls.drop_last(), old_ls.drop_last());
        assert(tokens_of(old_ls).drop_last() =~= tokens_of(old_ls.drop_last()));
        assert(ls[ls.len() - 1].length == line_len(old_ls[old_ls.len() - 1]));
    }
}

/// What encoding `text` with `context_size` nesting rows gives: nothing unless the text
/// reads as Python; else one id per token of each kept line and one per line end, with the
/// positions within lines, the line lengths, and `context_size + 1` attention rows of which
/// the first numbers the ids by line.
pub open spec fn parse_result(context_size: usize, text: Seq<char>, r: Option<TokenizedData>) -> bool {
    &&& (r is Some <==> marker_count(lex_spec(text), MarkerSet::WithImport) > 8)
    &&& r matches Some(d) ==> {
        let vs = source_lines(text);
        &&& d.gaps@ == vs.map_values(|v: LineView| width(v) as usize)
        &&& d.positions@ == positions_of(vs)
        &&& d.ids@.len() == d.positions@.len()
        &&& d.attention_mask@.len() == context_size + 1
        &&& d.attention_mask@[0]@ == line_numbers_of(vs)
        &&& forall|r: int| 0 <= r < d.attention_mask@.len() ==> (#[trigger] d.attention_mask@[r])@.len() == d.ids@.len()
        &&& exists|bs: Seq<Line>, ls: Seq<Line>, body: Split, sl: Seq<usize>| #[trigger] parsed_as(text, bs, ls, body, sl, d, context_size)
    }
}

/// Parser of Python source files into token ids with hierarchical attention groups.
#[derive(Debug)]
pub struct PythonParserNew {
    /// Number of attention group rows besides the line row.
    pub context_size: usize,
}

impl PythonParserNew {
    /// A parser giving `context_size` attention rows in all: one per line, and
    /// `context_size - 1` from the nesting of the code.
    pub fn new(context_size: usize) -> (r: Self)
        requires
            context_size >= 1,
        ensures
            r.context_size == context_size - 1,
    {
        Self { context_size: context_size - 1 }
    }

    /// Encodes a Python source file; `None` when it does not read as Python. Positions and
    /// line numbers are `u32`, so the source has fewer characters than `u32::MAX`.
    ///
    /// The ids, one per token of each kept line and one per line end, come with their
    /// positions within the line and the length of each line. The first attention row
    /// numbers the ids by line; the rows after it number the code groups from the
    /// deepest nesting level down to the top level.
    #[verifier::rlimit(40)]
    pub fn encode(&self, data: String) -> (r: Option<TokenizedData>)
        requires
            data@.len() < u32::MAX,
        ensures
            parse_result(self.context_size, data@, r),
    {
        if !check_python(data.as_str()) {
            return None;
        }
        let chars = chars_of(data.as_str());
        let tokens = lex(&chars);
        proof {
            lemma_lex_tiles(chars@);
            lemma_split_spec_bounded(chars@, tokens@);
        }
        let base_lines = split_lines(&chars, &tokens);
        assert forall|i: int| 0 <= i < base_lines@.len() implies words_present(#[trigger] base_lines@[i].tokens@) by {
            assert forall|j: int| 0 <= j < base_lines@[i].tokens@.len() implies (#[trigger] base_lines@[i].tokens@[j] matches Th::I(x) ==> x.d is Some) by {
            }
        }
        let ghost bs = base_lines@;
        let import_context = create_import_context(&base_lines, 299);
        let mut context = ContextStore::new(import_context, 300, 300);
        assert(context.model() == file_store(super::python_line::import_names(bs)));
        let ghost views = lines_view(base_lines@);
        proof {
            assert forall|i: int| 0 <= i < views.len() implies (#[trigger] views[i]).elems.len() <= tokens@.len() by {
                assert(views[i] == split_spec(chars@, tokens@)[i]);
            }
            lemma_kept_bounded(views, tokens@.len());
        }
        let mut lines = keep_valid(base_lines);
        let ghost kept = lines@;
        assert(lines_view(kept).len() == kept.len());
        let mut body = Split::new(Holder::Body, 0);
        proof {
            assert(chars@ == data@);
            assert(lines_view(kept) == source_lines(data@));
            let m = context.model();
            let ind = indents_of(kept);
            lemma_source_indents(data@);
            lemma_indents_views(kept);
            lemma_nest_sum(ind, None, 0);
            let d = nest_depth(ind, None, 0) as int;
            assert(d * (d - 1) <= 2 * indent_sum(ind, 0));
            assert(indent_sum(ind, 0) < u32::MAX);
            if d > 92682 {
                assert(d * (d - 1) >= 92683 * 92682) by (nonlinear_arith)
                    requires
                        d >= 92683,
                ;
            }
            assert(room(m, d)) by (nonlinear_arith)
                requires
                    m.offset == 300,
                    m.size == 300,
                    m.levels.len() == 1,
                    0 <= d <= 92682,
            ;
        }
        let ghost m0 = context.model();
        parse_lines(&mut lines, &mut body, None, 0, &mut context);
        let ghost parsed = lines@;
        let ghost run = group_from(tokens_of(kept), indents_of(kept), m0, None, 0, Seq::empty(), 0);
        let ghost top = GroupView { typ: Holder::Body, sp: 0, ep: run.ep, children: run.children };
        proof {
            lemma_split_is_intro(body, top);
        }
        assert forall|i: int| 0 <= i < parsed.len() implies line_len(#[trigger] parsed[i]) <= u32::MAX by {
            assert(same_shape(parsed[i], kept[i]));
            assert(lines_view(kept)[i].elems.len() == kept[i].tokens@.len());
        }
        let (ids, pos, attn, gaps) = create_ids(&mut lines, &context);
        proof {
            lemma_prefix_total(lines@, parsed);
            lemma_positions_view(parsed);
            lemma_positions_shape(parsed, kept);
            lemma_positions_view(kept);
            lemma_prefix_lengths(lines@);
            lemma_toks_ids(parsed);
            lemma_toks_prefix(lines@, parsed);
        }
        let npos = pos.len();
        assert(npos == all_positions(parsed).len());
        let s_length = create_lengths(&mut lines);
        assert(s_length@[0] == 0);
        assert(s_length@[parsed.len() as int] == npos);
        let mut attn_ids: Vec<Vec<u32>> = Vec::with_capacity(self.context_size);
        let mut x: usize = 0;
        while x < self.context_size
            invariant
                x <= self.context_size,
                attn_ids@.len() == x,
                s_length@.len() == parsed.len() + 1,
                split_wf(body, parsed.len() as nat),
                lengths_sorted(s_length@),
                parsed.len() <= u32::MAX,
                tiled(body),
                body.sp == 0,
                body.ep == parsed.len(),
                s_length@[0] == 0,
                s_length@[parsed.len() as int] == npos,
                forall|r: int| 0 <= r < attn_ids@.len() ==> (#[trigger] attn_ids@[r])@.len() == npos,
                forall|q: int| 0 <= q < attn_ids@.len() ==> (#[trigger] attn_ids@[q])@ == mask_ids(body, s_length@, 0, (x - 1 - q) as nat),
            decreases self.context_size - x,
        {
            proof {
                lemma_leaves_bound(body, parsed.len() as nat, x as nat);
                lemma_split_wf_range(body, parsed.len() as nat);
                lemma_mask_len(body, s_length@, 0, x as nat, parsed.len() as nat);
            }
            let a = body.create_mask(&context, &s_length, 0, x);
            let ghost rows0 = attn_ids@;
            attn_ids.insert(0, a.0);
            assert forall|r: int| 0 <= r < attn_ids@.len() implies (#[trigger] attn_ids@[r])@.len() == npos by {
                if r > 0 {
                    assert(attn_ids@[r] == rows0[r - 1]);
                }
            }
            assert forall|q: int| 0 <= q < attn_ids@.len() implies (#[trigger] attn_ids@[q])@ == mask_ids(body, s_length@, 0, (x - q) as nat) by {
                if q > 0 {
                    assert(attn_ids@[q] == rows0[q - 1]);
                }
            }
            x = x + 1;
        }
        let ghost rows1 = attn_ids@;
        attn_ids.insert(0, attn);
        assert forall|r: int| 0 <= r < attn_ids@.len() implies (#[trigger] attn_ids@[r])@.len() == ids@.len() by {
            if r > 0 {
                assert(attn_ids@[r] == rows1[r - 1]);
            }
        }
        proof {
            let vs = source_lines(data@);
            assert(chars@ == data@);
            assert(lines_view(kept) == vs);
            assert(gaps@ =~= vs.map_values(|v: LineView| width(v) as usize)) by {
                assert forall|i: int| 0 <= i < gaps@.len() implies gaps@[i] == vs.map_values(|v: LineView| width(v) as usize)[i] by {
                    assert(same_shape(parsed[i], kept[i]));
                    assert(vs[i] == line_view(kept[i]));
                }
            }
        }
        let ghost sl = s_length@;
        let d = TokenizedData { ids: ids, positions: pos, attention_mask: attn_ids, gaps: gaps };
        proof {
            assert forall|k: int| 1 <= k <= self.context_size implies (#[trigger] d.attention_mask@[k])@ == mask_ids(body, sl, 0, (self.context_size - k) as nat) by {
                assert(d.attention_mask@[k] == rows1[k - 1]);
            }
            assert(tokens_of(parsed) == run.toks);
            assert forall|i: int| 0 <= i < sl.len() implies #[trigger] sl[i] as int == toks_prefix(run.toks)[i] by {}
            assert(parsed_as(data@, bs, kept, body, sl, d, self.context_size));
        }
        Some(d)
    }
}

} // verus!
