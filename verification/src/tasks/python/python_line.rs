use vstd::prelude::*;

use super::python_tokenizer::{Token, Operator, token_id};
use super::context_store::{ContextStore, ContextSet, StoreModel};

verus! {

/// A token carrying its text and the id assigned to it.
#[derive(Debug)]
pub struct Ts {
    pub t: Token,
    pub d: Option<String>,
    pub id: u32,
}

/// A token of a line: a plain token, an identifier, or a number.
#[derive(Debug)]
pub enum Th {
    T(Token),
    I(Ts),
    N(Ts),
}

/// The token kind of an element of a line.
pub open spec fn th_token(th: Th) -> Token {
    match th {
        Th::T(x) => x,
        Th::I(x) => x.t,
        Th::N(x) => x.t,
    }
}

/// The id an element of a line contributes: its token's id, or the assigned id.
pub open spec fn th_id(th: Th) -> u32 {
    match th {
        Th::T(x) => token_id(x),
        Th::I(x) => x.id,
        Th::N(x) => x.id,
    }
}

/// The text of a token (empty when it has none).
pub open spec fn word_of(x: Ts) -> Seq<char> {
    match x.d {
        Some(s) => s@,
        None => Seq::empty(),
    }
}

/// Every identifier of `ts` carries its text.
pub open spec fn words_present(ts: Seq<Th>) -> bool {
    forall|i: int| 0 <= i < ts.len() ==> (#[trigger] ts[i] matches Th::I(x) ==> x.d is Some)
}

impl Th {
    fn token(&self) -> (r: Token)
        ensures
            r == th_token(*self),
    {
        match self {
            Th::T(x) => *x,
            Th::I(x) => x.t,
            Th::N(x) => x.t,
        }
    }
}

/// How a line assigns ids to its identifiers.
#[derive(Clone, Copy, Debug, PartialEq, Eq, Structural)]
pub enum LineKind {
    /// The first identifier is written, the others read.
    Assign,
    /// Identifiers are written, the first one level out; an identifier right after a
    /// colon is read.
    Def,
    /// Identifiers are written, the first one level out; an identifier right after
    /// `in` is read.
    For,
    /// Identifiers are read.
    Normal,
}

/// Kind of a line that starts with an identifier: a call (an opening parenthesis before
/// any `=`) is read only, otherwise it is an assignment.
pub open spec fn assign_kind(ts: Seq<Th>) -> LineKind
    decreases ts.len(),
{
    if ts.len() == 0 {
        LineKind::Assign
    } else if ts[0] == Th::T(Token::SymbolLeftParen) {
        LineKind::Normal
    } else if ts[0] == Th::T(Token::Op(Operator::Assign)) {
        LineKind::Assign
    } else {
        assign_kind(ts.drop_first())
    }
}

/// Kind of a line given by its first token.
pub open spec fn kind_of(ts: Seq<Th>) -> LineKind {
    match th_token(ts[0]) {
        Token::Ident => assign_kind(ts),
        Token::KeyDef | Token::KeyClass => LineKind::Def,
        Token::KeyFor => LineKind::For,
        _ => LineKind::Normal,
    }
}

/// State while ids are assigned along a line.
pub struct FoldState {
    pub m: StoreModel,
    pub write: bool,
    pub level: nat,
}

/// State at the start of a line of kind `kind`.
pub open spec fn initial_state(kind: LineKind, m: StoreModel) -> FoldState {
    match kind {
        LineKind::Def | LineKind::For => FoldState { m, write: true, level: 1 },
        _ => FoldState { m, write: true, level: 0 },
    }
}

/// Id assigned to an identifier with text `w` in state `st`.
pub open spec fn step_id(kind: LineKind, st: FoldState, w: Seq<char>) -> u32 {
    match kind {
        LineKind::Normal => st.m.read_answer(w),
        _ => st.m.put_data_answer(w, st.write, st.level),
    }
}

/// State after element `th` of a line.
pub open spec fn step_state(kind: LineKind, st: FoldState, th: Th) -> FoldState {
    match th {
        Th::I(x) => match kind {
            LineKind::Normal => st,
            LineKind::Assign => FoldState {
                m: st.m.put_data(word_of(x), st.write, st.level),
                write: false,
                level: 0,
            },
            _ => FoldState {
                m: st.m.put_data(word_of(x), st.write, st.level),
                write: true,
                level: 0,
            },
        },
        Th::T(Token::SymbolColon) => if kind == LineKind::Def {
            FoldState { write: false, ..st }
        } else {
            st
        },
        Th::T(Token::KeyIn) => if kind == LineKind::For {
            FoldState { write: false, ..st }
        } else {
            st
        },
        _ => st,
    }
}

/// State after the elements `ts`.
pub open spec fn fold_state(kind: LineKind, st: FoldState, ts: Seq<Th>) -> FoldState
    decreases ts.len(),
{
    if ts.len() == 0 {
        st
    } else {
        step_state(kind, fold_state(kind, st, ts.drop_last()), ts.last())
    }
}

/// Element `i` of `ts` once ids are assigned.
pub open spec fn updated_th(kind: LineKind, st: FoldState, ts: Seq<Th>, i: int) -> Th {
    match ts[i] {
        Th::I(x) => Th::I(
            Ts { t: x.t, d: x.d, id: step_id(kind, fold_state(kind, st, ts.take(i)), word_of(x)) },
        ),
        other => other,
    }
}

/// On a line `for x ...`, the loop variable `x` is written to the store one level out of
/// the innermost, as a definition writes its name: it gets the id `get_or_put_local(x, 1)`
/// answers, and the store after it is the one that call leaves.
pub proof fn law_for_writes_loop_variable(ts: Seq<Th>, m: StoreModel)
    requires
        ts.len() >= 2,
        ts[0] == Th::T(Token::KeyFor),
        ts[1] is I,
    ensures
        ({
            let x = ts[1]->I_0;
            let kind = kind_of(ts);
            let st0 = initial_state(kind, m);
            &&& updated_th(kind, st0, ts, 1) == Th::I(Ts { t: x.t, d: x.d, id: m.get_or_put_answer(word_of(x), 1) })
            &&& fold_state(kind, st0, ts.take(2)).m == m.get_or_put(word_of(x), 1)
        }),
{
    let kind = kind_of(ts);
    let st0 = initial_state(kind, m);
    assert(ts.take(1).drop_last() =~= Seq::<Th>::empty());
    assert(ts.take(2).drop_last() =~= ts.take(1));
    assert(ts.take(1).last() == ts[0]);
    assert(ts.take(2).last() == ts[1]);
    assert(kind == LineKind::For);
    assert(fold_state(kind, st0, Seq::<Th>::empty()) == st0);
    assert(fold_state(kind, st0, ts.take(1)) == st0);
    let x = ts[1]->I_0;
    assert(ts[1] == Th::I(x));
    assert(fold_state(kind, st0, ts.take(2)) == step_state(kind, st0, ts[1]));
}

/// On a line `for x in y ...`, the name `y` after `in` is read, not written: it gets the
/// id a read of the store answers once `x` is stored, and the store is left as storing `x`
/// left it.
pub proof fn law_for_reads_after_in(ts: Seq<Th>, m: StoreModel)
    requires
        ts.len() >= 4,
        ts[0] == Th::T(Token::KeyFor),
        ts[1] is I,
        ts[2] == Th::T(Token::KeyIn),
        ts[3] is I,
    ensures
        ({
            let x = ts[1]->I_0;
            let y = ts[3]->I_0;
            let kind = kind_of(ts);
            let st0 = initial_state(kind, m);
            let m1 = m.get_or_put(word_of(x), 1);
            &&& updated_th(kind, st0, ts, 3) == Th::I(Ts { t: y.t, d: y.d, id: m1.read_answer(word_of(y)) })
            &&& fold_state(kind, st0, ts.take(4)).m == m1
        }),
{
    law_for_writes_loop_variable(ts, m);
    let kind = kind_of(ts);
    let st0 = initial_state(kind, m);
    assert(ts.take(3).drop_last() =~= ts.take(2));
    assert(ts.take(4).drop_last() =~= ts.take(3));
    assert(ts.take(3).last() == ts[2]);
    assert(ts.take(4).last() == ts[3]);
    assert(kind == LineKind::For);
    assert(ts.take(2).drop_last() =~= ts.take(1));
    assert(ts.take(2).last() == ts[1]);
    let st2 = fold_state(kind, st0, ts.take(2));
    assert(st2 == step_state(kind, fold_state(kind, st0, ts.take(1)), ts[1]));
    assert(fold_state(kind, st0, ts.take(3)) == step_state(kind, st2, ts[2]));
    let y = ts[3]->I_0;
    assert(ts[3] == Th::I(y));
    assert(fold_state(kind, st0, ts.take(4)) == step_state(kind, fold_state(kind, st0, ts.take(3)), ts[3]));
}

/// A line of Python: its indent and its tokens.
#[derive(Debug)]
pub struct Line {
    pub indent: usize,
    pub tokens: Vec<Th>,
    pub length: usize,
}

/// Whether the store can take the writes of a line.
pub open spec fn store_ready(ctx: &ContextStore) -> bool {
    &&& ctx.wf()
    &&& ctx.model().fits()
    &&& ctx.levels().len() >= 1
}

pub proof fn lemma_fold_levels(kind: LineKind, st: FoldState, ts: Seq<Th>)
    ensures
        fold_state(kind, st, ts).m.levels.len() == st.m.levels.len(),
        fold_state(kind, st, ts).m.size == st.m.size,
        fold_state(kind, st, ts).m.offset == st.m.offset,
        fold_state(kind, st, ts).level <= if st.level > 0 { st.level } else { 0 },
    decreases ts.len(),
{
    if ts.len() > 0 {
        lemma_fold_levels(kind, st, ts.drop_last());
        let s1 = fold_state(kind, st, ts.drop_last());
        lemma_put_data_levels(s1.m, ts.last(), s1.write, s1.level);
    }
}

proof fn lemma_put_data_levels(m: StoreModel, th: Th, write: bool, level: nat)
    ensures
        th matches Th::I(x) ==> {
            &&& m.put_data(word_of(x), write, level).levels.len() == m.levels.len()
            &&& m.put_data(word_of(x), write, level).size == m.size
            &&& m.put_data(word_of(x), write, level).offset == m.offset
        },
{
}

impl Line {
    /// An empty line with the given indent.
    pub fn new(indent: usize) -> (r: Self)
        ensures
            r.indent == indent,
            r.tokens@.len() == 0,
            r.length == 1,
    {
        Self { indent: indent, tokens: Vec::with_capacity(32), length: 1 }
    }

    /// Appends a plain token.
    pub fn push(&mut self, token: Token)
        ensures
            final(self).tokens@ == old(self).tokens@.push(Th::T(token)),
            final(self).indent == old(self).indent,
            final(self).length == old(self).length,
    {
        self.tokens.push(Th::T(token));
    }

    /// Appends an identifier with its text and id 0.
    pub fn push_string(&mut self, token: Token, data: String)
        ensures
            final(self).tokens@ == old(self).tokens@.push(Th::I(Ts { t: token, d: Some(data), id: 0 })),
            final(self).indent == old(self).indent,
            final(self).length == old(self).length,
    {
        self.tokens.push(Th::I(Ts { t: token, d: Some(data), id: 0 }));
    }

    /// Appends a number; a number from 0 to 10 gets its own id (149 to 159),
    /// any other text the id 148.
    pub fn push_number(&mut self, token: Token, data: String)
        ensures
            final(self).tokens@ == old(self).tokens@.push(
                Th::N(Ts { t: token, d: Some(data), id: number_id(data@) }),
            ),
            final(self).indent == old(self).indent,
            final(self).length == old(self).length,
    {
        let value = parse_u32(data.as_str());
        match value {
            Some(x) => {
                if x <= 10 {
                    self.tokens.push(Th::N(Ts { t: token, d: Some(data), id: 148 + x + 1 }))
                } else {
                    self.tokens.push(Th::N(Ts { t: token, d: Some(data), id: 148 }))
                }
            },
            None => self.tokens.push(Th::N(Ts { t: token, d: Some(data), id: 148 })),
        }
    }

    /// The token the line starts with.
    pub fn token(&self) -> (r: Token)
        requires
            self.tokens@.len() > 0,
        ensures
            r == th_token(self.tokens@[0]),
    {
        self.tokens[0].token()
    }

    /// Assigns ids to the identifiers of the line, from state `(write, level)` on,
    /// following the rules of `kind`.
    fn assign_ids(&mut self, context: &mut ContextStore, kind: LineKind, write: bool, level: usize)
        requires
            words_present(old(self).tokens@),
            store_ready(old(context)),
            level <= 1,
        ensures
            ({
                let st0 = FoldState { m: old(context).model(), write, level: level as nat };
                &&& final(self).tokens@.len() == old(self).tokens@.len()
                &&& forall|i: int|
                    0 <= i < old(self).tokens@.len() ==> final(self).tokens@[i] == updated_th(
                        kind,
                        st0,
                        old(self).tokens@,
                        i,
                    )
                &&& final(context).model() == fold_state(kind, st0, old(self).tokens@).m
            }),
            store_ready(final(context)),
            final(self).indent == old(self).indent,
            final(self).length == old(self).length,
    {
        let ghost st0 = FoldState { m: context.model(), write, level: level as nat };
        let ghost ts = self.tokens@;
        let mut write = write;
        let mut level = level;
        let mut i: usize = 0;
        assert(ts.take(0) =~= Seq::<Th>::empty());
        while i < self.tokens.len()
            invariant
                i <= self.tokens@.len(),
                self.tokens@.len() == ts.len(),
                words_present(ts),
                forall|j: int| 0 <= j < i ==> self.tokens@[j] == updated_th(kind, st0, ts, j),
                forall|j: int| i <= j < ts.len() ==> self.tokens@[j] == ts[j],
                fold_state(kind, st0, ts.take(i as int)) == (FoldState {
                    m: context.model(),
                    write,
                    level: level as nat,
                }),
                store_ready(context),
                level <= 1,
                self.indent == old(self).indent,
                self.length == old(self).length,
            decreases ts.len() - i,
        {
            let ghost st = fold_state(kind, st0, ts.take(i as int));
            assert(ts.take(i + 1).drop_last() =~= ts.take(i as int));
            assert(ts.take(i + 1).last() == ts[i as int]);
            let mut new_th: Option<Th> = None;
            match &self.tokens[i] {
                Th::I(x) => {
                    let t = x.t;
                    assert(x.d is Some);
                    let w = match &x.d {
                        Some(w) => w.clone(),
                        None => String::new(),
                    };
                    let id = if kind == LineKind::Normal {
                        context.read_only(w.as_str())
                    } else {
                        context.put_data(w.as_str(), write, level)
                    };
                    new_th = Some(Th::I(Ts { t, d: Some(w), id }));
                    if kind == LineKind::Assign {
                        write = false;
                        level = 0;
                    } else if kind != LineKind::Normal {
                        write = true;
                        level = 0;
                    }
                },
                Th::T(Token::SymbolColon) => {
                    if kind == LineKind::Def {
                        write = false;
                    }
                },
                Th::T(Token::KeyIn) => {
                    if kind == LineKind::For {
                        write = false;
                    }
                },
                _ => {},
            }
            match new_th {
                Some(th) => {
                    self.tokens.set(i, th);
                },
                None => {},
            }
            i = i + 1;
        }
        assert(ts.take(i as int) =~= ts);
    }

    /// Assigns read-only ids to the identifiers.
    fn handle_normal_line(&mut self, context: &mut ContextStore)
        requires
            words_present(old(self).tokens@),
            store_ready(old(context)),
        ensures
            ({
                let st0 = initial_state(LineKind::Normal, old(context).model());
                &&& final(self).tokens@.len() == old(self).tokens@.len()
                &&& forall|i: int|
                    0 <= i < old(self).tokens@.len() ==> final(self).tokens@[i] == updated_th(
                        LineKind::Normal,
                        st0,
                        old(self).tokens@,
                        i,
                    )
                &&& final(context).model() == fold_state(LineKind::Normal, st0, old(self).tokens@).m
            }),
            store_ready(final(context)),
            final(self).indent == old(self).indent,
            final(self).length == old(self).length,
    {
        self.assign_ids(context, LineKind::Normal, true, 0)
    }

    /// For a call, read-only ids; otherwise the first identifier is written at `level`
    /// and the others are read.
    fn handle_assign(&mut self, context: &mut ContextStore, level: usize)
        requires
            words_present(old(self).tokens@),
            store_ready(old(context)),
            level == 0,
        ensures
            ({
                let kind = assign_kind(old(self).tokens@);
                let st0 = initial_state(kind, old(context).model());
                &&& final(self).tokens@.len() == old(self).tokens@.len()
                &&& forall|i: int|
                    0 <= i < old(self).tokens@.len() ==> final(self).tokens@[i] == updated_th(
                        kind,
                        st0,
                        old(self).tokens@,
                        i,
                    )
                &&& final(context).model() == fold_state(kind, st0, old(self).tokens@).m
            }),
            store_ready(final(context)),
            final(self).indent == old(self).indent,
            final(self).length == old(self).length,
    {
        let mut k: usize = 0;
        let ghost ts = self.tokens@;
        let mut found_assign = false;
        assert(ts.skip(0) =~= ts);
        while k < self.tokens.len() && !found_assign
            invariant
                k <= ts.len(),
                self.tokens@ == ts,
                *self == *old(self),
                *context == *old(context),
                words_present(ts),
                store_ready(context),
                level == 0,
                !found_assign ==> assign_kind(ts) == assign_kind(ts.skip(k as int)),
                found_assign ==> assign_kind(ts) == LineKind::Assign,
            decreases ts.len() - k,
        {
            assert(ts.skip(k as int).drop_first() =~= ts.skip(k + 1));
            assert(ts.skip(k as int)[0] == ts[k as int]);
            match &self.tokens[k] {
                Th::T(Token::SymbolLeftParen) => {
                    return self.handle_normal_line(context);
                },
                Th::T(Token::Op(Operator::Assign)) => {
                    found_assign = true;
                },
                _ => {},
            }
            k = k + 1;
        }
        assert(!found_assign ==> ts.skip(k as int) =~= Seq::<Th>::empty());
        self.assign_ids(context, LineKind::Assign, true, level)
    }

    /// Identifiers before the colon are written, the first one level out.
    fn handle_def(&mut self, context: &mut ContextStore)
        requires
            words_present(old(self).tokens@),
            store_ready(old(context)),
        ensures
            ({
                let st0 = initial_state(LineKind::Def, old(context).model());
                &&& final(self).tokens@.len() == old(self).tokens@.len()
                &&& forall|i: int|
                    0 <= i < old(self).tokens@.len() ==> final(self).tokens@[i] == updated_th(
                        LineKind::Def,
                        st0,
                        old(self).tokens@,
                        i,
                    )
                &&& final(context).model() == fold_state(LineKind::Def, st0, old(self).tokens@).m
            }),
            store_ready(final(context)),
            final(self).indent == old(self).indent,
            final(self).length == old(self).length,
    {
        self.assign_ids(context, LineKind::Def, true, 1)
    }

    /// Identifiers before `in` are written, the first one level out.
    fn handle_for(&mut self, context: &mut ContextStore)
        requires
            words_present(old(self).tokens@),
            store_ready(old(context)),
        ensures
            ({
                let st0 = initial_state(LineKind::For, old(context).model());
                &&& final(self).tokens@.len() == old(self).tokens@.len()
                &&& forall|i: int|
                    0 <= i < old(self).tokens@.len() ==> final(self).tokens@[i] == updated_th(
                        LineKind::For,
                        st0,
                        old(self).tokens@,
                        i,
                    )
                &&& final(context).model() == fold_state(LineKind::For, st0, old(self).tokens@).m
            }),
            store_ready(final(context)),
            final(self).indent == old(self).indent,
            final(self).length == old(self).length,
    {
        self.assign_ids(context, LineKind::For, true, 1)
    }

    /// Assigns ids to the identifiers of the line and records the names it defines.
    pub fn update_context(&mut self, context: &mut ContextStore)
        requires
            old(self).tokens@.len() > 0,
            words_present(old(self).tokens@),
            store_ready(old(context)),
        ensures
            ({
                let kind = kind_of(old(self).tokens@);
                let st0 = initial_state(kind, old(context).model());
                &&& final(self).tokens@.len() == old(self).tokens@.len()
                &&& forall|i: int|
                    0 <= i < old(self).tokens@.len() ==> final(self).tokens@[i] == updated_th(
                        kind,
                        st0,
                        old(self).tokens@,
                        i,
                    )
                &&& final(context).model() == fold_state(kind, st0, old(self).tokens@).m
            }),
            store_ready(final(context)),
            final(self).indent == old(self).indent,
            final(self).length == old(self).length,
    {
        match self.token() {
            Token::Ident => self.handle_assign(context, 0),
            Token::KeyDef => self.handle_def(context),
            Token::KeyClass => self.handle_def(context),
            Token::KeyFor => self.handle_for(context),
            _ => self.handle_normal_line(context),
        }
    }

    /// The ids of the line followed by the newline id; records their number in `length`.
    pub fn create_ids(&mut self, _context: &ContextStore) -> (r: Vec<u32>)
        ensures
            r@ == line_ids(old(self).tokens@),
            final(self).length == r@.len(),
            final(self).tokens@ == old(self).tokens@,
            final(self).indent == old(self).indent,
    {
        let mut ids: Vec<u32> = Vec::new();
        let mut i: usize = 0;
        while i < self.tokens.len()
            invariant
                i <= self.tokens@.len(),
                self.tokens@ == old(self).tokens@,
                ids@ == self.tokens@.take(i as int).map_values(|th: Th| th_id(th)),
            decreases self.tokens@.len() - i,
        {
            let id = match &self.tokens[i] {
                Th::T(y) => y.get_token_id(),
                Th::I(x) => x.id,
                Th::N(x) => x.id,
            };
            ids.push(id);
            assert(ids@ =~= self.tokens@.take(i + 1).map_values(|th: Th| th_id(th)));
            i = i + 1;
        }
        assert(self.tokens@.take(i as int) =~= self.tokens@);
        ids.push(Token::Newline.get_token_id());
        self.length = ids.len();
        ids
    }

    /// A line is kept when it is not empty and is no `import` or `from` line.
    pub fn valid_line(&self) -> (r: bool)
        ensures
            r == line_is_valid(self.tokens@),
    {
        self.tokens.len() > 0 && self.token() != Token::KeyImport && self.token() != Token::KeyFrom
    }
}

/// The ids of a line: one per token, then the newline id.
pub open spec fn line_ids(ts: Seq<Th>) -> Seq<u32> {
    ts.map_values(|th: Th| th_id(th)).push(token_id(Token::Newline))
}

/// Whether a line with tokens `ts` is kept.
pub open spec fn line_is_valid(ts: Seq<Th>) -> bool {
    ts.len() > 0 && th_token(ts[0]) != Token::KeyImport && th_token(ts[0]) != Token::KeyFrom
}

/// Value of a string of decimal digits, optionally after a `+` sign, as parsed for `u32`.
pub open spec fn digits_value(s: Seq<char>) -> int
    decreases s.len(),
{
    if s.len() == 0 {
        0
    } else {
        digits_value(s.drop_last()) * 10 + (s.last() as int - '0' as int)
    }
}

/// Whether every character of `s` is a decimal digit.
pub open spec fn all_digits(s: Seq<char>) -> bool {
    forall|i: int| 0 <= i < s.len() ==> '0' <= #[trigger] s[i] <= '9'
}

/// `u32` parsing: an optional `+` then at least one digit, of value at most `u32::MAX`.
pub open spec fn parse_u32_spec(s: Seq<char>) -> Option<u32> {
    let body = if s.len() > 0 && s[0] == '+' {
        s.drop_first()
    } else {
        s
    };
    if body.len() > 0 && all_digits(body) && digits_value(body) <= u32::MAX {
        Some(digits_value(body) as u32)
    } else {
        None
    }
}

/// Id of a number token with text `s`.
pub open spec fn number_id(s: Seq<char>) -> u32 {
    match parse_u32_spec(s) {
        Some(x) => if x <= 10 {
            (149 + x) as u32
        } else {
            148
        },
        None => 148,
    }
}

proof fn lemma_digits_value_nonneg(s: Seq<char>)
    requires
        all_digits(s),
    ensures
        digits_value(s) >= 0,
    decreases s.len(),
{
    if s.len() > 0 {
        assert(all_digits(s.drop_last()));
        lemma_digits_value_nonneg(s.drop_last());
    }
}

/// Parses a `u32` as `str::parse::<u32>` does.
pub fn parse_u32(s: &str) -> (r: Option<u32>)
    ensures
        r == parse_u32_spec(s@),
{
    let chars = crate::text::chars_of(s);
    let start: usize = if chars.len() > 0 && chars[0] == '+' {
        1
    } else {
        0
    };
    let ghost body = if s@.len() > 0 && s@[0] == '+' {
        s@.drop_first()
    } else {
        s@
    };
    assert(body =~= chars@.subrange(start as int, chars@.len() as int));
    if start >= chars.len() {
        return None;
    }
    let mut value: u64 = 0;
    let mut i = start;
    while i < chars.len()
        invariant
            start <= i <= chars.len(),
            chars@ == s@,
            body == (if s@.len() > 0 && s@[0] == '+' {
                s@.drop_first()
            } else {
                s@
            }),
            body.len() > 0,
            body == chars@.subrange(start as int, chars@.len() as int),
            all_digits(chars@.subrange(start as int, i as int)),
            value == digits_value(chars@.subrange(start as int, i as int)),
            value <= u32::MAX,
        decreases chars.len() - i,
    {
        let c = chars[i];
        let ghost pre = chars@.subrange(start as int, i as int);
        let ghost next = chars@.subrange(start as int, i + 1);
        assert(next.drop_last() =~= pre);
        assert(next.last() == c);
        if c < '0' || c > '9' {
            assert(body[i - start] == c);
            assert(!('0' <= body[i - start] <= '9'));
            assert(!all_digits(body));
            return None;
        }
        let d = (c as u32 - '0' as u32) as u64;
        value = value * 10 + d;
        assert(all_digits(next)) by {
            assert forall|m: int| 0 <= m < next.len() implies '0' <= #[trigger] next[m] <= '9' by {
                if m < pre.len() {
                    assert(next[m] == pre[m]);
                }
            }
        }
        if value > u32::MAX as u64 {
            proof {
                if all_digits(body) {
                    lemma_digits_prefix_grows(body, (i + 1 - start) as int);
                    assert(body.take((i + 1 - start) as int) =~= next);
                }
            }
            return None;
        }
        i = i + 1;
    }
    assert(chars@.subrange(start as int, i as int) =~= body);
    Some(value as u32)
}

proof fn lemma_digits_prefix_grows(s: Seq<char>, k: int)
    requires
        0 <= k <= s.len(),
        all_digits(s),
    ensures
        digits_value(s) >= digits_value(s.take(k)),
    decreases s.len() - k,
{
    if k < s.len() {
        lemma_digits_prefix_grows(s, k + 1);
        assert(s.take(k + 1).drop_last() =~= s.take(k));
        assert(all_digits(s.take(k))) by {
            assert forall|m: int| 0 <= m < k implies '0' <= #[trigger] s.take(k)[m] <= '9' by {
                assert(s.take(k)[m] == s[m]);
            }
        }
        lemma_digits_value_nonneg(s.take(k));
    } else {
        assert(s.take(k) =~= s);
    }
}

/// Whether `w` is the text of identifier `j` of line `i`, line `i` being dropped.
pub open spec fn is_import_name(lines: Seq<Line>, i: int, j: int, w: Seq<char>) -> bool {
    &&& 0 <= i < lines.len()
    &&& !line_is_valid(lines[i].tokens@)
    &&& 0 <= j < lines[i].tokens@.len()
    &&& lines[i].tokens@[j] matches Th::I(x) && word_of(x) == w
}

/// Identifiers of the dropped (`import`, `from` and empty) lines among the first `i`
/// lines, and among the first `j` tokens of line `i`.
pub open spec fn import_names_upto(lines: Seq<Line>, i: int, j: int) -> Set<Seq<char>> {
    Set::new(
        |w: Seq<char>|
            exists|a: int, b: int|
                #![trigger is_import_name(lines, a, b, w)]
                (a < i || (a == i && b < j)) && is_import_name(lines, a, b, w),
    )
}

/// Identifiers of the dropped (`import`, `from` and empty) lines.
pub open spec fn import_names(lines: Seq<Line>) -> Set<Seq<char>> {
    import_names_upto(lines, lines.len() as int, 0)
}

/// The set of names imported by the file: all identifiers on its `import` and `from` lines.
pub fn create_import_context(lines: &Vec<Line>, id: u32) -> (r: ContextSet)
    requires
        forall|i: int| 0 <= i < lines@.len() && !line_is_valid(lines@[i].tokens@) ==> words_present(#[trigger] lines@[i].tokens@),
    ensures
        r@ == import_names(lines@),
        r.answer_id() == id,
{
    let mut context_map = ContextSet::new(id);
    let mut i: usize = 0;
    assert(context_map@ =~= import_names_upto(lines@, 0, 0));
    while i < lines.len()
        invariant
            i <= lines@.len(),
            forall|i: int| 0 <= i < lines@.len() && !line_is_valid(lines@[i].tokens@) ==> words_present(#[trigger] lines@[i].tokens@),
            context_map@ == import_names_upto(lines@, i as int, 0),
            context_map.answer_id() == id,
        decreases lines@.len() - i,
    {
        let line = &lines[i];
        if line.valid_line() {
            assert(import_names_upto(lines@, i as int, 0) =~= import_names_upto(lines@, i + 1, 0)) by {
                assert forall|w: Seq<char>| import_names_upto(lines@, i + 1, 0).contains(w) implies
                    import_names_upto(lines@, i as int, 0).contains(w) by {
                    let (a, b) = choose|a: int, b: int| (a < i + 1 || (a == i + 1 && b < 0)) && is_import_name(lines@, a, b, w);
                    assert(is_import_name(lines@, a, b, w));
                }
            }
            i = i + 1;
            continue;
        }
        let mut j: usize = 0;
        while j < line.tokens.len()
            invariant
                i < lines@.len(),
                j <= line.tokens@.len(),
                *line == lines@[i as int],
                !line_is_valid(line.tokens@),
                words_present(line.tokens@),
                context_map@ == import_names_upto(lines@, i as int, j as int),
                context_map.answer_id() == id,
            decreases line.tokens@.len() - j,
        {
            match &line.tokens[j] {
                Th::I(x) => {
                    let value = match &x.d {
                        Some(v) => v.clone(),
                        None => String::new(),
                    };
                    assert(is_import_name(lines@, i as int, j as int, value@));
                    context_map.insert(value);
                    assert(context_map@ =~= import_names_upto(lines@, i as int, j + 1)) by {
                        assert forall|w: Seq<char>| import_names_upto(lines@, i as int, j + 1).contains(w) implies
                            context_map@.contains(w) by {
                            let (a, b) = choose|a: int, b: int| (a < i || (a == i && b < j + 1)) && is_import_name(lines@, a, b, w);
                            if !(a == i && b == j) {
                                assert(is_import_name(lines@, a, b, w));
                            }
                        }
                    }
                },
                _ => {
                    assert(context_map@ =~= import_names_upto(lines@, i as int, j + 1)) by {
                        assert forall|w: Seq<char>| import_names_upto(lines@, i as int, j + 1).contains(w) implies
                            context_map@.contains(w) by {
                            let (a, b) = choose|a: int, b: int| (a < i || (a == i && b < j + 1)) && is_import_name(lines@, a, b, w);
                            assert(is_import_name(lines@, a, b, w));
                        }
                    }
                },
            }
            j = j + 1;
        }
        assert(import_names_upto(lines@, i as int, j as int) =~= import_names_upto(lines@, i + 1, 0)) by {
            assert forall|w: Seq<char>| import_names_upto(lines@, i + 1, 0).contains(w) implies
                import_names_upto(lines@, i as int, j as int).contains(w) by {
                let (a, b) = choose|a: int, b: int| (a < i + 1 || (a == i + 1 && b < 0)) && is_import_name(lines@, a, b, w);
                assert(is_import_name(lines@, a, b, w));
            }
        }
        i = i + 1;
    }
    context_map
}

/// Assigning ids keeps each element's kind and text.
pub proof fn lemma_updated_keeps(kind: LineKind, st: FoldState, ts: Seq<Th>, i: int)
    requires
        0 <= i < ts.len(),
    ensures
        th_token(updated_th(kind, st, ts, i)) == th_token(ts[i]),
        (ts[i] matches Th::I(x) ==> x.d is Some) ==> (updated_th(kind, st, ts, i) matches Th::I(y) ==> y.d is Some),
        (updated_th(kind, st, ts, i) is I) == (ts[i] is I),
{
}

} // verus!
