use vstd::prelude::*;

use super::python_tokenizer::Token;
use super::ident_store::{ContextStore, find_level, put_index};
use super::key_table::put_keys;

verus! {

/// A token with its nesting level, and for an identifier its (level, index) in the
/// identifier store and its text.
#[derive(Debug)]
pub struct TokenResult {
    pub token: Token,
    pub level: usize,
    pub position: Option<(usize, usize)>,
    pub text: Option<String>,
}

/// Abstract token result.
pub struct TokenView {
    pub token: Token,
    pub level: usize,
    pub position: Option<(usize, usize)>,
    pub text: Option<Seq<char>>,
}

pub open spec fn result_view(r: TokenResult) -> TokenView {
    TokenView {
        token: r.token,
        level: r.level,
        position: r.position,
        text: match r.text {
            Some(s) => Some(s@),
            None => None,
        },
    }
}

/// Where the next identifier is written: the innermost level, the global store, or
/// looked up first.
#[derive(Clone, Copy, Debug, PartialEq, Eq, Structural)]
pub enum IdentState {
    Write,
    Read,
    Local,
}

/// Syntactic state of a block: file root, body, head of a compound statement, head or
/// parameters of a function definition.
#[derive(Clone, Copy, Debug, PartialEq, Eq, Structural)]
pub enum State {
    Root,
    Body,
    CHead,
    DHead,
    DParam,
}

/// Abstract state machine: block stack, level, identifier mode, whether the last token was
/// a colon, and the identifier store's levels and global keys.
pub struct SmView {
    pub states: Seq<State>,
    pub level: nat,
    pub ident: IdentState,
    pub ready: bool,
    pub levels: Seq<Seq<Seq<char>>>,
    pub global: Seq<Seq<char>>,
}

/// Capacity of each context level.
pub open spec fn level_cap() -> nat {
    128
}

/// Writes `text` to the innermost level, or to the global store when there is none.
pub open spec fn local_put(m: SmView, gcap: nat, text: Seq<char>) -> ((usize, usize), SmView) {
    if m.levels.len() > 0 {
        let l = m.levels.len() - 1;
        (
            (l as usize, put_index(m.levels[l], level_cap(), text) as usize),
            SmView { levels: m.levels.update(l, put_keys(m.levels[l], level_cap(), text)), ..m },
        )
    } else {
        ((0usize, put_index(m.global, gcap, text) as usize), SmView { global: put_keys(m.global, gcap, text), ..m })
    }
}

/// Looks `text` up from the innermost level out; when absent writes it to the global store.
pub open spec fn global_get(m: SmView, gcap: nat, text: Seq<char>) -> ((usize, usize), SmView) {
    match find_level(m.levels, text) {
        Some((l, i)) => ((l as usize, i as usize), m),
        None => ((0usize, put_index(m.global, gcap, text) as usize), SmView { global: put_keys(m.global, gcap, text), ..m }),
    }
}

/// Store position of an identifier: local writes in a definition head; reads near the top
/// go through the global store, deeper ones are local.
pub open spec fn ident_position(m: SmView, gcap: nat, text: Seq<char>) -> ((usize, usize), SmView) {
    match m.ident {
        IdentState::Local => local_put(m, gcap, text),
        IdentState::Read => if m.levels.len() + 2 <= 3 {
            global_get(m, gcap, text)
        } else {
            local_put(m, gcap, text)
        },
        IdentState::Write => if m.levels.len() + 2 <= 2 {
            global_get(m, gcap, text)
        } else {
            local_put(m, gcap, text)
        },
    }
}

/// Keywords that open a block with a head ended by a colon.
pub open spec fn opens_block(t: Token) -> bool {
    t == Token::KeyClass || t == Token::KeyIf || t == Token::KeyElse || t == Token::KeyElif || t
        == Token::KeyWhile || t == Token::KeyFor || t == Token::KeyTry || t == Token::KeyExcept
        || t == Token::KeyWith || t == Token::KeyFinally
}

/// Block stack and identifier mode after `token`, for a non-empty stack.
pub open spec fn transition(m: SmView, token: Token) -> SmView {
    let top = m.states.len() - 1;
    match m.states.last() {
        State::Root | State::Body => if token == Token::KeyDef {
            SmView { states: m.states.push(State::DParam), ident: IdentState::Write, ..m }
        } else if opens_block(token) {
            SmView {
                states: m.states.push(State::CHead),
                levels: m.levels.push(Seq::empty()),
                ident: IdentState::Read,
                ..m
            }
        } else {
            m
        },
        State::DParam => SmView {
            states: m.states.update(top, State::DHead),
            levels: m.levels.push(Seq::empty()),
            ..m
        },
        State::DHead => if token == Token::Ident || token == Token::SymbolLeftParen {
            SmView { ident: IdentState::Local, ..m }
        } else if token == Token::SymbolColon || token == Token::SymbolArrow {
            SmView { ident: IdentState::Read, ..m }
        } else {
            m
        },
        State::CHead => if token == Token::Ident {
            SmView { ident: IdentState::Read, ..m }
        } else if token == Token::SymbolColon {
            SmView { states: m.states.update(top, State::Body), ident: IdentState::Read, ..m }
        } else {
            m
        },
    }
}

/// Machine and result after `token` with text `text` at `level`; no result once the block
/// stack is empty (the identifier is still stored).
pub open spec fn put_step(m: SmView, gcap: nat, token: Token, text: Seq<char>, level: usize) -> (SmView, Option<TokenView>) {
    let (pos, m1) = if token == Token::Ident {
        ident_position(m, gcap, text)
    } else {
        ((0usize, 0usize), m)
    };
    let m2 = SmView { ready: token == Token::SymbolColon, ..m1 };
    let res = if token == Token::Ident {
        TokenView { token, level, position: Some(pos), text: Some(text) }
    } else {
        TokenView { token, level, position: None, text: None }
    };
    if m.states.len() == 0 {
        (m2, None)
    } else {
        (SmView { level: level as nat, ..transition(m2, token) }, Some(res))
    }
}

/// `s` without its last `k` entries (empty when it has fewer).
pub open spec fn drop_n<A>(s: Seq<A>, k: int) -> Seq<A> {
    if k >= s.len() {
        Seq::empty()
    } else if k <= 0 {
        s
    } else {
        s.take(s.len() - k)
    }
}

/// Machine after a line break to `level`, and whether it is accepted: a deeper line is
/// refused unless the last line ended with a colon; a head becomes a body; otherwise one
/// block closes per level given up.
pub open spec fn newline_step(m: SmView, level: nat) -> (SmView, bool) {
    if level > m.level && !m.ready {
        (m, false)
    } else {
        match m.states.last() {
            State::CHead | State::DHead => (SmView { states: m.states.update(m.states.len() - 1, State::Body), ..m }, true),
            _ => (
                SmView {
                    states: drop_n(m.states, m.level - level),
                    levels: drop_n(m.levels, m.level - level),
                    ..m
                },
                true,
            ),
        }
    }
}

/// In the file root or a block body, each keyword that opens a compound statement's block
/// (`class`, `if`, `else`, `elif`, `while`, `for`, `try`, `except`, `with`, `finally`)
/// pushes a block head and a fresh, empty context level, keeps every block below, and gets
/// a result at the level given.
pub proof fn law_block_keywords(m: SmView, gcap: nat, t: Token, text: Seq<char>, level: usize)
    requires
        m.states.len() > 0,
        m.states.last() == State::Root || m.states.last() == State::Body,
        t == Token::KeyClass || t == Token::KeyIf || t == Token::KeyElse || t == Token::KeyElif
            || t == Token::KeyWhile || t == Token::KeyFor || t == Token::KeyTry || t
            == Token::KeyExcept || t == Token::KeyWith || t == Token::KeyFinally,
    ensures
        put_step(m, gcap, t, text, level).0.states == m.states.push(State::CHead),
        put_step(m, gcap, t, text, level).0.levels == m.levels.push(Seq::<Seq<char>>::empty()),
        put_step(m, gcap, t, text, level).0.global == m.global,
        put_step(m, gcap, t, text, level).0.level == level,
        put_step(m, gcap, t, text, level).1 is Some,
{
}

/// In the file root or a block body, `def` pushes a parameter head without a context level
/// yet, so the function's name is written where the `def` stands; the identifiers after it
/// are written.
pub proof fn law_def_keyword(m: SmView, gcap: nat, text: Seq<char>, level: usize)
    requires
        m.states.len() > 0,
        m.states.last() == State::Root || m.states.last() == State::Body,
    ensures
        put_step(m, gcap, Token::KeyDef, text, level).0.states == m.states.push(State::DParam),
        put_step(m, gcap, Token::KeyDef, text, level).0.levels == m.levels,
        put_step(m, gcap, Token::KeyDef, text, level).0.ident == IdentState::Write,
        put_step(m, gcap, Token::KeyDef, text, level).1 is Some,
{
}

/// The machine after a line break to each level of `levels` in turn.
pub open spec fn run_newlines(m: SmView, levels: Seq<nat>) -> SmView
    decreases levels.len(),
{
    if levels.len() == 0 {
        m
    } else {
        newline_step(run_newlines(m, levels.drop_last()), levels.last()).0
    }
}

proof fn lemma_newlines_keep(m: SmView, levels: Seq<nat>)
    ensures
        run_newlines(m, levels).level == m.level,
        run_newlines(m, levels).ready == m.ready,
    decreases levels.len(),
{
    if levels.len() > 0 {
        lemma_newlines_keep(m, levels.drop_last());
    }
}

/// After a token `t` at level `l0` that got a result, and any line breaks since, a line
/// break to `level` is accepted unless it goes deeper than `l0` without `t` being a colon;
/// a refused line break changes nothing.
pub proof fn law_indent_after_token(m: SmView, gcap: nat, t: Token, text: Seq<char>, l0: usize, since: Seq<nat>, level: nat)
    requires
        put_step(m, gcap, t, text, l0).1 is Some,
    ensures
        ({
            let m1 = run_newlines(put_step(m, gcap, t, text, l0).0, since);
            &&& newline_step(m1, level).1 == !(level > l0 && t != Token::SymbolColon)
            &&& !newline_step(m1, level).1 ==> newline_step(m1, level).0 == m1
        }),
{
    lemma_newlines_keep(put_step(m, gcap, t, text, l0).0, since);
}

/// On a fresh machine (level 0, no colon seen), and after any line breaks, a line break to
/// `level` is accepted exactly when `level` is 0: a deeper indent needs a colon first.
pub proof fn law_indent_at_start(m: SmView, since: Seq<nat>, level: nat)
    requires
        m.level == 0,
        !m.ready,
    ensures
        newline_step(run_newlines(m, since), level).1 == (level == 0),
        level > 0 ==> newline_step(run_newlines(m, since), level).0 == run_newlines(m, since),
{
    lemma_newlines_keep(m, since);
}

/// Tracks the block structure of a Python token stream to decide where identifiers live.
pub struct StateMachine<'a> {
    pub state: Vec<State>,
    pub context: ContextStore<'a>,
    pub level: usize,
    pub ident_state: IdentState,
    pub ready_line: bool,
}

impl<'a> StateMachine<'a> {
    pub open spec fn model(&self) -> SmView {
        SmView {
            states: self.state@,
            level: self.level as nat,
            ident: self.ident_state,
            ready: self.ready_line,
            levels: self.context.levels(),
            global: self.context.global(),
        }
    }

    /// Capacity of the global store.
    pub open spec fn gcap(&self) -> nat {
        self.context.global_capacity()
    }

    /// Every context level holds up to 128 identifiers.
    pub open spec fn wf(&self) -> bool {
        forall|i: int| 0 <= i < self.context.levels().len() ==> self.context.level_capacity(i) == level_cap()
    }

    /// A machine at the file root over `context`.
    pub fn new(context: ContextStore<'a>) -> (r: Self)
        requires
            context.levels().len() == 0,
        ensures
            r.wf(),
            r.model() == (SmView {
                states: seq![State::Root],
                level: 0,
                ident: IdentState::Read,
                ready: false,
                levels: context.levels(),
                global: context.global(),
            }),
            r.gcap() == context.global_capacity(),
            r.context == context,
    {
        let r = Self {
            state: vec![State::Root],
            context: context,
            level: 0,
            ident_state: IdentState::Read,
            ready_line: false,
        };
        assert(r.state@ =~= seq![State::Root]);
        r
    }

    fn replace_head(&mut self, state: State)
        requires
            old(self).state@.len() > 0,
        ensures
            final(self).state@ == old(self).state@.update(old(self).state@.len() - 1, state),
            final(self).context == old(self).context,
            final(self).level == old(self).level,
            final(self).ident_state == old(self).ident_state,
            final(self).ready_line == old(self).ready_line,
    {
        let l = self.state.len() - 1;
        self.state.set(l, state);
    }

    /// Handles a line break to `level`; false when the line is refused.
    pub fn newline(&mut self, level: usize) -> (r: bool)
        requires
            old(self).wf(),
            old(self).state@.len() > 0 || (level > old(self).level && !old(self).ready_line),
        ensures
            final(self).wf(),
            (final(self).model(), r) == newline_step(old(self).model(), level as nat),
            final(self).gcap() == old(self).gcap(),
            *final(final(self).context.global_store) == *final(old(self).context.global_store),
    {
        if level > self.level && !self.ready_line {
            return false;
        }
        let current_state = *self.state.last().unwrap();
        match current_state {
            State::CHead | State::DHead => {
                self.replace_head(State::Body);
            },
            _ => {
                let ghost m0 = self.model();
                let mut k = level;
                while k < self.level
                    invariant
                        level <= k,
                        k <= self.level || k == level,
                        self.level == m0.level,
                        self.ident_state == m0.ident,
                        self.ready_line == m0.ready,
                        self.context.global() == m0.global,
                        self.context.global_capacity() == old(self).context.global_capacity(),
                        forall|i: int| 0 <= i < self.context.levels().len() ==> self.context.level_capacity(i) == level_cap(),
                        self.state@ == drop_n(m0.states, k - level),
                        self.context.levels() == drop_n(m0.levels, k - level),
                        *final(self.context.global_store) == *final(old(self).context.global_store),
                    decreases self.level - k,
                {
                    self.context.pop_context();
                    let _ = self.state.pop();
                    assert(self.state@ =~= drop_n(m0.states, k + 1 - level));
                    assert(self.context.levels() =~= drop_n(m0.levels, k + 1 - level));
                    k = k + 1;
                }
                assert(self.state@ =~= drop_n(m0.states, m0.level - level));
                assert(self.context.levels() =~= drop_n(m0.levels, m0.level - level));
            },
        }
        true
    }

    /// Stores `text` for an identifier as the current mode says.
    fn ident_put(&mut self, text: &str) -> (r: (usize, usize))
        requires
            old(self).wf(),
            old(self).context.levels().len() + 2 <= usize::MAX,
        ensures
            final(self).wf(),
            (r, final(self).model()) == ident_position(old(self).model(), old(self).gcap(), text@),
            final(self).gcap() == old(self).gcap(),
            *final(final(self).context.global_store) == *final(old(self).context.global_store),
    {
        match self.ident_state {
            IdentState::Local => self.context.put_local(text),
            IdentState::Read => {
                if self.context.len() <= 3 {
                    self.context.get_or_global(text)
                } else {
                    self.context.put_local(text)
                }
            },
            IdentState::Write => {
                if self.context.len() <= 2 {
                    self.context.get_or_global(text)
                } else {
                    self.context.put_local(text)
                }
            },
        }
    }

    /// Handles `token` with text `text` at `level`: stores an identifier, follows the block
    /// structure, and returns the token's result; `None` once no block is open.
    pub fn put_token(&mut self, token: Token, text: &str, level: usize) -> (r: Option<TokenResult>)
        requires
            old(self).wf(),
            old(self).context.levels().len() + 2 <= usize::MAX,
        ensures
            final(self).wf(),
            (final(self).model(), opt_view(r)) == put_step(old(self).model(), old(self).gcap(), token, text@, level),
            final(self).gcap() == old(self).gcap(),
            *final(final(self).context.global_store) == *final(old(self).context.global_store),
    {
        self.ready_line = token == Token::SymbolColon;
        let result = if token == Token::Ident {
            let position = self.ident_put(text);
            TokenResult { token: token, level: level, position: Some(position), text: Some(text.to_owned()) }
        } else {
            TokenResult { token: token, level: level, position: None, text: None }
        };
        if self.state.len() == 0 {
            return None;
        }
        let top = *self.state.last().unwrap();
        match top {
            State::Root | State::Body => {
                if token == Token::KeyDef {
                    self.state.push(State::DParam);
                    self.ident_state = IdentState::Write;
                } else if token == Token::KeyClass || token == Token::KeyIf || token == Token::KeyElse
                    || token == Token::KeyElif || token == Token::KeyWhile || token == Token::KeyFor
                    || token == Token::KeyTry || token == Token::KeyExcept || token == Token::KeyWith
                    || token == Token::KeyFinally {
                    self.state.push(State::CHead);
                    self.context.push_context();
                    self.ident_state = IdentState::Read;
                }
            },
            State::DParam => {
                self.replace_head(State::DHead);
                self.context.push_context();
            },
            State::DHead => {
                if token == Token::Ident || token == Token::SymbolLeftParen {
                    self.ident_state = IdentState::Local;
                } else if token == Token::SymbolColon || token == Token::SymbolArrow {
                    self.ident_state = IdentState::Read;
                }
            },
            State::CHead => {
                if token == Token::Ident {
                    self.ident_state = IdentState::Read;
                } else if token == Token::SymbolColon {
                    self.replace_head(State::Body);
                    self.ident_state = IdentState::Read;
                }
            },
        }
        self.level = level;
        Some(result)
    }
}

/// Abstract optional token result.
pub open spec fn opt_view(r: Option<TokenResult>) -> Option<TokenView> {
    match r {
        Some(x) => Some(result_view(x)),
        None => None,
    }
}

} // verus!
