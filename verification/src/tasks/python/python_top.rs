use vstd::prelude::*;

use super::python_tokenizer::{Token, token_id, marker_count, MarkerSet, count_past};
use super::lexer::{Lexeme, lex, lex_spec, lemma_lex_tiles, tiles_from};
use super::ident_store::{IdentLookup, ContextStore};
use super::base_parser::{
    StateMachine, TokenResult, TokenView, SmView, IdentState, State, put_step, newline_step,
    result_view, opt_view,
};
use super::python_parser::lexeme_text;
use crate::text::{chars_of, string_from_chars};
use super::context_creator::{counter_items, counter_new, counter_top, count_ident_words, ident_words, can_count_in, countable, text_lt};
use vstd::multiset::Multiset;
use counter::Counter;

verus! {

/// Whether `text` reads as Python: more than 8 of the keywords `del`, `def`, `elif`,
/// `except`.
pub fn check_python(text: &str) -> (r: bool)
    ensures
        r == (marker_count(lex_spec(text@), MarkerSet::WithoutImport) > 8),
{
    let chars = chars_of(text);
    let tokens = lex(&chars);
    count_past(&tokens, MarkerSet::WithoutImport, 8)
}

/// Width in characters of lexeme `x`.
pub open spec fn span_len(x: Lexeme) -> int {
    x.end - x.start
}

/// Reading the indentation after a line break from lexeme `i` on, at level `level` so far
/// with indent width `iw`: the first token that is not a string, comment, line break, space
/// run or tab run, the level of its line, the position after it, and the indent width.
/// A comment or line break resets the level; a space run counts in indent widths (the
/// first one seen sets the width); a tab run counts one level per tab.
pub open spec fn level_scan(xs: Seq<Lexeme>, i: int, iw: Option<usize>, level: usize) -> (Option<Token>, usize, int, Option<usize>)
    decreases xs.len() - i,
{
    if i < 0 || i >= xs.len() {
        (None, 0usize, xs.len() as int, iw)
    } else {
        let x = xs[i];
        let t = x.token;
        if t == Token::AString || t == Token::String || t == Token::TString {
            level_scan(xs, i + 1, iw, level)
        } else if t == Token::Comment || t == Token::Newline {
            level_scan(xs, i + 1, iw, 0)
        } else if t == Token::WS {
            let w = match iw {
                Some(w) => w,
                None => span_len(x) as usize,
            };
            level_scan(xs, i + 1, Some(w), (span_len(x) / (w as int)) as usize)
        } else if t == Token::Tab {
            level_scan(xs, i + 1, iw, span_len(x) as usize)
        } else {
            (Some(t), level, i + 1, iw)
        }
    }
}

pub proof fn lemma_level_scan(xs: Seq<Lexeme>, i: int, iw: Option<usize>, level: usize)
    requires
        0 <= i,
    ensures
        ({
            let (t, l, j, iw2) = level_scan(xs, i, iw, level);
            &&& i < xs.len() ==> i + 1 <= j <= xs.len()
            &&& i >= xs.len() ==> j == xs.len()
            &&& (t is Some ==> j >= 1 && xs[j - 1].token == t->0)
            &&& (t is None ==> j == xs.len())
        }),
    decreases xs.len() - i,
{
    if i < xs.len() {
        let x = xs[i];
        let t = x.token;
        if t == Token::AString || t == Token::String || t == Token::TString {
            lemma_level_scan(xs, i + 1, iw, level);
        } else if t == Token::Comment || t == Token::Newline {
            lemma_level_scan(xs, i + 1, iw, 0);
        } else if t == Token::WS {
            let w = match iw {
                Some(w) => w,
                None => span_len(x) as usize,
            };
            lemma_level_scan(xs, i + 1, Some(w), (span_len(x) / (w as int)) as usize);
        } else if t == Token::Tab {
            lemma_level_scan(xs, i + 1, iw, span_len(x) as usize);
        }
    }
}

/// Once the indent width is known, reading a line's indentation keeps it: only the first
/// space run seen sets the width.
pub proof fn law_indent_width_kept(xs: Seq<Lexeme>, i: int, w: usize, level: usize)
    requires
        0 <= i,
    ensures
        level_scan(xs, i, Some(w), level).3 == Some(w),
    decreases xs.len() - i,
{
    if i < xs.len() {
        let t = xs[i].token;
        if t == Token::AString || t == Token::String || t == Token::TString {
            law_indent_width_kept(xs, i + 1, w, level);
        } else if t == Token::Comment || t == Token::Newline {
            law_indent_width_kept(xs, i + 1, w, 0);
        } else if t == Token::WS {
            law_indent_width_kept(xs, i + 1, w, (span_len(xs[i]) / (w as int)) as usize);
        } else if t == Token::Tab {
            law_indent_width_kept(xs, i + 1, w, span_len(xs[i]) as usize);
        }
    }
}

/// A line indented by a run of `n` spaces is at level `n / w` for the known indent width
/// `w`; with no width known yet, that run sets the width to `n` and the line is at level 1.
pub proof fn law_space_run_level(xs: Seq<Lexeme>, i: int, iw: Option<usize>, level: usize)
    requires
        0 <= i,
        i + 1 < xs.len(),
        xs[i].token == Token::WS,
        span_len(xs[i]) > 0,
        !(xs[i + 1].token == Token::AString || xs[i + 1].token == Token::String || xs[i + 1].token == Token::TString
            || xs[i + 1].token == Token::Comment || xs[i + 1].token == Token::Newline || xs[i + 1].token == Token::WS
            || xs[i + 1].token == Token::Tab),
        iw matches Some(w) ==> w > 0,
    ensures
        iw matches Some(w) ==> level_scan(xs, i, iw, level) == (Some(xs[i + 1].token), (span_len(xs[i]) / (w as int)) as usize, i + 2, iw),
        iw is None && span_len(xs[i]) <= usize::MAX ==> level_scan(xs, i, iw, level) == (Some(xs[i + 1].token), 1usize, i + 2, Some(span_len(xs[i]) as usize)),
{
    let n = span_len(xs[i]);
    if let Some(w) = iw {
        let l = (n / (w as int)) as usize;
        assert(level_scan(xs, i + 1, Some(w), l) == (Some(xs[i + 1].token), l, i + 2, Some(w)));
    }
    if iw is None && n <= usize::MAX {
        let w = n as usize;
        let l = (n / (w as int)) as usize;
        assert(level_scan(xs, i + 1, Some(w), l) == (Some(xs[i + 1].token), l, i + 2, Some(w)));
    }
    if iw is None && n <= usize::MAX {
        let w = n as usize;
        assert(n / (w as int) == 1) by (nonlinear_arith)
            requires
                n > 0,
                w == n,
        ;
    }
}

/// Reads the indentation after a line break from `*pos` on; see `level_scan`.
pub fn get_level(tokens: &Vec<Lexeme>, pos: &mut usize, indent_width: &mut Option<usize>) -> (r: (Option<Token>, usize))
    requires
        *old(pos) <= tokens@.len(),
        forall|k: int| 0 <= k < tokens@.len() ==> #[trigger] tokens@[k].start < tokens@[k].end,
        *old(indent_width) matches Some(w) ==> w > 0,
    ensures
        ({
            let (t, l, j, iw2) = level_scan(tokens@, *old(pos) as int, *old(indent_width), 0);
            &&& r == (t, l)
            &&& *final(pos) == j
            &&& *final(indent_width) == iw2
        }),
        *final(indent_width) matches Some(w) ==> w > 0,
{
    let mut level: usize = 0;
    while *pos < tokens.len()
        invariant
            *pos <= tokens@.len(),
            forall|k: int| 0 <= k < tokens@.len() ==> #[trigger] tokens@[k].start < tokens@[k].end,
            *indent_width matches Some(w) ==> w > 0,
            level_scan(tokens@, *pos as int, *indent_width, level) == level_scan(tokens@, *old(pos) as int, *old(indent_width), 0),
        decreases tokens@.len() - *pos,
    {
        let x = tokens[*pos];
        *pos = *pos + 1;
        let t = x.token;
        if t == Token::AString || t == Token::String || t == Token::TString {
        } else if t == Token::Comment || t == Token::Newline {
            level = 0;
        } else if t == Token::WS {
            let len = x.end - x.start;
            if indent_width.is_none() {
                *indent_width = Some(len);
            }
            let w = indent_width.unwrap();
            level = len / w;
        } else if t == Token::Tab {
            level = x.end - x.start;
        } else {
            return (Some(t), level);
        }
    }
    (None, 0)
}

/// Tokens skipped before the first line: spaces, line breaks, strings and comments.
pub open spec fn skipped_at_start(t: Token) -> bool {
    t == Token::WS || t == Token::Newline || t == Token::AString || t == Token::String || t
        == Token::TString || t == Token::Comment
}

/// Position after the first token that is not skipped at the start (that token is dropped).
pub open spec fn skip_start(xs: Seq<Lexeme>, i: int) -> int
    decreases xs.len() - i,
{
    if i < 0 || i >= xs.len() {
        xs.len() as int
    } else if skipped_at_start(xs[i].token) {
        skip_start(xs, i + 1)
    } else {
        i + 1
    }
}

/// Result of a line break token.
pub open spec fn newline_view() -> TokenView {
    TokenView { token: Token::Newline, level: 0, position: None, text: None }
}

/// Outcome of a run over a token stream: stuck (a line break reaches a machine with no
/// open block), refused (the machine gives no result), or the results when there are more
/// than 64 of them.
pub enum RunOutcome {
    Stuck,
    Done(Option<Seq<TokenView>>),
}

/// Runs the state machine over the tokens from position `i`, at level `level` with indent
/// width `iw`, after results `out`; gives the outcome and the final machine.
///
/// Spaces, tabs and comments are skipped. A line break gives a line break result, reads
/// the next line's indentation and token, and moves the machine to that line; the level
/// follows when the machine accepts the line and it is at most one deeper. Every other
/// token goes to the machine with its text.
pub open spec fn lex_run(src: Seq<char>, xs: Seq<Lexeme>, i: int, level: usize, iw: Option<usize>, m: SmView, gcap: nat, out: Seq<TokenView>) -> (RunOutcome, SmView)
    decreases xs.len() - i,
{
    if i < 0 || i >= xs.len() {
        (RunOutcome::Done(if out.len() > 64 { Some(out) } else { None }), m)
    } else {
        let x = xs[i];
        if x.token == Token::WS || x.token == Token::Tab || x.token == Token::Comment {
            lex_run(src, xs, i + 1, level, iw, m, gcap, out)
        } else if x.token == Token::Newline {
            let (t, l, j, iw2) = level_scan(xs, i + 1, iw, 0);
            proof {
                lemma_level_scan(xs, i + 1, iw, 0);
            }
            let out2 = out.push(newline_view());
            if m.states.len() == 0 && !(l > m.level && !m.ready) {
                (RunOutcome::Stuck, m)
            } else {
                let (m2, ok) = newline_step(m, l as nat);
                let lev = if ok && l <= level + 1 { l } else { level };
                match t {
                    None => lex_run(src, xs, j, lev, iw2, m2, gcap, out2),
                    Some(tok) => {
                        let (m3, r) = put_step(m2, gcap, tok, lexeme_text(src, xs[j - 1]), lev);
                        match r {
                            None => (RunOutcome::Done(None), m3),
                            Some(v) => lex_run(src, xs, j, lev, iw2, m3, gcap, out2.push(v)),
                        }
                    },
                }
            }
        } else {
            let (m3, r) = put_step(m, gcap, x.token, lexeme_text(src, x), level);
            match r {
                None => (RunOutcome::Done(None), m3),
                Some(v) => lex_run(src, xs, i + 1, level, iw, m3, gcap, out.push(v)),
            }
        }
    }
}

/// Machine at the file root over a store with global keys `global`.
pub open spec fn root_machine(global: Seq<Seq<char>>) -> SmView {
    SmView {
        states: seq![State::Root],
        level: 0,
        ident: IdentState::Read,
        ready: false,
        levels: Seq::empty(),
        global: global,
    }
}

/// Outcome and final machine of running over the whole of `text`.
pub open spec fn run_text(text: Seq<char>, global: Seq<Seq<char>>, gcap: nat) -> (RunOutcome, SmView) {
    let xs = lex_spec(text);
    lex_run(text, xs, skip_start(xs, 0), 0, None, root_machine(global), gcap, Seq::empty())
}

/// Abstract results.
pub open spec fn results_view(v: Seq<TokenResult>) -> Seq<TokenView> {
    v.map_values(|r: TokenResult| result_view(r))
}

proof fn lemma_skip_start(xs: Seq<Lexeme>, i: int)
    requires
        0 <= i <= xs.len(),
    ensures
        i <= skip_start(xs, i) <= xs.len(),
    decreases xs.len() - i,
{
    if i < xs.len() && skipped_at_start(xs[i].token) {
        lemma_skip_start(xs, i + 1);
    }
}


/// Handles the token at `*i` (and, after a line break, the next line's indentation and
/// first token); false when the machine refuses a token.
#[verifier::rlimit(60)]
fn lex_step<'a>(
    chars: &Vec<char>,
    xs: &Vec<Lexeme>,
    i: &mut usize,
    level: &mut usize,
    indent_width: &mut Option<usize>,
    state_machine: &mut StateMachine<'a>,
    tokens: &mut Vec<TokenResult>,
) -> (ok: bool)
    requires
        *old(i) < xs@.len(),
        chars@.len() + 3 <= usize::MAX,
        tiles_from(chars@, 0, xs@),
        *old(indent_width) matches Some(w) ==> w > 0,
        old(state_machine).wf(),
        old(state_machine).context.levels().len() <= *old(i),
        !(lex_run(chars@, xs@, *old(i) as int, *old(level), *old(indent_width), old(state_machine).model(), old(state_machine).gcap(), results_view(old(tokens)@)).0 is Stuck),
    ensures
        *old(i) < *final(i) <= xs@.len(),
        *final(indent_width) matches Some(w) ==> w > 0,
        final(state_machine).wf(),
        final(state_machine).gcap() == old(state_machine).gcap(),
        final(state_machine).context.levels().len() <= *final(i),
        *final(final(state_machine).context.global_store) == *final(old(state_machine).context.global_store),
        ok ==> lex_run(chars@, xs@, *final(i) as int, *final(level), *final(indent_width), final(state_machine).model(), final(state_machine).gcap(), results_view(final(tokens)@))
            == lex_run(chars@, xs@, *old(i) as int, *old(level), *old(indent_width), old(state_machine).model(), old(state_machine).gcap(), results_view(old(tokens)@)),
        !ok ==> lex_run(chars@, xs@, *old(i) as int, *old(level), *old(indent_width), old(state_machine).model(), old(state_machine).gcap(), results_view(old(tokens)@))
            == (RunOutcome::Done(None), final(state_machine).model()),
{
    let ghost src = chars@;
    let x = xs[*i];
    let ghost out0 = results_view(tokens@);
    *i = *i + 1;
    if x.token == Token::WS || x.token == Token::Tab || x.token == Token::Comment {
        true
    } else if x.token == Token::Newline {
        proof {
            lemma_level_scan(xs@, *i as int, *indent_width, 0);
        }
        let (t, l) = get_level(xs, i, indent_width);
        tokens.push(TokenResult { token: Token::Newline, level: 0, position: None, text: None });
        assert(results_view(tokens@) =~= out0.push(newline_view()));
        let ok = state_machine.newline(l);
        let lev = if ok && (l <= *level || l - *level == 1) {
            l
        } else {
            *level
        };
        *level = lev;
        match t {
            None => true,
            Some(tok) => {
                let y = xs[*i - 1];
                let s = string_from_chars(chars, y.start, y.end);
                let ghost out1 = results_view(tokens@);
                let r = state_machine.put_token(tok, s.as_str(), *level);
                match r {
                    None => false,
                    Some(v) => {
                        tokens.push(v);
                        assert(results_view(tokens@) =~= out1.push(result_view(v)));
                        true
                    },
                }
            },
        }
    } else {
        let s = string_from_chars(chars, x.start, x.end);
        let r = state_machine.put_token(x.token, s.as_str(), *level);
        match r {
            None => false,
            Some(v) => {
                tokens.push(v);
                assert(results_view(tokens@) =~= out0.push(result_view(v)));
                true
            },
        }
    }
}

/// The part of the machine that decides whether a run gets stuck: block stack, level and
/// whether the last token was a colon.
pub struct Shadow {
    pub states: Seq<State>,
    pub level: nat,
    pub ready: bool,
}

pub open spec fn shadow_of(m: SmView) -> Shadow {
    Shadow { states: m.states, level: m.level, ready: m.ready }
}

/// Block stack after `token` on a non-empty stack.
pub open spec fn states_after(states: Seq<State>, token: Token) -> Seq<State> {
    let top = states.len() - 1;
    match states.last() {
        State::Root | State::Body => if token == Token::KeyDef {
            states.push(State::DParam)
        } else if super::base_parser::opens_block(token) {
            states.push(State::CHead)
        } else {
            states
        },
        State::DParam => states.update(top, State::DHead),
        State::DHead => states,
        State::CHead => if token == Token::SymbolColon {
            states.update(top, State::Body)
        } else {
            states
        },
    }
}

/// Shadow after a token, and whether the machine gives a result.
pub open spec fn shadow_put(s: Shadow, token: Token, level: usize) -> (Shadow, bool) {
    if s.states.len() == 0 {
        (Shadow { ready: token == Token::SymbolColon, ..s }, false)
    } else {
        (Shadow { states: states_after(s.states, token), level: level as nat, ready: token == Token::SymbolColon }, true)
    }
}

/// Shadow after a line break to `level`, and whether the line is accepted.
pub open spec fn shadow_newline(s: Shadow, level: nat) -> (Shadow, bool) {
    if level > s.level && !s.ready {
        (s, false)
    } else {
        match s.states.last() {
            State::CHead | State::DHead => (Shadow { states: s.states.update(s.states.len() - 1, State::Body), ..s }, true),
            _ => (Shadow { states: super::base_parser::drop_n(s.states, s.level - level), ..s }, true),
        }
    }
}

/// Whether a run from lexeme `i` gets stuck; see `lex_run`.
pub open spec fn shadow_stuck(xs: Seq<Lexeme>, i: int, level: usize, iw: Option<usize>, s: Shadow) -> bool
    decreases xs.len() - i,
{
    if i < 0 || i >= xs.len() {
        false
    } else {
        let x = xs[i];
        if x.token == Token::WS || x.token == Token::Tab || x.token == Token::Comment {
            shadow_stuck(xs, i + 1, level, iw, s)
        } else if x.token == Token::Newline {
            let (t, l, j, iw2) = level_scan(xs, i + 1, iw, 0);
            proof {
                lemma_level_scan(xs, i + 1, iw, 0);
            }
            if s.states.len() == 0 && !(l > s.level && !s.ready) {
                true
            } else {
                let (s2, ok) = shadow_newline(s, l as nat);
                let lev = if ok && l <= level + 1 { l } else { level };
                match t {
                    None => shadow_stuck(xs, j, lev, iw2, s2),
                    Some(tok) => {
                        let (s3, given) = shadow_put(s2, tok, lev);
                        if given {
                            shadow_stuck(xs, j, lev, iw2, s3)
                        } else {
                            false
                        }
                    },
                }
            }
        } else {
            let (s3, given) = shadow_put(s, x.token, level);
            if given {
                shadow_stuck(xs, i + 1, level, iw, s3)
            } else {
                false
            }
        }
    }
}

proof fn lemma_put_shadow(m: SmView, gcap: nat, t: Token, text: Seq<char>, level: usize)
    ensures
        shadow_of(put_step(m, gcap, t, text, level).0) == shadow_put(shadow_of(m), t, level).0,
        put_step(m, gcap, t, text, level).1 is Some == shadow_put(shadow_of(m), t, level).1,
{
    let (pos, m1) = if t == Token::Ident {
        super::base_parser::ident_position(m, gcap, text)
    } else {
        ((0usize, 0usize), m)
    };
    assert(m1.states == m.states && m1.level == m.level);
}

proof fn lemma_newline_shadow(m: SmView, l: nat)
    ensures
        shadow_of(newline_step(m, l).0) == shadow_newline(shadow_of(m), l).0,
        newline_step(m, l).1 == shadow_newline(shadow_of(m), l).1,
{
}

/// A run gets stuck exactly when its shadow does: identifiers and their store play no
/// part in it.
pub proof fn lemma_run_shadow(src: Seq<char>, xs: Seq<Lexeme>, i: int, level: usize, iw: Option<usize>, m: SmView, gcap: nat, out: Seq<TokenView>)
    ensures
        (lex_run(src, xs, i, level, iw, m, gcap, out).0 is Stuck) == shadow_stuck(xs, i, level, iw, shadow_of(m)),
    decreases xs.len() - i,
{
    if i >= 0 && i < xs.len() {
        let x = xs[i];
        if x.token == Token::WS || x.token == Token::Tab || x.token == Token::Comment {
            lemma_run_shadow(src, xs, i + 1, level, iw, m, gcap, out);
        } else if x.token == Token::Newline {
            let (t, l, j, iw2) = level_scan(xs, i + 1, iw, 0);
            lemma_level_scan(xs, i + 1, iw, 0);
            let out2 = out.push(newline_view());
            if !(m.states.len() == 0 && !(l > m.level && !m.ready)) {
                let (m2, ok) = newline_step(m, l as nat);
                lemma_newline_shadow(m, l as nat);
                let lev = if ok && l <= level + 1 { l } else { level };
                match t {
                    None => {
                        lemma_run_shadow(src, xs, j, lev, iw2, m2, gcap, out2);
                    },
                    Some(tok) => {
                        let (m3, r) = put_step(m2, gcap, tok, lexeme_text(src, xs[j - 1]), lev);
                        lemma_put_shadow(m2, gcap, tok, lexeme_text(src, xs[j - 1]), lev);
                        if let Some(v) = r {
                            lemma_run_shadow(src, xs, j, lev, iw2, m3, gcap, out2.push(v));
                        }
                    },
                }
            }
        } else {
            let (m3, r) = put_step(m, gcap, x.token, lexeme_text(src, x), level);
            lemma_put_shadow(m, gcap, x.token, lexeme_text(src, x), level);
            if let Some(v) = r {
                lemma_run_shadow(src, xs, i + 1, level, iw, m3, gcap, out.push(v));
            }
        }
    }
}

proof fn lemma_shadow_never_stuck(xs: Seq<Lexeme>, i: int, level: usize, iw: Option<usize>, s: Shadow)
    requires
        0 <= i,
        s.states.len() > 0,
    ensures
        !shadow_stuck(xs, i, level, iw, s),
    decreases xs.len() - i,
{
    if i < xs.len() {
        let x = xs[i];
        if x.token == Token::WS || x.token == Token::Tab || x.token == Token::Comment {
            lemma_shadow_never_stuck(xs, i + 1, level, iw, s);
        } else if x.token == Token::Newline {
            let (t, l, j, iw2) = level_scan(xs, i + 1, iw, 0);
            lemma_level_scan(xs, i + 1, iw, 0);
            let (s2, ok) = shadow_newline(s, l as nat);
            let lev = if ok && l <= level + 1 { l } else { level };
            assert(!(s.states.len() == 0 && !(l > s.level && !s.ready)));
            match t {
                None => {
                    assert(j == xs.len());
                    assert(!shadow_stuck(xs, j, lev, iw2, s2));
                },
                Some(tok) => {
                    let (s3, given) = shadow_put(s2, tok, lev);
                    if given {
                        assert(states_after(s2.states, tok).len() >= s2.states.len());
                        lemma_shadow_never_stuck(xs, j, lev, iw2, s3);
                    }
                },
            }
        } else {
            let (s3, given) = shadow_put(s, x.token, level);
            assert(states_after(s.states, x.token).len() >= s.states.len());
            lemma_shadow_never_stuck(xs, i + 1, level, iw, s3);
        }
    }
}

/// A run never reaches a line break with no block open: the block stack only empties at
/// a line break, and the token after that line break ends the run.
pub proof fn lemma_run_never_stuck(text: Seq<char>, global: Seq<Seq<char>>, gcap: nat)
    ensures
        !(run_text(text, global, gcap).0 is Stuck),
{
    let xs = lex_spec(text);
    lemma_skip_start(xs, 0);
    lemma_run_shadow(text, xs, skip_start(xs, 0), 0, None, root_machine(global), gcap, Seq::empty());
    lemma_shadow_never_stuck(xs, skip_start(xs, 0), 0, None, shadow_of(root_machine(global)));
}

/// Runs the state machine over the Python source `text` with the identifier store
/// `context`; see `lex_run`.
fn lex_internal<'a>(text: &str, context: ContextStore<'a>) -> (r: Option<Vec<TokenResult>>)
    requires
        text@.len() + 3 <= usize::MAX,
        context.levels().len() == 0,
    ensures
        run_text(text@, context.global(), context.global_capacity()).0 == RunOutcome::Done(match r {
            Some(v) => Some(results_view(v@)),
            None => None,
        }),
        (*final(context.global_store))@ == run_text(text@, context.global(), context.global_capacity()).1.global,
        (*final(context.global_store)).capacity() == context.global_capacity(),
{
    let chars = chars_of(text);
    let xs = lex(&chars);
    proof {
        lemma_lex_tiles(chars@);
        lemma_run_never_stuck(text@, context.global(), context.global_capacity());
    }
    let ghost src = chars@;
    let ghost gcap = context.global_capacity();
    let mut tokens: Vec<TokenResult> = Vec::with_capacity(1024);
    let mut level: usize = 0;
    let mut indent_width: Option<usize> = None;
    let mut state_machine = StateMachine::new(context);
    let mut i: usize = 0;
    loop
        invariant_except_break
            i <= xs@.len(),
            skip_start(xs@, i as int) == skip_start(xs@, 0),
        ensures
            i <= xs@.len(),
            i == skip_start(xs@, 0),
        decreases xs@.len() - i,
    {
        if i >= xs.len() {
            break;
        }
        let t = xs[i].token;
        i = i + 1;
        if !(t == Token::WS || t == Token::Newline || t == Token::AString || t == Token::String
            || t == Token::TString || t == Token::Comment) {
            break;
        }
    }
    let ghost whole = run_text(text@, context.global(), context.global_capacity());
    assert(context.levels() =~= Seq::<Seq<Seq<char>>>::empty());
    assert(state_machine.model() == root_machine(context.global()));
    assert(results_view(tokens@) =~= Seq::<TokenView>::empty());
    while i < xs.len()
        invariant
            i <= xs@.len(),
            chars@ == src,
            src == text@,
            src.len() + 3 <= usize::MAX,
            xs@ == lex_spec(src),
            tiles_from(src, 0, xs@),
            indent_width matches Some(w) ==> w > 0,
            state_machine.wf(),
            state_machine.gcap() == gcap,
            gcap == context.global_capacity(),
            state_machine.context.levels().len() <= i,
            lex_run(src, xs@, i as int, level, indent_width, state_machine.model(), gcap, results_view(tokens@)) == whole,
            whole == run_text(text@, context.global(), context.global_capacity()),
            !(whole.0 is Stuck),
            *final(state_machine.context.global_store) == *final(context.global_store),
        decreases xs@.len() - i,
    {
        let ok = lex_step(&chars, &xs, &mut i, &mut level, &mut indent_width, &mut state_machine, &mut tokens);
        if !ok {
            return None;
        }
    }
    if tokens.len() > 64 {
        Some(tokens)
    } else {
        None
    }
}

/// Tokens of the Python source `text` with identifiers placed in a fresh store over
/// `global_store`; `None` when the text does not read as Python or the run gives no result.
pub fn lex_simple<'a>(text: &str, global_store: &'a mut IdentLookup) -> (r: Option<Vec<TokenResult>>)
    requires
        text@.len() + 3 <= usize::MAX,
    ensures
        marker_count(lex_spec(text@), MarkerSet::WithoutImport) <= 8 ==> r is None && final(global_store)@ == old(global_store)@,
        marker_count(lex_spec(text@), MarkerSet::WithoutImport) > 8 ==> {
            let (o, m) = run_text(text@, old(global_store)@, old(global_store).capacity());
            &&& o == RunOutcome::Done(match r {
                Some(v) => Some(results_view(v@)),
                None => None,
            })
            &&& final(global_store)@ == m.global
        },
        final(global_store).capacity() == old(global_store).capacity(),
{
    if !check_python(text) {
        return None;
    }
    let context = ContextStore::new(global_store);
    lex_internal(text, context)
}

/// Ids of results: an identifier gives its level plus 10 and its index plus 200 (modulo
/// 2^32); any other token gives its vocabulary id.
pub open spec fn top_ids(out: Seq<TokenView>) -> Seq<u32>
    decreases out.len(),
{
    if out.len() == 0 {
        Seq::empty()
    } else {
        let v = out.last();
        let last = if v.token == Token::Ident {
            match v.position {
                Some(p) => seq![(p.0 as u32).wrapping_add(10), (p.1 as u32).wrapping_add(200)],
                None => Seq::empty(),
            }
        } else {
            seq![token_id(v.token)]
        };
        top_ids(out.drop_last()) + last
    }
}

/// Encoder of Python source files into flat token ids over a global identifier table.
pub struct PythonParserTop {
    pub global_store: IdentLookup,
    /// Number of files that could not be encoded.
    pub index: u32,
}

impl PythonParserTop {
    /// An encoder whose global table holds the first word of each line of `contents`.
    pub fn new(contents: &str) -> (r: Self)
        ensures
            r.global_store@ == super::key_table::first_words(contents@),
            r.global_store.capacity() == r.global_store@.len(),
            r.index == 0,
    {
        Self { global_store: IdentLookup::from_text(contents), index: 0 }
    }

    /// Flat ids of a Python source file (see `top_ids`); empty, with the failure counted,
    /// when it cannot be encoded.
    pub fn encode(&mut self, data: String) -> (r: Vec<u32>)
        requires
            data@.len() + 3 <= usize::MAX,
            old(self).index < u32::MAX,
        ensures
            final(self).global_store.capacity() == old(self).global_store.capacity(),
            marker_count(lex_spec(data@), MarkerSet::WithoutImport) <= 8 ==> {
                &&& r@ == Seq::<u32>::empty()
                &&& final(self).index == old(self).index + 1
                &&& final(self).global_store@ == old(self).global_store@
            },
            marker_count(lex_spec(data@), MarkerSet::WithoutImport) > 8 ==> {
                let (o, m) = run_text(data@, old(self).global_store@, old(self).global_store.capacity());
                &&& final(self).global_store@ == m.global
                &&& o matches RunOutcome::Done(res)
                &&& res matches Some(out) ==> r@ == top_ids(out) && final(self).index == old(self).index
                &&& res is None ==> r@ == Seq::<u32>::empty() && final(self).index == old(self).index + 1
            },
    {
        let mut ids: Vec<u32> = Vec::with_capacity(512);
        let tokens_opt = lex_simple(data.as_str(), &mut self.global_store);
        match tokens_opt {
            None => {
                self.index = self.index + 1;
                Vec::new()
            },
            Some(tokens) => {
                let ghost out = results_view(tokens@);
                let mut k: usize = 0;
                assert(out.take(0) =~= Seq::<TokenView>::empty());
                while k < tokens.len()
                    invariant
                        k <= tokens@.len(),
                        out == results_view(tokens@),
                        ids@ == top_ids(out.take(k as int)),
                    decreases tokens@.len() - k,
                {
                    let token = &tokens[k];
                    assert(out.take(k + 1).drop_last() =~= out.take(k as int));
                    assert(out.take(k + 1).last() == result_view(*token));
                    if token.token == Token::Ident {
                        match token.position {
                            Some(p) => {
                                ids.push((p.0 as u32).wrapping_add(10));
                                ids.push((p.1 as u32).wrapping_add(200));
                            },
                            None => {},
                        }
                    } else {
                        ids.push(token.token.get_token_id());
                    }
                    assert(ids@ =~= top_ids(out.take(k + 1)));
                    k = k + 1;
                }
                assert(out.take(k as int) =~= out);
                ids
            },
        }
    }
}

/// Collects identifier word counts of Python sources (words of at least 3 bytes); `path`
/// names the file the most counted words are written to.
pub struct PythonContextCreator {
    pub counter: Counter<String, usize>,
    pub path: String,
    /// Number of words written out.
    pub size: usize,
    /// Number of sources seen.
    pub count: usize,
}

impl PythonContextCreator {
    /// Number of words counted so far, with repeats.
    pub open spec fn total(&self) -> nat {
        counter_items(self.counter).len()
    }

    /// A creator writing the `size` most counted words to `context.txt`.
    pub fn new(size: usize) -> (r: Self)
        ensures
            counter_items(r.counter) == Multiset::<Seq<char>>::empty(),
            r.path@ == "context.txt"@,
            r.size == size,
            r.count == 0,
    {
        Self { counter: counter_new(), path: "context.txt".to_owned(), size: size, count: 0 }
    }

    /// The `size` most counted words with their counts.
    pub fn top_entries(&self) -> (r: Vec<(String, usize)>)
        ensures
            r@.len() <= self.size,
            forall|i: int| 0 <= i < r@.len() ==> #[trigger] r@[i].1 == counter_items(self.counter).count(r@[i].0@),
            forall|i: int, j: int| 0 <= i < j < r@.len() ==> #[trigger] r@[i].0@ != #[trigger] r@[j].0@ && r@[i].1 >= r@[j].1,
            r@.len() < self.size ==> forall|key: Seq<char>| #[trigger] counter_items(self.counter).count(key) > 0
                ==> exists|i: int| 0 <= i < r@.len() && r@[i].0@ == key,
            forall|key: Seq<char>, i: int|
                0 <= i < r@.len() && (forall|j: int| 0 <= j < r@.len() ==> r@[j].0@ != key)
                ==> #[trigger] counter_items(self.counter).count(key) <= #[trigger] r@[i].1,
            forall|i: int, j: int| 0 <= i < j < r@.len() && #[trigger] r@[i].1 == #[trigger] r@[j].1 ==> text_lt(r@[i].0@, r@[j].0@),
            forall|key: Seq<char>, i: int|
                0 <= i < r@.len() && (forall|j: int| 0 <= j < r@.len() ==> r@[j].0@ != key) && counter_items(self.counter).count(key) > 0
                    && #[trigger] counter_items(self.counter).count(key) == #[trigger] r@[i].1 ==> text_lt(r@[i].0@, key),
    {
        counter_top(&self.counter, self.size)
    }

    /// Whether the counts are due to be written out: every 1024 sources, after the 1023rd.
    pub fn write_due(&self) -> (r: bool)
        ensures
            r == (self.count % 1024 == 1023),
    {
        self.count % 1024 == 1023
    }

    /// Whether `encode` can count `text`: no count overflows.
    pub fn can_count(&self, text: &str) -> (r: bool)
        requires
            self.total() <= usize::MAX,
        ensures
            r == countable(self.total(), self.count, text@.len()),
    {
        can_count_in(&self.counter, self.count, text)
    }

    /// Counts the identifier words of at least 3 bytes of `text` and the source itself;
    /// gives eight zero ids.
    pub fn encode(&mut self, text: String) -> (r: Vec<u32>)
        requires
            text@.len() + 4 <= usize::MAX,
            old(self).total() + 2 * text@.len() <= usize::MAX,
            old(self).count < usize::MAX,
        ensures
            r@ == Seq::new(8, |i: int| 0u32),
            counter_items(final(self).counter) == counter_items(old(self).counter).add(ident_words(text@, lex_spec(text@), 3).to_multiset()),
            final(self).total() <= old(self).total() + 2 * text@.len(),
            final(self).count == old(self).count + 1,
            final(self).size == old(self).size,
            final(self).path == old(self).path,
    {
        count_ident_words(&mut self.counter, text.as_str(), 3);
        self.count = self.count + 1;
        let r = vec![0u32; 8];
        assert(r@ =~= Seq::new(8, |i: int| 0u32));
        r
    }
}

} // verus!
