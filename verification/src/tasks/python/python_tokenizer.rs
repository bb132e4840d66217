use vstd::prelude::*;

use super::lexer::{Lexeme, lex, lex_spec};
use crate::text::chars_of;

verus! {

/// Operators recognised by the Python lexer.
#[derive(Clone, Copy, Debug, PartialEq, Eq, Structural)]
pub enum Operator {
    At,
    Not,
    Assign,
    Colon,
    PlusEqual,
    MinusEqual,
    PlusDoubleColon,
    Mul,
    Div,
    Mod,
    Plus,
    Minus,
    ShiftLeft,
    ShiftRight,
    LessThan,
    GreaterThan,
    LessThanOrEqual,
    GreaterThanOrEqual,
    Equal,
    NotEqual,
    BitAnd,
    BitXor,
    BitOr,
    BitNeg,
    And,
    Or,
    Unknown,
}

/// Offset of each operator from the start of the operator id range.
pub open spec fn operator_offset(op: Operator) -> u32 {
    match op {
        Operator::At => 0,
        Operator::Not => 1,
        Operator::Assign => 2,
        Operator::Colon => 3,
        Operator::PlusEqual => 4,
        Operator::MinusEqual => 5,
        Operator::PlusDoubleColon => 6,
        Operator::Mul => 8,
        Operator::Div => 9,
        Operator::Mod => 10,
        Operator::Plus => 11,
        Operator::Minus => 12,
        Operator::ShiftLeft => 13,
        Operator::ShiftRight => 14,
        Operator::LessThan => 15,
        Operator::GreaterThan => 16,
        Operator::LessThanOrEqual => 17,
        Operator::GreaterThanOrEqual => 18,
        Operator::Equal => 19,
        Operator::NotEqual => 20,
        Operator::BitAnd => 21,
        Operator::BitXor => 22,
        Operator::BitOr => 23,
        Operator::BitNeg => 24,
        Operator::And => 25,
        Operator::Or => 26,
        Operator::Unknown => 27,
    }
}

impl Operator {
    /// Id of the operator when the operator range starts at `start`.
    pub fn get_id(&self, start: u32) -> (r: u32)
        requires
            start + 27 <= u32::MAX,
        ensures
            r == start + operator_offset(*self),
    {
        match self {
            Operator::At => start,
            Operator::Not => start + 1,
            Operator::Assign => start + 2,
            Operator::Colon => start + 3,
            Operator::PlusEqual => start + 4,
            Operator::MinusEqual => start + 5,
            Operator::PlusDoubleColon => start + 6,
            Operator::Mul => start + 8,
            Operator::Div => start + 9,
            Operator::Mod => start + 10,
            Operator::Plus => start + 11,
            Operator::Minus => start + 12,
            Operator::ShiftLeft => start + 13,
            Operator::ShiftRight => start + 14,
            Operator::LessThan => start + 15,
            Operator::GreaterThan => start + 16,
            Operator::LessThanOrEqual => start + 17,
            Operator::GreaterThanOrEqual => start + 18,
            Operator::Equal => start + 19,
            Operator::NotEqual => start + 20,
            Operator::BitAnd => start + 21,
            Operator::BitXor => start + 22,
            Operator::BitOr => start + 23,
            Operator::BitNeg => start + 24,
            Operator::And => start + 25,
            Operator::Or => start + 26,
            Operator::Unknown => start + 27,
        }
    }
}

/// Tokens of the Python lexer.
#[derive(Clone, Copy, Debug, PartialEq, Eq, Structural)]
pub enum Token {
    KeyFalse,
    KeyNone,
    KeyTrue,
    KeyAnd,
    KeyAs,
    KeyAssert,
    KeyAsync,
    KeyAwait,
    KeyBreak,
    KeyClass,
    KeyContinue,
    KeyDef,
    KeyFrom,
    KeyDel,
    KeyElif,
    KeyElse,
    KeyExcept,
    KeyFinally,
    KeyFor,
    KeyGlobal,
    KeyIf,
    KeyImport,
    KeyIn,
    KeyIs,
    KeyLambda,
    KeyNonLocal,
    KeyNot,
    KeyOr,
    KeyPass,
    KeyRaise,
    KeyReturn,
    KeyTry,
    KeyWith,
    KeyWhile,
    SymbolContinue,
    SymbolLeftBrace,
    SymbolRightBrace,
    SymbolLeftBracket,
    SymbolRightBracket,
    SymbolComma,
    SymbolDot,
    SymbolLeftParen,
    SymbolRightParen,
    SymbolColon,
    SymbolDollar,
    SymbolArrow,
    String,
    AString,
    TString,
    Ident,
    Number,
    HexNumber,
    Op(Operator),
    Comment,
    WS,
    Tab,
    Newline,
    Error,
    Root,
}

/// Vocabulary id of a token.
pub open spec fn token_id(t: Token) -> u32 {
    match t {
        Token::KeyFalse => 100,
        Token::KeyNone => 101,
        Token::KeyTrue => 102,
        Token::KeyAnd => 103,
        Token::KeyAs => 104,
        Token::KeyAssert => 105,
        Token::KeyAsync => 106,
        Token::KeyAwait => 107,
        Token::KeyBreak => 108,
        Token::KeyClass => 109,
        Token::KeyContinue => 110,
        Token::KeyDef => 111,
        Token::KeyFrom => 132,
        Token::KeyDel => 112,
        Token::KeyElif => 113,
        Token::KeyElse => 114,
        Token::KeyExcept => 115,
        Token::KeyFinally => 116,
        Token::KeyFor => 117,
        Token::KeyGlobal => 118,
        Token::KeyIf => 119,
        Token::KeyImport => 120,
        Token::KeyIn => 121,
        Token::KeyIs => 122,
        Token::KeyLambda => 123,
        Token::KeyNonLocal => 124,
        Token::KeyNot => 125,
        Token::KeyOr => 126,
        Token::KeyPass => 127,
        Token::KeyRaise => 128,
        Token::KeyReturn => 129,
        Token::KeyTry => 130,
        Token::KeyWith => 133,
        Token::KeyWhile => 131,
        Token::SymbolContinue => 144,
        Token::SymbolLeftBrace => 134,
        Token::SymbolRightBrace => 135,
        Token::SymbolLeftBracket => 136,
        Token::SymbolRightBracket => 137,
        Token::SymbolComma => 138,
        Token::SymbolDot => 139,
        Token::SymbolLeftParen => 140,
        Token::SymbolRightParen => 141,
        Token::SymbolColon => 142,
        Token::SymbolDollar => 143,
        Token::SymbolArrow => 145,
        Token::String => 146,
        Token::AString => 146,
        Token::TString => 146,
        Token::Ident => 147,
        Token::Number => 148,
        Token::HexNumber => 149,
        Token::Op(x) => (200 + operator_offset(x)) as u32,
        Token::Comment => 90,
        Token::WS => 91,
        Token::Tab => 92,
        Token::Newline => 93,
        Token::Error => 94,
        Token::Root => 95,
    }
}

impl Token {
    /// Vocabulary id of the token: keywords and symbols from 100, operators from 200.
    pub fn get_token_id(&self) -> (r: u32)
        ensures
            r == token_id(*self),
    {
        let start: u32 = 100;
        match self {
            Token::KeyFalse => start + 0,
            Token::KeyNone => start + 1,
            Token::KeyTrue => start + 2,
            Token::KeyAnd => start + 3,
            Token::KeyAs => start + 4,
            Token::KeyAssert => start + 5,
            Token::KeyAsync => start + 6,
            Token::KeyAwait => start + 7,
            Token::KeyBreak => start + 8,
            Token::KeyClass => start + 9,
            Token::KeyContinue => start + 10,
            Token::KeyDef => start + 11,
            Token::KeyFrom => start + 32,
            Token::KeyDel => start + 12,
            Token::KeyElif => start + 13,
            Token::KeyElse => start + 14,
            Token::KeyExcept => start + 15,
            Token::KeyFinally => start + 16,
            Token::KeyFor => start + 17,
            Token::KeyGlobal => start + 18,
            Token::KeyIf => start + 19,
            Token::KeyImport => start + 20,
            Token::KeyIn => start + 21,
            Token::KeyIs => start + 22,
            Token::KeyLambda => start + 23,
            Token::KeyNonLocal => start + 24,
            Token::KeyNot => start + 25,
            Token::KeyOr => start + 26,
            Token::KeyPass => start + 27,
            Token::KeyRaise => start + 28,
            Token::KeyReturn => start + 29,
            Token::KeyTry => start + 30,
            Token::KeyWith => start + 33,
            Token::KeyWhile => start + 31,
            Token::SymbolContinue => start + 44,
            Token::SymbolLeftBrace => start + 34,
            Token::SymbolRightBrace => start + 35,
            Token::SymbolLeftBracket => start + 36,
            Token::SymbolRightBracket => start + 37,
            Token::SymbolComma => start + 38,
            Token::SymbolDot => start + 39,
            Token::SymbolLeftParen => start + 40,
            Token::SymbolRightParen => start + 41,
            Token::SymbolColon => start + 42,
            Token::SymbolDollar => start + 43,
            Token::SymbolArrow => start + 45,
            Token::String => start + 46,
            Token::AString => start + 46,
            Token::TString => start + 46,
            Token::Ident => start + 47,
            Token::Number => start + 48,
            Token::HexNumber => start + 49,
            Token::Op(x) => x.get_id(200),
            Token::Comment => 90,
            Token::WS => 91,
            Token::Tab => 92,
            Token::Newline => 93,
            Token::Error => 94,
            Token::Root => 95,
        }
    }
}

/// The keyword spelled by `t`, if any.
pub open spec fn keyword_of(t: Seq<char>) -> Option<Token> {
    if t == seq!['F', 'a', 'l', 's', 'e'] {
        Some(Token::KeyFalse)
    } else if t == seq!['N', 'o', 'n', 'e'] {
        Some(Token::KeyNone)
    } else if t == seq!['T', 'r', 'u', 'e'] {
        Some(Token::KeyTrue)
    } else if t == seq!['a', 'n', 'd'] {
        Some(Token::KeyAnd)
    } else if t == seq!['a', 's'] {
        Some(Token::KeyAs)
    } else if t == seq!['a', 's', 's', 'e', 'r', 't'] {
        Some(Token::KeyAssert)
    } else if t == seq!['a', 's', 'y', 'n', 'c'] {
        Some(Token::KeyAsync)
    } else if t == seq!['a', 'w', 'a', 'i', 't'] {
        Some(Token::KeyAwait)
    } else if t == seq!['b', 'r', 'e', 'a', 'k'] {
        Some(Token::KeyBreak)
    } else if t == seq!['c', 'l', 'a', 's', 's'] {
        Some(Token::KeyClass)
    } else if t == seq!['c', 'o', 'n', 't', 'i', 'n', 'u', 'e'] {
        Some(Token::KeyContinue)
    } else if t == seq!['d', 'e', 'f'] {
        Some(Token::KeyDef)
    } else if t == seq!['f', 'r', 'o', 'm'] {
        Some(Token::KeyFrom)
    } else if t == seq!['d', 'e', 'l'] {
        Some(Token::KeyDel)
    } else if t == seq!['e', 'l', 'i', 'f'] {
        Some(Token::KeyElif)
    } else if t == seq!['e', 'l', 's', 'e'] {
        Some(Token::KeyElse)
    } else if t == seq!['e', 'x', 'c', 'e', 'p', 't'] {
        Some(Token::KeyExcept)
    } else if t == seq!['f', 'i', 'n', 'a', 'l', 'l', 'y'] {
        Some(Token::KeyFinally)
    } else if t == seq!['f', 'o', 'r'] {
        Some(Token::KeyFor)
    } else if t == seq!['g', 'l', 'o', 'b', 'a', 'l'] {
        Some(Token::KeyGlobal)
    } else if t == seq!['i', 'f'] {
        Some(Token::KeyIf)
    } else if t == seq!['i', 'm', 'p', 'o', 'r', 't'] {
        Some(Token::KeyImport)
    } else if t == seq!['i', 'n'] {
        Some(Token::KeyIn)
    } else if t == seq!['i', 's'] {
        Some(Token::KeyIs)
    } else if t == seq!['l', 'a', 'm', 'b', 'd', 'a'] {
        Some(Token::KeyLambda)
    } else if t == seq!['n', 'o', 'n', 'l', 'o', 'c', 'a', 'l'] {
        Some(Token::KeyNonLocal)
    } else if t == seq!['n', 'o', 't'] {
        Some(Token::KeyNot)
    } else if t == seq!['o', 'r'] {
        Some(Token::KeyOr)
    } else if t == seq!['p', 'a', 's', 's'] {
        Some(Token::KeyPass)
    } else if t == seq!['r', 'a', 'i', 's', 'e'] {
        Some(Token::KeyRaise)
    } else if t == seq!['r', 'e', 't', 'u', 'r', 'n'] {
        Some(Token::KeyReturn)
    } else if t == seq!['t', 'r', 'y'] {
        Some(Token::KeyTry)
    } else if t == seq!['w', 'i', 't', 'h'] {
        Some(Token::KeyWith)
    } else if t == seq!['w', 'h', 'i', 'l', 'e'] {
        Some(Token::KeyWhile)
    } else {
        None
    }
}

/// The operator spelled by `t`; unknown spellings give `Operator::Unknown`.
pub open spec fn operator_of(t: Seq<char>) -> Operator {
    if t == seq!['@'] {
        Operator::At
    } else if t == seq!['!'] {
        Operator::Not
    } else if t == seq!['='] {
        Operator::Assign
    } else if t == seq![':'] {
        Operator::Colon
    } else if t == seq!['+', '='] {
        Operator::PlusEqual
    } else if t == seq!['-', '='] {
        Operator::MinusEqual
    } else if t == seq!['*'] {
        Operator::Mul
    } else if t == seq!['/'] {
        Operator::Div
    } else if t == seq!['%'] {
        Operator::Mod
    } else if t == seq!['+'] {
        Operator::Plus
    } else if t == seq!['-'] {
        Operator::Minus
    } else if t == seq!['<', '<'] {
        Operator::ShiftLeft
    } else if t == seq!['>', '>'] {
        Operator::ShiftRight
    } else if t == seq!['<'] {
        Operator::LessThan
    } else if t == seq!['>'] {
        Operator::GreaterThan
    } else if t == seq!['<', '='] {
        Operator::LessThanOrEqual
    } else if t == seq!['>', '='] {
        Operator::GreaterThanOrEqual
    } else if t == seq!['=', '='] {
        Operator::Equal
    } else if t == seq!['!', '='] {
        Operator::NotEqual
    } else if t == seq!['&'] {
        Operator::BitAnd
    } else if t == seq!['^'] {
        Operator::BitXor
    } else if t == seq!['|'] {
        Operator::BitOr
    } else if t == seq!['~'] {
        Operator::BitNeg
    } else if t == seq!['&', '&'] {
        Operator::And
    } else if t == seq!['|', '|'] {
        Operator::Or
    } else {
        Operator::Unknown
    }
}

/// Whether `s[a..b]` spells exactly the characters of `lit`.
pub fn eq_lit(s: &Vec<char>, a: usize, b: usize, lit: &[char]) -> (r: bool)
    requires
        a <= b <= s.len(),
    ensures
        r == (s@.subrange(a as int, b as int) == lit@),
{
    if b - a != lit.len() {
        return false;
    }
    let mut k: usize = 0;
    while k < lit.len()
        invariant
            k <= lit.len(),
            b - a == lit.len(),
            a <= b <= s.len(),
            forall|m: int| 0 <= m < k ==> s@[a + m] == lit@[m],
        decreases lit.len() - k,
    {
        if s[a + k] != lit[k] {
            assert(s@.subrange(a as int, b as int)[k as int] != lit@[k as int]);
            return false;
        }
        k = k + 1;
    }
    assert(s@.subrange(a as int, b as int) =~= lit@);
    true
}

/// Whether `s[a..b]` is exactly the single character `c`.
pub fn eq_char(s: &Vec<char>, a: usize, b: usize, c: char) -> (r: bool)
    requires
        a <= b <= s.len(),
    ensures
        r == (s@.subrange(a as int, b as int) == seq![c]),
{
    if b - a == 1 && s[a] == c {
        assert(s@.subrange(a as int, b as int) =~= seq![c]);
        true
    } else {
        assert(b - a == 1 ==> s@.subrange(a as int, b as int)[0] != c);
        false
    }
}

impl Operator {
    /// The operator spelled by the characters `s[a..b]`.
    pub fn from_chars(s: &Vec<char>, a: usize, b: usize) -> (r: Operator)
        requires
            a <= b <= s.len(),
        ensures
            r == operator_of(s@.subrange(a as int, b as int)),
    {
        if eq_char(s, a, b, '@') {
            Operator::At
        } else if eq_char(s, a, b, '!') {
            Operator::Not
        } else if eq_char(s, a, b, '=') {
            Operator::Assign
        } else if eq_char(s, a, b, ':') {
            Operator::Colon
        } else if eq_lit(s, a, b, &['+', '=']) {
            Operator::PlusEqual
        } else if eq_lit(s, a, b, &['-', '=']) {
            Operator::MinusEqual
        } else if eq_char(s, a, b, '*') {
            Operator::Mul
        } else if eq_char(s, a, b, '/') {
            Operator::Div
        } else if eq_char(s, a, b, '%') {
            Operator::Mod
        } else if eq_char(s, a, b, '+') {
            Operator::Plus
        } else if eq_char(s, a, b, '-') {
            Operator::Minus
        } else if eq_lit(s, a, b, &['<', '<']) {
            Operator::ShiftLeft
        } else if eq_lit(s, a, b, &['>', '>']) {
            Operator::ShiftRight
        } else if eq_char(s, a, b, '<') {
            Operator::LessThan
        } else if eq_char(s, a, b, '>') {
            Operator::GreaterThan
        } else if eq_lit(s, a, b, &['<', '=']) {
            Operator::LessThanOrEqual
        } else if eq_lit(s, a, b, &['>', '=']) {
            Operator::GreaterThanOrEqual
        } else if eq_lit(s, a, b, &['=', '=']) {
            Operator::Equal
        } else if eq_lit(s, a, b, &['!', '=']) {
            Operator::NotEqual
        } else if eq_char(s, a, b, '&') {
            Operator::BitAnd
        } else if eq_char(s, a, b, '^') {
            Operator::BitXor
        } else if eq_char(s, a, b, '|') {
            Operator::BitOr
        } else if eq_char(s, a, b, '~') {
            Operator::BitNeg
        } else if eq_lit(s, a, b, &['&', '&']) {
            Operator::And
        } else if eq_lit(s, a, b, &['|', '|']) {
            Operator::Or
        } else {
            Operator::Unknown
        }
    }
}

/// The keyword spelled by the characters `s[a..b]`, if any.
pub fn keyword_from_chars(s: &Vec<char>, a: usize, b: usize) -> (r: Option<Token>)
    requires
        a <= b <= s.len(),
    ensures
        r == keyword_of(s@.subrange(a as int, b as int)),
{
    if eq_lit(s, a, b, &['F', 'a', 'l', 's', 'e']) {
        Some(Token::KeyFalse)
    } else if eq_lit(s, a, b, &['N', 'o', 'n', 'e']) {
        Some(Token::KeyNone)
    } else if eq_lit(s, a, b, &['T', 'r', 'u', 'e']) {
        Some(Token::KeyTrue)
    } else if eq_lit(s, a, b, &['a', 'n', 'd']) {
        Some(Token::KeyAnd)
    } else if eq_lit(s, a, b, &['a', 's']) {
        Some(Token::KeyAs)
    } else if eq_lit(s, a, b, &['a', 's', 's', 'e', 'r', 't']) {
        Some(Token::KeyAssert)
    } else if eq_lit(s, a, b, &['a', 's', 'y', 'n', 'c']) {
        Some(Token::KeyAsync)
    } else if eq_lit(s, a, b, &['a', 'w', 'a', 'i', 't']) {
        Some(Token::KeyAwait)
    } else if eq_lit(s, a, b, &['b', 'r', 'e', 'a', 'k']) {
        Some(Token::KeyBreak)
    } else if eq_lit(s, a, b, &['c', 'l', 'a', 's', 's']) {
        Some(Token::KeyClass)
    } else if eq_lit(s, a, b, &['c', 'o', 'n', 't', 'i', 'n', 'u', 'e']) {
        Some(Token::KeyContinue)
    } else if eq_lit(s, a, b, &['d', 'e', 'f']) {
        Some(Token::KeyDef)
    } else if eq_lit(s, a, b, &['f', 'r', 'o', 'm']) {
        Some(Token::KeyFrom)
    } else if eq_lit(s, a, b, &['d', 'e', 'l']) {
        Some(Token::KeyDel)
    } else if eq_lit(s, a, b, &['e', 'l', 'i', 'f']) {
        Some(Token::KeyElif)
    } else if eq_lit(s, a, b, &['e', 'l', 's', 'e']) {
        Some(Token::KeyElse)
    } else if eq_lit(s, a, b, &['e', 'x', 'c', 'e', 'p', 't']) {
        Some(Token::KeyExcept)
    } else if eq_lit(s, a, b, &['f', 'i', 'n', 'a', 'l', 'l', 'y']) {
        Some(Token::KeyFinally)
    } else if eq_lit(s, a, b, &['f', 'o', 'r']) {
        Some(Token::KeyFor)
    } else if eq_lit(s, a, b, &['g', 'l', 'o', 'b', 'a', 'l']) {
        Some(Token::KeyGlobal)
    } else if eq_lit(s, a, b, &['i', 'f']) {
        Some(Token::KeyIf)
    } else if eq_lit(s, a, b, &['i', 'm', 'p', 'o', 'r', 't']) {
        Some(Token::KeyImport)
    } else if eq_lit(s, a, b, &['i', 'n']) {
        Some(Token::KeyIn)
    } else if eq_lit(s, a, b, &['i', 's']) {
        Some(Token::KeyIs)
    } else if eq_lit(s, a, b, &['l', 'a', 'm', 'b', 'd', 'a']) {
        Some(Token::KeyLambda)
    } else if eq_lit(s, a, b, &['n', 'o', 'n', 'l', 'o', 'c', 'a', 'l']) {
        Some(Token::KeyNonLocal)
    } else if eq_lit(s, a, b, &['n', 'o', 't']) {
        Some(Token::KeyNot)
    } else if eq_lit(s, a, b, &['o', 'r']) {
        Some(Token::KeyOr)
    } else if eq_lit(s, a, b, &['p', 'a', 's', 's']) {
        Some(Token::KeyPass)
    } else if eq_lit(s, a, b, &['r', 'a', 'i', 's', 'e']) {
        Some(Token::KeyRaise)
    } else if eq_lit(s, a, b, &['r', 'e', 't', 'u', 'r', 'n']) {
        Some(Token::KeyReturn)
    } else if eq_lit(s, a, b, &['t', 'r', 'y']) {
        Some(Token::KeyTry)
    } else if eq_lit(s, a, b, &['w', 'i', 't', 'h']) {
        Some(Token::KeyWith)
    } else if eq_lit(s, a, b, &['w', 'h', 'i', 'l', 'e']) {
        Some(Token::KeyWhile)
    } else {
        None
    }
}

/// Number of tokens of `ts` for which `p` holds.
pub open spec fn count_tokens(ts: Seq<Lexeme>, p: spec_fn(Token) -> bool) -> nat
    decreases ts.len(),
{
    if ts.len() == 0 {
        0
    } else {
        count_tokens(ts.drop_last(), p) + if p(ts.last().token) {
            1nat
        } else {
            0nat
        }
    }
}

pub proof fn lemma_count_prefix(ts: Seq<Lexeme>, p: spec_fn(Token) -> bool, i: int)
    requires
        0 <= i <= ts.len(),
    ensures
        count_tokens(ts.take(i), p) <= count_tokens(ts, p),
    decreases ts.len() - i,
{
    if i < ts.len() {
        lemma_count_prefix(ts, p, i + 1);
        assert(ts.take(i + 1).drop_last() =~= ts.take(i));
    } else {
        assert(ts.take(i) =~= ts);
    }
}

/// The two keyword sets used to recognise Python text.
#[derive(Clone, Copy, Debug, PartialEq, Eq, Structural)]
pub enum MarkerSet {
    /// `import`, `del`, `def`, `elif`, `except`
    WithImport,
    /// `del`, `def`, `elif`, `except`
    WithoutImport,
}

/// Whether `t` is one of the keywords of `set`.
pub open spec fn is_marker(set: MarkerSet, t: Token) -> bool {
    (set == MarkerSet::WithImport && t == Token::KeyImport) || t == Token::KeyDel || t
        == Token::KeyDef || t == Token::KeyElif || t == Token::KeyExcept
}

fn marker(set: MarkerSet, t: Token) -> (r: bool)
    ensures
        r == is_marker(set, t),
{
    match t {
        Token::KeyImport => set == MarkerSet::WithImport,
        Token::KeyDel | Token::KeyDef | Token::KeyElif | Token::KeyExcept => true,
        _ => false,
    }
}

/// Number of tokens of `ts` that belong to `set`.
pub open spec fn marker_count(ts: Seq<Lexeme>, set: MarkerSet) -> nat {
    count_tokens(ts, |t: Token| is_marker(set, t))
}

/// Whether more than `limit` tokens of `ts` belong to `set`; stops at the first token past the limit.
pub fn count_past(ts: &Vec<Lexeme>, set: MarkerSet, limit: u64) -> (r: bool)
    requires
        limit < u64::MAX,
    ensures
        r == (marker_count(ts@, set) > limit),
{
    let ghost p = |t: Token| is_marker(set, t);
    let mut count: u64 = 0;
    let mut i: usize = 0;
    while i < ts.len()
        invariant
            i <= ts.len(),
            p == (|t: Token| is_marker(set, t)),
            count == count_tokens(ts@.take(i as int), p),
            count <= limit,
            limit < u64::MAX,
        decreases ts.len() - i,
    {
        assert(ts@.take(i + 1).drop_last() =~= ts@.take(i as int));
        if marker(set, ts[i].token) {
            count = count + 1;
        }
        i = i + 1;
        if count > limit {
            proof {
                lemma_count_prefix(ts@, p, i as int);
            }
            return true;
        }
    }
    assert(ts@.take(i as int) =~= ts@);
    false
}

/// Whether the text looks like Python: more than eight `import`, `del`, `def`,
/// `elif` or `except` keywords among its tokens.
pub fn check_python(text: &str) -> (r: bool)
    ensures
        r == (marker_count(lex_spec(text@), MarkerSet::WithImport) > 8),
{
    let chars = chars_of(text);
    let tokens = lex(&chars);
    count_past(&tokens, MarkerSet::WithImport, 8)
}

} // verus!
