use vstd::prelude::*;

use super::python_tokenizer::{Token, Operator, keyword_of, operator_of, keyword_from_chars};

verus! {

/// Character classes used by the token patterns.
#[derive(Clone, Copy, Debug, PartialEq, Eq, Structural)]
pub enum CharClass {
    /// `[0-9]`
    Digit,
    /// `[_a-zA-Z]`
    IdentStart,
    /// `[_a-zA-Z0-9.]`
    IdentChar,
    /// `[@!$~+\-&|^=<>*/%]`
    OpChar,
    /// `[ ]`
    Space,
    /// `[\t]`
    Tab,
    /// `[^\r\n]`
    NotLineEnd,
    /// `[^']`
    NotQuote,
}

pub open spec fn is_digit(c: char) -> bool {
    '0' <= c <= '9'
}

pub open spec fn is_ident_start(c: char) -> bool {
    c == '_' || ('a' <= c <= 'z') || ('A' <= c <= 'Z')
}

pub open spec fn is_op_char(c: char) -> bool {
    c == '@' || c == '!' || c == '$' || c == '~' || c == '+' || c == '-' || c == '&' || c == '|'
        || c == '^' || c == '=' || c == '<' || c == '>' || c == '*' || c == '/' || c == '%'
}

pub open spec fn in_class(c: char, k: CharClass) -> bool {
    match k {
        CharClass::Digit => is_digit(c),
        CharClass::IdentStart => is_ident_start(c),
        CharClass::IdentChar => is_ident_start(c) || is_digit(c) || c == '.',
        CharClass::OpChar => is_op_char(c),
        CharClass::Space => c == ' ',
        CharClass::Tab => c == '\t',
        CharClass::NotLineEnd => c != '\r' && c != '\n',
        CharClass::NotQuote => c != '\'',
    }
}

/// `s[i]` exists and is `c`.
pub open spec fn has_char(s: Seq<char>, i: int, c: char) -> bool {
    0 <= i < s.len() && s[i] == c
}

/// `s[i]` exists and lies in class `k`.
pub open spec fn has_class(s: Seq<char>, i: int, k: CharClass) -> bool {
    0 <= i < s.len() && in_class(s[i], k)
}

/// Length of the longest run of characters of class `k` starting at `i`.
pub open spec fn run_len(s: Seq<char>, i: int, k: CharClass) -> nat
    decreases s.len() - i,
{
    if has_class(s, i, k) {
        1 + run_len(s, i + 1, k)
    } else {
        0
    }
}

/// Length of `0|[1-9][0-9]*` at `i` (0 when absent).
pub open spec fn int_part_len(s: Seq<char>, i: int) -> nat {
    if has_char(s, i, '0') {
        1
    } else if has_class(s, i, CharClass::Digit) {
        1 + run_len(s, i + 1, CharClass::Digit)
    } else {
        0
    }
}

/// Length of the optional fraction `\.[0-9]+` at `j` (0 when absent).
pub open spec fn frac_len(s: Seq<char>, j: int) -> nat {
    if has_char(s, j, '.') && has_class(s, j + 1, CharClass::Digit) {
        1 + run_len(s, j + 1, CharClass::Digit)
    } else {
        0
    }
}

/// Length of the optional exponent `[eE][+-]?[0-9]+` at `j` (0 when absent).
pub open spec fn exp_len(s: Seq<char>, j: int) -> nat {
    if has_char(s, j, 'e') || has_char(s, j, 'E') {
        let k = if has_char(s, j + 1, '+') || has_char(s, j + 1, '-') {
            j + 2
        } else {
            j + 1
        };
        if has_class(s, k, CharClass::Digit) {
            ((k - j) + run_len(s, k, CharClass::Digit)) as nat
        } else {
            0
        }
    } else {
        0
    }
}

/// Length of the longest prefix at `i` matching the decimal number pattern (0 when none).
pub open spec fn number_len(s: Seq<char>, i: int) -> nat {
    let a = int_part_len(s, i);
    if a == 0 {
        0
    } else {
        let b = frac_len(s, i + a);
        a + b + exp_len(s, i + a + b)
    }
}

/// Length of the longest prefix at `i` matching `0x(?:0|[1-9][0-9]*)` (0 when none).
pub open spec fn hex_len(s: Seq<char>, i: int) -> nat {
    if has_char(s, i, '0') && has_char(s, i + 1, 'x') {
        let d = int_part_len(s, i + 2);
        if d == 0 {
            0
        } else {
            2 + d
        }
    } else {
        0
    }
}

/// Length of a comment `#[^\r\n]*(\r\n|\n)?` at `i` (0 when `s[i]` is not `#`).
pub open spec fn comment_len(s: Seq<char>, i: int) -> nat {
    if has_char(s, i, '#') {
        let j = i + 1 + run_len(s, i + 1, CharClass::NotLineEnd);
        if has_char(s, j, '\r') && has_char(s, j + 1, '\n') {
            (j + 2 - i) as nat
        } else if has_char(s, j, '\n') {
            (j + 1 - i) as nat
        } else {
            (j - i) as nat
        }
    } else {
        0
    }
}

/// Length of a single quoted string `'[^']*'` at `i` (0 when unterminated or absent).
pub open spec fn single_len(s: Seq<char>, i: int) -> nat {
    if has_char(s, i, '\'') {
        let j = i + 1 + run_len(s, i + 1, CharClass::NotQuote);
        if has_char(s, j, '\'') {
            (j + 1 - i) as nat
        } else {
            0
        }
    } else {
        0
    }
}

/// Index of the quote closing a double quoted string whose body starts at `j`,
/// where a backslash escapes the character after it; -1 when there is none.
pub open spec fn double_close(s: Seq<char>, j: int) -> int
    decreases s.len() - j,
{
    if j < 0 || j >= s.len() {
        -1
    } else if s[j] == '"' {
        j
    } else if s[j] == '\\' {
        if j + 1 < s.len() {
            double_close(s, j + 2)
        } else {
            -1
        }
    } else {
        double_close(s, j + 1)
    }
}

/// Length of a double quoted string `"([^"\\]|\\.)*"` at `i` (0 when unterminated or absent).
pub open spec fn double_len(s: Seq<char>, i: int) -> nat {
    if has_char(s, i, '"') && double_close(s, i + 1) >= 0 {
        (double_close(s, i + 1) + 1 - i) as nat
    } else {
        0
    }
}

/// Whether `""x"""` (two quotes, one non-quote, three quotes) starts at `i`.
pub open spec fn is_triple(s: Seq<char>, i: int) -> bool {
    &&& has_char(s, i, '"')
    &&& has_char(s, i + 1, '"')
    &&& 0 <= i + 2 < s.len()
    &&& s[i + 2] != '"'
    &&& has_char(s, i + 3, '"')
    &&& has_char(s, i + 4, '"')
    &&& has_char(s, i + 5, '"')
}

/// Token for a single character symbol.
pub open spec fn symbol_of(c: char) -> Option<Token> {
    if c == '{' {
        Some(Token::SymbolLeftBrace)
    } else if c == '}' {
        Some(Token::SymbolRightBrace)
    } else if c == '[' {
        Some(Token::SymbolLeftBracket)
    } else if c == ']' {
        Some(Token::SymbolRightBracket)
    } else if c == ',' {
        Some(Token::SymbolComma)
    } else if c == '.' {
        Some(Token::SymbolDot)
    } else if c == '(' {
        Some(Token::SymbolLeftParen)
    } else if c == ')' {
        Some(Token::SymbolRightParen)
    } else if c == ':' {
        Some(Token::SymbolColon)
    } else if c == '\\' {
        Some(Token::SymbolContinue)
    } else {
        None
    }
}

/// The token recognised at position `i` and its length in characters.
///
/// Among all patterns the longest match wins; a literal keyword or symbol
/// wins a tie with a pattern. When nothing matches, an unterminated quote
/// yields an error running to the end of the text, and any other character
/// an error of length one.
pub open spec fn step(s: Seq<char>, i: int) -> (Token, int) {
    let c = s[i];
    if is_ident_start(c) {
        let l = 1 + run_len(s, i + 1, CharClass::IdentChar) as int;
        match keyword_of(s.subrange(i, i + l)) {
            Some(k) => (k, l),
            None => (Token::Ident, l),
        }
    } else if is_digit(c) {
        if hex_len(s, i) > number_len(s, i) {
            (Token::HexNumber, hex_len(s, i) as int)
        } else {
            (Token::Number, number_len(s, i) as int)
        }
    } else if is_op_char(c) {
        let l = run_len(s, i, CharClass::OpChar) as int;
        if c == '$' && l == 1 {
            (Token::SymbolDollar, 1)
        } else if c == '-' && l == 2 && s[i + 1] == '>' {
            (Token::SymbolArrow, 2)
        } else {
            (Token::Op(operator_of(s.subrange(i, i + l))), l)
        }
    } else if c == '\'' {
        if single_len(s, i) > 0 {
            (Token::String, single_len(s, i) as int)
        } else {
            (Token::Error, s.len() - i)
        }
    } else if c == '"' {
        if is_triple(s, i) {
            (Token::TString, 6)
        } else if double_len(s, i) > 0 {
            (Token::AString, double_len(s, i) as int)
        } else {
            (Token::Error, s.len() - i)
        }
    } else if c == '#' {
        (Token::Comment, comment_len(s, i) as int)
    } else if c == ' ' {
        (Token::WS, run_len(s, i, CharClass::Space) as int)
    } else if c == '\t' {
        (Token::Tab, run_len(s, i, CharClass::Tab) as int)
    } else if c == '\n' {
        (Token::Newline, 1)
    } else {
        match symbol_of(c) {
            Some(t) => (t, 1),
            None => (Token::Error, 1),
        }
    }
}

/// A token with the character span `[start, end)` it covers.
#[derive(Clone, Copy, Debug, PartialEq, Eq, Structural)]
pub struct Lexeme {
    pub token: Token,
    pub start: usize,
    pub end: usize,
}

/// The tokens of `s` from position `i` to the end.
pub open spec fn lex_from(s: Seq<char>, i: int) -> Seq<Lexeme>
    decreases s.len() - i,
{
    if i < 0 || i >= s.len() {
        Seq::empty()
    } else {
        let (t, l) = step(s, i);
        if l <= 0 || i + l > s.len() {
            Seq::empty()
        } else {
            seq![Lexeme { token: t, start: i as usize, end: (i + l) as usize }] + lex_from(s, i + l)
        }
    }
}

/// The token sequence of the whole text `s`.
pub open spec fn lex_spec(s: Seq<char>) -> Seq<Lexeme> {
    lex_from(s, 0)
}

pub proof fn lemma_run_len_bound(s: Seq<char>, i: int, k: CharClass)
    requires
        0 <= i,
    ensures
        i + run_len(s, i, k) <= if i <= s.len() { s.len() as int } else { i },
    decreases s.len() - i,
{
    if has_class(s, i, k) {
        lemma_run_len_bound(s, i + 1, k);
    }
}

pub proof fn lemma_double_close_bound(s: Seq<char>, j: int)
    ensures
        double_close(s, j) == -1 || (j <= double_close(s, j) < s.len() && s[double_close(s, j)] == '"'),
    decreases s.len() - j,
{
    if j < 0 || j >= s.len() {
    } else if s[j] == '"' {
    } else if s[j] == '\\' {
        if j + 1 < s.len() {
            lemma_double_close_bound(s, j + 2);
        }
    } else {
        lemma_double_close_bound(s, j + 1);
    }
}

/// Every step consumes at least one character and stays within the text.
pub proof fn lemma_step_bounds(s: Seq<char>, i: int)
    requires
        0 <= i < s.len(),
    ensures
        1 <= step(s, i).1 <= s.len() - i,
{
    lemma_run_len_bound(s, i, CharClass::OpChar);
    lemma_run_len_bound(s, i + 1, CharClass::IdentChar);
    lemma_run_len_bound(s, i, CharClass::Space);
    lemma_run_len_bound(s, i, CharClass::Tab);
    lemma_run_len_bound(s, i + 1, CharClass::NotLineEnd);
    lemma_run_len_bound(s, i + 1, CharClass::NotQuote);
    lemma_run_len_bound(s, i + 1, CharClass::Digit);
    lemma_double_close_bound(s, i + 1);
    let a = int_part_len(s, i);
    lemma_run_len_bound(s, i + a + 1, CharClass::Digit);
    let b = frac_len(s, i + a);
    lemma_run_len_bound(s, i + a + b + 1, CharClass::Digit);
    lemma_run_len_bound(s, i + a + b + 2, CharClass::Digit);
    lemma_run_len_bound(s, i + 3, CharClass::Digit);
}

/// The tokens from position `i` lie side by side and cover the text from `i` to its end.
pub open spec fn tiles_from(s: Seq<char>, i: int, xs: Seq<Lexeme>) -> bool {
    &&& xs.len() <= s.len() - i
    &&& forall|k: int| 0 <= k < xs.len() ==> #[trigger] xs[k].start < xs[k].end <= s.len()
    &&& xs.len() > 0 ==> xs[0].start == i && xs.last().end == s.len()
    &&& forall|k: int| 0 <= k < xs.len() - 1 ==> #[trigger] xs[k].end == xs[k + 1].start
    &&& xs.len() == 0 <==> i == s.len()
}

pub proof fn lemma_lex_from_tiles(s: Seq<char>, i: int)
    requires
        0 <= i <= s.len(),
        s.len() <= usize::MAX,
    ensures
        tiles_from(s, i, lex_from(s, i)),
    decreases s.len() - i,
{
    if i < s.len() {
        lemma_step_bounds(s, i);
        let l = step(s, i).1;
        lemma_lex_from_tiles(s, i + l);
        let rest = lex_from(s, i + l);
        let xs = lex_from(s, i);
        assert(xs.len() == rest.len() + 1);
        assert(xs[0] == Lexeme { token: step(s, i).0, start: i as usize, end: (i + l) as usize });
        assert forall|k: int| 0 <= k < xs.len() - 1 implies #[trigger] xs[k].end == xs[k + 1].start by {
            if k > 0 {
                assert(xs[k] == rest[k - 1]);
                assert(xs[k + 1] == rest[k]);
            }
        }
        assert forall|k: int| 0 <= k < xs.len() implies #[trigger] xs[k].start < xs[k].end <= s.len() by {
            if k > 0 {
                assert(xs[k] == rest[k - 1]);
            }
        }
    }
}

/// The tokens of a text lie side by side, each at least one character long, and together
/// cover the whole text.
pub proof fn lemma_lex_tiles(s: Seq<char>)
    requires
        s.len() <= usize::MAX,
    ensures
        tiles_from(s, 0, lex_spec(s)),
{
    lemma_lex_from_tiles(s, 0);
}

/// Length of the run of class `k` starting at `i`.
pub fn run(s: &Vec<char>, i: usize, k: CharClass) -> (r: usize)
    requires
        i <= s.len(),
    ensures
        r == run_len(s@, i as int, k),
        i + r <= s.len(),
{
    let mut j = i;
    while j < s.len() && char_in_class(s[j], k)
        invariant
            i <= j <= s.len(),
            run_len(s@, i as int, k) == (j - i) + run_len(s@, j as int, k),
        decreases s.len() - j,
    {
        j = j + 1;
    }
    j - i
}

/// Class membership of a character.
pub fn char_in_class(c: char, k: CharClass) -> (r: bool)
    ensures
        r == in_class(c, k),
{
    match k {
        CharClass::Digit => '0' <= c && c <= '9',
        CharClass::IdentStart => c == '_' || ('a' <= c && c <= 'z') || ('A' <= c && c <= 'Z'),
        CharClass::IdentChar => c == '_' || ('a' <= c && c <= 'z') || ('A' <= c && c <= 'Z') || (
        '0' <= c && c <= '9') || c == '.',
        CharClass::OpChar => c == '@' || c == '!' || c == '$' || c == '~' || c == '+' || c == '-'
            || c == '&' || c == '|' || c == '^' || c == '=' || c == '<' || c == '>' || c == '*'
            || c == '/' || c == '%',
        CharClass::Space => c == ' ',
        CharClass::Tab => c == '\t',
        CharClass::NotLineEnd => c != '\r' && c != '\n',
        CharClass::NotQuote => c != '\'',
    }
}

fn at_char(s: &Vec<char>, i: usize, c: char) -> (r: bool)
    ensures
        r == has_char(s@, i as int, c),
{
    i < s.len() && s[i] == c
}

fn at_class(s: &Vec<char>, i: usize, k: CharClass) -> (r: bool)
    ensures
        r == has_class(s@, i as int, k),
{
    i < s.len() && char_in_class(s[i], k)
}

fn int_part(s: &Vec<char>, i: usize) -> (r: usize)
    requires
        i <= s.len(),
    ensures
        r == int_part_len(s@, i as int),
        i + r <= s.len(),
{
    if at_char(s, i, '0') {
        1
    } else if at_class(s, i, CharClass::Digit) {
        1 + run(s, i + 1, CharClass::Digit)
    } else {
        0
    }
}

fn number(s: &Vec<char>, i: usize) -> (r: usize)
    requires
        i <= s.len(),
    ensures
        r == number_len(s@, i as int),
        i + r <= s.len(),
{
    let a = int_part(s, i);
    if a == 0 {
        return 0;
    }
    let j = i + a;
    let b = if at_char(s, j, '.') && at_class(s, j + 1, CharClass::Digit) {
        1 + run(s, j + 1, CharClass::Digit)
    } else {
        0
    };
    let j2 = j + b;
    let c = if at_char(s, j2, 'e') || at_char(s, j2, 'E') {
        let k = if at_char(s, j2 + 1, '+') || at_char(s, j2 + 1, '-') {
            j2 + 2
        } else {
            j2 + 1
        };
        if at_class(s, k, CharClass::Digit) {
            (k - j2) + run(s, k, CharClass::Digit)
        } else {
            0
        }
    } else {
        0
    };
    a + b + c
}

fn hex(s: &Vec<char>, i: usize) -> (r: usize)
    requires
        i <= s.len(),
    ensures
        r == hex_len(s@, i as int),
        i + r <= s.len(),
{
    if at_char(s, i, '0') && at_char(s, i + 1, 'x') {
        let d = int_part(s, i + 2);
        if d == 0 {
            0
        } else {
            2 + d
        }
    } else {
        0
    }
}

fn comment(s: &Vec<char>, i: usize) -> (r: usize)
    requires
        i < s.len(),
        s@[i as int] == '#',
    ensures
        r == comment_len(s@, i as int),
        i + r <= s.len(),
{
    let j = i + 1 + run(s, i + 1, CharClass::NotLineEnd);
    if at_char(s, j, '\r') && at_char(s, j + 1, '\n') {
        j + 2 - i
    } else if at_char(s, j, '\n') {
        j + 1 - i
    } else {
        j - i
    }
}

fn single(s: &Vec<char>, i: usize) -> (r: usize)
    requires
        i < s.len(),
        s@[i as int] == '\'',
    ensures
        r == single_len(s@, i as int),
        i + r <= s.len(),
{
    let j = i + 1 + run(s, i + 1, CharClass::NotQuote);
    if at_char(s, j, '\'') {
        j + 1 - i
    } else {
        0
    }
}

fn double(s: &Vec<char>, i: usize) -> (r: usize)
    requires
        i < s.len(),
        s@[i as int] == '"',
    ensures
        r == double_len(s@, i as int),
        i + r <= s.len(),
{
    let mut j = i + 1;
    while j < s.len() && s[j] != '"'
        invariant
            i < j <= s.len() + 1,
            double_close(s@, (i + 1) as int) == double_close(s@, j as int),
        decreases s.len() + 1 - j,
    {
        if s[j] == '\\' {
            if j + 1 < s.len() {
                j = j + 2;
            } else {
                return 0;
            }
        } else {
            j = j + 1;
        }
    }
    if j < s.len() {
        j + 1 - i
    } else {
        0
    }
}

fn triple(s: &Vec<char>, i: usize) -> (r: bool)
    requires
        i < s.len(),
    ensures
        r == is_triple(s@, i as int),
{
    at_char(s, i, '"') && at_char(s, i + 1, '"') && i + 2 < s.len() && s[i + 2] != '"'
        && at_char(s, i + 3, '"') && at_char(s, i + 4, '"') && at_char(s, i + 5, '"')
}

fn symbol(c: char) -> (r: Option<Token>)
    ensures
        r == symbol_of(c),
{
    if c == '{' {
        Some(Token::SymbolLeftBrace)
    } else if c == '}' {
        Some(Token::SymbolRightBrace)
    } else if c == '[' {
        Some(Token::SymbolLeftBracket)
    } else if c == ']' {
        Some(Token::SymbolRightBracket)
    } else if c == ',' {
        Some(Token::SymbolComma)
    } else if c == '.' {
        Some(Token::SymbolDot)
    } else if c == '(' {
        Some(Token::SymbolLeftParen)
    } else if c == ')' {
        Some(Token::SymbolRightParen)
    } else if c == ':' {
        Some(Token::SymbolColon)
    } else if c == '\\' {
        Some(Token::SymbolContinue)
    } else {
        None
    }
}

/// The token at position `i` of `s` and its length.
pub fn next_token(s: &Vec<char>, i: usize) -> (r: (Token, usize))
    requires
        i < s.len(),
    ensures
        r.0 == step(s@, i as int).0,
        r.1 == step(s@, i as int).1,
        1 <= r.1 <= s.len() - i,
{
    proof {
        lemma_step_bounds(s@, i as int);
    }
    let c = s[i];
    if char_in_class(c, CharClass::IdentStart) {
        let l = 1 + run(s, i + 1, CharClass::IdentChar);
        match keyword_from_chars(s, i, i + l) {
            Some(k) => (k, l),
            None => (Token::Ident, l),
        }
    } else if char_in_class(c, CharClass::Digit) {
        let h = hex(s, i);
        let n = number(s, i);
        if h > n {
            (Token::HexNumber, h)
        } else {
            (Token::Number, n)
        }
    } else if char_in_class(c, CharClass::OpChar) {
        let l = run(s, i, CharClass::OpChar);
        if c == '$' && l == 1 {
            (Token::SymbolDollar, 1)
        } else if c == '-' && l == 2 && s[i + 1] == '>' {
            (Token::SymbolArrow, 2)
        } else {
            (Token::Op(Operator::from_chars(s, i, i + l)), l)
        }
    } else if c == '\'' {
        let l = single(s, i);
        if l > 0 {
            (Token::String, l)
        } else {
            (Token::Error, s.len() - i)
        }
    } else if c == '"' {
        if triple(s, i) {
            (Token::TString, 6)
        } else {
            let l = double(s, i);
            if l > 0 {
                (Token::AString, l)
            } else {
                (Token::Error, s.len() - i)
            }
        }
    } else if c == '#' {
        (Token::Comment, comment(s, i))
    } else if c == ' ' {
        (Token::WS, run(s, i, CharClass::Space))
    } else if c == '\t' {
        (Token::Tab, run(s, i, CharClass::Tab))
    } else if c == '\n' {
        (Token::Newline, 1)
    } else {
        match symbol(c) {
            Some(t) => (t, 1),
            None => (Token::Error, 1),
        }
    }
}

/// Splits the characters of a Python source text into tokens.
pub fn lex(s: &Vec<char>) -> (r: Vec<Lexeme>)
    ensures
        r@ == lex_spec(s@),
{
    let mut out: Vec<Lexeme> = Vec::new();
    let mut i: usize = 0;
    while i < s.len()
        invariant
            i <= s.len(),
            out@ + lex_from(s@, i as int) == lex_spec(s@),
        decreases s.len() - i,
    {
        let (t, l) = next_token(s, i);
        let ghost rest = lex_from(s@, (i + l) as int);
        assert(lex_from(s@, i as int) == seq![Lexeme { token: t, start: i, end: (i + l) as usize }]
            + rest);
        out.push(Lexeme { token: t, start: i, end: i + l });
        assert(out@ + rest =~= (out@.drop_last() + lex_from(s@, i as int)));
        i = i + l;
    }
    assert(lex_from(s@, i as int) == Seq::<Lexeme>::empty());
    assert(out@ + Seq::<Lexeme>::empty() =~= out@);
    out
}

} // verus!
