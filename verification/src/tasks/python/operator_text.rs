use vstd::prelude::*;

use super::python_tokenizer::{Operator, operator_of};

verus! {

/// The text that spells each operator in Python source; none for an operator that no
/// text spells.
pub open spec fn operator_spelling(op: Operator) -> Option<Seq<char>> {
    match op {
        Operator::At => Some(seq!['@']),
        Operator::Not => Some(seq!['!']),
        Operator::Assign => Some(seq!['=']),
        Operator::Colon => Some(seq![':']),
        Operator::PlusEqual => Some(seq!['+', '=']),
        Operator::MinusEqual => Some(seq!['-', '=']),
        Operator::PlusDoubleColon => None,
        Operator::Mul => Some(seq!['*']),
        Operator::Div => Some(seq!['/']),
        Operator::Mod => Some(seq!['%']),
        Operator::Plus => Some(seq!['+']),
        Operator::Minus => Some(seq!['-']),
        Operator::ShiftLeft => Some(seq!['<', '<']),
        Operator::ShiftRight => Some(seq!['>', '>']),
        Operator::LessThan => Some(seq!['<']),
        Operator::GreaterThan => Some(seq!['>']),
        Operator::LessThanOrEqual => Some(seq!['<', '=']),
        Operator::GreaterThanOrEqual => Some(seq!['>', '=']),
        Operator::Equal => Some(seq!['=', '=']),
        Operator::NotEqual => Some(seq!['!', '=']),
        Operator::BitAnd => Some(seq!['&']),
        Operator::BitXor => Some(seq!['^']),
        Operator::BitOr => Some(seq!['|']),
        Operator::BitNeg => Some(seq!['~']),
        Operator::And => Some(seq!['&', '&']),
        Operator::Or => Some(seq!['|', '|']),
        Operator::Unknown => None,
    }
}

/// The operator of an operator token is the one its text spells: each operator's own text
/// reads as that operator, and a text reads as an operator other than `Unknown` only when
/// it is that operator's text.
pub proof fn law_operator_spelling(op: Operator, t: Seq<char>)
    ensures
        operator_spelling(op) matches Some(s) ==> operator_of(s) == op,
        operator_of(t) != Operator::Unknown ==> operator_spelling(operator_of(t)) == Some(t),
{
    lemma_own_text(op);
}

/// Each operator's own text reads as that operator.
#[verifier::spinoff_prover]
#[verifier::rlimit(100)]
proof fn lemma_own_text(op: Operator)
    ensures
        operator_spelling(op) matches Some(s) ==> operator_of(s) == op,
{
    assert(seq!['@'].len() == 1);
    assert(seq!['!'].len() == 1);
    assert(seq!['='].len() == 1);
    assert(seq![':'].len() == 1);
    assert(seq!['+', '='].len() == 2);
    assert(seq!['-', '='].len() == 2);
    assert(seq!['*'].len() == 1);
    assert(seq!['/'].len() == 1);
    assert(seq!['%'].len() == 1);
    assert(seq!['+'].len() == 1);
    assert(seq!['-'].len() == 1);
    assert(seq!['<', '<'].len() == 2);
    assert(seq!['>', '>'].len() == 2);
    assert(seq!['<'].len() == 1);
    assert(seq!['>'].len() == 1);
    assert(seq!['<', '='].len() == 2);
    assert(seq!['>', '='].len() == 2);
    assert(seq!['=', '='].len() == 2);
    assert(seq!['!', '='].len() == 2);
    assert(seq!['&'].len() == 1);
    assert(seq!['^'].len() == 1);
    assert(seq!['|'].len() == 1);
    assert(seq!['~'].len() == 1);
    assert(seq!['&', '&'].len() == 2);
    assert(seq!['|', '|'].len() == 2);
    match op {
        Operator::At => {
            let s = seq!['@'];
            assert(s.len() == 1 && s[0] == '@');
        },
        Operator::Not => {
            let s = seq!['!'];
            assert(s.len() == 1 && s[0] == '!');
        },
        Operator::Assign => {
            let s = seq!['='];
            assert(s.len() == 1 && s[0] == '=');
        },
        Operator::Colon => {
            let s = seq![':'];
            assert(s.len() == 1 && s[0] == ':');
        },
        Operator::PlusEqual => {
            let s = seq!['+', '='];
            assert(s.len() == 2 && s[0] == '+' && s[1] == '=');
        },
        Operator::MinusEqual => {
            let s = seq!['-', '='];
            assert(s.len() == 2 && s[0] == '-' && s[1] == '=');
        },
        Operator::Mul => {
            let s = seq!['*'];
            assert(s.len() == 1 && s[0] == '*');
        },
        Operator::Div => {
            let s = seq!['/'];
            assert(s.len() == 1 && s[0] == '/');
        },
        Operator::Mod => {
            let s = seq!['%'];
            assert(s.len() == 1 && s[0] == '%');
        },
        Operator::Plus => {
            let s = seq!['+'];
            assert(s.len() == 1 && s[0] == '+');
        },
        Operator::Minus => {
            let s = seq!['-'];
            assert(s.len() == 1 && s[0] == '-');
        },
        Operator::ShiftLeft => {
            let s = seq!['<', '<'];
            assert(s.len() == 2 && s[0] == '<' && s[1] == '<');
        },
        Operator::ShiftRight => {
            let s = seq!['>', '>'];
            assert(s.len() == 2 && s[0] == '>' && s[1] == '>');
        },
        Operator::LessThan => {
            let s = seq!['<'];
            assert(s.len() == 1 && s[0] == '<');
        },
        Operator::GreaterThan => {
            let s = seq!['>'];
            assert(s.len() == 1 && s[0] == '>');
        },
        Operator::LessThanOrEqual => {
            let s = seq!['<', '='];
            assert(s.len() == 2 && s[0] == '<' && s[1] == '=');
        },
        Operator::GreaterThanOrEqual => {
            let s = seq!['>', '='];
            assert(s.len() == 2 && s[0] == '>' && s[1] == '=');
        },
        Operator::Equal => {
            let s = seq!['=', '='];
            assert(s.len() == 2 && s[0] == '=' && s[1] == '=');
        },
        Operator::NotEqual => {
            let s = seq!['!', '='];
            assert(s.len() == 2 && s[0] == '!' && s[1] == '=');
        },
        Operator::BitAnd => {
            let s = seq!['&'];
            assert(s.len() == 1 && s[0] == '&');
        },
        Operator::BitXor => {
            let s = seq!['^'];
            assert(s.len() == 1 && s[0] == '^');
        },
        Operator::BitOr => {
            let s = seq!['|'];
            assert(s.len() == 1 && s[0] == '|');
        },
        Operator::BitNeg => {
            let s = seq!['~'];
            assert(s.len() == 1 && s[0] == '~');
        },
        Operator::And => {
            let s = seq!['&', '&'];
            assert(s.len() == 2 && s[0] == '&' && s[1] == '&');
        },
        Operator::Or => {
            let s = seq!['|', '|'];
            assert(s.len() == 2 && s[0] == '|' && s[1] == '|');
        },
        _ => {},
    }
}

} // verus!
