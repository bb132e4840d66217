use loader::tasks::python::base_parser::{IdentState, State, StateMachine};
use loader::tasks::python::ident_store::{ContextStore, IdentLookup};
use loader::tasks::python::python_top::{lex_simple, PythonParserTop};
use loader::tasks::python::python_tokenizer::Token;

#[test]
fn definition_opens_a_level_and_writes_parameters_locally() {
    let mut global = IdentLookup::new(64);
    let store = ContextStore::new(&mut global);
    let mut sm = StateMachine::new(store);
    let r = sm.put_token(Token::KeyDef, "def", 0).unwrap();
    assert_eq!(r.position, None);
    assert_eq!(sm.state, vec![State::Root, State::DParam]);
    assert_eq!(sm.ident_state, IdentState::Write);
    let r = sm.put_token(Token::Ident, "f", 0).unwrap();
    assert_eq!(r.position, Some((0, 0)));
    assert_eq!(r.text, Some("f".to_string()));
    assert_eq!(sm.state, vec![State::Root, State::DHead]);
    let r = sm.put_token(Token::SymbolLeftParen, "(", 0).unwrap();
    assert_eq!(r.token, Token::SymbolLeftParen);
    assert_eq!(sm.ident_state, IdentState::Local);
    let r = sm.put_token(Token::Ident, "x", 0).unwrap();
    assert_eq!(r.position, Some((0, 0)));
    sm.put_token(Token::SymbolRightParen, ")", 0);
    sm.put_token(Token::SymbolColon, ":", 0);
    assert!(sm.ready_line);
    assert_eq!(sm.ident_state, IdentState::Read);
    assert!(sm.newline(1));
    assert_eq!(sm.state, vec![State::Root, State::Body]);
}

#[test]
fn deeper_line_without_colon_is_refused() {
    let mut global = IdentLookup::new(8);
    let store = ContextStore::new(&mut global);
    let mut sm = StateMachine::new(store);
    sm.put_token(Token::Ident, "x", 0);
    assert!(!sm.newline(2));
    assert!(sm.newline(0));
}

#[test]
fn lex_simple_needs_python() {
    let mut global = IdentLookup::new(8);
    assert!(lex_simple("x = 1", &mut global).is_none());
}

#[test]
fn top_parser_counts_failures() {
    let mut parser = PythonParserTop::new("self\nprint");
    assert_eq!(parser.global_store.get_data("print"), Some(1));
    let ids = parser.encode("x = 1".to_string());
    assert!(ids.is_empty());
    assert_eq!(parser.index, 1);
}

fn defs(n: usize) -> String {
    let mut s = String::new();
    for k in 0..n {
        s.push_str(&format!("def f{}(a, b):\n    c = a + b\n    return c\n", k));
    }
    s
}

#[test]
fn lex_simple_gives_tokens_with_store_positions() {
    let mut global = IdentLookup::new(64);
    let mut text = String::from("x = 1\n");
    text.push_str(&defs(9));
    let tokens = lex_simple(&text, &mut global).unwrap();
    assert!(tokens.len() > 64);
    assert_eq!(tokens[3].token, Token::KeyDef);
    assert_eq!(tokens[4].token, Token::Ident);
    assert_eq!(tokens[4].text, Some("f0".to_string()));
    assert_eq!(tokens[4].position, Some((0, 0)));
    assert_eq!(tokens[6].position, Some((0, 0)));
    assert_eq!(global.get_data("f0"), Some(0));
    assert!(tokens.iter().any(|t| t.token == Token::Newline && t.level == 0));
    let plain_defs = lex_simple(&defs(9), &mut IdentLookup::new(8));
    assert!(plain_defs.is_none());
}

#[test]
fn closing_every_block_stops_the_run() {
    let mut text = String::from("a:\n  b\nc\n");
    text.push_str(&defs(9));
    let mut global = IdentLookup::new(64);
    assert!(lex_simple(&text, &mut global).is_none());
    let mut parser = PythonParserTop::new("self");
    assert!(parser.encode(text).is_empty());
    assert_eq!(parser.index, 1);
}

#[test]
fn top_parser_encodes_identifiers_by_position() {
    let mut parser = PythonParserTop::new("self\nprint");
    let mut text = String::from("x = 1\n");
    text.push_str(&defs(9));
    let ids = parser.encode(text);
    assert_eq!(parser.index, 0);
    // `= 1`, a line end, `def`, then `f0` in the full global table: level 0 plus 10,
    // index 0 plus 200.
    assert_eq!(&ids[0..6], &[202, 148, 93, 111, 10, 200]);
}
