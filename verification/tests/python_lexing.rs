use loader::tasks::python::lexer::lex;
use loader::tasks::python::python_tokenizer::{check_python, Operator, Token};
use loader::tasks::python::python_top;
use loader::text::chars_of;

fn tokens_of(text: &str) -> Vec<Token> {
    let chars = chars_of(text);
    lex(&chars).iter().map(|x| x.token).collect()
}

fn sample(defs: usize) -> String {
    let mut s = String::new();
    for k in 0..defs {
        s.push_str(&format!("def f{}(x):\n    return x + {}\n", k, k));
    }
    s
}

#[test]
fn operator_ids_follow_their_offsets() {
    assert_eq!(Operator::At.get_id(200), 200);
    assert_eq!(Operator::Colon.get_id(200), 203);
    assert_eq!(Operator::Mul.get_id(200), 208);
    assert_eq!(Operator::Unknown.get_id(10), 37);
}

#[test]
fn token_ids_are_the_vocabulary() {
    assert_eq!(Token::KeyDef.get_token_id(), 111);
    assert_eq!(Token::KeyFrom.get_token_id(), 132);
    assert_eq!(Token::Ident.get_token_id(), 147);
    assert_eq!(Token::Newline.get_token_id(), 93);
    assert_eq!(Token::Op(Operator::Plus).get_token_id(), 211);
    assert_eq!(Token::String.get_token_id(), Token::TString.get_token_id());
}

#[test]
fn lexer_splits_a_definition() {
    let t = tokens_of("def f(x):\n\treturn x");
    assert_eq!(
        t,
        vec![
            Token::KeyDef,
            Token::WS,
            Token::Ident,
            Token::SymbolLeftParen,
            Token::Ident,
            Token::SymbolRightParen,
            Token::SymbolColon,
            Token::Newline,
            Token::Tab,
            Token::KeyReturn,
            Token::WS,
            Token::Ident,
        ]
    );
}

#[test]
fn lexer_tokens_cover_the_text() {
    let text = "a = b + 0x1F  # note\n'str' \"q\" 3.5e2";
    let chars = chars_of(text);
    let xs = lex(&chars);
    assert_eq!(xs[0].start, 0);
    for k in 0..xs.len() - 1 {
        assert_eq!(xs[k].end, xs[k + 1].start);
        assert!(xs[k].start < xs[k].end);
    }
    assert_eq!(xs[xs.len() - 1].end, chars.len());
}

#[test]
fn unterminated_string_is_one_error_token_to_the_end() {
    let t = tokens_of("x = 'abc");
    assert_eq!(t[t.len() - 1], Token::Error);
}

#[test]
fn python_is_recognised_past_eight_markers() {
    assert!(!check_python(&sample(8)));
    assert!(check_python(&sample(9)));
    let mut with_imports = sample(6);
    with_imports.push_str("import a\nimport b\nimport c\n");
    assert!(check_python(&with_imports));
    assert!(!python_top::check_python(&with_imports));
    assert!(python_top::check_python(&sample(9)));
}
