use loader::tasks::python::context_store::{ContextSet, ContextStore};
use loader::tasks::python::lexer::lex;
use loader::tasks::python::python_line::{create_import_context, parse_u32, Line, Th};
use loader::tasks::python::python_parser::{split_lines, Holder, PythonParserNew, Split};
use loader::tasks::python::python_tokenizer::Token;
use loader::text::chars_of;

fn sample(defs: usize) -> String {
    let mut s = String::from("import os\nfrom sys import path\n");
    for k in 0..defs {
        s.push_str(&format!("def f{}(x):\n    y = x + {}\n    return y\n", k, k));
    }
    s.push_str("class A:\n    def m(self):\n        pass\n");
    s
}

#[test]
fn numbers_parse_as_u32() {
    assert_eq!(parse_u32("42"), Some(42));
    assert_eq!(parse_u32("+7"), Some(7));
    assert_eq!(parse_u32("4294967295"), Some(4294967295));
    assert_eq!(parse_u32("4294967296"), None);
    assert_eq!(parse_u32(""), None);
    assert_eq!(parse_u32("1.5"), None);
}

#[test]
fn line_building_and_validity() {
    let mut line = Line::new(4);
    assert!(!line.valid_line());
    line.push(Token::KeyReturn);
    line.push_string(Token::Ident, "x".to_string());
    line.push_number(Token::Number, "3".to_string());
    line.push_number(Token::Number, "300".to_string());
    assert!(line.valid_line());
    assert_eq!(line.token(), Token::KeyReturn);
    match &line.tokens[2] {
        Th::N(n) => assert_eq!(n.id, 152),
        _ => panic!("number expected"),
    }
    match &line.tokens[3] {
        Th::N(n) => assert_eq!(n.id, 148),
        _ => panic!("number expected"),
    }
    let mut imp = Line::new(0);
    imp.push(Token::KeyImport);
    assert!(!imp.valid_line());
}

#[test]
fn split_lines_keeps_indents() {
    let text = "def f(x):\n    return x\n\n# c\nz = 1";
    let chars = chars_of(text);
    let xs = lex(&chars);
    let lines = split_lines(&chars, &xs);
    assert_eq!(lines.len(), 3);
    assert_eq!(lines[0].indent, 0);
    assert_eq!(lines[1].indent, 4);
    assert_eq!(lines[2].indent, 0);
    assert_eq!(lines[0].token(), Token::KeyDef);
    assert_eq!(lines[1].token(), Token::KeyReturn);
    assert_eq!(lines[0].tokens.len(), 6);
}

#[test]
fn imports_are_collected() {
    let text = "import os\nfrom sys import path\nx = os";
    let chars = chars_of(text);
    let xs = lex(&chars);
    let lines = split_lines(&chars, &xs);
    let set: ContextSet = create_import_context(&lines, 299);
    assert_eq!(set.get_data(&"os".to_string()), Some(299));
    assert_eq!(set.get_data(&"path".to_string()), Some(299));
    assert_eq!(set.get_data(&"x".to_string()), None);
    let _store = ContextStore::new(set, 300, 300);
}

#[test]
fn parser_refuses_text_that_is_not_python() {
    let parser = PythonParserNew::new(4);
    assert_eq!(parser.context_size, 3);
    assert!(parser.encode("x = 1\ny = 2\n".to_string()).is_none());
}

#[test]
fn parser_rows_have_one_entry_per_id() {
    let parser = PythonParserNew::new(4);
    let d = parser.encode(sample(9)).unwrap();
    assert_eq!(d.ids.len(), d.positions.len());
    assert_eq!(d.attention_mask.len(), 4);
    for row in &d.attention_mask {
        assert_eq!(row.len(), d.ids.len());
    }
    let total: usize = d.gaps.iter().sum();
    assert_eq!(total, d.ids.len());
    // 9 functions of 3 lines and a class of 3 lines; the import lines are dropped.
    assert_eq!(d.gaps.len(), 30);
    // First line: def f0 ( x ) : and a line end.
    assert_eq!(d.gaps[0], 7);
    assert_eq!(&d.positions[0..7], &[0, 1, 2, 3, 4, 5, 6]);
    assert_eq!(d.positions[7], 0);
    assert_eq!(d.ids[0], 111);
    assert_eq!(d.ids[2], 140);
    assert_eq!(d.ids[6], 93);
    assert_eq!(&d.attention_mask[0][0..8], &[0, 0, 0, 0, 0, 0, 0, 1]);
}

#[test]
fn split_masks_number_groups_in_order() {
    let mut body = Split::new(Holder::Body, 0);
    let mut a = Split::new(Holder::Def, 0);
    a.ep = 2;
    let mut b = Split::new(Holder::Body, 2);
    b.ep = 3;
    body.ep = 3;
    body.children.push(a);
    body.children.push(b);
    let store = ContextStore::new(ContextSet::new(299), 300, 300);
    let lengths = vec![0usize, 2, 5, 6];
    let (top, next) = body.create_mask(&store, &lengths, 7, 0);
    assert_eq!(top, vec![7, 7, 7, 7, 7, 7]);
    assert_eq!(next, 8);
    let (inner, next) = body.create_mask(&store, &lengths, 0, 1);
    assert_eq!(inner, vec![0, 0, 0, 0, 0, 1]);
    assert_eq!(next, 2);
}
