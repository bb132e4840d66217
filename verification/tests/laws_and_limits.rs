use loader::tasks::python::base_parser::StateMachine;
use loader::tasks::python::context_creator::PythonContextCreator;
use loader::tasks::python::context_map::{ContextLookup, ContextStore as MapStore};
use loader::tasks::python::context_store::{ContextSet, ContextStore, IDENT_ID};
use loader::tasks::python::ident_store::{ContextStore as IdentStore, IdentLookup};
use loader::tasks::python::lexer::lex;
use loader::tasks::python::python_line::{create_import_context, Line, Th, Ts};
use loader::tasks::python::python_parser::PythonParserNew;
use loader::tasks::python::python_top::PythonContextCreator as TopCreator;
use loader::tasks::python::python_tokenizer::Token;
use loader::text::chars_of;
use loader::tokenizer::tokenizer_config::TokenizerTask;
use loader::tokenizer::tokenizer_wrapper::{special_tokens, tokenizer_info};

#[test]
fn triple_quoted_token_is_two_quotes_a_character_and_three_quotes() {
    let chars = chars_of("\"\"x\"\"\" y");
    let xs = lex(&chars);
    assert_eq!(xs[0].token, Token::TString);
    assert_eq!(xs[0].start, 0);
    assert_eq!(xs[0].end, 6);
    let chars = chars_of("\"\"\"x\"\"\"\"");
    let xs = lex(&chars);
    assert_eq!(xs[0].token, Token::AString);
    assert_eq!(xs[0].end, 2);
}

#[test]
fn special_tokens_per_task() {
    assert_eq!(special_tokens(TokenizerTask::Bert), vec!["[CLS]", "[SEP]", "[PAD]", "[MASK]"]);
    assert_eq!(special_tokens(TokenizerTask::Roberta), vec!["[CLS]", "[SEP]", "[PAD]", "[MASK]"]);
    assert_eq!(special_tokens(TokenizerTask::Gpt), vec!["<|endoftext|>"]);
    let t5 = special_tokens(TokenizerTask::T5);
    assert_eq!(t5.len(), 103);
    assert_eq!(t5[0], "<extra_id_0>");
    assert_eq!(t5[7], "<extra_id_7>");
    assert_eq!(t5[42], "<extra_id_42>");
    assert_eq!(t5[99], "<extra_id_99>");
    assert_eq!(t5[100], "<pad>");
    assert_eq!(t5[101], "</s>");
    assert_eq!(t5[102], "<unk>");
}

#[test]
fn tokenizer_info_takes_the_ids_in_order() {
    let info = tokenizer_info(TokenizerTask::Bert, vec![Some(101), Some(102), Some(0), Some(103)]).unwrap();
    assert_eq!((info.cls, info.sep, info.pad, info.mask, info.unk, info.eos), (101, 102, 0, 103, 0, 0));
    assert!(info.extra.is_empty());
    let info = tokenizer_info(TokenizerTask::Gpt, vec![Some(50256)]).unwrap();
    assert_eq!((info.cls, info.sep, info.pad, info.mask, info.unk, info.eos), (0, 0, 0, 0, 0, 50256));
    let mut ids: Vec<Option<u32>> = (0..100).map(|x| Some(32099 - x)).collect();
    ids.push(Some(0));
    ids.push(Some(1));
    ids.push(Some(2));
    let info = tokenizer_info(TokenizerTask::T5, ids).unwrap();
    assert_eq!(info.extra.len(), 100);
    assert_eq!(info.extra[0], 32099);
    assert_eq!(info.extra[99], 32000);
    assert_eq!((info.pad, info.eos, info.unk), (0, 1, 2));
}

#[test]
fn tokenizer_info_needs_every_id() {
    assert!(tokenizer_info(TokenizerTask::Bert, vec![Some(101), None, Some(0), Some(103)]).is_none());
    assert!(tokenizer_info(TokenizerTask::Bert, vec![Some(101), Some(102)]).is_none());
    assert!(tokenizer_info(TokenizerTask::Gpt, vec![]).is_none());
}

#[test]
fn creators_tell_when_a_source_can_be_counted() {
    let c = PythonContextCreator::new(4);
    assert!(c.can_count("abc = 1"));
    let t = TopCreator::new(4);
    assert!(t.can_count("abc = 1"));
}

#[test]
fn asking_twice_gives_the_same_answer() {
    let mut global = ContextLookup::from_text("print");
    let mut local = ContextLookup::new(8);
    let mut store = MapStore::new(&mut global, &mut local);
    let first = store.get_or_put_local("v");
    assert_eq!(store.get_or_put_local("v"), first);
    store.push_context();
    let first = store.get_or_put_local("w");
    assert_eq!(first, (2, 0));
    assert_eq!(store.get_or_put_local("w"), first);
}

#[test]
fn a_scope_leaves_the_store_as_it_was() {
    let mut global = ContextLookup::from_text("print");
    let mut local = ContextLookup::new(8);
    let mut store = MapStore::new(&mut global, &mut local);
    assert_eq!(store.get_or_put_local("v"), (1, 0));
    assert_eq!(store.len(), 2);
    store.push_context();
    assert_eq!(store.len(), 3);
    store.put_local("a");
    store.get_or_put_local("b");
    store.pop_context();
    assert_eq!(store.len(), 2);
    store.pop_context();
    assert_eq!(store.len(), 2);
    assert_eq!(store.get_or_global("a"), (1, 1));
    assert_eq!(store.get_or_put_local("v"), (1, 0));
}

#[test]
fn context_store_scope_keeps_outer_levels() {
    let mut store = ContextStore::new(ContextSet::new(299), 300, 300);
    assert_eq!(store.get_or_put_local("a", 0), 300);
    assert_eq!(store.len(), 3);
    store.push_context();
    assert_eq!(store.len(), 4);
    assert_eq!(store.put_local("b", 0), 600);
    store.pop_context();
    assert_eq!(store.len(), 3);
    assert_eq!(store.read_only("b"), IDENT_ID);
    assert_eq!(store.read_only("a"), 300);
    assert_eq!(store.get_or_put_local("c", 0), 301);
}

#[test]
fn deeper_line_needs_a_colon_last() {
    let mut global = IdentLookup::new(8);
    let store = IdentStore::new(&mut global);
    let mut sm = StateMachine::new(store);
    assert!(!sm.newline(1));
    assert!(sm.newline(0));
    sm.put_token(Token::KeyIf, "if", 0);
    sm.put_token(Token::Ident, "x", 0);
    sm.put_token(Token::SymbolColon, ":", 0);
    assert!(sm.newline(0));
    assert!(sm.newline(4));
    sm.put_token(Token::Ident, "y", 4);
    assert!(sm.newline(4));
    assert!(!sm.newline(8));
    assert!(!sm.newline(8));
    assert!(sm.newline(0));
}

#[test]
fn import_context_reads_only_dropped_lines() {
    let mut valid = Line::new(0);
    valid.push(Token::KeyReturn);
    valid.tokens.push(Th::I(Ts { t: Token::Ident, d: None, id: 0 }));
    let mut imp = Line::new(0);
    imp.push(Token::KeyImport);
    imp.push_string(Token::Ident, "os".to_string());
    let set = create_import_context(&vec![valid, imp], 299);
    assert_eq!(set.get_data(&"os".to_string()), Some(299));
    assert_eq!(set.get_data(&"".to_string()), None);
}

#[test]
fn long_shallow_source_is_encoded() {
    let mut s = String::from("import os\n");
    for k in 0..3000 {
        s.push_str(&format!("x{} = os.path({})\n", k, k));
    }
    for k in 0..9 {
        s.push_str(&format!("def g{}(a):\n    if a:\n        return a\n    return 0\n", k));
    }
    let parser = PythonParserNew::new(3);
    let d = parser.encode(s).unwrap();
    assert_eq!(d.gaps.len(), 3036);
    assert_eq!(d.attention_mask.len(), 3);
    for row in &d.attention_mask {
        assert_eq!(row.len(), d.ids.len());
    }
}

#[test]
fn equal_counts_come_in_increasing_order() {
    let mut c = PythonContextCreator::new(1);
    assert!(c.encode("zz = yy".to_string()).is_none());
    assert_eq!(c.top_entries(), vec![("yy".to_string(), 1)]);
    let mut t = TopCreator::new(2);
    t.encode("zzz = yyy + xxx".to_string());
    assert_eq!(t.top_entries(), vec![("xxx".to_string(), 1), ("yyy".to_string(), 1)]);
}

#[test]
fn deep_nesting_and_wide_indents_are_encoded() {
    let mut s = String::from("import os\n");
    for k in 0..40 {
        s.push_str(&" ".repeat(4 * k));
        s.push_str(&format!("def f{}(a):\n", k));
    }
    s.push_str(&" ".repeat(160));
    s.push_str("return os\n");
    s.push_str(&" ".repeat(20000));
    s.push_str("x = 1\n");
    let parser = PythonParserNew::new(4);
    let d = parser.encode(s).unwrap();
    assert_eq!(d.gaps.len(), 42);
    assert_eq!(d.attention_mask.len(), 4);
    for row in &d.attention_mask {
        assert_eq!(row.len(), d.ids.len());
    }
}

#[test]
fn a_fresh_level_numbers_from_zero() {
    let mut global = ContextLookup::from_text("print");
    let mut local = ContextLookup::new(8);
    let mut store = MapStore::new(&mut global, &mut local);
    store.push_context();
    let n = store.len();
    store.push_context();
    assert_eq!(store.put_local("t"), (n as u32, 0));
}
