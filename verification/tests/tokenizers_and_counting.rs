use loader::tasks::python::context_creator::{collect_ident_words, PythonContextCreator};
use loader::tasks::python::python_parser::PythonParserNew;
use loader::tasks::python::python_runner::PythonTokenizer;
use loader::tasks::python::python_top::PythonContextCreator as TopCreator;
use loader::tokenizer::tokenizer_config::TokenizerTask;
use loader::tokenizer::tokenizer_wrapper::{frame_ids, python_token_id, TokenizerInfo};

#[test]
fn python_special_tokens() {
    assert_eq!(python_token_id("<mask>"), Some(5));
    assert_eq!(python_token_id("[PAD]"), Some(0));
    assert_eq!(python_token_id("[CLS]"), Some(1));
    assert_eq!(python_token_id("</s>"), Some(2));
    assert_eq!(python_token_id("<|endoftext|>"), Some(3));
    assert_eq!(python_token_id("<unk"), Some(4));
    assert_eq!(python_token_id("<unk>"), None);
}

#[test]
fn ids_are_framed_per_model() {
    let info = TokenizerInfo { cls: 101, sep: 102, pad: 0, mask: 103, unk: 100, extra: vec![], eos: 9 };
    assert_eq!(frame_ids(TokenizerTask::Bert, vec![1, 2], &info), vec![101, 1, 2, 102, 102]);
    assert_eq!(frame_ids(TokenizerTask::Roberta, vec![], &info), vec![101, 102, 102]);
    assert_eq!(frame_ids(TokenizerTask::Gpt, vec![1], &info), vec![9, 1, 9]);
    assert_eq!(frame_ids(TokenizerTask::T5, vec![1], &info), vec![9, 1, 9]);
}

#[test]
fn identifier_words_split_at_underscores() {
    let w = collect_ident_words("my_Var_x = other_name2 + é_ab", 2);
    assert_eq!(w, vec!["my", "var", "other", "name2", "ab"]);
    let w3 = collect_ident_words("my_Var_x", 3);
    assert_eq!(w3, vec!["var"]);
}

#[test]
fn creator_counts_words() {
    let mut c = PythonContextCreator::new(2);
    assert!(c.encode("aa_bb = aa + cc_aa".to_string()).is_none());
    assert_eq!(c.count, 1);
    assert!(!c.write_due());
    let top = c.top_entries();
    assert_eq!(top, vec![("aa".to_string(), 3), ("bb".to_string(), 1)]);
    let mut t = TopCreator::new(5);
    assert_eq!(t.encode("abc_de abc".to_string()), vec![0u32; 8]);
    assert_eq!(t.top_entries(), vec![("abc".to_string(), 2)]);
}

#[test]
fn python_tokenizer_info_and_dispatch() {
    let tok = PythonTokenizer::Run(PythonParserNew::new(2));
    let info = tok.get_tokenizer_info();
    assert_eq!(info.mask, 5);
    assert_eq!(info.extra.len(), 100);
    assert_eq!(info.extra[0], 2500);
    assert_eq!(info.extra[99], 2599);
    let mut ctx = PythonTokenizer::Context(PythonContextCreator::new(4));
    assert!(ctx.encode("abc = 1".to_string()).is_none());
}
