pub mod python_tokenizer;
pub mod operator_text;
pub mod lexer;
pub mod key_table;
pub mod ident_store;
pub mod context_map;
pub mod context_store;
pub mod python_line;
pub mod python_parser;
pub mod base_parser;
pub mod python_top;
pub mod context_creator;
pub mod config;
pub mod data;
pub mod python_data;
pub mod python_cases;
pub mod python_runner;
