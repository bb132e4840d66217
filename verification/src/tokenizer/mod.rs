pub mod tokenizer_data;
pub mod encoding;
pub mod tokenizer_config;
pub mod tokenizer_wrapper;
