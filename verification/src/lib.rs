pub mod batcher;
pub mod tasks;
pub mod text;
pub mod tokenizer;
