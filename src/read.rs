pub mod read;
pub mod text;
pub mod tokenizer;
pub mod parser;
