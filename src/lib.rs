pub mod laws;
pub mod lexer;
pub mod parser;
pub mod source;
pub mod text;
pub mod token;
pub mod tokenizer;
