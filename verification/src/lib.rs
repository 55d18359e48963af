//! A small C compiler (tokenizer, parser and x86-64 code generator) with verified contracts.
pub mod utils;
pub mod typecell;
pub mod token;
pub mod assembly;
pub mod tokenizer;
pub mod node;
pub mod initializer;
pub mod parser;
pub mod grammar;
pub mod generator;
pub mod compiler;
