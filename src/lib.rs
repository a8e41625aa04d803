//! Front end and tree-walking evaluator of the Hug scripting language.

pub mod ast;
pub mod ident_table;
pub mod lexicon;
pub mod literal;
pub mod pairing;
pub mod parser;
pub mod tokenizer;
pub mod value;
pub mod variables;
pub mod vm;
