pub mod expression_parser;
pub mod natives;
pub mod number;
pub mod objects;
pub mod runtime;
pub mod syntax_tree;
pub mod text;
pub mod tokenizer;
