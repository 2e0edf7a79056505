pub mod alternative;
pub mod choice;
pub mod constant;
pub mod declaration;
pub mod diagnostic;
pub mod document;
pub mod error;
pub mod expression;
pub mod invariance;
pub mod lexer;
pub mod option;
pub mod parser;
pub mod serialization;
pub mod symbol_table;
pub mod text;
pub mod token;
