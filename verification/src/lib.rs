//! KelpyShark front end: lexer, parser and semantic analyzer, with their
//! behaviour stated as Verus contracts.

pub mod text;
pub mod error;
pub mod ast;
pub mod lexer;
pub mod parser;
pub mod semantic;
