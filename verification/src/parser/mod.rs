pub mod ast;
pub mod copy;
pub mod grammar;
pub mod parser;
