pub mod lexing;
pub mod scanner;
pub mod token;
