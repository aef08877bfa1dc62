pub mod assign;
pub mod checker;
pub mod ty;
