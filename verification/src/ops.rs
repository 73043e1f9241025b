pub mod operators;
pub mod parsing;
