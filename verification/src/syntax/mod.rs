//! Parse rules over a [`crate::parser::JsParser`].

pub mod balanced;
pub mod metavariable;
pub mod typescript;
pub mod function;
pub mod expr;
pub mod object;
