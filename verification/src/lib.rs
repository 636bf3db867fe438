//! Verified parsing of JavaScript object literals over a lexed token stream,
//! and the static values that a JavaScript expression can denote.

pub mod syntax_kind;
pub mod events;
pub mod parser;
pub mod static_value;
pub mod syntax;
