//! A front end for the Monkey language: a tokenizer, a Pratt parser and the
//! syntax tree it builds, each with a mathematical model that its contracts
//! are stated over.
//!
//! The executable parts are [`lexer`], [`parser`], [`ast`], [`token`] and
//! [`text`]. What the parser makes of its tokens is defined in [`grammar`].
//! The other modules state and prove what holds of tokenizer, grammar and
//! rendering together:
//!
//! - [`progress`]: parsing only moves forward, and errors are only added;
//! - [`soundness`]: every node agrees with its token, what is missing has
//!   left an error, and where no error was recorded nothing is missing in
//!   the tree;
//! - [`operators`] and [`operator_texts`]: how operators group their
//!   operands, by precedence and from the left;
//! - [`statements`] and [`bindings`]: a text of `let` statements is parsed
//!   into one statement for each, in their order, however it is laid out;
//! - [`relex`] and [`round_trip`]: the literal of a token is read back as
//!   the token, and canonical text is parsed back into a tree of the same
//!   canonical text.

pub mod text;
pub mod token;
pub mod lexer;
pub mod ast;
pub mod grammar;
pub mod parser;
pub mod progress;
pub mod soundness;
pub mod operators;
pub mod operator_texts;
pub mod statements;
pub mod bindings;
pub mod relex;
pub mod round_trip;
