//! Translator for a small declarative data-analysis language.
//!
//! A source program has four sections (`data`, `input`, `process`,
//! `output`) and is turned, in a single pass, into equivalent source
//! text in one of two target dialects: Prolog-style clauses or
//! Scheme-style `define` forms.  The pipeline is a lexer, a
//! recursive-descent parser and a direct emitter; every stage is
//! specified by spec functions over character and token sequences and
//! verified against them.

pub mod emit;
pub mod lexer;
pub mod parser;
pub mod props;
pub mod token;

pub use token::Mode;
pub use token::Token;
pub use token::TokenKind;
pub use token::TranslateError;
