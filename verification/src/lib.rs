//! A lexical scanner for a small scripting language.
//!
//! The scanner turns ASCII source text into classified tokens and lexical
//! diagnostics in one left-to-right pass. Its behaviour is fixed by the
//! mathematical description in [`grammar`], and [`laws`] states what follows
//! from it for every source text.

pub mod errors;
pub mod grammar;
pub mod laws;
pub mod rox;
pub mod scanner;
pub mod token;
pub mod token_type;
