//! A lexical scanner for the Idiom expression language.
//!
//! The scanner turns raw source text into a stream of tokens: numeric
//! literals in five numeral systems (with fractional and exponential
//! forms), string literals, and bracket delimiters whose nesting depth is
//! tracked per family. Malformed input is reported through precise,
//! recoverable errors instead of panics.
//!
//! The crate is organised as follows:
//! - [`token`] holds the token and error vocabulary and its abstract models;
//! - [`chars`] classifies characters (whitespace, digits, delimiters) and
//!   defines the line/column bookkeeping functions;
//! - [`scan`] is the mathematical model of the scanner: pure functions over
//!   `Seq<char>` that say exactly which token each piece of input produces;
//! - [`lexer`] is the executable scanner, proved to follow [`scan`];
//! - [`laws`] states and proves the scanner-wide properties (first
//!   open/close depths, rejection of unmatched closers, round-tripping,
//!   determinism).

pub mod chars;
pub mod laws;
pub mod lexer;
pub mod scan;
pub mod token;
