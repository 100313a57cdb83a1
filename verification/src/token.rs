//! The token and error vocabulary of the scanner.
//!
//! [`TokenType`] is the unit of output: one classified fragment of source
//! text per call to the token stream. [`LexerError`] is the diagnostic
//! vocabulary for malformed input. Both carry owned `String` payloads, so
//! each also has an abstract model ([`TokenModel`], [`ErrorModel`]) over
//! `Seq<char>`; the models are what the scanner's contracts speak of, and
//! `@` maps a concrete value to its model.

use vstd::prelude::*;

verus! {

/// The numeral system a numeric literal is written in.
///
/// `Any` is the wildcard used when an error reports that some digit run was
/// expected without committing to a radix.
#[derive(Debug, Clone, Copy, PartialEq, Eq, Structural)]
pub enum NumericBase {
    Any,
    Binary,
    Octal,
    Decimal,
    Hexadecimal,
    Base64,
}

/// The shape of a numeric literal.
///
/// `Any` is the wildcard counterpart of [`NumericBase::Any`]; `Bool` is
/// reserved vocabulary that no scanning rule currently produces.
#[derive(Debug, Clone, Copy, PartialEq, Eq, Structural)]
pub enum NumericKind {
    Any,
    Whole,
    Fractional,
    Exponential,
    Bool,
}

/// The role a delimiter token plays, with the family's nesting depth:
/// the depth before the opener is applied, or after the closer is.
#[derive(Debug, Clone, Copy, PartialEq, Eq, Structural)]
pub enum DelimitersKind {
    Opening(usize),
    Closing(usize),
    Separator,
}

/// One token of output.
///
/// `Operators` and `Identifiers` are reserved classification slots that no
/// production rule fills yet; `Character` is the single-codepoint
/// escape-hatch token, which errors use to name an unexpected character.
#[derive(Debug, PartialEq)]
pub enum TokenType {
    /// End of the token stream.
    EOF,
    /// A bracket symbol with its role and nesting depth.
    Delimiters { raw: char, kind: DelimitersKind },
    /// Reserved: operators like `*` or `<-`.
    Operators(String),
    /// Reserved: a run of identifier characters.
    Identifiers(String),
    /// A single codepoint.
    Character(char),
    /// A numeric literal: its digits, numeral system, and shape.
    Numeric { raw: String, base: NumericBase, kind: NumericKind },
    /// A quoted run of characters, stored without the quotes.
    StringLiteral(String),
}

/// Alias kept for callers that speak of tokens rather than token types.
pub type Token = TokenType;

/// A numeric literal's fields as a standalone value, used when an error
/// must describe the literal it expected.
#[derive(Debug, PartialEq)]
pub struct Numeric {
    pub raw: String,
    pub base: NumericBase,
    pub kind: NumericKind,
}

/// A delimiter's fields as a standalone value.
#[derive(Debug, PartialEq)]
pub struct Delimiters {
    pub raw: char,
    pub kind: DelimitersKind,
}

/// Everything that can go wrong while scanning one token.
#[derive(Debug, PartialEq)]
pub enum LexerError {
    /// A closer appeared while its family had no open count; `required`
    /// names the opener that would have had to come first.
    MismatchedDelimiter { symbol: char, required: char },
    /// The text before a base marker is not one of the five recognised
    /// base selectors `2`, `8`, `10`, `16`, `64`.
    InvalidNumericBase { base: String },
    /// A second `.` appeared within one numeric literal.
    InvalidFractionalValue { raw: String, received: String },
    /// A character outside the binary alphabet in a binary literal.
    InvalidBinaryValue { raw: String, invalid: String },
    /// A character outside the octal alphabet in an octal literal.
    InvalidOctalValue { raw: String, invalid: String },
    /// A character outside the decimal alphabet in a decimal literal.
    InvalidDecimalValue { raw: String, invalid: String },
    /// A character outside the hexadecimal alphabet in a hexadecimal
    /// literal.
    InvalidHexadecimalValue { raw: String, invalid: String },
    /// A digit run had to be non-empty but none was found: `received` is
    /// the end-of-input marker or the offending character.
    NumericLiteralCollapse { received: TokenType, expected: Numeric },
    /// A string literal reached end-of-input before its closing quote.
    StringLiteralCollapse { expected: String, received: TokenType },
    /// The leading character matches no known production.
    UnrecognizedToken { symbol: char },
}

/// Abstract counterpart of [`DelimitersKind`], with mathematical depths.
pub ghost enum DelimiterKindModel {
    Opening { depth: int },
    Closing { depth: int },
    Separator,
}

/// Abstract counterpart of [`TokenType`]: text payloads as `Seq<char>`.
pub ghost enum TokenModel {
    EOF,
    Delimiter { raw: char, kind: DelimiterKindModel },
    Operator { raw: Seq<char> },
    Identifier { raw: Seq<char> },
    Character { raw: char },
    Numeric { raw: Seq<char>, base: NumericBase, kind: NumericKind },
    StringLiteral { text: Seq<char> },
}

/// Abstract counterpart of [`Numeric`].
pub ghost struct NumericModel {
    pub raw: Seq<char>,
    pub base: NumericBase,
    pub kind: NumericKind,
}

/// Abstract counterpart of [`LexerError`].
pub ghost enum ErrorModel {
    MismatchedDelimiter { symbol: char, required: char },
    InvalidNumericBase { base: Seq<char> },
    InvalidFractionalValue { raw: Seq<char>, received: Seq<char> },
    InvalidBinaryValue { raw: Seq<char>, invalid: Seq<char> },
    InvalidOctalValue { raw: Seq<char>, invalid: Seq<char> },
    InvalidDecimalValue { raw: Seq<char>, invalid: Seq<char> },
    InvalidHexadecimalValue { raw: Seq<char>, invalid: Seq<char> },
    NumericLiteralCollapse { received: TokenModel, expected: NumericModel },
    StringLiteralCollapse { expected: Seq<char>, received: TokenModel },
    UnrecognizedToken { symbol: char },
}

impl View for DelimitersKind {
    type V = DelimiterKindModel;

    open spec fn view(&self) -> DelimiterKindModel {
        match *self {
            DelimitersKind::Opening(d) => DelimiterKindModel::Opening { depth: d as int },
            DelimitersKind::Closing(d) => DelimiterKindModel::Closing { depth: d as int },
            DelimitersKind::Separator => DelimiterKindModel::Separator,
        }
    }
}

impl View for TokenType {
    type V = TokenModel;

    open spec fn view(&self) -> TokenModel {
        match self {
            TokenType::EOF => TokenModel::EOF,
            TokenType::Delimiters { raw, kind } => TokenModel::Delimiter {
                raw: *raw,
                kind: kind@,
            },
            TokenType::Operators(s) => TokenModel::Operator { raw: s@ },
            TokenType::Identifiers(s) => TokenModel::Identifier { raw: s@ },
            TokenType::Character(c) => TokenModel::Character { raw: *c },
            TokenType::Numeric { raw, base, kind } => TokenModel::Numeric {
                raw: raw@,
                base: *base,
                kind: *kind,
            },
            TokenType::StringLiteral(s) => TokenModel::StringLiteral { text: s@ },
        }
    }
}

impl View for Numeric {
    type V = NumericModel;

    open spec fn view(&self) -> NumericModel {
        NumericModel { raw: self.raw@, base: self.base, kind: self.kind }
    }
}

impl View for LexerError {
    type V = ErrorModel;

    open spec fn view(&self) -> ErrorModel {
        match self {
            LexerError::MismatchedDelimiter { symbol, required } => {
                ErrorModel::MismatchedDelimiter { symbol: *symbol, required: *required }
            },
            LexerError::InvalidNumericBase { base } => {
                ErrorModel::InvalidNumericBase { base: base@ }
            },
            LexerError::InvalidFractionalValue { raw, received } => {
                ErrorModel::InvalidFractionalValue { raw: raw@, received: received@ }
            },
            LexerError::InvalidBinaryValue { raw, invalid } => {
                ErrorModel::InvalidBinaryValue { raw: raw@, invalid: invalid@ }
            },
            LexerError::InvalidOctalValue { raw, invalid } => {
                ErrorModel::InvalidOctalValue { raw: raw@, invalid: invalid@ }
            },
            LexerError::InvalidDecimalValue { raw, invalid } => {
                ErrorModel::InvalidDecimalValue { raw: raw@, invalid: invalid@ }
            },
            LexerError::InvalidHexadecimalValue { raw, invalid } => {
                ErrorModel::InvalidHexadecimalValue { raw: raw@, invalid: invalid@ }
            },
            LexerError::NumericLiteralCollapse { received, expected } => {
                ErrorModel::NumericLiteralCollapse { received: received@, expected: expected@ }
            },
            LexerError::StringLiteralCollapse { expected, received } => {
                ErrorModel::StringLiteralCollapse { expected: expected@, received: received@ }
            },
            LexerError::UnrecognizedToken { symbol } => {
                ErrorModel::UnrecognizedToken { symbol: *symbol }
            },
        }
    }
}

} // verus!
