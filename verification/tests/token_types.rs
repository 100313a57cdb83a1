use idiom_core::token::{DelimitersKind, NumericBase, NumericKind, TokenType};

#[test]
fn type_eof() {
    assert_eq!(TokenType::EOF, TokenType::EOF)
}

#[test]
fn type_delimitters() {
    assert_eq!(
        TokenType::Delimiters { raw: ',', kind: DelimitersKind::Opening(0) },
        TokenType::Delimiters { raw: ',', kind: DelimitersKind::Opening(0) }
    );
    assert_eq!(
        TokenType::Delimiters { raw: '-', kind: DelimitersKind::Closing(0) },
        TokenType::Delimiters { raw: '-', kind: DelimitersKind::Closing(0) }
    );
    assert_eq!(
        TokenType::Delimiters { raw: '|', kind: DelimitersKind::Opening(0) },
        TokenType::Delimiters { raw: '|', kind: DelimitersKind::Opening(0) }
    );
    assert_eq!(
        TokenType::Delimiters { raw: '_', kind: DelimitersKind::Closing(0) },
        TokenType::Delimiters { raw: '_', kind: DelimitersKind::Closing(0) }
    );
}

#[test]
fn type_numerics() {
    assert_eq!(
        TokenType::Numeric {
            raw: "634".to_string(),
            base: NumericBase::Decimal,
            kind: NumericKind::Whole
        },
        TokenType::Numeric {
            raw: "634".to_string(),
            base: NumericBase::Decimal,
            kind: NumericKind::Whole
        }
    );
    assert_eq!(
        TokenType::Numeric {
            raw: "1011010".to_string(),
            base: NumericBase::Binary,
            kind: NumericKind::Whole
        },
        TokenType::Numeric {
            raw: "1011010".to_string(),
            base: NumericBase::Binary,
            kind: NumericKind::Whole
        }
    );
    assert_eq!(
        TokenType::Numeric {
            raw: "9F3204AC".to_string(),
            base: NumericBase::Hexadecimal,
            kind: NumericKind::Whole
        },
        TokenType::Numeric {
            raw: "9F3204AC".to_string(),
            base: NumericBase::Hexadecimal,
            kind: NumericKind::Whole
        }
    );
    assert_eq!(
        TokenType::Numeric {
            raw: "/.^7HU2,".to_string(),
            base: NumericBase::Base64,
            kind: NumericKind::Whole
        },
        TokenType::Numeric {
            raw: "/.^7HU2,".to_string(),
            base: NumericBase::Base64,
            kind: NumericKind::Whole
        }
    );
    assert_eq!(
        TokenType::Numeric {
            raw: "1e+194".to_string(),
            base: NumericBase::Decimal,
            kind: NumericKind::Exponential
        },
        TokenType::Numeric {
            raw: "1e+194".to_string(),
            base: NumericBase::Decimal,
            kind: NumericKind::Exponential
        }
    );
    assert_eq!(
        TokenType::Numeric {
            raw: "0.11235".to_string(),
            base: NumericBase::Decimal,
            kind: NumericKind::Fractional
        },
        TokenType::Numeric {
            raw: "0.11235".to_string(),
            base: NumericBase::Decimal,
            kind: NumericKind::Fractional
        }
    );
    assert_eq!(
        TokenType::Numeric {
            raw: "3.14".to_string(),
            base: NumericBase::Decimal,
            kind: NumericKind::Fractional
        },
        TokenType::Numeric {
            raw: "3.14".to_string(),
            base: NumericBase::Decimal,
            kind: NumericKind::Fractional
        }
    );
    assert_eq!(
        TokenType::Numeric {
            raw: "True".to_string(),
            base: NumericBase::Binary,
            kind: NumericKind::Bool
        },
        TokenType::Numeric {
            raw: "True".to_string(),
            base: NumericBase::Binary,
            kind: NumericKind::Bool
        }
    );
    assert_eq!(
        TokenType::Numeric {
            raw: "0".to_string(),
            base: NumericBase::Binary,
            kind: NumericKind::Bool
        },
        TokenType::Numeric {
            raw: "0".to_string(),
            base: NumericBase::Binary,
            kind: NumericKind::Bool
        }
    );
}

#[test]
fn type_characters() {
    assert_eq!(TokenType::Character('c'), TokenType::Character('c'))
}
