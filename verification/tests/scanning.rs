use idiom_core::lexer::Lexer;
use idiom_core::token::{
    DelimitersKind, LexerError, Numeric, NumericBase, NumericKind, TokenType,
};

fn numeric(raw: &str, base: NumericBase, kind: NumericKind) -> TokenType {
    TokenType::Numeric { raw: raw.to_string(), base, kind }
}

fn collapse_expected() -> Numeric {
    Numeric { raw: "<int>".to_string(), base: NumericBase::Any, kind: NumericKind::Any }
}

#[test]
fn scan_whole_decimal() {
    let mut lexer = Lexer::new("634");
    assert_eq!(
        lexer.next_token(),
        Ok(numeric("634", NumericBase::Decimal, NumericKind::Whole))
    );
    assert_eq!(lexer.next_token(), Ok(TokenType::EOF));
}

#[test]
fn scan_explicit_binary() {
    let mut lexer = Lexer::new("2b1011010");
    assert_eq!(
        lexer.next_token(),
        Ok(numeric("1011010", NumericBase::Binary, NumericKind::Whole))
    );
    assert_eq!(lexer.next_token(), Ok(TokenType::EOF));
}

#[test]
fn scan_explicit_hexadecimal() {
    let mut lexer = Lexer::new("16b9F3204AC");
    assert_eq!(
        lexer.next_token(),
        Ok(numeric("9F3204AC", NumericBase::Hexadecimal, NumericKind::Whole))
    );
}

#[test]
fn scan_explicit_base64() {
    let mut lexer = Lexer::new("64b/.^7HU2,");
    assert_eq!(
        lexer.next_token(),
        Ok(numeric("/.^7HU2,", NumericBase::Base64, NumericKind::Whole))
    );
}

#[test]
fn scan_explicit_decimal_base() {
    let mut lexer = Lexer::new("10b634");
    assert_eq!(
        lexer.next_token(),
        Ok(numeric("634", NumericBase::Decimal, NumericKind::Whole))
    );
}

#[test]
fn scan_exponential() {
    let mut lexer = Lexer::new("1e+194");
    assert_eq!(
        lexer.next_token(),
        Ok(numeric("1e+194", NumericBase::Decimal, NumericKind::Exponential))
    );
}

#[test]
fn scan_fractional() {
    let mut lexer = Lexer::new("0.11235");
    assert_eq!(
        lexer.next_token(),
        Ok(numeric("0.11235", NumericBase::Decimal, NumericKind::Fractional))
    );
}

#[test]
fn scan_fractional_then_exponent() {
    let mut lexer = Lexer::new("1.5e3");
    assert_eq!(
        lexer.next_token(),
        Ok(numeric("1.5e3", NumericBase::Decimal, NumericKind::Exponential))
    );
}

#[test]
fn scan_leading_dot_fractional() {
    let mut lexer = Lexer::new(".5");
    assert_eq!(
        lexer.next_token(),
        Ok(numeric(".5", NumericBase::Decimal, NumericKind::Fractional))
    );
}

#[test]
fn scan_second_dot_rejected() {
    let mut lexer = Lexer::new(".2.");
    assert_eq!(
        lexer.next_token(),
        Err(LexerError::InvalidFractionalValue {
            raw: ".2.".to_string(),
            received: ".".to_string()
        })
    );
}

#[test]
fn scan_base_without_valid_digit() {
    let mut lexer = Lexer::new("16bG");
    assert_eq!(
        lexer.next_token(),
        Err(LexerError::NumericLiteralCollapse {
            received: TokenType::Character('G'),
            expected: collapse_expected()
        })
    );
}

#[test]
fn scan_base_at_end_of_input() {
    let mut lexer = Lexer::new("16b");
    assert_eq!(
        lexer.next_token(),
        Err(LexerError::NumericLiteralCollapse {
            received: TokenType::EOF,
            expected: collapse_expected()
        })
    );
}

#[test]
fn scan_unknown_base_selector() {
    let mut lexer = Lexer::new("3b101");
    assert_eq!(
        lexer.next_token(),
        Err(LexerError::InvalidNumericBase { base: "3".to_string() })
    );
}

#[test]
fn scan_invalid_binary_digit() {
    let mut lexer = Lexer::new("2b1012");
    assert_eq!(
        lexer.next_token(),
        Err(LexerError::InvalidBinaryValue { raw: "1012".to_string(), invalid: "2".to_string() })
    );
}

#[test]
fn scan_invalid_octal_digit() {
    let mut lexer = Lexer::new("8b18");
    assert_eq!(
        lexer.next_token(),
        Err(LexerError::InvalidOctalValue { raw: "18".to_string(), invalid: "8".to_string() })
    );
}

#[test]
fn scan_invalid_hexadecimal_digit() {
    let mut lexer = Lexer::new("16bAG");
    assert_eq!(
        lexer.next_token(),
        Err(LexerError::InvalidHexadecimalValue {
            raw: "AG".to_string(),
            invalid: "G".to_string()
        })
    );
}

#[test]
fn scan_invalid_decimal_character() {
    let mut lexer = Lexer::new("634z");
    assert_eq!(
        lexer.next_token(),
        Err(LexerError::InvalidDecimalValue { raw: "634z".to_string(), invalid: "z".to_string() })
    );
}

#[test]
fn scan_string_literal() {
    let mut lexer = Lexer::new("\"hello world\"");
    assert_eq!(
        lexer.next_token(),
        Ok(TokenType::StringLiteral("hello world".to_string()))
    );
    assert_eq!(lexer.next_token(), Ok(TokenType::EOF));
}

#[test]
fn scan_empty_string_literal() {
    let mut lexer = Lexer::new("\"\"");
    assert_eq!(lexer.next_token(), Ok(TokenType::StringLiteral(String::new())));
}

#[test]
fn scan_unterminated_string() {
    let mut lexer = Lexer::new("\"abc");
    assert_eq!(
        lexer.next_token(),
        Err(LexerError::StringLiteralCollapse {
            expected: "\"".to_string(),
            received: TokenType::EOF
        })
    );
}

#[test]
fn scan_unrecognized_token() {
    let mut lexer = Lexer::new("@");
    assert_eq!(lexer.next_token(), Err(LexerError::UnrecognizedToken { symbol: '@' }));
}

#[test]
fn first_open_then_close_each_pair() {
    for (opener, closer) in [(',', '-'), ('|', '~'), ('{', '}'), ('<', '>'), ('[', ']'), (
        '(',
        ')',
    )] {
        let text: String = [opener, closer].iter().collect();
        let mut lexer = Lexer::new(&text);
        assert_eq!(
            lexer.next_token(),
            Ok(TokenType::Delimiters { raw: opener, kind: DelimitersKind::Opening(0) })
        );
        assert_eq!(
            lexer.next_token(),
            Ok(TokenType::Delimiters { raw: closer, kind: DelimitersKind::Closing(0) })
        );
        assert_eq!(lexer.next_token(), Ok(TokenType::EOF));
    }
}

#[test]
fn close_at_depth_zero_is_mismatched() {
    for (closer, opener) in [('-', ','), ('~', '|'), ('}', '{'), ('>', '<'), (']', '['), (
        ')',
        '(',
    )] {
        let text: String = [closer].iter().collect();
        let mut lexer = Lexer::new(&text);
        assert_eq!(
            lexer.next_token(),
            Err(LexerError::MismatchedDelimiter { symbol: closer, required: opener })
        );
    }
}

#[test]
fn nested_depths_count_up_and_down() {
    let mut lexer = Lexer::new("(()");
    assert_eq!(
        lexer.next_token(),
        Ok(TokenType::Delimiters { raw: '(', kind: DelimitersKind::Opening(0) })
    );
    assert_eq!(
        lexer.next_token(),
        Ok(TokenType::Delimiters { raw: '(', kind: DelimitersKind::Opening(1) })
    );
    assert_eq!(
        lexer.next_token(),
        Ok(TokenType::Delimiters { raw: ')', kind: DelimitersKind::Closing(1) })
    );
    assert_eq!(lexer.next_token(), Ok(TokenType::EOF));
}

#[test]
fn families_are_tracked_independently() {
    let mut lexer = Lexer::new("[ { ]");
    assert_eq!(
        lexer.next_token(),
        Ok(TokenType::Delimiters { raw: '[', kind: DelimitersKind::Opening(0) })
    );
    assert_eq!(
        lexer.next_token(),
        Ok(TokenType::Delimiters { raw: '{', kind: DelimitersKind::Opening(0) })
    );
    assert_eq!(
        lexer.next_token(),
        Ok(TokenType::Delimiters { raw: ']', kind: DelimitersKind::Closing(0) })
    );
}

#[test]
fn stream_continues_after_error() {
    let mut lexer = Lexer::new(") 5");
    assert_eq!(
        lexer.next_token(),
        Err(LexerError::MismatchedDelimiter { symbol: ')', required: '(' })
    );
    assert_eq!(
        lexer.next_token(),
        Ok(numeric("5", NumericBase::Decimal, NumericKind::Whole))
    );
}

#[test]
fn unclosed_opener_is_not_rejected_at_end() {
    let mut lexer = Lexer::new("(");
    assert_eq!(
        lexer.next_token(),
        Ok(TokenType::Delimiters { raw: '(', kind: DelimitersKind::Opening(0) })
    );
    assert_eq!(lexer.next_token(), Ok(TokenType::EOF));
}

#[test]
fn positions_follow_consumed_characters() {
    let mut lexer = Lexer::new("\n 5");
    assert_eq!(lexer.cur_line, 1);
    assert_eq!(lexer.cur_col, 1);
    assert_eq!(lexer.codepoint_offset, 0);
    assert_eq!(
        lexer.next_token(),
        Ok(numeric("5", NumericBase::Decimal, NumericKind::Whole))
    );
    assert_eq!(lexer.cur_line, 2);
    assert_eq!(lexer.cur_col, 3);
    assert_eq!(lexer.codepoint_offset, 3);
}

#[test]
fn empty_input_is_end_of_input() {
    let mut lexer = Lexer::new("");
    assert_eq!(lexer.next_token(), Ok(TokenType::EOF));
    assert_eq!(lexer.next_token(), Ok(TokenType::EOF));
}

#[test]
fn round_trip_of_error_free_input() {
    let source = "[ 634 0.5 \"a b\" ]";
    let mut lexer = Lexer::new(source);
    let mut pieces: Vec<String> = Vec::new();
    loop {
        match lexer.next_token() {
            Ok(TokenType::EOF) => break,
            Ok(TokenType::Delimiters { raw, .. }) => pieces.push(raw.to_string()),
            Ok(TokenType::Numeric { raw, .. }) => pieces.push(raw),
            Ok(TokenType::StringLiteral(text)) => pieces.push(format!("\"{}\"", text)),
            other => panic!("unexpected token: {:?}", other),
        }
    }
    let rebuilt = pieces.join(" ");
    assert_eq!(rebuilt, source);
}

#[test]
fn rescanning_yields_identical_tokens() {
    let source = "| 2b101 \"x\" ~ .5e2 @";
    let mut first = Lexer::new(source);
    let mut second = Lexer::new(source);
    for _ in 0..8 {
        assert_eq!(first.next_token(), second.next_token());
    }
}
