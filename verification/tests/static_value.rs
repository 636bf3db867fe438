use biome_rowan::{TextRange, TextSize};
use js_object_parser::static_value::{str_eq, JsSyntaxToken, StaticValue};
use js_object_parser::syntax_kind::SyntaxKind;

fn range(start: u32, end: u32) -> TextRange {
    TextRange::new(TextSize::from(start), TextSize::from(end))
}

fn token(kind: SyntaxKind, text: &str, start: u32) -> JsSyntaxToken {
    let end = start + text.len() as u32;
    JsSyntaxToken::new(kind, text.to_string(), range(start, end)).unwrap()
}

#[test]
fn false_boolean_is_falsy() {
    let value = StaticValue::Boolean(token(SyntaxKind::FALSE_KW, "false", 0));
    assert!(value.is_falsy());
    assert_eq!(value.text(), "false");
}

#[test]
fn true_boolean_is_not_falsy() {
    let value = StaticValue::Boolean(token(SyntaxKind::TRUE_KW, "true", 0));
    assert!(!value.is_falsy());
}

#[test]
fn range_is_the_token_range() {
    let t = token(SyntaxKind::FALSE_KW, "false", 3);
    let value = StaticValue::Boolean(t.clone());
    assert_eq!(value.range(), t.text_trimmed_range());
    assert_eq!(value.range(), range(3, 8));
    let empty = StaticValue::EmptyString(range(4, 6));
    assert_eq!(empty.range(), range(4, 6));
}

#[test]
fn string_literal_text_loses_its_quotes() {
    let value = StaticValue::String(token(SyntaxKind::JS_STRING_LITERAL, "\"foo\"", 1));
    assert_eq!(value.text(), "foo");
    assert!(value.is_not_string_constant("bar"));
    assert!(!value.is_not_string_constant("foo"));
    assert_eq!(value.as_string_constant().unwrap(), "foo");
    assert!(!value.is_falsy());
}

#[test]
fn jsx_string_literal_text_loses_its_quotes() {
    let value = StaticValue::String(token(SyntaxKind::JSX_STRING_LITERAL, "'héllo'", 0));
    assert_eq!(value.text(), "héllo");
}

#[test]
fn template_chunk_text_is_kept() {
    let value = StaticValue::String(token(SyntaxKind::TEMPLATE_CHUNK, "abc", 0));
    assert_eq!(value.text(), "abc");
    assert_eq!(value.as_string_constant(), Some("abc"));
}

#[test]
fn empty_string_literal_is_falsy() {
    let value = StaticValue::String(token(SyntaxKind::JS_STRING_LITERAL, "''", 0));
    assert_eq!(value.text(), "");
    assert!(value.is_falsy());
}

#[test]
fn empty_template_string() {
    let value = StaticValue::EmptyString(range(0, 2));
    assert_eq!(value.text(), "");
    assert!(value.is_falsy());
    assert_eq!(value.as_string_constant(), Some(""));
    assert!(value.is_not_string_constant("x"));
    assert!(!value.is_not_string_constant(""));
    assert_eq!(value.as_ref(), "");
}

#[test]
fn null_is_null_or_undefined() {
    let null = StaticValue::Null(token(SyntaxKind::NULL_KW, "null", 0));
    assert!(null.is_null_or_undefined());
    assert!(null.is_falsy());
    let undefined = StaticValue::Undefined(token(SyntaxKind::IDENT, "undefined", 0));
    assert!(undefined.is_null_or_undefined());
    assert!(undefined.is_falsy());
    let number = StaticValue::Number(token(SyntaxKind::JS_NUMBER_LITERAL, "1", 0));
    assert!(!number.is_null_or_undefined());
}

#[test]
fn zero_numbers_are_falsy() {
    assert!(StaticValue::Number(token(SyntaxKind::JS_NUMBER_LITERAL, "0", 0)).is_falsy());
    assert!(!StaticValue::Number(token(SyntaxKind::JS_NUMBER_LITERAL, "10", 0)).is_falsy());
    assert!(StaticValue::BigInt(token(SyntaxKind::JS_BIGINT_LITERAL, "0n", 0)).is_falsy());
    assert!(!StaticValue::BigInt(token(SyntaxKind::JS_BIGINT_LITERAL, "1n", 0)).is_falsy());
}

#[test]
fn every_spelling_of_zero_is_falsy() {
    for text in ["0", "0.0", "0x0", "0X00", "0o0", "0b0", "0e5", "0.0E-3", ".0", "0.", "0_0", "00"] {
        assert!(StaticValue::Number(token(SyntaxKind::JS_NUMBER_LITERAL, text, 0)).is_falsy(), "{text}");
    }
    for text in ["1", "10", "1e0", "0.5", "0x1", "0b10", "5e-1", "08"] {
        assert!(!StaticValue::Number(token(SyntaxKind::JS_NUMBER_LITERAL, text, 0)).is_falsy(), "{text}");
    }
    for text in ["0n", "0x0n", "0b0n", "0o00n"] {
        assert!(StaticValue::BigInt(token(SyntaxKind::JS_BIGINT_LITERAL, text, 0)).is_falsy(), "{text}");
    }
    for text in ["10n", "0x10n", "1n"] {
        assert!(!StaticValue::BigInt(token(SyntaxKind::JS_BIGINT_LITERAL, text, 0)).is_falsy(), "{text}");
    }
}

#[test]
fn non_string_values_are_not_string_constants() {
    let number = StaticValue::Number(token(SyntaxKind::JS_NUMBER_LITERAL, "5", 0));
    assert_eq!(number.as_string_constant(), None);
    assert!(!number.is_not_string_constant("bar"));
    assert_eq!(number.text(), "5");
    assert_eq!(number.as_ref(), "5");
}

#[test]
fn string_literal_tokens_need_delimiters() {
    assert!(JsSyntaxToken::new(SyntaxKind::JS_STRING_LITERAL, "\"".to_string(), range(0, 1)).is_none());
    assert!(JsSyntaxToken::new(SyntaxKind::JS_STRING_LITERAL, "ab".to_string(), range(0, 2)).is_some());
    assert!(JsSyntaxToken::new(SyntaxKind::JS_STRING_LITERAL, "éa".to_string(), range(0, 3)).is_none());
    assert!(JsSyntaxToken::new(SyntaxKind::IDENT, "é".to_string(), range(0, 2)).is_some());
}

#[test]
fn string_equality() {
    assert!(str_eq("abc", "abc"));
    assert!(!str_eq("abc", "abd"));
    assert!(!str_eq("abc", "ab"));
    assert!(str_eq("", ""));
}
