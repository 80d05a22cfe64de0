use rcomp::input::{parse_char_literal, unescape_json_string};

#[test]
fn plain_string_is_unchanged() {
    assert_eq!(unescape_json_string("\"hello\""), Ok("hello".to_string()));
    assert_eq!(unescape_json_string("\"\""), Ok(String::new()));
}

#[test]
fn simple_escapes_are_replaced() {
    assert_eq!(unescape_json_string(r#""a\"b\\c\/d""#), Ok("a\"b\\c/d".to_string()));
    assert_eq!(unescape_json_string(r#""\b\f\n\r\t""#), Ok("\u{8}\u{c}\n\r\t".to_string()));
}

#[test]
fn unicode_escapes_are_decoded() {
    assert_eq!(unescape_json_string(r#""\u0041\u00e9""#), Ok("Aé".to_string()));
    assert_eq!(unescape_json_string(r#""x\u20ACy""#), Ok("x€y".to_string()));
}

#[test]
fn bad_escapes_are_named() {
    assert_eq!(unescape_json_string(r#""\q""#), Err("Invalid escape: \\q".to_string()));
    assert_eq!(unescape_json_string(r#""ab\""#), Err("Incomplete escape".to_string()));
    assert_eq!(unescape_json_string(r#""\u12""#), Err("Incomplete unicode escape".to_string()));
    assert_eq!(unescape_json_string(r#""\u12G4""#), Err("Bad hex in unicode escape: 12G4".to_string()));
    assert_eq!(unescape_json_string(r#""\uD800""#), Err("Invalid unicode escape: D800".to_string()));
}

#[test]
fn char_literals() {
    assert_eq!(parse_char_literal("'a'"), Ok(b'a'));
    assert_eq!(parse_char_literal(r"'\n'"), Ok(10));
    assert_eq!(parse_char_literal(r"'\a'"), Ok(7));
    assert_eq!(parse_char_literal(r"'\''"), Ok(39));
    assert_eq!(parse_char_literal(r"'\x41'"), Ok(0x41));
    assert_eq!(parse_char_literal(r"'\x7'"), Ok(7));
}

#[test]
fn bad_char_literals_are_named() {
    assert_eq!(parse_char_literal("a"), Err("invalid char literal".to_string()));
    assert_eq!(parse_char_literal("''"), Err("invalid char literal format".to_string()));
    assert_eq!(parse_char_literal(r"'\z'"), Err("unknown escape".to_string()));
    assert_eq!(parse_char_literal(r"'\x'"), Err("invalid hex escape".to_string()));
    assert_eq!(parse_char_literal(r"'\x123'"), Err("invalid hex escape".to_string()));
    assert_eq!(parse_char_literal(r"'\xZZ'"), Err("invalid hex digits".to_string()));
    assert_eq!(parse_char_literal("'ab'"), Err("invalid char literal format".to_string()));
}

#[test]
fn signs_are_not_hex_digits() {
    assert_eq!(unescape_json_string(r#""\u+041""#), Err("Bad hex in unicode escape: +041".to_string()));
    assert_eq!(parse_char_literal(r"'\x+1'"), Err("invalid hex digits".to_string()));
}

#[test]
fn one_letter_escape_stands_alone() {
    assert_eq!(parse_char_literal(r"'\nx'"), Err("invalid char literal format".to_string()));
    assert_eq!(parse_char_literal(r"'\\\\'"), Err("invalid char literal format".to_string()));
    assert_eq!(parse_char_literal(r"'\\'"), Ok(b'\\'));
}

#[test]
fn every_one_byte_character_is_its_own_literal() {
    assert_eq!(parse_char_literal("'''"), Ok(b'\''));
    assert_eq!(parse_char_literal("'\\'"), Ok(b'\\'));
    assert_eq!(parse_char_literal("'~'"), Ok(b'~'));
    assert_eq!(parse_char_literal("'é'"), Err("invalid char literal format".to_string()));
    assert_eq!(parse_char_literal("'€'"), Err("invalid char literal format".to_string()));
}

#[test]
fn hex_escape_forms() {
    assert_eq!(parse_char_literal(r"'\xF'"), Ok(15));
    assert_eq!(parse_char_literal(r"'\xg'"), Err("invalid hex digits".to_string()));
    assert_eq!(parse_char_literal(r"'\x1g'"), Err("invalid hex digits".to_string()));
    assert_eq!(parse_char_literal(r"'\xABCD'"), Err("invalid hex escape".to_string()));
}

#[test]
fn unescaping_fails_exactly_on_bad_escapes() {
    assert_eq!(unescape_json_string(r#""a\\b""#), Ok("a\\b".to_string()));
    assert_eq!(unescape_json_string(r#""a\""#), Err("Incomplete escape".to_string()));
    assert_eq!(unescape_json_string(r#""\q""#), Err("Invalid escape: \\q".to_string()));
    assert_eq!(unescape_json_string(r#""\u00""#), Err("Incomplete unicode escape".to_string()));
}
