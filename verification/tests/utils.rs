use eldiro::error::{Error, Expected};
use eldiro::utils::{extract_digits, extract_ident, extract_whitespace, extract_whitespace_1, tag};

fn message(e: Error) -> String {
    e.message()
}

#[test]
fn extract_one_digit() {
    assert_eq!(extract_digits("1+2"), Ok(("1", "+2")));
}

#[test]
fn extract_multiple_digits() {
    assert_eq!(extract_digits("10-20"), Ok(("10", "-20")));
}

#[test]
fn do_not_extract_digits_when_input_is_invalid() {
    assert_eq!(
        extract_digits("abcd").map_err(message),
        Err("expected digits".to_string())
    );
    assert_eq!(
        extract_digits("abcd"),
        Err(Error::Malformed(Expected::Digits))
    );
}

#[test]
fn extract_digits_with_no_remainder() {
    assert_eq!(extract_digits("100"), Ok(("100", "")));
}

#[test]
fn extract_spaces() {
    assert_eq!(extract_whitespace("    1"), ("    ", "1"));
}

#[test]
fn do_not_extract_spaces1_when_input_does_not_start_with_them() {
    assert_eq!(
        extract_whitespace_1("blah").map_err(message),
        Err("expected a space".to_string()),
    );
    assert_eq!(
        extract_whitespace_1("blah"),
        Err(Error::Malformed(Expected::Space))
    );
}

#[test]
fn extract_alphabetic_ident() {
    assert_eq!(extract_ident("abcdEFG stop"), Ok(("abcdEFG", " stop")));
}

#[test]
fn extract_alphanumeric_ident() {
    assert_eq!(extract_ident("foobar1()"), Ok(("foobar1", "()")));
}

#[test]
fn cannot_extract_ident_beginning_with_number() {
    assert_eq!(
        extract_ident("123abc").map_err(message),
        Err("expected identifier".to_string()),
    );
    assert_eq!(
        extract_ident("123abc"),
        Err(Error::Malformed(Expected::Identifier))
    );
}

#[test]
fn tag_word() {
    assert_eq!(tag("let", "let a"), Ok(" a"));
}

#[test]
fn extract_digits_from_empty_input_fails() {
    assert_eq!(extract_digits(""), Err(Error::Malformed(Expected::Digits)));
}

#[test]
fn extract_digits_stops_at_first_non_digit() {
    assert_eq!(extract_digits("123abc456"), Ok(("123", "abc456")));
    assert_eq!(extract_digits("7 8"), Ok(("7", " 8")));
}

#[test]
fn extract_digits_takes_ascii_digits_only() {
    // An Arabic-Indic digit is a number to Unicode, but no decimal digit here.
    assert_eq!(extract_digits("1\u{0663}"), Ok(("1", "\u{0663}")));
    assert_eq!(
        extract_digits("\u{0663}1"),
        Err(Error::Malformed(Expected::Digits))
    );
}

#[test]
fn extract_digits_keeps_text_after_wide_characters() {
    assert_eq!(extract_digits("42\u{00e9}\u{1f600}x"), Ok(("42", "\u{00e9}\u{1f600}x")));
}

#[test]
fn extract_ident_short_name() {
    assert_eq!(extract_ident("a1()"), Ok(("a1", "()")));
}

#[test]
fn extract_ident_takes_whole_input() {
    assert_eq!(extract_ident("x"), Ok(("x", "")));
    assert_eq!(extract_ident("Zebra9"), Ok(("Zebra9", "")));
}

#[test]
fn extract_ident_from_empty_input_fails() {
    assert_eq!(extract_ident(""), Err(Error::Malformed(Expected::Identifier)));
}

#[test]
fn extract_ident_rejects_leading_symbol_and_space() {
    assert_eq!(extract_ident("_a"), Err(Error::Malformed(Expected::Identifier)));
    assert_eq!(extract_ident(" a"), Err(Error::Malformed(Expected::Identifier)));
}

#[test]
fn extract_ident_rejects_leading_non_ascii_letter() {
    assert_eq!(
        extract_ident("\u{00e9}a"),
        Err(Error::Malformed(Expected::Identifier))
    );
}

#[test]
fn extract_ident_continues_over_unicode_letters_and_digits() {
    assert_eq!(extract_ident("a\u{00e9}\u{0663}+"), Ok(("a\u{00e9}\u{0663}", "+")));
}

#[test]
fn extract_ident_stops_at_underscore() {
    assert_eq!(extract_ident("a_b"), Ok(("a", "_b")));
}

#[test]
fn extract_whitespace_may_take_nothing() {
    assert_eq!(extract_whitespace("1"), ("", "1"));
    assert_eq!(extract_whitespace(""), ("", ""));
}

#[test]
fn extract_whitespace_takes_spaces_only() {
    assert_eq!(extract_whitespace(" \t x"), (" ", "\t x"));
    assert_eq!(extract_whitespace("\n"), ("", "\n"));
    assert_eq!(extract_whitespace("   "), ("   ", ""));
}

#[test]
fn extract_whitespace_1_takes_all_leading_spaces() {
    assert_eq!(extract_whitespace_1("  a b"), Ok(("  ", "a b")));
    assert_eq!(extract_whitespace_1(" "), Ok((" ", "")));
}

#[test]
fn extract_whitespace_1_from_empty_input_fails() {
    assert_eq!(extract_whitespace_1(""), Err(Error::Malformed(Expected::Space)));
    assert_eq!(
        extract_whitespace_1("\tx"),
        Err(Error::Malformed(Expected::Space))
    );
}

#[test]
fn tag_mismatch_names_the_literal() {
    assert_eq!(
        tag("let", "lex a"),
        Err(Error::Malformed(Expected::Literal("let".to_string())))
    );
    assert_eq!(
        tag("let", "lex a").map_err(message),
        Err("Expected let".to_string())
    );
}

#[test]
fn tag_fails_on_shorter_input() {
    assert_eq!(
        tag("let", "le"),
        Err(Error::Malformed(Expected::Literal("let".to_string())))
    );
    assert_eq!(
        tag("=", ""),
        Err(Error::Malformed(Expected::Literal("=".to_string())))
    );
}

#[test]
fn tag_whole_input() {
    assert_eq!(tag("=", "="), Ok(""));
}

#[test]
fn tag_empty_literal_takes_nothing() {
    assert_eq!(tag("", "abc"), Ok("abc"));
    assert_eq!(tag("", ""), Ok(""));
}

#[test]
fn tag_is_case_sensitive() {
    assert_eq!(
        tag("let", "Let a"),
        Err(Error::Malformed(Expected::Literal("let".to_string())))
    );
}

#[test]
fn tag_with_wide_characters() {
    assert_eq!(tag("\u{00e9}\u{1f600}", "\u{00e9}\u{1f600}rest"), Ok("rest"));
    assert_eq!(
        tag("\u{00e9}", "e\u{0301}"),
        Err(Error::Malformed(Expected::Literal("\u{00e9}".to_string())))
    );
}

#[test]
fn taken_and_rest_make_up_the_input() {
    for input in ["", "1", "12ab", "   x", "ab cd", "a1()", "99"] {
        if let Ok((taken, rest)) = extract_digits(input) {
            assert_eq!(format!("{}{}", taken, rest), input);
        }
        if let Ok((taken, rest)) = extract_ident(input) {
            assert_eq!(format!("{}{}", taken, rest), input);
        }
        let (taken, rest) = extract_whitespace(input);
        assert_eq!(format!("{}{}", taken, rest), input);
    }
}

#[test]
fn error_messages() {
    assert_eq!(Error::Malformed(Expected::Digits).message(), "expected digits");
    assert_eq!(Error::Malformed(Expected::Identifier).message(), "expected identifier");
    assert_eq!(Error::Malformed(Expected::Space).message(), "expected a space");
    assert_eq!(Error::Malformed(Expected::Operator).message(), "expected an operator");
    assert_eq!(
        Error::Malformed(Expected::NumberInRange).message(),
        "expected a number that fits in 32 bits"
    );
    assert_eq!(
        Error::Malformed(Expected::Literal("=".to_string())).message(),
        "Expected ="
    );
    assert_eq!(Error::DivisionByZero.message(), "division by zero");
    assert_eq!(
        Error::UnboundName("b".to_string()).message(),
        "Binding with name 'b' does not exist"
    );
    assert_eq!(Expected::Literal("let".to_string()).message(), "Expected let");
}
