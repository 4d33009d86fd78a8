use horticulteur::{parse_csv, Error};

#[test]
fn bare_quote_in_unquoted_field_is_reported() {
    assert_eq!(
        parse_csv("a\"b"),
        Err(Error::UnexpectedCharacterInNonEscapedField('"'))
    );
}

#[test]
fn bare_quote_in_a_later_field_is_reported() {
    assert_eq!(
        parse_csv("1,2\r\n\"x\",a\"b,3"),
        Err(Error::UnexpectedCharacterInNonEscapedField('"'))
    );
}

#[test]
fn line_feed_without_carriage_return_is_reported() {
    assert_eq!(
        parse_csv("a\nb"),
        Err(Error::UnexpectedCharacterInNonEscapedField('\n'))
    );
}

#[test]
fn tab_in_unquoted_field_is_reported() {
    assert_eq!(
        parse_csv("a\tb"),
        Err(Error::UnexpectedCharacterInNonEscapedField('\t'))
    );
}

#[test]
fn character_beyond_ascii_in_unquoted_field_is_reported() {
    assert_eq!(
        parse_csv("caf\u{e9}"),
        Err(Error::UnexpectedCharacterInNonEscapedField('\u{e9}'))
    );
}

#[test]
fn delete_character_is_no_text_data() {
    assert_eq!(
        parse_csv("a\u{7f}b"),
        Err(Error::UnexpectedCharacterInNonEscapedField('\u{7f}'))
    );
}

#[test]
fn unclosed_quote_is_end_of_input() {
    assert_eq!(parse_csv("\"abc"), Err(Error::UnexpectedEndOfInput));
}

#[test]
fn lone_opening_quote_is_end_of_input() {
    assert_eq!(parse_csv("\""), Err(Error::UnexpectedEndOfInput));
}

#[test]
fn doubled_quote_does_not_close() {
    assert_eq!(parse_csv("\"a\"\""), Err(Error::UnexpectedEndOfInput));
}

#[test]
fn unclosed_quote_in_last_field_is_end_of_input() {
    assert_eq!(
        parse_csv("a,b\r\nc,\"d,e\r\nf"),
        Err(Error::UnexpectedEndOfInput)
    );
}

#[test]
fn carriage_return_without_line_feed_is_reported() {
    assert_eq!(
        parse_csv("a\rb"),
        Err(Error::AteWrongCharacter('\n', 'b'))
    );
}

#[test]
fn two_carriage_returns_are_reported() {
    assert_eq!(
        parse_csv("a\r\r\nb"),
        Err(Error::AteWrongCharacter('\n', '\r'))
    );
}

#[test]
fn carriage_return_at_the_end_is_trimmed_away() {
    assert_eq!(parse_csv("a\r"), Ok(vec![vec!["a".to_string()]]));
}

#[test]
fn text_behind_closing_quote_is_reported() {
    assert_eq!(
        parse_csv("\"a\"b"),
        Err(Error::AteWrongCharacter('\r', 'b'))
    );
}

#[test]
fn space_behind_closing_quote_is_reported() {
    assert_eq!(
        parse_csv("\"a\" ,b"),
        Err(Error::AteWrongCharacter('\r', ' '))
    );
}

#[test]
fn line_feed_behind_closing_quote_is_reported() {
    assert_eq!(
        parse_csv("\"a\"\nb"),
        Err(Error::AteWrongCharacter('\r', '\n'))
    );
}

#[test]
fn first_failure_is_the_one_reported() {
    assert_eq!(
        parse_csv("a\tb\r\n\"unclosed"),
        Err(Error::UnexpectedCharacterInNonEscapedField('\t'))
    );
    assert_eq!(
        parse_csv("\"closed\"\rx\r\na\tb"),
        Err(Error::AteWrongCharacter('\n', 'x'))
    );
}

#[test]
fn character_dropped_inside_quotes_is_no_error() {
    assert_eq!(parse_csv("\"a\tb\""), Ok(vec![vec!["ab".to_string()]]));
    assert_eq!(
        parse_csv("\"caf\u{e9}\",\"\u{7f}\""),
        Ok(vec![vec!["caf".to_string(), "".to_string()]])
    );
}

#[test]
fn no_input_reports_a_character_inside_quotes() {
    let inputs = [
        "\"a\tb\"",
        "\"\u{0}\"",
        "\"\u{1f}\u{7f}\u{80}\u{ffff}\"",
        "\"a\tb",
        "\"a\"\tb",
        "x,\"\u{e9}\"\r\n\"\u{e9}",
    ];
    for input in inputs {
        assert!(!matches!(
            parse_csv(input),
            Err(Error::UnexpectedCharacterInEscapedField(_))
        ));
    }
}
