use horticulteur::{parse_csv, Error};

const WHITE_SPACE: [u32; 25] = [
    0x9, 0xa, 0xb, 0xc, 0xd, 0x20, 0x85, 0xa0, 0x1680, 0x2000, 0x2001, 0x2002, 0x2003, 0x2004,
    0x2005, 0x2006, 0x2007, 0x2008, 0x2009, 0x200a, 0x2028, 0x2029, 0x202f, 0x205f, 0x3000,
];

fn one_field(text: &str) -> Result<Vec<Vec<String>>, Error> {
    Ok(vec![vec![text.to_string()]])
}

#[test]
fn spaces_at_both_ends_are_trimmed() {
    assert_eq!(parse_csv("  a  "), one_field("a"));
    assert_eq!(parse_csv(" a b "), one_field("a b"));
}

#[test]
fn final_line_terminator_is_trimmed() {
    assert_eq!(
        parse_csv("a,b\r\nc,d\r\n"),
        Ok(vec![
            vec!["a".to_string(), "b".to_string()],
            vec!["c".to_string(), "d".to_string()]
        ])
    );
    assert_eq!(parse_csv("a\n"), one_field("a"));
    assert_eq!(parse_csv("\r\na"), one_field("a"));
}

#[test]
fn only_white_space_is_the_empty_input() {
    assert_eq!(parse_csv("   "), one_field(""));
    assert_eq!(parse_csv("\r\n"), one_field(""));
    assert_eq!(parse_csv(" \t\r\n \u{3000}"), one_field(""));
}

#[test]
fn every_white_space_character_is_trimmed_at_the_start() {
    for code in WHITE_SPACE {
        let c = char::from_u32(code).unwrap();
        assert_eq!(parse_csv(&format!("{}a", c)), one_field("a"), "{:#x}", code);
    }
}

#[test]
fn every_white_space_character_is_trimmed_at_the_end() {
    for code in WHITE_SPACE {
        let c = char::from_u32(code).unwrap();
        assert_eq!(parse_csv(&format!("a{}", c)), one_field("a"), "{:#x}", code);
    }
}

#[test]
fn runs_of_white_space_are_trimmed_whole() {
    let run: String = WHITE_SPACE
        .iter()
        .map(|code| char::from_u32(*code).unwrap())
        .collect();
    assert_eq!(parse_csv(&format!("{}a,b{}", run, run)).unwrap(), vec![vec!["a", "b"]]);
}

#[test]
fn nothing_else_is_trimmed() {
    let white: Vec<char> = WHITE_SPACE
        .iter()
        .map(|code| char::from_u32(*code).unwrap())
        .collect();
    for c in (0u32..=0x10ffff).filter_map(char::from_u32) {
        if white.contains(&c) || ('!'..='~').contains(&c) {
            continue;
        }
        assert_eq!(
            parse_csv(&format!("{}a", c)),
            Err(Error::UnexpectedCharacterInNonEscapedField(c)),
            "{:?} at the start",
            c
        );
        assert_eq!(
            parse_csv(&format!("a{}", c)),
            Err(Error::UnexpectedCharacterInNonEscapedField(c)),
            "{:?} at the end",
            c
        );
    }
}

#[test]
fn white_space_inside_is_kept() {
    assert_eq!(
        parse_csv("a , b"),
        Ok(vec![vec!["a ".to_string(), " b".to_string()]])
    );
    assert_eq!(parse_csv("\" a \""), one_field(" a "));
}

#[test]
fn white_space_inside_that_is_no_text_data_is_reported() {
    assert_eq!(
        parse_csv("a\u{a0}b"),
        Err(Error::UnexpectedCharacterInNonEscapedField('\u{a0}'))
    );
}

#[test]
fn trimming_uncovers_an_unclosed_quote() {
    assert_eq!(parse_csv("\"a \r\n"), Err(Error::UnexpectedEndOfInput));
}
