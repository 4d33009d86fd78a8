use horticulteur::{parse_csv, CSVRecord};

#[test]
fn parse_empty() {
    assert_eq!(parse_csv("").unwrap(), vec![vec!["".into()] as CSVRecord]);
}

#[test]
fn parse_single_field_non_escaped() {
    assert_eq!(
        parse_csv("value").unwrap(),
        vec![vec!["value".into()] as CSVRecord]
    );
}

#[test]
fn parse_multiple_fields_non_escaped() {
    assert_eq!(
        parse_csv("a,b,c").unwrap(),
        vec![vec!["a".into(), "b".into(), "c".into()] as CSVRecord]
    );
}

#[test]
fn parse_multiple_fields_escaped() {
    assert_eq!(
        parse_csv("\"a\"\"\",\"\"\"b\"\"\",\"c  \r\ndef\"").unwrap(),
        vec![vec!["a\"".into(), "\"b\"".into(), "c  \r\ndef".into()] as CSVRecord]
    );
}

#[test]
fn parse_multiple_records() {
    assert_eq!(
        parse_csv("5,10,15\r\n20,25,30").unwrap(),
        vec![
            vec!["5".into(), "10".into(), "15".into()] as CSVRecord,
            vec!["20".into(), "25".into(), "30".into()] as CSVRecord
        ]
    );
}

#[test]
fn parse_multiple_records_non_escaped() {
    assert_eq!(
        parse_csv("\"5\",10,15\r\n20,\"25\"\"baguette\"\" \r \"\"\n \r\n\",30").unwrap(),
        vec![
            vec!["5".into(), "10".into(), "15".into()] as CSVRecord,
            vec![
                "20".into(),
                "25\"baguette\" \r \"\n \r\n".into(),
                "30".into()
            ] as CSVRecord
        ]
    );
}
