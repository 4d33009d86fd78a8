use horticulteur::{parse_csv, CSV};

fn quoted(field: &str) -> String {
    format!("\"{}\"", field.replace('"', "\"\""))
}

fn is_textdata(c: char) -> bool {
    (' '..='~').contains(&c) && c != '"' && c != ','
}

fn written(table: &[Vec<String>], quote: impl Fn(&str) -> bool) -> String {
    table
        .iter()
        .map(|record| {
            record
                .iter()
                .map(|field| if quote(field) { quoted(field) } else { field.clone() })
                .collect::<Vec<String>>()
                .join(",")
        })
        .collect::<Vec<String>>()
        .join("\r\n")
}

fn tables() -> Vec<CSV> {
    let rows = |rows: &[&[&str]]| -> CSV {
        rows.iter()
            .map(|row| row.iter().map(|field| field.to_string()).collect())
            .collect()
    };
    vec![
        rows(&[&[""]]),
        rows(&[&["value"]]),
        rows(&[&["a", "b", "c"]]),
        rows(&[&["a\"", "\"b\"", "c  \r\ndef"]]),
        rows(&[&["5", "10", "15"], &["20", "25", "30"]]),
        rows(&[&["\"", "\"\"", "\"\"\""], &[",", "\r", "\n", "\r\n"]]),
        rows(&[&[" lead", "trail "], &[""], &["", ""], &[" "]]),
        rows(&[&["x"], &[""]]),
        rows(&[&[""], &["x"]]),
        rows(&[&["a,b\r\nc", "\"quoted\", she said"], &["~!#$%&'()*+-./:;<=>?@[\\]^_`{|}"]]),
    ]
}

#[test]
fn quoted_writing_is_read_back() {
    for table in tables() {
        let text = written(&table, |_| true);
        assert_eq!(parse_csv(&text), Ok(table), "{:?}", text);
    }
}

#[test]
fn writing_with_quotes_where_needed_is_read_back() {
    for table in tables() {
        let text = written(&table, |field| !field.chars().all(is_textdata));
        if text.trim() != text {
            continue;
        }
        assert_eq!(parse_csv(&text), Ok(table), "{:?}", text);
    }
}

#[test]
fn writing_with_quotes_at_the_ends_is_read_back() {
    for table in tables() {
        let first = table[0][0].clone();
        let last = table.last().unwrap().last().unwrap().clone();
        let text = written(&table, |field| {
            field == first || field == last || !field.chars().all(is_textdata)
        });
        assert_eq!(parse_csv(&text), Ok(table), "{:?}", text);
    }
}

#[test]
fn reading_twice_gives_the_same() {
    for table in tables() {
        let once = parse_csv(&written(&table, |_| true)).unwrap();
        let twice = parse_csv(&written(&once, |_| true)).unwrap();
        assert_eq!(once, twice);
    }
}

#[test]
fn trimming_takes_what_stands_unquoted_at_the_ends() {
    let table: CSV = vec![vec![" a".to_string(), "b ".to_string()]];
    let text = written(&table, |_| false);
    assert_eq!(text, " a,b ");
    assert_eq!(
        parse_csv(&text),
        Ok(vec![vec!["a".to_string(), "b".to_string()]])
    );
    let table: CSV = vec![vec!["a".to_string()], vec!["".to_string()]];
    let text = written(&table, |_| false);
    assert_eq!(text, "a\r\n");
    assert_eq!(parse_csv(&text), Ok(vec![vec!["a".to_string()]]));
}

#[test]
fn what_a_field_cannot_hold_is_not_read_back() {
    let table: CSV = vec![vec!["a\tb".to_string()]];
    let text = written(&table, |_| true);
    assert_eq!(parse_csv(&text), Ok(vec![vec!["ab".to_string()]]));
}

#[test]
fn small_tables_are_read_back_exactly_where_trimming_changes_nothing() {
    let alphabet = [' ', 'a', '"', ',', '\r', '\n'];
    let mut texts: Vec<String> = vec![String::new()];
    for a in alphabet {
        texts.push(a.to_string());
        for b in alphabet {
            texts.push(format!("{}{}", a, b));
        }
    }
    let mut cells: Vec<(String, bool)> = Vec::new();
    for text in &texts {
        cells.push((text.clone(), true));
        if text.chars().all(is_textdata) {
            cells.push((text.clone(), false));
        }
    }
    let mut records: Vec<Vec<(String, bool)>> = Vec::new();
    for first in &cells {
        records.push(vec![first.clone()]);
        for second in &cells {
            if first.0.len() + second.0.len() <= 2 {
                records.push(vec![first.clone(), second.clone()]);
            }
        }
    }
    let mut written_tables: Vec<Vec<Vec<(String, bool)>>> = Vec::new();
    for first in &records {
        written_tables.push(vec![first.clone()]);
        for second in &records {
            let size: usize = first.iter().chain(second.iter()).map(|cell| cell.0.len()).sum();
            if size <= 1 {
                written_tables.push(vec![first.clone(), second.clone()]);
            }
        }
    }
    assert_eq!(written_tables.len(), 826);
    for written_table in written_tables {
        let text = written_table
            .iter()
            .map(|record| {
                record
                    .iter()
                    .map(|(field, in_quotes)| {
                        if *in_quotes {
                            quoted(field)
                        } else {
                            field.clone()
                        }
                    })
                    .collect::<Vec<String>>()
                    .join(",")
            })
            .collect::<Vec<String>>()
            .join("\r\n");
        let table: CSV = written_table
            .iter()
            .map(|record| record.iter().map(|(field, _)| field.clone()).collect())
            .collect();
        let read_back = parse_csv(&text) == Ok(table);
        assert_eq!(read_back, text.trim() == text, "{:?}", text);
    }
}
