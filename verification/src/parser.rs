//! The parser: one function for each production of the grammar.

use vstd::prelude::*;
use crate::chars::{is_textdata, COMMA, CR, DQUOTE, LF};
use crate::cursor::{behind, Cursor};
use crate::error::Error;
use crate::grammar::{
    escaped_field, escaped_rest, field, lemma_prefixed_twice, lemma_sound_table,
    non_escaped_field, prefixed, record, records, reported, sound_table, table, textdata_end,
    token, Parsed, Table,
};
use crate::text::trimmed;

verus! {

/// A table: its records in the order of the input.
pub type CSV = Vec<CSVRecord>;

/// A record: its fields by column.
pub type CSVRecord = Vec<CSVField>;

/// A field: the text it holds, without the quotes that may have stood round it.
pub type CSVField = String;

/// `result`, returned by a production that left the cursor at `end`, is what
/// the grammar gives.
pub open spec fn yields<T: DeepView>(
    result: Result<T, Error>,
    end: int,
    grammar: Parsed<T::V>,
) -> bool {
    match result {
        Ok(value) => grammar == Ok::<(T::V, int), Error>((value.deep_view(), end)),
        Err(e) => grammar == Err::<(T::V, int), Error>(e),
    }
}

/// The table that parsing `input` gives: the table of what is left of `input`
/// when the white space at both ends is taken away.
pub open spec fn csv_of(input: Seq<char>) -> Result<Table, Error> {
    table(trimmed(input))
}

/// Reads one character and holds it against `character`. The character is
/// read whether it is the expected one or not.
pub(crate) fn eat(character: char, cursor: &mut Cursor) -> (result: Result<(), Error>)
    requires
        old(cursor).wf(),
    ensures
        final(cursor).follows(old(cursor)),
        final(cursor).pos() == behind(old(cursor).input(), old(cursor).pos()),
        result == token(old(cursor).input(), old(cursor).pos(), character),
{
    match cursor.next() {
        Some(c) => {
            if c == character {
                Ok(())
            } else {
                Err(Error::AteWrongCharacter(character, c))
            }
        },
        None => Err(Error::UnexpectedEndOfInput),
    }
}

/// Reads a field without quotes: text data up to a comma, a carriage return
/// or the end of the input, none of which it reads.
pub(crate) fn parse_non_escaped_field(cursor: &mut Cursor) -> (result: Result<CSVField, Error>)
    requires
        old(cursor).wf(),
    ensures
        final(cursor).follows(old(cursor)),
        yields(
            result,
            final(cursor).pos(),
            non_escaped_field(old(cursor).input(), old(cursor).pos()),
        ),
{
    let ghost s = cursor.input();
    let ghost start: int = cursor.pos();
    let mut field = String::new();
    loop
        invariant
            cursor.follows(old(cursor)),
            s == old(cursor).input(),
            0 <= start == old(cursor).pos(),
            textdata_end(s, cursor.pos()) == textdata_end(s, start),
            field@ == s.subrange(start, cursor.pos()),
        decreases s.len() - cursor.pos(),
    {
        match cursor.peek() {
            None => {
                return Ok(field);
            },
            Some(character) => {
                if character == COMMA {
                    return Ok(field);
                } else if is_textdata(character) {
                    field.push(character);
                    let _ = cursor.next();
                    assert(field@ == s.subrange(start, cursor.pos()));
                } else if character == CR {
                    return Ok(field);
                } else {
                    return Err(Error::UnexpectedCharacterInNonEscapedField(character));
                }
            },
        }
    }
}

/// Reads a quoted field: the opening quote, the inside with each doubled
/// quote taken as one, and the closing quote. Text data, commas, carriage
/// returns and line feeds inside are taken over; any other character is
/// dropped. An input that ends before the closing quote is an error.
pub(crate) fn parse_escaped_field(cursor: &mut Cursor) -> (result: Result<CSVField, Error>)
    requires
        old(cursor).wf(),
    ensures
        final(cursor).follows(old(cursor)),
        yields(
            result,
            final(cursor).pos(),
            escaped_field(old(cursor).input(), old(cursor).pos()),
        ),
{
    let ghost s = cursor.input();
    let mut field = String::new();
    match eat(DQUOTE, cursor) {
        Err(e) => {
            return Err(e);
        },
        Ok(()) => {},
    }
    loop
        invariant
            cursor.follows(old(cursor)),
            s == old(cursor).input(),
            escaped_field(s, old(cursor).pos()) == prefixed(field@, escaped_rest(s, cursor.pos())),
        decreases s.len() - cursor.pos(),
    {
        let ghost before = field@;
        let ghost at: int = cursor.pos();
        match cursor.next() {
            None => {
                return Err(Error::UnexpectedEndOfInput);
            },
            Some(character) => {
                if is_textdata(character) || character == COMMA || character == CR || character
                    == LF {
                    field.push(character);
                    proof {
                        lemma_prefixed_twice(before, seq![character], escaped_rest(s, at + 1));
                        assert(before.push(character) =~= before + seq![character]);
                    }
                } else if character == DQUOTE {
                    if cursor.next_is(DQUOTE) {
                        field.push(character);
                        let _ = cursor.next();
                        proof {
                            lemma_prefixed_twice(before, seq![DQUOTE], escaped_rest(s, at + 2));
                            assert(before.push(DQUOTE) =~= before + seq![DQUOTE]);
                        }
                    } else {
                        assert(before + Seq::<char>::empty() =~= before);
                        return Ok(field);
                    }
                }
            },
        }
    }
}

/// Reads a field: a quoted one if a double quote comes next, else one
/// without quotes.
pub(crate) fn parse_field(cursor: &mut Cursor) -> (result: Result<CSVField, Error>)
    requires
        old(cursor).wf(),
    ensures
        final(cursor).follows(old(cursor)),
        yields(result, final(cursor).pos(), field(old(cursor).input(), old(cursor).pos())),
{
    if cursor.next_is(DQUOTE) {
        parse_escaped_field(cursor)
    } else {
        parse_non_escaped_field(cursor)
    }
}

/// Reads a record: a field, and after each comma one more.
pub(crate) fn parse_record(cursor: &mut Cursor) -> (result: Result<CSVRecord, Error>)
    requires
        old(cursor).wf(),
    ensures
        final(cursor).follows(old(cursor)),
        yields(result, final(cursor).pos(), record(old(cursor).input(), old(cursor).pos())),
{
    let ghost s = cursor.input();
    let mut fields = CSVRecord::new();
    loop
        invariant
            cursor.follows(old(cursor)),
            s == old(cursor).input(),
            record(s, old(cursor).pos()) == prefixed(fields.deep_view(), record(s, cursor.pos())),
        decreases s.len() - cursor.pos(),
    {
        let ghost before = fields.deep_view();
        match parse_field(cursor) {
            Err(e) => {
                return Err(e);
            },
            Ok(field) => {
                fields.push(field);
                assert(fields.deep_view() =~= before + seq![field@]);
            },
        }
        if cursor.next_is(COMMA) {
            proof {
                lemma_prefixed_twice(
                    before,
                    seq![fields.deep_view().last()],
                    record(s, cursor.pos() + 1),
                );
            }
            let _ = eat(COMMA, cursor);
        } else {
            assert(fields.deep_view() + Seq::<Seq<char>>::empty() =~= fields.deep_view());
            return Ok(fields);
        }
    }
}

/// Parses a table of comma-separated values.
///
/// White space at the start and at the end of `input_csv` is left out of
/// account. What remains is read as records separated by a carriage return
/// and a line feed, each of them fields separated by commas. The empty input
/// holds one record with one empty field.
///
/// The parse stops at the first character that the grammar does not allow
/// and returns the error that names it. The one thing passed over in silence
/// is a character inside quotes that is neither text data nor a comma, a
/// carriage return, a line feed or a double quote: it is dropped from the
/// field.
pub fn parse_csv(input_csv: &str) -> (result: Result<CSV, Error>)
    ensures
        match result {
            Ok(csv) => csv_of(input_csv@) == Ok::<Table, Error>(csv.deep_view()),
            Err(e) => csv_of(input_csv@) == Err::<Table, Error>(e),
        },
        match result {
            Ok(csv) => sound_table(csv.deep_view()),
            Err(e) => reported(e),
        },
{
    let csv_string = input_csv.trim();
    let mut cursor = Cursor::new(csv_string);
    let ghost s = cursor.input();
    let mut csv = CSV::new();
    loop
        invariant
            cursor.wf(),
            cursor.input() == s,
            s == trimmed(input_csv@),
            records(s, 0) == prefixed(csv.deep_view(), records(s, cursor.pos())),
        decreases s.len() - cursor.pos(),
    {
        let ghost before = csv.deep_view();
        proof {
            lemma_sound_table(s);
        }
        match parse_record(&mut cursor) {
            Err(e) => {
                return Err(e);
            },
            Ok(fields) => {
                csv.push(fields);
                assert(csv.deep_view() =~= before + seq![fields.deep_view()]);
            },
        }
        proof {
            assert(csv.deep_view() + Seq::<Seq<Seq<char>>>::empty() =~= csv.deep_view());
            lemma_prefixed_twice(
                before,
                seq![csv.deep_view().last()],
                records(s, cursor.pos() + 2),
            );
        }
        if cursor.peek().is_none() {
            return Ok(csv);
        }
        match eat(CR, &mut cursor) {
            Err(e) => {
                return Err(e);
            },
            Ok(()) => {},
        }
        match eat(LF, &mut cursor) {
            Err(e) => {
                return Err(e);
            },
            Ok(()) => {},
        }
        if cursor.peek().is_none() {
            return Ok(csv);
        }
    }
}

} // verus!
