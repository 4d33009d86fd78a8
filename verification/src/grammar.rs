//! The grammar, as functions on a sequence of characters.
//!
//! ```text
//! table          := record (CR LF record)*
//! record         := field (COMMA field)*
//! field          := quoted-field | unquoted-field
//! quoted-field   := DQUOTE (textdata | COMMA | CR | LF | DQUOTE DQUOTE)* DQUOTE
//! unquoted-field := textdata*
//! ```
//!
//! Each production is a function of the whole input `s` and of the position
//! `i` at which it starts. It yields what it read together with the position
//! behind it, or the first error. The executable parser is proved to compute
//! exactly these functions.

use vstd::prelude::*;
use crate::chars::{representable, textdata, verbatim, COMMA, CR, DQUOTE, LF};
use crate::error::Error;

verus! {

/// The content of a field.
pub type Field = Seq<char>;

/// The fields of a record, by column.
pub type Record = Seq<Seq<char>>;

/// The records of a table, in the order of the input.
pub type Table = Seq<Seq<Seq<char>>>;

/// What a production yields: what it read and the position behind it, or the
/// first error.
pub type Parsed<A> = Result<(A, int), Error>;

/// `prefix` in front of what `rest` read, if it read anything.
pub open spec fn prefixed<A>(prefix: Seq<A>, rest: Parsed<Seq<A>>) -> Parsed<Seq<A>> {
    match rest {
        Ok((items, end)) => Ok((prefix + items, end)),
        Err(e) => Err(e),
    }
}

/// Putting two prefixes in front, one after the other, is putting both in front.
pub proof fn lemma_prefixed_twice<A>(a: Seq<A>, b: Seq<A>, rest: Parsed<Seq<A>>)
    ensures
        prefixed(a, prefixed(b, rest)) == prefixed(a + b, rest),
{
    if let Ok((items, end)) = rest {
        assert(a + (b + items) =~= (a + b) + items);
    }
}

/// What one character of input, expected to be `expected`, comes to at `i`.
pub open spec fn token(s: Seq<char>, i: int, expected: char) -> Result<(), Error> {
    if i >= s.len() {
        Err(Error::UnexpectedEndOfInput)
    } else if s[i] == expected {
        Ok(())
    } else {
        Err(Error::AteWrongCharacter(expected, s[i]))
    }
}

/// Where the run of text data that starts at `i` ends: the first position
/// from `i` on that holds no text data, or the end of `s`.
pub open spec fn textdata_end(s: Seq<char>, i: int) -> int
    decreases s.len() - i,
{
    if 0 <= i < s.len() && textdata(s[i]) {
        textdata_end(s, i + 1)
    } else {
        i
    }
}

/// A field without quotes at `i`: the longest run of text data. What follows
/// it must be a comma, a carriage return or the end of the input.
pub open spec fn non_escaped_field(s: Seq<char>, i: int) -> Parsed<Field> {
    let end = textdata_end(s, i);
    if end < s.len() && s[end] != COMMA && s[end] != CR {
        Err(Error::UnexpectedCharacterInNonEscapedField(s[end]))
    } else {
        Ok((s.subrange(i, end), end))
    }
}

/// The inside of a quoted field from `i` on, up to and including the closing
/// quote. Two double quotes in a row stand for one; a double quote alone
/// closes the field. A character that is neither `verbatim` nor a double
/// quote is passed over and leaves no trace in the field.
pub open spec fn escaped_rest(s: Seq<char>, i: int) -> Parsed<Field>
    decreases s.len() - i,
{
    if i < 0 || i >= s.len() {
        Err(Error::UnexpectedEndOfInput)
    } else if s[i] == DQUOTE {
        if i + 1 < s.len() && s[i + 1] == DQUOTE {
            prefixed(seq![DQUOTE], escaped_rest(s, i + 2))
        } else {
            Ok((Seq::empty(), i + 1))
        }
    } else if verbatim(s[i]) {
        prefixed(seq![s[i]], escaped_rest(s, i + 1))
    } else {
        escaped_rest(s, i + 1)
    }
}

/// A quoted field at `i`: the opening quote, then the inside.
pub open spec fn escaped_field(s: Seq<char>, i: int) -> Parsed<Field> {
    match token(s, i, DQUOTE) {
        Ok(()) => escaped_rest(s, i + 1),
        Err(e) => Err(e),
    }
}

/// A field at `i`: quoted if a double quote stands there, else not.
pub open spec fn field(s: Seq<char>, i: int) -> Parsed<Field> {
    if 0 <= i < s.len() && s[i] == DQUOTE {
        escaped_field(s, i)
    } else {
        non_escaped_field(s, i)
    }
}

/// A field ends no earlier than it starts and no later than the input, and
/// the inside of a quoted one ends behind its closing quote.
pub proof fn lemma_field_advances(s: Seq<char>, i: int)
    ensures
        i <= textdata_end(s, i),
        i <= s.len() ==> textdata_end(s, i) <= s.len(),
        escaped_rest(s, i) matches Ok((_, end)) ==> i < end <= s.len(),
        field(s, i) matches Ok((_, end)) ==> i <= end && (i <= s.len() ==> end <= s.len()),
    decreases s.len() - i,
{
    if 0 <= i < s.len() {
        lemma_field_advances(s, i + 1);
        if i + 1 < s.len() {
            lemma_field_advances(s, i + 2);
        }
    }
}

/// A record at `i`: a field, and after each comma one more.
pub open spec fn record(s: Seq<char>, i: int) -> Parsed<Record>
    decreases s.len() - i,
{
    match field(s, i) {
        Err(e) => Err(e),
        Ok((first, end)) => {
            if end < s.len() && s[end] == COMMA {
                proof {
                    lemma_field_advances(s, i);
                }
                prefixed(seq![first], record(s, end + 1))
            } else {
                Ok((seq![first], end))
            }
        },
    }
}

/// A record ends no earlier than it starts and no later than the input.
pub proof fn lemma_record_advances(s: Seq<char>, i: int)
    ensures
        record(s, i) matches Ok((_, end)) ==> i <= end && (i <= s.len() ==> end <= s.len()),
    decreases s.len() - i,
{
    lemma_field_advances(s, i);
    if let Ok((_, end)) = field(s, i) {
        if end < s.len() && s[end] == COMMA {
            lemma_record_advances(s, end + 1);
        }
    }
}

/// The separator of two records at `i`: a carriage return, then a line feed.
/// Yields the position behind it.
pub open spec fn separator(s: Seq<char>, i: int) -> Result<int, Error> {
    match token(s, i, CR) {
        Err(e) => Err(e),
        Ok(()) => match token(s, i + 1, LF) {
            Err(e) => Err(e),
            Ok(()) => Ok(i + 2),
        },
    }
}

/// The records from `i` to the end of the input: a record, and after each
/// separator that something follows, one more. A separator at the very end is
/// taken, and nothing is read after it.
pub open spec fn records(s: Seq<char>, i: int) -> Parsed<Table>
    decreases s.len() - i,
{
    match record(s, i) {
        Err(e) => Err(e),
        Ok((first, end)) => {
            if end >= s.len() {
                Ok((seq![first], end))
            } else {
                match separator(s, end) {
                    Err(e) => Err(e),
                    Ok(next) => {
                        if next >= s.len() {
                            Ok((seq![first], next))
                        } else {
                            proof {
                                lemma_record_advances(s, i);
                            }
                            prefixed(seq![first], records(s, next))
                        }
                    },
                }
            }
        },
    }
}

/// The table that `s` holds, or the first error in it.
pub open spec fn table(s: Seq<char>) -> Result<Table, Error> {
    match records(s, 0) {
        Ok((records, _)) => Ok(records),
        Err(e) => Err(e),
    }
}

/// A field holds only what a field can hold.
pub open spec fn sound_field(f: Field) -> bool {
    forall|k: int| 0 <= k < f.len() ==> representable(#[trigger] f[k])
}

/// A record has at least one field, and each of them is sound.
pub open spec fn sound_record(r: Record) -> bool {
    &&& r.len() >= 1
    &&& forall|c: int| 0 <= c < r.len() ==> sound_field(#[trigger] r[c])
}

/// A table has at least one record, and each of them is sound.
pub open spec fn sound_table(t: Table) -> bool {
    &&& t.len() >= 1
    &&& forall|r: int| 0 <= r < t.len() ==> sound_record(#[trigger] t[r])
}

/// An error that the parser reports. All are, but for the one kept for
/// characters that a stricter reading would turn away inside quotes.
pub open spec fn reported(e: Error) -> bool {
    !(e is UnexpectedCharacterInEscapedField)
}

/// From `i` up to where the text data ends, there is text data.
pub proof fn lemma_textdata_until_end(s: Seq<char>, i: int, k: int)
    requires
        0 <= i <= k < textdata_end(s, i),
    ensures
        k < s.len(),
        textdata(s[k]),
    decreases s.len() - i,
{
    if i < k {
        lemma_textdata_until_end(s, i + 1, k);
    }
}

/// Whatever is read as a field is sound, and whatever goes wrong is reported.
proof fn lemma_sound_field(s: Seq<char>, i: int)
    requires
        0 <= i <= s.len(),
    ensures
        match field(s, i) {
            Ok((f, _)) => sound_field(f),
            Err(e) => reported(e),
        },
        match escaped_rest(s, i) {
            Ok((f, _)) => sound_field(f),
            Err(e) => reported(e),
        },
    decreases s.len() - i,
{
    lemma_field_advances(s, i);
    if i < s.len() {
        lemma_sound_field(s, i + 1);
        if i + 1 < s.len() {
            lemma_sound_field(s, i + 2);
        }
    }
    if let Ok((f, end)) = non_escaped_field(s, i) {
        assert forall|k: int| 0 <= k < f.len() implies representable(#[trigger] f[k]) by {
            lemma_textdata_until_end(s, i, i + k);
        }
    }
}

/// Whatever is read as a record is sound, and whatever goes wrong is reported.
proof fn lemma_sound_record(s: Seq<char>, i: int)
    requires
        0 <= i <= s.len(),
    ensures
        match record(s, i) {
            Ok((r, _)) => sound_record(r),
            Err(e) => reported(e),
        },
    decreases s.len() - i,
{
    lemma_field_advances(s, i);
    lemma_sound_field(s, i);
    if let Ok((_, end)) = field(s, i) {
        if end < s.len() && s[end] == COMMA {
            lemma_sound_record(s, end + 1);
        }
    }
}

/// Whatever is read as a table is sound, and whatever goes wrong is reported.
proof fn lemma_sound_records(s: Seq<char>, i: int)
    requires
        0 <= i <= s.len(),
    ensures
        match records(s, i) {
            Ok((t, _)) => sound_table(t),
            Err(e) => reported(e),
        },
    decreases s.len() - i,
{
    lemma_record_advances(s, i);
    lemma_sound_record(s, i);
    if let Ok((_, end)) = record(s, i) {
        if end < s.len() {
            if let Ok(next) = separator(s, end) {
                if next < s.len() {
                    lemma_sound_records(s, next);
                }
            }
        }
    }
}

/// Every table that the grammar gives has at least one record, every record
/// at least one field, and every field holds only text data, commas,
/// carriage returns, line feeds and double quotes. No error is ever the one
/// kept for characters turned away inside quotes.
pub proof fn lemma_sound_table(s: Seq<char>)
    ensures
        match table(s) {
            Ok(t) => sound_table(t),
            Err(e) => reported(e),
        },
{
    lemma_sound_records(s, 0);
}

} // verus!
