//! Which inputs fail, and with which error.
//!
//! The parser gives up at the first thing that the grammar does not allow.
//! `reaches` says at which positions it comes to begin a field; what goes
//! wrong at the first such position where anything goes wrong is the result
//! of the whole parse.

use vstd::prelude::*;
use crate::chars::{COMMA, CR, DQUOTE, LF};
use crate::error::Error;
use crate::grammar::{
    escaped_rest, field, lemma_field_advances, lemma_record_advances, record, records, separator,
    textdata_end, Table,
};
use crate::parser::csv_of;
use crate::text::{lemma_trimmed_ends, trimmed};

verus! {

/// Where the parser goes on after a field that ended at `end`: to the field
/// behind a comma, or to the one behind a separator that something follows.
/// At the end of the input it has nowhere to go on.
pub open spec fn next_field(s: Seq<char>, end: int) -> Result<Option<int>, Error> {
    if end >= s.len() {
        Ok(None)
    } else if s[end] == COMMA {
        Ok(Some(end + 1))
    } else {
        match separator(s, end) {
            Err(e) => Err(e),
            Ok(next) => if next >= s.len() {
                Ok(None)
            } else {
                Ok(Some(next))
            },
        }
    }
}

/// The parser, once it begins a field at `from`, comes to begin one at `at`.
pub open spec fn reaches(s: Seq<char>, from: int, at: int) -> bool
    decreases s.len() - from,
{
    from == at || match field(s, from) {
        Err(_) => false,
        Ok((_, end)) => match next_field(s, end) {
            Ok(Some(next)) => {
                proof {
                    lemma_field_advances(s, from);
                }
                reaches(s, next, at)
            },
            _ => false,
        },
    }
}

/// The parser fails at the field that begins at `at`: in the field itself,
/// or in what follows it.
pub open spec fn fails_at(s: Seq<char>, at: int, e: Error) -> bool {
    match field(s, at) {
        Err(inner) => inner == e,
        Ok((_, end)) => next_field(s, end) == Err::<Option<int>, Error>(e),
    }
}

/// Where the quote stands that closes a quoted field whose inside begins at
/// `i`: the first double quote from there on that is not one of a pair.
pub open spec fn closing_quote(s: Seq<char>, i: int) -> Option<int>
    decreases s.len() - i,
{
    if i < 0 || i >= s.len() {
        None
    } else if s[i] != DQUOTE {
        closing_quote(s, i + 1)
    } else if i + 1 < s.len() && s[i + 1] == DQUOTE {
        closing_quote(s, i + 2)
    } else {
        Some(i)
    }
}

/// A failure behind a field is a failure from that field on: what the
/// parser makes of the rest of the input does not depend on what it has read.
proof fn lemma_failure_carries(s: Seq<char>, from: int, next: int, e: Error)
    requires
        field(s, from) matches Ok((_, end)) && next_field(s, end) == Ok::<Option<int>, Error>(
            Some(next),
        ),
        records(s, next) == Err::<(Table, int), Error>(e),
    ensures
        records(s, from) == Err::<(Table, int), Error>(e),
{
    lemma_field_advances(s, from);
    if let Ok((_, end)) = record(s, next) {
        lemma_record_advances(s, next);
    }
}

/// The first failure decides: where the parser comes to a field at which it
/// fails, the whole parse fails, and with that error.
pub proof fn lemma_first_failure(s: Seq<char>, from: int, at: int, e: Error)
    requires
        reaches(s, from, at),
        fails_at(s, at, e),
    ensures
        records(s, from) == Err::<(Table, int), Error>(e),
    decreases s.len() - from,
{
    if from != at {
        let next: int = next_field(s, field(s, from)->Ok_0.1)->Ok_0->Some_0;
        lemma_field_advances(s, from);
        lemma_first_failure(s, next, at, e);
        lemma_failure_carries(s, from, next, e);
    }
}

/// A character that has no place in a field without quotes fails the parse,
/// and the error names that very character. Such a field is a run of text
/// data; only a comma, a carriage return or the end of the input may follow
/// it. A double quote behind text data is the common case.
pub proof fn lemma_stray_character(input: Seq<char>, at: int)
    requires
        ({
            let s = trimmed(input);
            let end = textdata_end(s, at);
            &&& reaches(s, 0, at)
            &&& !(at < s.len() && s[at] == DQUOTE)
            &&& end < s.len()
            &&& s[end] != COMMA
            &&& s[end] != CR
        }),
    ensures
        ({
            let s = trimmed(input);
            csv_of(input) == Err::<Table, Error>(
                Error::UnexpectedCharacterInNonEscapedField(s[textdata_end(s, at)]),
            )
        }),
{
    let s = trimmed(input);
    lemma_reaches_forward(s, 0, at);
    lemma_first_failure(
        s,
        0,
        at,
        Error::UnexpectedCharacterInNonEscapedField(s[textdata_end(s, at)]),
    );
}

/// The parser only comes to positions at or behind the one it started from.
proof fn lemma_reaches_forward(s: Seq<char>, from: int, at: int)
    requires
        reaches(s, from, at),
    ensures
        from <= at,
    decreases s.len() - from,
{
    if from != at {
        lemma_field_advances(s, from);
        lemma_reaches_forward(s, next_field(s, field(s, from)->Ok_0.1)->Ok_0->Some_0, at);
    }
}

/// A quoted field ends behind its closing quote or not at all: the inside
/// that begins at `i` is read up to the closing quote, and where there is
/// none the end of the input is reported. No field is cut short.
pub proof fn lemma_closed_or_rejected(s: Seq<char>, i: int)
    ensures
        match escaped_rest(s, i) {
            Ok((_, end)) => closing_quote(s, i) == Some(end - 1),
            Err(e) => e == Error::UnexpectedEndOfInput && closing_quote(s, i) is None,
        },
    decreases s.len() - i,
{
    if 0 <= i < s.len() {
        lemma_closed_or_rejected(s, i + 1);
        if i + 1 < s.len() {
            lemma_closed_or_rejected(s, i + 2);
        }
    }
}

/// An input that ends inside a quoted field fails with the end of the input,
/// whatever the field held up to there.
pub proof fn lemma_unclosed_quote(input: Seq<char>, at: int)
    requires
        ({
            let s = trimmed(input);
            &&& reaches(s, 0, at)
            &&& at < s.len()
            &&& s[at] == DQUOTE
            &&& closing_quote(s, at + 1) is None
        }),
    ensures
        csv_of(input) == Err::<Table, Error>(Error::UnexpectedEndOfInput),
{
    let s = trimmed(input);
    lemma_reaches_forward(s, 0, at);
    lemma_closed_or_rejected(s, at + 1);
    lemma_first_failure(s, 0, at, Error::UnexpectedEndOfInput);
}

/// A carriage return behind a record, with anything but a line feed behind
/// it, fails the parse: a line feed was expected, and the error names what
/// stood there instead. Something does stand there, since the input was
/// trimmed and a carriage return is white space.
pub proof fn lemma_lone_carriage_return(input: Seq<char>, at: int)
    requires
        ({
            let s = trimmed(input);
            &&& reaches(s, 0, at)
            &&& field(s, at) matches Ok((_, end))
            &&& end < s.len()
            &&& s[end] == CR
            &&& !(end + 1 < s.len() && s[end + 1] == LF)
        }),
    ensures
        ({
            let s = trimmed(input);
            let end = field(s, at)->Ok_0.1;
            &&& end + 1 < s.len()
            &&& csv_of(input) == Err::<Table, Error>(Error::AteWrongCharacter(LF, s[end + 1]))
        }),
{
    let s = trimmed(input);
    let end: int = field(s, at)->Ok_0.1;
    lemma_reaches_forward(s, 0, at);
    lemma_field_advances(s, at);
    lemma_trimmed_ends(input);
    lemma_first_failure(s, 0, at, Error::AteWrongCharacter(LF, s[end + 1]));
}

} // verus!
