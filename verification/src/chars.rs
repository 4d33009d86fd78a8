//! The characters that the grammar tells apart.

use vstd::prelude::*;

verus! {

/// Separates two fields of a record.
pub const COMMA: char = ',';

/// Opens and closes a quoted field; doubled, it stands for itself inside one.
pub const DQUOTE: char = '"';

/// First half of the record separator.
pub const CR: char = '\r';

/// Second half of the record separator.
pub const LF: char = '\n';

/// Text data: the printable ASCII characters other than the double quote and
/// the comma. Only these may stand in a field that is not quoted.
pub open spec fn textdata(c: char) -> bool {
    ||| c == ' '
    ||| c == '!'
    ||| '#' <= c <= '+'
    ||| '-' <= c <= '~'
}

/// What a quoted field takes over as it stands: text data, and the three
/// characters that end a field or a record outside quotes.
pub open spec fn verbatim(c: char) -> bool {
    textdata(c) || c == COMMA || c == CR || c == LF
}

/// What a field can hold at all: every character of `verbatim`, and the
/// double quote, which a quoted field writes twice.
pub open spec fn representable(c: char) -> bool {
    verbatim(c) || c == DQUOTE
}

/// Tells whether `character` is text data.
pub(crate) fn is_textdata(character: char) -> (b: bool)
    ensures
        b == textdata(character),
{
    character == '\u{0020}' || character == '\u{0021}' || (character >= '\u{0023}' && character
        <= '\u{002B}') || (character >= '\u{002D}' && character <= '\u{007E}')
}

} // verus!
