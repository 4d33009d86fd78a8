//! Why a parse was given up.

use vstd::prelude::*;

verus! {

/// The first violation of the grammar that the parser met. A parse that
/// fails returns nothing else: no part of the table survives it.
#[derive(Debug, Clone, Copy, PartialEq, Eq, Structural)]
pub enum Error {
    /// A character that may not stand inside a quoted field. Kept for a
    /// stricter reading of quoted fields; the parser as it stands drops such
    /// a character and never reports it.
    UnexpectedCharacterInEscapedField(char),
    /// A character that may not stand in a field without quotes: it is neither
    /// text data nor the comma or carriage return that ends the field.
    UnexpectedCharacterInNonEscapedField(char),
    /// The input ended where a token was still owed: a closing quote, or the
    /// line feed of a record separator.
    UnexpectedEndOfInput,
    /// A token was owed and another character stood in its place. The first
    /// character is the one expected, the second the one found.
    AteWrongCharacter(char, char),
}

} // verus!
