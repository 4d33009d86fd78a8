//! The parser's place in its input.

use vstd::prelude::*;
use crate::text::chars_of;

verus! {

/// A position in a sequence of characters that only moves forward. It shows
/// the character it stands at and no other.
pub(crate) struct Cursor {
    chars: Vec<char>,
    pos: usize,
}

/// The character at `i`, if `s` has one there.
pub open spec fn lookahead(s: Seq<char>, i: int) -> Option<char> {
    if 0 <= i < s.len() {
        Some(s[i])
    } else {
        None
    }
}

/// The position behind the character at `i`, or `i` itself at the end of `s`.
pub open spec fn behind(s: Seq<char>, i: int) -> int {
    if 0 <= i < s.len() {
        i + 1
    } else {
        i
    }
}

impl Cursor {
    /// The whole input, read or not.
    pub closed spec fn input(&self) -> Seq<char> {
        self.chars@
    }

    /// How many characters have been read.
    pub closed spec fn pos(&self) -> int {
        self.pos as int
    }

    /// The position lies within the input or at its end.
    pub open spec fn wf(&self) -> bool {
        0 <= self.pos() <= self.input().len()
    }

    /// `self` is what `earlier` has become by reading on: the same input, at
    /// a position that is no smaller.
    pub open spec fn follows(&self, earlier: &Cursor) -> bool {
        &&& self.wf()
        &&& self.input() == earlier.input()
        &&& earlier.pos() <= self.pos()
    }

    /// A cursor at the start of `s`.
    pub(crate) fn new(s: &str) -> (cursor: Cursor)
        ensures
            cursor.wf(),
            cursor.input() == s@,
            cursor.pos() == 0,
    {
        Cursor { chars: chars_of(s), pos: 0 }
    }

    /// The next character, which stays unread.
    pub(crate) fn peek(&self) -> (c: Option<char>)
        requires
            self.wf(),
        ensures
            c == lookahead(self.input(), self.pos()),
    {
        if self.pos < self.chars.len() {
            Some(self.chars[self.pos])
        } else {
            None
        }
    }

    /// Looks ahead: does `character` come next?
    pub(crate) fn next_is(&self, character: char) -> (b: bool)
        requires
            self.wf(),
        ensures
            b == (lookahead(self.input(), self.pos()) == Some(character)),
    {
        match self.peek() {
            Some(c) => c == character,
            None => false,
        }
    }

    /// Reads the next character. At the end of the input there is none, and
    /// the cursor stays where it is.
    pub(crate) fn next(&mut self) -> (c: Option<char>)
        requires
            old(self).wf(),
        ensures
            final(self).follows(old(self)),
            final(self).pos() == behind(old(self).input(), old(self).pos()),
            c == lookahead(old(self).input(), old(self).pos()),
    {
        if self.pos < self.chars.len() {
            let c = self.chars[self.pos];
            self.pos = self.pos + 1;
            Some(c)
        } else {
            None
        }
    }
}

} // verus!
