//! What the parser takes from the standard library's strings, and what is
//! assumed of it.

use vstd::prelude::*;

verus! {

/// The characters that Unicode counts as `White_Space`.
pub open spec fn white_space(c: char) -> bool {
    ||| '\u{9}' <= c <= '\u{d}'
    ||| c == '\u{20}'
    ||| c == '\u{85}'
    ||| c == '\u{a0}'
    ||| c == '\u{1680}'
    ||| '\u{2000}' <= c <= '\u{200a}'
    ||| c == '\u{2028}'
    ||| c == '\u{2029}'
    ||| c == '\u{202f}'
    ||| c == '\u{205f}'
    ||| c == '\u{3000}'
}

/// `s` without the white space it begins with.
pub open spec fn trimmed_start(s: Seq<char>) -> Seq<char>
    decreases s.len(),
{
    if s.len() > 0 && white_space(s.first()) {
        trimmed_start(s.drop_first())
    } else {
        s
    }
}

/// `s` without the white space it ends with.
pub open spec fn trimmed_end(s: Seq<char>) -> Seq<char>
    decreases s.len(),
{
    if s.len() > 0 && white_space(s.last()) {
        trimmed_end(s.drop_last())
    } else {
        s
    }
}

/// `s` without the white space at either end.
pub open spec fn trimmed(s: Seq<char>) -> Seq<char> {
    trimmed_end(trimmed_start(s))
}

/// What trimming the start leaves does not begin with white space.
proof fn lemma_trimmed_start_begins(s: Seq<char>)
    ensures
        trimmed_start(s).len() > 0 ==> !white_space(trimmed_start(s).first()),
    decreases s.len(),
{
    if s.len() > 0 && white_space(s.first()) {
        lemma_trimmed_start_begins(s.drop_first());
    }
}

/// What trimming the end leaves does not end in white space, and begins as
/// the text did.
proof fn lemma_trimmed_end_ends(s: Seq<char>)
    ensures
        trimmed_end(s).len() > 0 ==> !white_space(trimmed_end(s).last()) && trimmed_end(
            s,
        ).first() == s.first(),
    decreases s.len(),
{
    if s.len() > 0 && white_space(s.last()) {
        lemma_trimmed_end_ends(s.drop_last());
    }
}

/// A trimmed text has no white space at either end.
pub proof fn lemma_trimmed_ends(s: Seq<char>)
    ensures
        trimmed(s).len() > 0 ==> !white_space(trimmed(s).first()) && !white_space(
            trimmed(s).last(),
        ),
{
    lemma_trimmed_start_begins(s);
    lemma_trimmed_end_ends(trimmed_start(s));
}

/// A text without white space at its ends is left as it is by trimming.
pub proof fn lemma_nothing_to_trim(s: Seq<char>)
    requires
        s.len() > 0 ==> !white_space(s.first()) && !white_space(s.last()),
    ensures
        trimmed(s) == s,
{
}

/// Assumed of `str::trim`: the slice it returns is the string without its
/// leading and trailing white space, where white space is what Unicode
/// counts as `White_Space`.
pub assume_specification[ str::trim ](s: &str) -> (t: &str)
    ensures
        t@ == trimmed(s@),
;

/// Assumed of `String::push`: it appends the character to the string and
/// changes nothing else.
pub assume_specification[ String::push ](s: &mut String, ch: char)
    ensures
        final(s)@ == old(s)@.push(ch),
;

/// The characters of `s`, in order.
pub(crate) fn chars_of(s: &str) -> (chars: Vec<char>)
    ensures
        chars@ == s@,
{
    let mut chars: Vec<char> = Vec::new();
    for c in it: s.chars()
        invariant
            chars@ == it.seq().take(it.index() as int),
            it.seq() == s@,
    {
        chars.push(c);
    }
    chars
}

} // verus!
