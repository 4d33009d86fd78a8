//! A count of characters, by which a text can be shown to be too short for a
//! table.
//!
//! Whatever text is read as a table holds, beside its double quotes, at
//! least the characters of the fields that are no double quotes, the commas
//! and the separators. The text that a table is written as holds exactly
//! that much. Trimming takes no double quote away: so what it leaves, if it
//! takes anything, cannot hold the same table.

use vstd::prelude::*;
use crate::chars::{textdata, COMMA, CR, DQUOTE, LF};
use crate::grammar::{
    escaped_rest, field, lemma_field_advances, lemma_record_advances, lemma_textdata_until_end,
    record, records, separator, table, Field, Record, Table,
};
use crate::text::{trimmed, trimmed_end, trimmed_start, white_space};
use crate::writing::{
    doubled, record_content, table_content, writable, writable_record, writable_table,
    written_field, written_record, written_table, Written,
};

verus! {

/// How many double quotes `s` holds.
pub open spec fn quotes_in(s: Seq<char>) -> nat
    decreases s.len(),
{
    if s.len() == 0 {
        0
    } else if s.first() == DQUOTE {
        1 + quotes_in(s.drop_first())
    } else {
        quotes_in(s.drop_first())
    }
}

/// How many characters of `s` are no double quotes.
pub open spec fn others_in(s: Seq<char>) -> nat
    decreases s.len(),
{
    if s.len() == 0 {
        0
    } else if s.first() == DQUOTE {
        others_in(s.drop_first())
    } else {
        1 + others_in(s.drop_first())
    }
}

/// The length of a record written as briefly as can be, its double quotes
/// left out of the count: the other characters of its fields, and the commas.
pub open spec fn least_record(r: Record) -> nat
    decreases r.len(),
{
    if r.len() == 0 {
        0
    } else if r.len() == 1 {
        others_in(r.first())
    } else {
        others_in(r.first()) + 1 + least_record(r.drop_first())
    }
}

/// The length of a table written as briefly as can be, its double quotes
/// left out of the count: that of its records, and the separators.
pub open spec fn least_table(t: Table) -> nat
    decreases t.len(),
{
    if t.len() == 0 {
        0
    } else if t.len() == 1 {
        least_record(t.first())
    } else {
        least_record(t.first()) + 2 + least_table(t.drop_first())
    }
}

/// The double quotes of two texts put together are those of both.
proof fn lemma_quotes_add(a: Seq<char>, b: Seq<char>)
    ensures
        quotes_in(a + b) == quotes_in(a) + quotes_in(b),
    decreases a.len(),
{
    if a.len() == 0 {
        assert(a + b =~= b);
    } else {
        assert((a + b).drop_first() =~= a.drop_first() + b);
        lemma_quotes_add(a.drop_first(), b);
    }
}

/// A text of one character holds one double quote or none.
proof fn lemma_quotes_single(c: char)
    ensures
        quotes_in(seq![c]) == (if c == DQUOTE {
            1nat
        } else {
            0nat
        }),
{
    let x = seq![c];
    assert(x.len() == 1 && x.first() == c);
    assert(x.drop_first().len() == 0);
    assert(quotes_in(x.drop_first()) == 0);
}

/// The double quotes of a stretch of `s` are those of its two parts.
proof fn lemma_quotes_split(s: Seq<char>, i: int, m: int, j: int)
    requires
        0 <= i <= m <= j <= s.len(),
    ensures
        quotes_in(s.subrange(i, j)) == quotes_in(s.subrange(i, m)) + quotes_in(s.subrange(m, j)),
{
    assert(s.subrange(i, j) =~= s.subrange(i, m) + s.subrange(m, j));
    lemma_quotes_add(s.subrange(i, m), s.subrange(m, j));
}

/// A stretch of one character holds one double quote or none.
proof fn lemma_quotes_one(s: Seq<char>, i: int)
    requires
        0 <= i < s.len(),
    ensures
        quotes_in(s.subrange(i, i + 1)) == (if s[i] == DQUOTE {
            1nat
        } else {
            0nat
        }),
{
    assert(s.subrange(i, i + 1) =~= seq![s[i]]);
    lemma_quotes_single(s[i]);
}

/// A text without double quotes is all other characters.
proof fn lemma_no_quotes(s: Seq<char>)
    requires
        forall|k: int| 0 <= k < s.len() ==> #[trigger] s[k] != DQUOTE,
    ensures
        quotes_in(s) == 0,
        others_in(s) == s.len(),
    decreases s.len(),
{
    if s.len() > 0 {
        assert(s[0] != DQUOTE);
        let rest = s.drop_first();
        assert forall|k: int| 0 <= k < rest.len() implies #[trigger] rest[k] != DQUOTE by {
            assert(rest[k] == s[k + 1]);
        }
        lemma_no_quotes(rest);
    }
}

/// A field that was read took, from where it began to where it ended, at
/// least as many characters as it holds that are no double quotes, beside
/// the double quotes that stood there.
proof fn lemma_field_measure(s: Seq<char>, i: int)
    requires
        0 <= i <= s.len(),
    ensures
        escaped_rest(s, i) matches Ok((f, end)) ==> end - i >= others_in(f) + quotes_in(
            s.subrange(i, end),
        ),
        field(s, i) matches Ok((f, end)) ==> end - i >= others_in(f) + quotes_in(
            s.subrange(i, end),
        ),
    decreases s.len() - i,
{
    lemma_field_advances(s, i);
    if i < s.len() {
        lemma_quotes_one(s, i);
        lemma_field_advances(s, i + 1);
        lemma_field_measure(s, i + 1);
        if let Ok((f, end)) = escaped_rest(s, i + 1) {
            lemma_quotes_split(s, i, i + 1, end);
            assert((seq![s[i]] + f).drop_first() =~= f);
        }
        if i + 1 < s.len() {
            lemma_quotes_one(s, i + 1);
            lemma_field_advances(s, i + 2);
            lemma_field_measure(s, i + 2);
            if let Ok((f, end)) = escaped_rest(s, i + 2) {
                lemma_quotes_split(s, i, i + 1, end);
                lemma_quotes_split(s, i + 1, i + 2, end);
                assert((seq![DQUOTE] + f).drop_first() =~= f);
            }
        }
    }
    if !(i < s.len() && s[i] == DQUOTE) {
        if let Ok((f, end)) = field(s, i) {
            assert forall|k: int| 0 <= k < f.len() implies #[trigger] f[k] != DQUOTE by {
                lemma_textdata_until_end(s, i, i + k);
            }
            lemma_no_quotes(f);
        }
    }
}

/// A record that was read took at least its least length, beside the double
/// quotes that stood there.
proof fn lemma_record_measure(s: Seq<char>, i: int)
    requires
        0 <= i <= s.len(),
    ensures
        record(s, i) matches Ok((r, end)) ==> r.len() >= 1 && end - i >= least_record(r)
            + quotes_in(s.subrange(i, end)),
    decreases s.len() - i,
{
    lemma_field_advances(s, i);
    lemma_field_measure(s, i);
    if let Ok((first, stop)) = field(s, i) {
        if stop < s.len() && s[stop] == COMMA {
            lemma_record_advances(s, stop + 1);
            lemma_record_measure(s, stop + 1);
            if let Ok((rest, end)) = record(s, stop + 1) {
                lemma_quotes_one(s, stop);
                lemma_quotes_split(s, i, stop, end);
                lemma_quotes_split(s, stop, stop + 1, end);
                assert((seq![first] + rest).drop_first() =~= rest);
            }
        }
    }
}

/// The records that were read took the whole input, and that is at least
/// their least length, beside the double quotes that stood there.
proof fn lemma_records_measure(s: Seq<char>, i: int)
    requires
        0 <= i <= s.len(),
    ensures
        records(s, i) matches Ok((t, end)) ==> t.len() >= 1 && end == s.len() && end - i
            >= least_table(t) + quotes_in(s.subrange(i, end)),
    decreases s.len() - i,
{
    lemma_record_advances(s, i);
    lemma_record_measure(s, i);
    if let Ok((first, stop)) = record(s, i) {
        if stop < s.len() {
            if let Ok(next) = separator(s, stop) {
                lemma_quotes_one(s, stop);
                lemma_quotes_one(s, stop + 1);
                lemma_quotes_split(s, i, stop, next);
                lemma_quotes_split(s, stop, stop + 1, next);
                if next < s.len() {
                    lemma_records_measure(s, next);
                    if let Ok((rest, end)) = records(s, next) {
                        lemma_quotes_split(s, i, next, end);
                        assert((seq![first] + rest).drop_first() =~= rest);
                    }
                }
            }
        }
    }
}

/// A text that is read as a table is at least as long as the table's least
/// length and the double quotes of the text together.
pub proof fn lemma_read_at_a_cost(s: Seq<char>)
    ensures
        table(s) matches Ok(t) ==> s.len() >= least_table(t) + quotes_in(s),
{
    lemma_records_measure(s, 0);
    assert(s.subrange(0, s.len() as int) =~= s);
}

/// A field's content with its double quotes doubled is as long as what it
/// holds beside double quotes, and its double quotes, together.
proof fn lemma_doubled_measure(text: Field)
    ensures
        doubled(text).len() == others_in(text) + quotes_in(doubled(text)),
    decreases text.len(),
{
    if text.len() > 0 {
        let rest = text.drop_first();
        lemma_doubled_measure(rest);
        if text.first() == DQUOTE {
            lemma_quotes_add(seq![DQUOTE, DQUOTE], doubled(rest));
            assert(seq![DQUOTE, DQUOTE] =~= seq![DQUOTE] + seq![DQUOTE]);
            lemma_quotes_add(seq![DQUOTE], seq![DQUOTE]);
            lemma_quotes_single(DQUOTE);
        } else {
            lemma_quotes_add(seq![text.first()], doubled(rest));
            lemma_quotes_single(text.first());
        }
    }
}

/// The text of a field is as long as what the field holds beside double
/// quotes, and the double quotes of the text, together.
proof fn lemma_written_field_measure(w: Written)
    requires
        writable(w),
    ensures
        written_field(w).len() == others_in(w.text) + quotes_in(written_field(w)),
{
    if w.quoted {
        lemma_doubled_measure(w.text);
        lemma_quotes_add(seq![DQUOTE], doubled(w.text));
        lemma_quotes_add(seq![DQUOTE] + doubled(w.text), seq![DQUOTE]);
        lemma_quotes_single(DQUOTE);
    } else {
        assert forall|k: int| 0 <= k < w.text.len() implies #[trigger] w.text[k] != DQUOTE by {
            assert(textdata(w.text[k]));
        }
        lemma_no_quotes(w.text);
    }
}

/// The text of a record is as long as the record's least length and the
/// double quotes of the text together.
proof fn lemma_written_record_measure(r: Seq<Written>)
    requires
        writable_record(r),
    ensures
        written_record(r).len() == least_record(record_content(r)) + quotes_in(
            written_record(r),
        ),
    decreases r.len(),
{
    assert(writable(r[0]));
    lemma_written_field_measure(r.first());
    if r.len() > 1 {
        let rest = r.drop_first();
        assert forall|c: int| 0 <= c < rest.len() implies writable(#[trigger] rest[c]) by {
            assert(rest[c] == r[c + 1]);
        }
        lemma_written_record_measure(rest);
        lemma_quotes_add(written_field(r.first()), seq![COMMA]);
        lemma_quotes_add(written_field(r.first()) + seq![COMMA], written_record(rest));
        lemma_quotes_single(COMMA);
        assert(record_content(r).drop_first() =~= record_content(rest));
    }
}

/// The text of a table is as long as the table's least length and the double
/// quotes of the text together.
pub proof fn lemma_written_at_cost(t: Seq<Seq<Written>>)
    requires
        writable_table(t),
    ensures
        written_table(t).len() == least_table(table_content(t)) + quotes_in(written_table(t)),
    decreases t.len(),
{
    assert(writable_record(t[0]));
    lemma_written_record_measure(t.first());
    if t.len() > 1 {
        let rest = t.drop_first();
        assert forall|r: int| 0 <= r < rest.len() implies writable_record(#[trigger] rest[r]) by {
            assert(rest[r] == t[r + 1]);
        }
        lemma_written_at_cost(rest);
        lemma_quotes_add(written_record(t.first()), seq![CR, LF]);
        lemma_quotes_add(written_record(t.first()) + seq![CR, LF], written_table(rest));
        assert(seq![CR, LF] =~= seq![CR] + seq![LF]);
        lemma_quotes_add(seq![CR], seq![LF]);
        lemma_quotes_single(CR);
        lemma_quotes_single(LF);
        assert(table_content(t).drop_first() =~= table_content(rest));
    }
}

/// Trimming takes no double quote from a text, and makes it shorter
/// wherever it changes it.
pub proof fn lemma_trimming_spares_quotes(s: Seq<char>)
    ensures
        quotes_in(trimmed(s)) == quotes_in(s),
        trimmed(s).len() <= s.len(),
        trimmed(s).len() == s.len() ==> trimmed(s) == s,
{
    lemma_trimmed_start_measure(s);
    lemma_trimmed_end_measure(trimmed_start(s));
}

/// Trimming the start takes no double quote, and makes the text shorter
/// wherever it changes it.
proof fn lemma_trimmed_start_measure(s: Seq<char>)
    ensures
        quotes_in(trimmed_start(s)) == quotes_in(s),
        trimmed_start(s).len() <= s.len(),
        trimmed_start(s).len() == s.len() ==> trimmed_start(s) == s,
    decreases s.len(),
{
    if s.len() > 0 && white_space(s.first()) {
        lemma_trimmed_start_measure(s.drop_first());
    }
}

/// Trimming the end takes no double quote, and makes the text shorter
/// wherever it changes it.
proof fn lemma_trimmed_end_measure(s: Seq<char>)
    ensures
        quotes_in(trimmed_end(s)) == quotes_in(s),
        trimmed_end(s).len() <= s.len(),
        trimmed_end(s).len() == s.len() ==> trimmed_end(s) == s,
    decreases s.len(),
{
    if s.len() > 0 && white_space(s.last()) {
        lemma_trimmed_end_measure(s.drop_last());
        assert(s =~= s.drop_last() + seq![s.last()]);
        lemma_quotes_add(s.drop_last(), seq![s.last()]);
        lemma_quotes_single(s.last());
    }
}

} // verus!
