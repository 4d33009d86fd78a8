//! Parsing reads back what was written, unless trimming took some of it.

use vstd::prelude::*;
use crate::chars::{representable, textdata, COMMA, CR, DQUOTE, LF};
use crate::error::Error;
use crate::grammar::{
    escaped_rest, field, prefixed, record, records, textdata_end, Field, Record, Table,
};
use crate::measure::{lemma_read_at_a_cost, lemma_trimming_spares_quotes, lemma_written_at_cost};
use crate::parser::csv_of;
use crate::text::{lemma_nothing_to_trim, lemma_trimmed_ends, trimmed};
use crate::writing::{
    doubled, record_content, table_content, writable, writable_record, writable_table,
    written_field, written_record, written_table, Written,
};

verus! {

/// `x` stands in `s` at position `i`.
spec fn stands_at(s: Seq<char>, i: int, x: Seq<char>) -> bool {
    &&& 0 <= i
    &&& i + x.len() <= s.len()
    &&& forall|k: int| 0 <= k < x.len() ==> s[i + k] == #[trigger] x[k]
}

/// Where `a + b` stands, `a` stands, and `b` behind it.
proof fn lemma_stands_at_parts(s: Seq<char>, i: int, a: Seq<char>, b: Seq<char>)
    requires
        stands_at(s, i, a + b),
    ensures
        stands_at(s, i, a),
        stands_at(s, i + a.len(), b),
{
    let x = a + b;
    assert forall|k: int| 0 <= k < a.len() implies s[i + k] == #[trigger] a[k] by {
        assert(x[k] == a[k]);
    }
    assert forall|k: int| 0 <= k < b.len() implies s[i + a.len() + k] == #[trigger] b[k] by {
        assert(x[a.len() + k] == b[k]);
    }
}

/// A run of text data that something else follows ends where that stands.
proof fn lemma_textdata_run(s: Seq<char>, i: int, text: Seq<char>)
    requires
        stands_at(s, i, text),
        forall|k: int| 0 <= k < text.len() ==> textdata(#[trigger] text[k]),
        i + text.len() < s.len() ==> !textdata(s[i + text.len()]),
    ensures
        textdata_end(s, i) == i + text.len(),
        s.subrange(i, i + text.len()) == text,
    decreases text.len(),
{
    if text.len() > 0 {
        assert(s[i + 0] == text[0]);
        let rest = text.drop_first();
        assert(text =~= seq![text.first()] + rest);
        lemma_stands_at_parts(s, i, seq![text.first()], rest);
        lemma_textdata_run(s, i + 1, rest);
    }
    assert(s.subrange(i, i + text.len()) =~= text) by {
        assert forall|k: int| 0 <= k < text.len() implies s.subrange(i, i + text.len())[k]
            == text[k] by {
            assert(s[i + k] == text[k]);
        }
    }
}

/// The inside of a quoted field, written with its quotes doubled and closed
/// by a quote that no other follows, is read back as it was.
proof fn lemma_reads_doubled(s: Seq<char>, i: int, text: Field)
    requires
        stands_at(s, i, doubled(text) + seq![DQUOTE]),
        i + doubled(text).len() + 1 < s.len() ==> s[i + doubled(text).len() + 1] != DQUOTE,
        forall|k: int| 0 <= k < text.len() ==> representable(#[trigger] text[k]),
    ensures
        escaped_rest(s, i) == Ok::<(Field, int), Error>((text, i + doubled(text).len() + 1)),
    decreases text.len(),
{
    let x = doubled(text) + seq![DQUOTE];
    assert(s[i + 0] == x[0]);
    if text.len() == 0 {
        assert(text =~= Seq::<char>::empty());
    } else {
        let rest = text.drop_first();
        let tail = doubled(rest) + seq![DQUOTE];
        assert(representable(text[0]));
        assert forall|k: int| 0 <= k < rest.len() implies representable(#[trigger] rest[k]) by {
            assert(rest[k] == text[k + 1]);
        }
        if text.first() == DQUOTE {
            assert(x =~= seq![DQUOTE, DQUOTE] + tail);
            assert(s[i + 1] == x[1]);
            lemma_stands_at_parts(s, i, seq![DQUOTE, DQUOTE], tail);
            lemma_reads_doubled(s, i + 2, rest);
            assert(escaped_rest(s, i) == prefixed(seq![DQUOTE], escaped_rest(s, i + 2)));
        } else {
            assert(x =~= seq![text.first()] + tail);
            lemma_stands_at_parts(s, i, seq![text.first()], tail);
            lemma_reads_doubled(s, i + 1, rest);
            assert(escaped_rest(s, i) == prefixed(seq![text.first()], escaped_rest(s, i + 1)));
        }
        assert(seq![text.first()] + rest =~= text);
    }
}

/// A written field that a comma, a carriage return or the end of the input
/// follows is read back as it was.
proof fn lemma_reads_field(s: Seq<char>, i: int, w: Written)
    requires
        stands_at(s, i, written_field(w)),
        writable(w),
        i + written_field(w).len() < s.len() ==> s[i + written_field(w).len()] == COMMA || s[i
            + written_field(w).len()] == CR,
    ensures
        field(s, i) == Ok::<(Field, int), Error>((w.text, i + written_field(w).len())),
{
    let x = written_field(w);
    if w.quoted {
        assert(x =~= seq![DQUOTE] + (doubled(w.text) + seq![DQUOTE]));
        assert(s[i + 0] == x[0]);
        lemma_stands_at_parts(s, i, seq![DQUOTE], doubled(w.text) + seq![DQUOTE]);
        lemma_reads_doubled(s, i + 1, w.text);
    } else {
        if x.len() > 0 {
            assert(s[i + 0] == x[0]);
            assert(textdata(w.text[0]));
        }
        lemma_textdata_run(s, i, w.text);
    }
}

/// A written record that a carriage return or the end of the input follows
/// is read back as it was.
proof fn lemma_reads_record(s: Seq<char>, i: int, r: Seq<Written>)
    requires
        stands_at(s, i, written_record(r)),
        writable_record(r),
        i + written_record(r).len() < s.len() ==> s[i + written_record(r).len()] == CR,
    ensures
        record(s, i) == Ok::<(Record, int), Error>(
            (record_content(r), i + written_record(r).len()),
        ),
    decreases r.len(),
{
    let first = r.first();
    let here = written_field(first);
    assert(writable(r[0]));
    if r.len() == 1 {
        lemma_reads_field(s, i, first);
        assert(record_content(r) =~= seq![first.text]);
    } else {
        let rest = r.drop_first();
        let there = written_record(rest);
        assert forall|c: int| 0 <= c < rest.len() implies writable(#[trigger] rest[c]) by {
            assert(rest[c] == r[c + 1]);
        }
        lemma_stands_at_parts(s, i, here + seq![COMMA], there);
        lemma_stands_at_parts(s, i, here, seq![COMMA]);
        assert(s[i + here.len() + 0] == seq![COMMA][0]);
        lemma_reads_field(s, i, first);
        lemma_reads_record(s, i + here.len() + 1, rest);
        assert(record_content(r) =~= seq![first.text] + record_content(rest));
    }
}

/// A written table that reaches to the end of an input is read back as it
/// was, unless the input ends in a line feed.
proof fn lemma_reads_table(s: Seq<char>, i: int, t: Seq<Seq<Written>>)
    requires
        stands_at(s, i, written_table(t)),
        i + written_table(t).len() == s.len(),
        writable_table(t),
        s.len() > 0 ==> s.last() != LF,
    ensures
        records(s, i) == Ok::<(Table, int), Error>((table_content(t), s.len() as int)),
    decreases t.len(),
{
    let first = t.first();
    let here = written_record(first);
    assert(writable_record(t[0]));
    if t.len() == 1 {
        lemma_reads_record(s, i, first);
        assert(table_content(t) =~= seq![record_content(first)]);
    } else {
        let rest = t.drop_first();
        let there = written_table(rest);
        assert forall|r: int| 0 <= r < rest.len() implies writable_record(#[trigger] rest[r]) by {
            assert(rest[r] == t[r + 1]);
        }
        lemma_stands_at_parts(s, i, here + seq![CR, LF], there);
        lemma_stands_at_parts(s, i, here, seq![CR, LF]);
        assert(s[i + here.len() + 0] == seq![CR, LF][0]);
        assert(s[i + here.len() + 1] == seq![CR, LF][1]);
        lemma_reads_record(s, i, first);
        lemma_reads_table(s, i + here.len() + 2, rest);
        assert(table_content(t) =~= seq![record_content(first)] + table_content(rest));
    }
}

/// Parsing reads back what was written. Take a table with at least one
/// record, each record with at least one field, each field either written
/// between quotes and made of what a field can hold, or written without
/// quotes and made of text data. If the text of that table has no white
/// space at either end, so that trimming leaves it as it is, then parsing
/// the text gives the table.
pub proof fn lemma_round_trip(t: Seq<Seq<Written>>)
    requires
        writable_table(t),
        trimmed(written_table(t)) == written_table(t),
    ensures
        csv_of(written_table(t)) == Ok::<Table, Error>(table_content(t)),
{
    let s = written_table(t);
    lemma_trimmed_ends(s);
    lemma_reads_table(s, 0, t);
}

/// Parsing reads back what was written only if trimming leaves the text as
/// it is. Where white space stands at either end of the text of a table,
/// outside quotes, it is lost, and what is read is another table or none.
pub proof fn lemma_round_trip_lost(t: Seq<Seq<Written>>)
    requires
        writable_table(t),
        trimmed(written_table(t)) != written_table(t),
    ensures
        csv_of(written_table(t)) != Ok::<Table, Error>(table_content(t)),
{
    lemma_written_at_cost(t);
    lemma_trimming_spares_quotes(written_table(t));
    lemma_read_at_a_cost(trimmed(written_table(t)));
}

/// Parsing reads back what was written exactly where trimming leaves the
/// text as it is.
pub proof fn lemma_round_trip_exactly(t: Seq<Seq<Written>>)
    requires
        writable_table(t),
    ensures
        csv_of(written_table(t)) == Ok::<Table, Error>(table_content(t)) <==> trimmed(
            written_table(t),
        ) == written_table(t),
{
    if trimmed(written_table(t)) == written_table(t) {
        lemma_round_trip(t);
    } else {
        lemma_round_trip_lost(t);
    }
}

/// The text of a record begins as its first field does and ends as its last
/// field does, where those are quoted.
proof fn lemma_record_in_quotes(r: Seq<Written>)
    requires
        r.len() > 0,
    ensures
        r.first().quoted ==> written_record(r).len() > 0 && written_record(r).first() == DQUOTE,
        r.last().quoted ==> written_record(r).len() > 0 && written_record(r).last() == DQUOTE,
    decreases r.len(),
{
    if r.len() > 1 {
        lemma_record_in_quotes(r.drop_first());
    }
}

/// The text of a table begins as its first field does and ends as its last
/// field does, where those are quoted.
proof fn lemma_table_in_quotes(t: Seq<Seq<Written>>)
    requires
        writable_table(t),
    ensures
        t.first().first().quoted ==> written_table(t).len() > 0 && written_table(t).first()
            == DQUOTE,
        t.last().last().quoted ==> written_table(t).len() > 0 && written_table(t).last()
            == DQUOTE,
    decreases t.len(),
{
    assert(writable_record(t[0]));
    lemma_record_in_quotes(t.first());
    if t.len() > 1 {
        let rest = t.drop_first();
        assert forall|r: int| 0 <= r < rest.len() implies writable_record(#[trigger] rest[r]) by {
            assert(rest[r] == t[r + 1]);
        }
        lemma_table_in_quotes(rest);
    }
}

/// Parsing reads back every table whose first and last field are written
/// between quotes: white space inside those fields is then safe from
/// trimming, whatever the table holds.
pub proof fn lemma_round_trip_in_quotes(t: Seq<Seq<Written>>)
    requires
        writable_table(t),
        t.first().first().quoted,
        t.last().last().quoted,
    ensures
        csv_of(written_table(t)) == Ok::<Table, Error>(table_content(t)),
{
    lemma_table_in_quotes(t);
    lemma_nothing_to_trim(written_table(t));
    lemma_round_trip(t);
}

} // verus!
