//! How a table is written as text.
//!
//! A field is written as it is or between double quotes, with its own double
//! quotes doubled; the fields of a record with commas between them; the
//! records with a carriage return and a line feed between them.

use vstd::prelude::*;
use crate::chars::{representable, textdata, COMMA, CR, DQUOTE, LF};
use crate::grammar::{Field, Record, Table};

verus! {

/// A field as it is written: its content, and whether quotes stand round it.
pub struct Written {
    pub text: Field,
    pub quoted: bool,
}

/// `w` can be written so that it can be read back: quoted, it holds only
/// what a field can hold; without quotes, only text data.
pub open spec fn writable(w: Written) -> bool {
    forall|k: int|
        0 <= k < w.text.len() ==> if w.quoted {
            representable(#[trigger] w.text[k])
        } else {
            textdata(w.text[k])
        }
}

/// Every field of `t` is writable, no record is without fields, and there is
/// at least one record.
pub open spec fn writable_table(t: Seq<Seq<Written>>) -> bool {
    &&& t.len() > 0
    &&& forall|r: int| 0 <= r < t.len() ==> writable_record(#[trigger] t[r])
}

/// Every field of `r` is writable, and there is at least one.
pub open spec fn writable_record(r: Seq<Written>) -> bool {
    &&& r.len() > 0
    &&& forall|c: int| 0 <= c < r.len() ==> writable(#[trigger] r[c])
}

/// `text` with each double quote written twice.
pub open spec fn doubled(text: Field) -> Seq<char>
    decreases text.len(),
{
    if text.len() == 0 {
        Seq::empty()
    } else if text.first() == DQUOTE {
        seq![DQUOTE, DQUOTE] + doubled(text.drop_first())
    } else {
        seq![text.first()] + doubled(text.drop_first())
    }
}

/// The text of a field: as it is, or between quotes with its own quotes
/// doubled.
pub open spec fn written_field(w: Written) -> Seq<char> {
    if w.quoted {
        seq![DQUOTE] + doubled(w.text) + seq![DQUOTE]
    } else {
        w.text
    }
}

/// The text of a record: its fields with a comma between each two.
pub open spec fn written_record(r: Seq<Written>) -> Seq<char>
    decreases r.len(),
{
    if r.len() == 0 {
        Seq::empty()
    } else if r.len() == 1 {
        written_field(r.first())
    } else {
        written_field(r.first()) + seq![COMMA] + written_record(r.drop_first())
    }
}

/// The text of a table: its records with a carriage return and a line feed
/// between each two.
pub open spec fn written_table(t: Seq<Seq<Written>>) -> Seq<char>
    decreases t.len(),
{
    if t.len() == 0 {
        Seq::empty()
    } else if t.len() == 1 {
        written_record(t.first())
    } else {
        written_record(t.first()) + seq![CR, LF] + written_table(t.drop_first())
    }
}

/// The fields that `r` holds, without the way they are written.
pub open spec fn record_content(r: Seq<Written>) -> Record {
    r.map_values(|w: Written| w.text)
}

/// The table that `t` holds, without the way it is written.
pub open spec fn table_content(t: Seq<Seq<Written>>) -> Table {
    t.map_values(|r: Seq<Written>| record_content(r))
}

} // verus!
