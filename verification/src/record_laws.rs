//! Laws of the `RECORD` codec: the rows that state a record state that record.

use vstd::prelude::*;
use crate::decimal::decimal;
use crate::decimal::lemma_decimal_digits;
use crate::decimal::lemma_decimal_roundtrip;
use crate::record::entries_of;
use crate::record::entry_of;
use crate::record::field;
use crate::record::row_of;
use crate::record::rows_of;
use crate::record::RecordEntryView;
use crate::record::Table;

verus! {

/// An entry as reading gives it: it has a path, and its hash is not empty
/// where it has one.
pub open spec fn is_listable(e: RecordEntryView) -> bool {
    e.path.len() > 0 && (e.hash matches Some(h) ==> h.len() > 0)
}

/// Whether every entry is listable.
pub open spec fn all_listable(entries: Seq<RecordEntryView>) -> bool {
    forall|i: int| 0 <= i < entries.len() ==> is_listable(#[trigger] entries[i])
}

/// The row that states a listable entry states that entry.
pub proof fn lemma_row_roundtrip(e: RecordEntryView)
    requires
        is_listable(e),
    ensures
        entry_of(row_of(e)) == e,
        field(row_of(e), 0).len() > 0,
{
    let row = row_of(e);
    assert(field(row, 0) == e.path);
    match e.size {
        Some(n) => {
            lemma_decimal_digits(n as nat);
            lemma_decimal_roundtrip(n);
            assert(field(row, 2) == decimal(n as nat));
        },
        None => {
            assert(field(row, 2) == Seq::<char>::empty());
        },
    }
    match e.hash {
        Some(h) => {
            assert(field(row, 1) == h);
        },
        None => {
            assert(field(row, 1) == Seq::<char>::empty());
        },
    }
}

/// The table that states listable entries states those entries.
pub proof fn lemma_rows_roundtrip(entries: Seq<RecordEntryView>)
    requires
        all_listable(entries),
    ensures
        entries_of(rows_of(entries)) == entries,
    decreases entries.len(),
{
    let rows = rows_of(entries);
    if entries.len() > 0 {
        let rest = entries.drop_first();
        assert forall|i: int| 0 <= i < rest.len() implies is_listable(#[trigger] rest[i]) by {
            assert(rest[i] == entries[i + 1]);
        }
        lemma_rows_roundtrip(rest);
        lemma_row_roundtrip(entries[0]);
        assert(rows[0] == row_of(entries[0]));
        assert(rows.drop_first() == rows_of(rest));
        assert(seq![entries[0]] + rest == entries);
    } else {
        assert(entries_of(rows) == entries);
    }
}

/// The entries that a table states are listable.
pub proof fn lemma_entries_listable(rows: Table)
    ensures
        all_listable(entries_of(rows)),
    decreases rows.len(),
{
    if rows.len() > 0 {
        let rest = entries_of(rows.drop_first());
        lemma_entries_listable(rows.drop_first());
        if field(rows[0], 0).len() > 0 {
            let all = seq![entry_of(rows[0])] + rest;
            assert forall|i: int| 0 <= i < all.len() implies is_listable(#[trigger] all[i]) by {
                if i > 0 {
                    assert(all[i] == rest[i - 1]);
                }
            }
        }
    }
}

/// Reading, stating and reading again: the entries that a table states are
/// stated by a table that states the same entries.
pub proof fn lemma_entries_roundtrip(rows: Table)
    ensures
        entries_of(rows_of(entries_of(rows))) == entries_of(rows),
{
    lemma_entries_listable(rows);
    lemma_rows_roundtrip(entries_of(rows));
}

} // verus!
