//! The `RECORD` file of a wheel: one CSV row per member, with the member's
//! path, the hash of its content and its size.

use vstd::prelude::*;
use crate::decimal::decimal;
use crate::decimal::decimal_string;
use crate::decimal::parse_u64;
use crate::decimal::parsed_u64;
use crate::error::RecordError;
use crate::text::chars_of;
use crate::text::index_of;
use crate::text::lemma_index_of_is;
use crate::text::optional;
use crate::text::strings;

verus! {

/// One row of a `RECORD` file.
#[derive(Debug, Clone)]
pub struct RecordEntry {
    pub path: String,
    pub hash: Option<String>,
    pub size: Option<u64>,
}

/// What a `RecordEntry` holds, as plain values.
pub struct RecordEntryView {
    pub path: Seq<char>,
    pub hash: Option<Seq<char>>,
    pub size: Option<u64>,
}

impl View for RecordEntry {
    type V = RecordEntryView;

    open spec fn view(&self) -> RecordEntryView {
        RecordEntryView { path: self.path@, hash: optional(self.hash), size: self.size }
    }
}

/// A `RECORD` file: its rows in order.
#[derive(Debug, Clone)]
pub struct Record {
    pub entries: Vec<RecordEntry>,
}

impl View for Record {
    type V = Seq<RecordEntryView>;

    open spec fn view(&self) -> Seq<RecordEntryView> {
        self.entries@.map_values(|e: RecordEntry| e@)
    }
}

/// A table of texts: rows of fields.
pub type Table = Seq<Seq<Seq<char>>>;

/// The views of the rows of a table held as strings.
pub open spec fn table_of(rows: Seq<Vec<String>>) -> Table {
    rows.map_values(|r: Vec<String>| strings(r@))
}

/// What the CSV reader makes of a text: its rows, or the message of its error.
pub uninterp spec fn csv_rows(text: Seq<char>) -> Result<Table, Seq<char>>;

/// The CSV text that the writer makes of a table.
pub uninterp spec fn csv_text(rows: Table) -> Seq<char>;

/// The field of a row at `i`, empty where the row is shorter.
pub open spec fn field(row: Seq<Seq<char>>, i: int) -> Seq<char> {
    if 0 <= i < row.len() {
        row[i]
    } else {
        Seq::empty()
    }
}

/// The entry that a row states: its first field is the path; the second is
/// the hash, absent where empty; the third is the size, absent where it is
/// empty or no decimal number that a `u64` holds.
pub open spec fn entry_of(row: Seq<Seq<char>>) -> RecordEntryView {
    RecordEntryView {
        path: field(row, 0),
        hash: if field(row, 1).len() > 0 {
            Some(field(row, 1))
        } else {
            None
        },
        size: if field(row, 2).len() > 0 {
            parsed_u64(field(row, 2))
        } else {
            None
        },
    }
}

/// The entries that a table states: one per row, without the rows whose path
/// is empty.
pub open spec fn entries_of(rows: Table) -> Seq<RecordEntryView>
    decreases rows.len(),
{
    if rows.len() == 0 {
        Seq::empty()
    } else {
        let rest = entries_of(rows.drop_first());
        if field(rows[0], 0).len() > 0 {
            seq![entry_of(rows[0])] + rest
        } else {
            rest
        }
    }
}

/// The row that states an entry: three fields, an absent hash or size being
/// an empty field.
pub open spec fn row_of(e: RecordEntryView) -> Seq<Seq<char>> {
    seq![
        e.path,
        match e.hash {
            Some(h) => h,
            None => Seq::empty(),
        },
        match e.size {
            Some(n) => decimal(n as nat),
            None => Seq::empty(),
        },
    ]
}

/// The table that states a record.
pub open spec fn rows_of(entries: Seq<RecordEntryView>) -> Table {
    entries.map_values(|e: RecordEntryView| row_of(e))
}

/// The paths of the entries.
pub open spec fn paths_of(entries: Seq<RecordEntryView>) -> Seq<Seq<char>> {
    entries.map_values(|e: RecordEntryView| e.path)
}

/// The first entry with that path, if there is one.
pub open spec fn found(entries: Seq<RecordEntryView>, path: Seq<char>) -> Option<RecordEntryView> {
    let i = index_of(paths_of(entries), path) as int;
    if i < entries.len() {
        Some(entries[i])
    } else {
        None
    }
}

/// The reader of the `csv` crate, set to take the first row as data and to
/// accept rows of any width, run over `content` to its end: the rows that it
/// yields, or the text of the first error.
#[verifier::external_body]
fn csv_read(content: &str) -> (r: Result<Vec<Vec<String>>, String>)
    ensures
        match r {
            Ok(rows) => csv_rows(content@) == Ok::<Table, Seq<char>>(table_of(rows@)),
            Err(message) => csv_rows(content@) == Err::<Table, Seq<char>>(message@),
        },
{
    let mut builder = csv::ReaderBuilder::new();
    builder.has_headers(false).flexible(true);
    let mut reader = builder.from_reader(content.as_bytes());
    let mut rows: Vec<Vec<String>> = Vec::new();
    for row in reader.records() {
        match row {
            Ok(fields) => rows.push(fields.iter().map(|f| f.to_string()).collect()),
            Err(e) => return Err(e.to_string()),
        }
    }
    Ok(rows)
}

/// The writer of the `csv` crate with its default settings, given the rows
/// one by one: the text that it has written at the end. The writer refuses
/// rows of unequal width, so every row has three fields.
#[verifier::external_body]
fn csv_write(rows: &Vec<Vec<String>>) -> (text: String)
    requires
        forall|i: int| 0 <= i < rows@.len() ==> (#[trigger] rows@[i])@.len() == 3,
    ensures
        text@ == csv_text(table_of(rows@)),
{
    let mut writer = csv::Writer::from_writer(Vec::new());
    for row in rows {
        writer.write_record(row).unwrap();
    }
    String::from_utf8(writer.into_inner().unwrap()).unwrap()
}

/// A copy of a text that may be absent.
pub(crate) fn clone_optional(o: &Option<String>) -> (r: Option<String>)
    ensures
        optional(r) == optional(*o),
{
    match o {
        Some(s) => Some(s.clone()),
        None => None,
    }
}

impl RecordEntry {
    /// An entry of these three values.
    pub fn new(path: String, hash: Option<String>, size: Option<u64>) -> (e: Self)
        ensures
            e.path == path,
            e.hash == hash,
            e.size == size,
    {
        RecordEntry { path, hash, size }
    }

    /// The entry that a row of fields states.
    fn from_row(row: &Vec<String>) -> (e: Self)
        ensures
            e@ == entry_of(strings(row@)),
    {
        let path = if row.len() > 0 {
            row[0].clone()
        } else {
            String::new()
        };
        let hash = if row.len() > 1 && !row[1].as_str().is_empty() {
            Some(row[1].clone())
        } else {
            None
        };
        let size = if row.len() > 2 && !row[2].as_str().is_empty() {
            let digits = chars_of(row[2].as_str());
            parse_u64(&digits)
        } else {
            None
        };
        RecordEntry { path, hash, size }
    }

    /// The row of fields that states the entry.
    fn to_row(&self) -> (row: Vec<String>)
        ensures
            strings(row@) == row_of(self@),
            row@.len() == 3,
    {
        let mut row: Vec<String> = Vec::new();
        row.push(self.path.clone());
        row.push(
            match &self.hash {
                Some(h) => h.clone(),
                None => String::new(),
            },
        );
        row.push(
            match self.size {
                Some(n) => decimal_string(n),
                None => String::new(),
            },
        );
        assert(strings(row@) == row_of(self@));
        row
    }
}

impl Default for Record {
    fn default() -> (r: Self)
        ensures
            r@ == Seq::<RecordEntryView>::empty(),
    {
        let r = Record { entries: Vec::new() };
        assert(r@ == Seq::<RecordEntryView>::empty());
        r
    }
}

impl Record {
    /// The record that a table of fields states.
    pub fn from_rows(rows: &Vec<Vec<String>>) -> (record: Record)
        ensures
            record@ == entries_of(table_of(rows@)),
    {
        let ghost all = table_of(rows@);
        let mut entries: Vec<RecordEntry> = Vec::new();
        let mut i: usize = 0;
        assert(all.skip(0) == all);
        let ghost mut done: Seq<RecordEntryView> = Seq::empty();
        while i < rows.len()
            invariant
                i <= rows@.len(),
                all == table_of(rows@),
                done == entries@.map_values(|e: RecordEntry| e@),
                entries_of(all) == done + entries_of(all.skip(i as int)),
            decreases rows@.len() - i,
        {
            let ghost rest = all.skip(i as int);
            assert(rest[0] == strings(rows@[i as int]@));
            assert(rest.drop_first() == all.skip(i + 1));
            let row = &rows[i];
            if row.len() > 0 && !row[0].as_str().is_empty() {
                let entry = RecordEntry::from_row(row);
                entries.push(entry);
                proof {
                    let grown = done.push(entry@);
                    assert(grown == entries@.map_values(|e: RecordEntry| e@));
                    assert(done + (seq![entry@] + entries_of(all.skip(i + 1))) == grown
                        + entries_of(all.skip(i + 1)));
                    done = grown;
                }
            }
            i += 1;
        }
        assert(all.skip(rows@.len() as int) == Seq::<Seq<Seq<char>>>::empty());
        assert(entries_of(all) == done);
        Record { entries }
    }

    /// The table of fields that states the record.
    pub fn to_rows(&self) -> (rows: Vec<Vec<String>>)
        ensures
            table_of(rows@) == rows_of(self@),
            forall|i: int| 0 <= i < rows@.len() ==> (#[trigger] rows@[i])@.len() == 3,
    {
        let mut rows: Vec<Vec<String>> = Vec::new();
        let mut i: usize = 0;
        while i < self.entries.len()
            invariant
                i <= self.entries@.len(),
                table_of(rows@) == rows_of(self@.take(i as int)),
                forall|k: int| 0 <= k < rows@.len() ==> (#[trigger] rows@[k])@.len() == 3,
            decreases self.entries@.len() - i,
        {
            let ghost before = table_of(rows@);
            let row = self.entries[i].to_row();
            rows.push(row);
            assert(table_of(rows@) == before.push(strings(row@)));
            assert(rows_of(self@.take(i + 1)) == rows_of(self@.take(i as int)).push(
                row_of(self@[i as int]),
            ));
            i += 1;
        }
        assert(self@.take(self.entries@.len() as int) == self@);
        rows
    }

    /// Reads a `RECORD` text: the entries that the rows of the CSV reader
    /// state, or `InvalidCsv` with the reader's message.
    pub fn parse(content: &str) -> (result: Result<Record, RecordError>)
        ensures
            match csv_rows(content@) {
                Ok(rows) => result matches Ok(record) && record@ == entries_of(rows),
                Err(message) => result matches Err(RecordError::InvalidCsv(m)) && m@ == message,
            },
    {
        match csv_read(content) {
            Ok(rows) => Ok(Record::from_rows(&rows)),
            Err(message) => Err(RecordError::InvalidCsv(message)),
        }
    }

    /// Writes the record as CSV text, one row of three fields per entry.
    pub fn serialize(&self) -> (text: String)
        ensures
            text@ == csv_text(rows_of(self@)),
    {
        let rows = self.to_rows();
        csv_write(&rows)
    }

    /// The position of the first entry with that path, or the number of entries.
    fn position(&self, path: &str) -> (i: usize)
        ensures
            i == index_of(paths_of(self@), path@),
            i <= self.entries@.len(),
    {
        let ghost paths = paths_of(self@);
        let wanted = chars_of(path);
        let mut i: usize = 0;
        while i < self.entries.len()
            invariant
                i <= self.entries@.len(),
                paths == paths_of(self@),
                wanted@ == path@,
                forall|j: int| 0 <= j < i ==> paths[j] != path@,
            decreases self.entries@.len() - i,
        {
            let here = chars_of(self.entries[i].path.as_str());
            if crate::text::same_chars(&here, &wanted) {
                proof {
                    lemma_index_of_is(paths, path@, i as int);
                }
                return i;
            }
            i += 1;
        }
        proof {
            lemma_index_of_is(paths, path@, i as int);
        }
        i
    }

    /// The first entry with that path.
    pub fn find(&self, path: &str) -> (r: Option<&RecordEntry>)
        ensures
            match r {
                Some(e) => found(self@, path@) == Some(e@) && index_of(paths_of(self@), path@)
                    < self.entries@.len() && *e == self.entries@[index_of(
                    paths_of(self@),
                    path@,
                ) as int],
                None => found(self@, path@) is None,
            },
    {
        let i = self.position(path);
        if i < self.entries.len() {
            Some(&self.entries[i])
        } else {
            None
        }
    }

    /// The first entry with that path, to be changed in place.
    pub fn find_mut(&mut self, path: &str) -> (r: Option<&mut RecordEntry>)
        ensures
            match r {
                Some(e) => {
                    let i = index_of(paths_of(old(self)@), path@) as int;
                    &&& i < old(self).entries@.len()
                    &&& *e == old(self).entries@[i]
                    &&& final(self).entries@ == old(self).entries@.update(i, *final(e))
                },
                None => found(old(self)@, path@) is None && *final(self) == *old(self),
            },
    {
        let i = self.position(path);
        if i < self.entries.len() {
            Some(&mut self.entries[i])
        } else {
            None
        }
    }
}

} // verus!
