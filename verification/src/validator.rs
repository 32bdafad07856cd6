//! The validation of a wheel: whether the members of the archive and the
//! rows of its record agree.

use vstd::prelude::*;
use std::io::Cursor;
use zip::ZipArchive;
use crate::archive::archive_len;
use crate::archive::archive_members;
use crate::archive::archive_name;
use crate::archive::archive_read;
use crate::archive::find_member;
use crate::archive::archive_source;
use crate::archive::zip_fault;
use crate::reader::dist_info_in;
use crate::reader::dist_info_of;
use crate::writer::dist_info_file;
use crate::writer::dist_info_path;
use crate::archive::names_of;
use crate::archive::Members;
use crate::error::ValidationError;
use crate::error::ValidationResult;
use crate::error::WheelError;
use crate::hash::content_hash;
use crate::hash::hash_content;
use crate::record::Record;
use crate::record::RecordEntryView;
use crate::text::ends_with_text;
use crate::text::index_of;

verus! {

/// What a `ValidationError` holds, as plain texts.
pub enum Finding {
    HashMismatch { path: Seq<char>, expected: Seq<char>, actual: Seq<char> },
    MissingFile { path: Seq<char> },
    ExtraFile { path: Seq<char> },
}

impl View for ValidationError {
    type V = Finding;

    open spec fn view(&self) -> Finding {
        match self {
            ValidationError::HashMismatch { path, expected, actual } => Finding::HashMismatch {
                path: path@,
                expected: expected@,
                actual: actual@,
            },
            ValidationError::MissingFile { path } => Finding::MissingFile { path: path@ },
            ValidationError::ExtraFile { path } => Finding::ExtraFile { path: path@ },
        }
    }
}

impl View for ValidationResult {
    type V = Seq<Finding>;

    open spec fn view(&self) -> Seq<Finding> {
        self.errors@.map_values(|e: ValidationError| e@)
    }
}

/// Whether a member name is that of a directory.
pub open spec fn is_directory(name: Seq<char>) -> bool {
    name.len() > 0 && name.last() == '/'
}

/// Whether the archive has a file, not a directory, of that name.
pub open spec fn has_file(members: Members, path: Seq<char>) -> bool {
    !is_directory(path) && index_of(names_of(members), path) < members.len()
}

/// The content of the member of that name.
pub open spec fn file_data(members: Members, path: Seq<char>) -> Seq<u8> {
    members[index_of(names_of(members), path) as int].1
}

/// What one row of the record gives rise to. A row without a hash is not
/// checked. A row whose file the archive lacks is a missing file. A row whose
/// hash is not, letter for letter, the hash of the file's content is a mismatch.
pub open spec fn row_findings(members: Members, row: RecordEntryView) -> Seq<Finding> {
    match row.hash {
        None => Seq::empty(),
        Some(expected) => if !has_file(members, row.path) {
            seq![Finding::MissingFile { path: row.path }]
        } else if content_hash(file_data(members, row.path)) != expected {
            seq![
                Finding::HashMismatch {
                    path: row.path,
                    expected: expected,
                    actual: content_hash(file_data(members, row.path)),
                },
            ]
        } else {
            Seq::empty()
        },
    }
}

/// The findings of the rows, in the order of the record.
pub open spec fn record_findings(members: Members, rows: Seq<RecordEntryView>) -> Seq<Finding>
    decreases rows.len(),
{
    if rows.len() == 0 {
        Seq::empty()
    } else {
        record_findings(members, rows.drop_last()) + row_findings(members, rows.last())
    }
}

/// Whether a row lists that name.
pub open spec fn is_covered(rows: Seq<RecordEntryView>, name: Seq<char>) -> bool {
    exists|j: int| 0 <= j < rows.len() && (#[trigger] rows[j]).path == name
}

/// Whether a name is that of the `RECORD` file of a wheel: the file `RECORD`
/// right in the `.dist-info` directory.
pub open spec fn is_record_file(name: Seq<char>) -> bool {
    dist_info_of(name) matches Some(prefix) && name == dist_info_path(prefix, "RECORD"@)
}

/// What one member of the archive gives rise to: a file that no row lists
/// is an extra file, unless it is the `RECORD` file.
pub open spec fn member_findings(rows: Seq<RecordEntryView>, name: Seq<char>) -> Seq<Finding> {
    if is_directory(name) || is_covered(rows, name) || is_record_file(name) {
        Seq::empty()
    } else {
        seq![Finding::ExtraFile { path: name }]
    }
}

/// The findings of the members, in the order of the archive.
pub open spec fn extra_findings(names: Seq<Seq<char>>, rows: Seq<RecordEntryView>) -> Seq<Finding>
    decreases names.len(),
{
    if names.len() == 0 {
        Seq::empty()
    } else {
        extra_findings(names.drop_last(), rows) + member_findings(rows, names.last())
    }
}

/// All findings of a validation: those of the rows, then those of the members.
pub open spec fn findings(members: Members, rows: Seq<RecordEntryView>) -> Seq<Finding> {
    record_findings(members, rows) + extra_findings(names_of(members), rows)
}

/// Whether every file that a validation has to hash can be unpacked: the
/// files, of the archive that the bytes `source` hold, that a row with a
/// hash lists.
pub open spec fn can_check(source: Seq<u8>, members: Members, rows: Seq<RecordEntryView>) -> bool {
    forall|j: int|
        0 <= j < rows.len() && (#[trigger] rows[j]).hash is Some && has_file(members, rows[j].path)
            ==> !zip_fault(source, index_of(names_of(members), rows[j].path) as int)
}

/// Whether `name` is that of the `RECORD` file of a wheel.
fn names_record_file(name: &String) -> (r: bool)
    ensures
        r == is_record_file(name@),
{
    match dist_info_in(name.as_str()) {
        Some(prefix) => {
            let path = dist_info_file(prefix.as_str(), "RECORD");
            path == *name
        },
        None => false,
    }
}

/// Whether `name` is that of a directory.
fn names_directory(name: &str) -> (r: bool)
    ensures
        r == is_directory(name@),
{
    let r = ends_with_text(name, "/");
    proof {
        reveal_strlit("/");
        let p = "/"@;
        if name@.len() > 0 {
            assert(name@.subrange(name@.len() - 1, name@.len() as int) == seq![name@.last()]);
            assert(p == seq!['/']);
            if name@.last() == '/' {
                assert(name@.subrange(name@.len() - 1, name@.len() as int) == p);
            } else {
                assert(name@.subrange(name@.len() - 1, name@.len() as int)[0] != p[0]);
            }
        }
    }
    r
}

/// Whether a row lists `name`.
fn covers(record: &Record, name: &String) -> (r: bool)
    ensures
        r == is_covered(record@, name@),
{
    let mut j: usize = 0;
    while j < record.entries.len()
        invariant
            j <= record.entries@.len(),
            forall|k: int| 0 <= k < j ==> (#[trigger] record@[k]).path != name@,
        decreases record.entries@.len() - j,
    {
        if record.entries[j].path == *name {
            assert(record@[j as int].path == name@);
            return true;
        }
        j += 1;
    }
    false
}

/// Validates an archive against a record. It succeeds exactly where every
/// file that a row with a hash lists can be unpacked, and then the result
/// holds exactly the findings: first those of the rows, in the order of the
/// record, then the extra files, in the order of the archive. Where the
/// first such file that cannot be unpacked is met, it fails with the error
/// of the archive. The archive stays as it is.
pub fn validate_wheel(archive: &mut ZipArchive<Cursor<Vec<u8>>>, record: &Record) -> (r: Result<
    ValidationResult,
    WheelError,
>)
    ensures
        archive_members(*final(archive)) == archive_members(*old(archive)),
        archive_source(*final(archive)) == archive_source(*old(archive)),
        r is Ok <==> can_check(
            archive_source(*old(archive)),
            archive_members(*old(archive)),
            record@,
        ),
        r matches Ok(result) ==> result@ == findings(archive_members(*old(archive)), record@),
        r matches Err(e) ==> e is Zip || e is Io,
{
    let ghost members = archive_members(*archive);
    let mut errors: Vec<ValidationError> = Vec::new();
    let ghost mut found: Seq<Finding> = Seq::empty();
    let mut i: usize = 0;
    while i < record.entries.len()
        invariant
            i <= record.entries@.len(),
            archive_members(*archive) == members,
            archive_members(*old(archive)) == members,
            archive_source(*archive) == archive_source(*old(archive)),
            forall|j: int|
                0 <= j < i && (#[trigger] record@[j]).hash is Some && has_file(
                    members,
                    record@[j].path,
                ) ==> !zip_fault(
                    archive_source(*old(archive)),
                    index_of(names_of(members), record@[j].path) as int,
                ),
            found == errors@.map_values(|e: ValidationError| e@),
            found == record_findings(members, record@.take(i as int)),
        decreases record.entries@.len() - i,
    {
        let entry = &record.entries[i];
        proof {
            assert(record@.take(i + 1).drop_last() == record@.take(i as int));
            assert(record@.take(i + 1).last() == entry@);
        }
        match &entry.hash {
            None => {
                assert(found + Seq::<Finding>::empty() == found);
            },
            Some(expected) => {
                let place = if names_directory(entry.path.as_str()) {
                    None
                } else {
                    find_member(archive, entry.path.as_str())
                };
                match place {
                    None => {
                        let e = ValidationError::MissingFile { path: entry.path.clone() };
                        errors.push(e);
                        proof {
                            assert(found.push(e@) == errors@.map_values(|e: ValidationError| e@));
                            assert(found + seq![e@] == found.push(e@));
                            found = found.push(e@);
                        }
                    },
                    Some(index) => {
                        let content = match archive_read(archive, index) {
                            Ok(content) => content,
                            Err(e) => {
                                assert(record@[i as int].hash is Some && has_file(
                                    members,
                                    record@[i as int].path,
                                ));
                                assert(!can_check(
                                    archive_source(*old(archive)),
                                    members,
                                    record@,
                                ));
                                return Err(e);
                            },
                        };
                        let actual = hash_content(content.as_slice());
                        if actual != *expected {
                            let e = ValidationError::HashMismatch {
                                path: entry.path.clone(),
                                expected: expected.clone(),
                                actual: actual,
                            };
                            errors.push(e);
                            proof {
                                assert(found.push(e@) == errors@.map_values(
                                    |e: ValidationError| e@,
                                ));
                                assert(found + seq![e@] == found.push(e@));
                                found = found.push(e@);
                            }
                        } else {
                            assert(found + Seq::<Finding>::empty() == found);
                        }
                    },
                }
            },
        }
        i += 1;
    }
    assert(record@.take(record.entries@.len() as int) == record@);
    let ghost by_rows = found;
    let ghost names = names_of(members);
    let count = archive_len(archive);
    let mut k: usize = 0;
    assert(by_rows + Seq::<Finding>::empty() == by_rows);
    while k < count
        invariant
            k <= count == members.len(),
            archive_members(*archive) == members,
            archive_source(*archive) == archive_source(*old(archive)),
            names == names_of(members),
            found == errors@.map_values(|e: ValidationError| e@),
            found == by_rows + extra_findings(names.take(k as int), record@),
        decreases count - k,
    {
        let name = archive_name(archive, k);
        proof {
            assert(names.take(k + 1).drop_last() == names.take(k as int));
            assert(names.take(k + 1).last() == name@);
        }
        if !names_directory(name.as_str()) && !covers(record, &name) && !names_record_file(&name) {
            let e = ValidationError::ExtraFile { path: name };
            errors.push(e);
            proof {
                assert(found.push(e@) == errors@.map_values(|e: ValidationError| e@));
                let sofar = extra_findings(names.take(k as int), record@);
                assert(by_rows + (sofar + seq![e@]) == (by_rows + sofar).push(e@));
                found = found.push(e@);
            }
        } else {
            let ghost sofar = extra_findings(names.take(k as int), record@);
            assert(sofar + Seq::<Finding>::empty() == sofar);
        }
        k += 1;
    }
    assert(names.take(count as int) == names);
    Ok(ValidationResult { errors })
}

} // verus!
