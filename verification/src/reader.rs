//! Reading a wheel: the archive, its `.dist-info` directory and the three
//! descriptors in it.

use vstd::prelude::*;
use std::io::Cursor;
use zip::ZipArchive;
use crate::archive::archive_len;
use crate::archive::archive_members;
use crate::archive::archive_name;
use crate::archive::archive_open;
use crate::archive::archive_source;
use crate::archive::cursor_bytes;
use crate::archive::zip_archive;
use crate::archive::member_text;
use crate::archive::names_of;
use crate::archive::read_text;
use crate::archive::Members;
use crate::error::WheelError;
use crate::header_laws::distinct_keys;
use crate::metadata::parsed;
use crate::metadata::Metadata;
use crate::metadata::MetadataView;
use crate::record::csv_rows;
use crate::record::entries_of;
use crate::record::Record;
use crate::record::RecordEntryView;
use crate::text::chars_of;
use crate::text::contains;
use crate::text::find_text;
use crate::text::first_occurrence;
use crate::text::lemma_first_occurrence_unique;
use crate::text::occurs_at;
use crate::text::optional;
use crate::text::push_text;
use crate::text::string_of_range;
use crate::wheel_info::parsed_wheel;
use crate::wheel_info::WheelInfo;
use crate::wheel_info::WheelInfoView;
use crate::writer::dist_info_file;
use crate::writer::dist_info_path;

verus! {

/// The `.dist-info` directory that a member name lies in: what stands before
/// the first `.dist-info/` in it, and `.dist-info`.
pub open spec fn dist_info_of(name: Seq<char>) -> Option<Seq<char>> {
    if contains(name, ".dist-info/"@) {
        let at = choose|at: int| first_occurrence(name, ".dist-info/"@, at);
        Some(name.take(at) + ".dist-info"@)
    } else {
        None
    }
}

/// Whether `prefix` is the one `.dist-info` directory of the archive: some
/// member lies in it, and none lies in another.
pub open spec fn is_dist_info(names: Seq<Seq<char>>, prefix: Seq<char>) -> bool {
    &&& exists|i: int| 0 <= i < names.len() && dist_info_of(#[trigger] names[i]) == Some(prefix)
    &&& forall|i: int|
        0 <= i < names.len() && dist_info_of(#[trigger] names[i]) is Some ==> dist_info_of(names[i])
            == Some(prefix)
}

/// The metadata that the archive states, where it has a readable `METADATA`
/// file with a name and a version.
pub open spec fn metadata_in(source: Seq<u8>, members: Members, prefix: Seq<char>) -> Option<
    MetadataView,
> {
    match member_text(source, members, dist_info_path(prefix, "METADATA"@)) {
        Some(text) => if parsed(text).name.len() > 0 && parsed(text).version.len() > 0 {
            Some(parsed(text))
        } else {
            None
        },
        None => None,
    }
}

/// The record that the archive states, where it has a readable `RECORD` file.
pub open spec fn record_in(source: Seq<u8>, members: Members, prefix: Seq<char>) -> Option<
    Seq<RecordEntryView>,
> {
    match member_text(source, members, dist_info_path(prefix, "RECORD"@)) {
        Some(text) => match csv_rows(text) {
            Ok(rows) => Some(entries_of(rows)),
            Err(_) => None,
        },
        None => None,
    }
}

/// The `WHEEL` content that the archive states, where it has a readable and
/// well-formed `WHEEL` file.
pub open spec fn wheel_info_in(source: Seq<u8>, members: Members, prefix: Seq<char>) -> Option<
    WheelInfoView,
> {
    match member_text(source, members, dist_info_path(prefix, "WHEEL"@)) {
        Some(text) => match parsed_wheel(text) {
            Ok(w) => Some(w),
            Err(_) => None,
        },
        None => None,
    }
}

/// The `.dist-info` directory that `name` lies in, if it lies in one.
pub fn dist_info_in(name: &str) -> (r: Option<String>)
    ensures
        optional(r) == dist_info_of(name@),
{
    let v = chars_of(name);
    let marker = chars_of(".dist-info/");
    match find_text(&v, &marker) {
        Some(at) => {
            proof {
                assert(occurs_at(name@, ".dist-info/"@, at as int));
                let chosen = choose|c: int| first_occurrence(name@, ".dist-info/"@, c);
                lemma_first_occurrence_unique(name@, ".dist-info/"@, at as int, chosen);
                assert(v@.subrange(0, at as int) == name@.take(at as int));
            }
            let mut prefix = string_of_range(&v, 0, at);
            push_text(&mut prefix, ".dist-info");
            Some(prefix)
        },
        None => None,
    }
}

/// The one `.dist-info` directory of the archive. Fails with `InvalidWheel`
/// where no member lies in such a directory, or where members lie in
/// different ones.
pub fn find_dist_info_prefix(archive: &ZipArchive<Cursor<Vec<u8>>>) -> (r: Result<
    String,
    WheelError,
>)
    ensures
        match r {
            Ok(prefix) => is_dist_info(names_of(archive_members(*archive)), prefix@),
            Err(WheelError::InvalidWheel(_)) => forall|p: Seq<char>|
                !is_dist_info(names_of(archive_members(*archive)), p),
            Err(_) => false,
        },
{
    let ghost names = names_of(archive_members(*archive));
    let count = archive_len(archive);
    let mut found: Option<String> = None;
    let mut i: usize = 0;
    while i < count
        invariant
            i <= count == names.len(),
            names == names_of(archive_members(*archive)),
            match found {
                None => forall|j: int| 0 <= j < i ==> dist_info_of(#[trigger] names[j]) is None,
                Some(p) => {
                    &&& exists|j: int| 0 <= j < i && dist_info_of(#[trigger] names[j]) == Some(p@)
                    &&& forall|j: int|
                        0 <= j < i && dist_info_of(#[trigger] names[j]) is Some ==> dist_info_of(
                            names[j],
                        ) == Some(p@)
                },
            },
        decreases count - i,
    {
        let name = archive_name(archive, i);
        match dist_info_in(name.as_str()) {
            None => {},
            Some(here) => {
                match found {
                    None => {
                        assert(dist_info_of(names[i as int]) == Some(here@));
                        found = Some(here);
                    },
                    Some(before) => {
                        if before != here {
                            proof {
                                let j = choose|j: int|
                                    0 <= j < i && dist_info_of(#[trigger] names[j]) == Some(
                                        before@,
                                    );
                                assert forall|p: Seq<char>| !is_dist_info(names, p) by {
                                    if is_dist_info(names, p) {
                                        assert(dist_info_of(names[j]) == Some(p));
                                        assert(dist_info_of(names[i as int]) == Some(p));
                                    }
                                }
                            }
                            return Err(
                                WheelError::InvalidWheel(
                                    "Multiple .dist-info directories found".to_owned(),
                                ),
                            );
                        }
                        found = Some(before);
                    },
                }
            },
        }
        i += 1;
    }
    match found {
        Some(prefix) => Ok(prefix),
        None => Err(WheelError::InvalidWheel("No .dist-info directory found".to_owned())),
    }
}

/// A wheel that is open for reading.
pub struct WheelReader {
    archive: ZipArchive<Cursor<Vec<u8>>>,
    dist_info_prefix: String,
}

impl WheelReader {
    /// The members of the archive.
    pub closed spec fn members(&self) -> Members {
        archive_members(self.archive)
    }

    /// The bytes that the archive was opened on.
    pub closed spec fn source(&self) -> Seq<u8> {
        archive_source(self.archive)
    }

    /// The name of the `.dist-info` directory.
    pub closed spec fn prefix(&self) -> Seq<char> {
        self.dist_info_prefix@
    }

    /// Opens a wheel: reads the directory of the archive and finds the one
    /// `.dist-info` directory. Fails with a ZIP error where the bytes are no
    /// archive, and with `InvalidWheel` where the archive is no wheel.
    pub fn new(reader: Cursor<Vec<u8>>) -> (r: Result<WheelReader, WheelError>)
        ensures
            match r {
                Ok(wheel) => zip_archive(cursor_bytes(reader)) == Some(wheel.members())
                    && wheel.source() == cursor_bytes(reader) && is_dist_info(
                    names_of(wheel.members()),
                    wheel.prefix(),
                ),
                Err(WheelError::Zip(_)) => zip_archive(cursor_bytes(reader)) is None,
                Err(WheelError::InvalidWheel(_)) => zip_archive(cursor_bytes(reader)) matches Some(
                    members,
                ) && forall|p: Seq<char>| !is_dist_info(names_of(members), p),
                Err(_) => false,
            },
    {
        let archive = match archive_open(reader) {
            Ok(archive) => archive,
            Err(e) => {
                return Err(WheelError::Zip(e));
            },
        };
        match find_dist_info_prefix(&archive) {
            Ok(dist_info_prefix) => Ok(WheelReader { archive, dist_info_prefix }),
            Err(e) => Err(e),
        }
    }

    /// The name of the `.dist-info` directory.
    pub fn dist_info_prefix(&self) -> (prefix: &str)
        ensures
            prefix@ == self.prefix(),
    {
        self.dist_info_prefix.as_str()
    }

    /// Reads the `METADATA` file. It succeeds exactly where the file is
    /// there, can be unpacked, is UTF-8 and states a name and a version. It
    /// fails with a metadata error where a required field is lacking, and
    /// with a ZIP or I/O error where the file cannot be had.
    pub fn read_metadata(&mut self) -> (r: Result<Metadata, WheelError>)
        ensures
            final(self).members() == old(self).members(),
            final(self).source() == old(self).source(),
            final(self).prefix() == old(self).prefix(),
            match metadata_in(old(self).source(), old(self).members(), old(self).prefix()) {
                Some(m) => r matches Ok(x) && x@ == m,
                None => r is Err,
            },
            r matches Ok(x) ==> distinct_keys(x@.extra_headers),
            r matches Err(e) ==> if member_text(
                old(self).source(),
                old(self).members(),
                dist_info_path(old(self).prefix(), "METADATA"@),
            ) is Some {
                e is Metadata
            } else {
                e is Zip || e is Io
            },
    {
        let path = dist_info_file(self.dist_info_prefix.as_str(), "METADATA");
        let content = match read_text(&mut self.archive, path.as_str()) {
            Ok(content) => content,
            Err(e) => {
                return Err(e);
            },
        };
        match Metadata::parse(content.as_str()) {
            Ok(m) => Ok(m),
            Err(e) => Err(WheelError::Metadata(e)),
        }
    }

    /// Reads the `RECORD` file. It succeeds exactly where the file is there,
    /// can be unpacked, is UTF-8 and is CSV text. It fails with a record
    /// error where it is no CSV text, and with a ZIP or I/O error where the
    /// file cannot be had.
    pub fn read_record(&mut self) -> (r: Result<Record, WheelError>)
        ensures
            final(self).members() == old(self).members(),
            final(self).source() == old(self).source(),
            final(self).prefix() == old(self).prefix(),
            match record_in(old(self).source(), old(self).members(), old(self).prefix()) {
                Some(record) => r matches Ok(x) && x@ == record,
                None => r is Err,
            },
            r matches Err(e) ==> if member_text(
                old(self).source(),
                old(self).members(),
                dist_info_path(old(self).prefix(), "RECORD"@),
            ) is Some {
                e is Record
            } else {
                e is Zip || e is Io
            },
    {
        let path = dist_info_file(self.dist_info_prefix.as_str(), "RECORD");
        let content = match read_text(&mut self.archive, path.as_str()) {
            Ok(content) => content,
            Err(e) => {
                return Err(e);
            },
        };
        match Record::parse(content.as_str()) {
            Ok(record) => Ok(record),
            Err(e) => Err(WheelError::Record(e)),
        }
    }

    /// Reads the text of the `WHEEL` file. It succeeds exactly where the
    /// file is there, can be unpacked and is UTF-8; else it fails with a ZIP
    /// or I/O error.
    pub fn read_wheel_file(&mut self) -> (r: Result<String, WheelError>)
        ensures
            final(self).members() == old(self).members(),
            final(self).source() == old(self).source(),
            final(self).prefix() == old(self).prefix(),
            match member_text(
                old(self).source(),
                old(self).members(),
                dist_info_path(old(self).prefix(), "WHEEL"@),
            ) {
                Some(text) => r matches Ok(t) && t@ == text,
                None => r is Err,
            },
            r matches Err(e) ==> e is Zip || e is Io,
    {
        let path = dist_info_file(self.dist_info_prefix.as_str(), "WHEEL");
        read_text(&mut self.archive, path.as_str())
    }

    /// Reads the `WHEEL` file. It succeeds exactly where the file is there,
    /// can be unpacked, is UTF-8 and is well-formed. It fails with a `WHEEL`
    /// error where it is malformed, and with a ZIP or I/O error where the
    /// file cannot be had.
    pub fn read_wheel_info(&mut self) -> (r: Result<WheelInfo, WheelError>)
        ensures
            final(self).members() == old(self).members(),
            final(self).source() == old(self).source(),
            final(self).prefix() == old(self).prefix(),
            match wheel_info_in(old(self).source(), old(self).members(), old(self).prefix()) {
                Some(info) => r matches Ok(x) && x@ == info,
                None => r is Err,
            },
            r matches Ok(x) ==> distinct_keys(x@.extra_headers),
            r matches Err(e) ==> if member_text(
                old(self).source(),
                old(self).members(),
                dist_info_path(old(self).prefix(), "WHEEL"@),
            ) is Some {
                e is WheelInfo
            } else {
                e is Zip || e is Io
            },
    {
        let content = match self.read_wheel_file() {
            Ok(content) => content,
            Err(e) => {
                return Err(e);
            },
        };
        match WheelInfo::parse(content.as_str()) {
            Ok(info) => Ok(info),
            Err(e) => Err(WheelError::WheelInfo(e)),
        }
    }

    /// The archive.
    pub fn archive(&self) -> (archive: &ZipArchive<Cursor<Vec<u8>>>)
        ensures
            archive_members(*archive) == self.members(),
            archive_source(*archive) == self.source(),
    {
        &self.archive
    }

    /// The archive, to be read from.
    pub fn archive_mut(&mut self) -> (archive: &mut ZipArchive<Cursor<Vec<u8>>>)
        ensures
            archive_members(*archive) == old(self).members(),
            archive_source(*archive) == old(self).source(),
            final(self).members() == archive_members(*final(archive)),
            final(self).source() == archive_source(*final(archive)),
            final(self).prefix() == old(self).prefix(),
    {
        &mut self.archive
    }

    /// The number of members.
    pub fn len(&self) -> (n: usize)
        ensures
            n == self.members().len(),
    {
        archive_len(&self.archive)
    }

    /// Whether the archive has no member.
    pub fn is_empty(&self) -> (r: bool)
        ensures
            r == (self.members().len() == 0),
    {
        archive_len(&self.archive) == 0
    }
}

} // verus!
