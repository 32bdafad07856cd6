//! ZIP archives in memory, read and written by the `zip` crate.
//!
//! An archive is known here by the bytes that it was opened on and by its
//! members: their names in the order of the central directory, each with its
//! content, and of each whether it can be unpacked. A writer is known by the
//! members written to it so far, each with the mark of a raw copy. Whether
//! the writer takes a member is taken to lie with the members that it holds
//! and with what it is given.

use vstd::prelude::*;
use std::io::Cursor;
use zip::ZipArchive;
use zip::ZipWriter;
use zip::result::ZipError;
use vstd::string::StringSliceAdditionalSpecFns;
use vstd::utf8::decode_utf8;
use vstd::utf8::encode_utf8;
use vstd::utf8::valid_utf8;
use crate::error::WheelError;
use crate::text::index_of;
use crate::text::lemma_index_of_is;

verus! {

/// `std::io::Cursor`: a stream over bytes in memory. Known here by the bytes
/// that it reads from.
#[verifier::external_type_specification]
#[verifier::external_body]
#[verifier::reject_recursive_types(T)]
pub struct ExCursor<T>(Cursor<T>);

/// `zip::ZipArchive`: an archive that is open for reading. Known here by its
/// members.
#[verifier::external_type_specification]
#[verifier::external_body]
#[verifier::reject_recursive_types(R)]
pub struct ExZipArchive<R>(ZipArchive<R>);

/// The writer of the `zip` crate over a buffer in memory. Known here by the
/// members written to it.
#[verifier::external_body]
pub struct ZipSink {
    inner: ZipWriter<Cursor<Vec<u8>>>,
}

/// A ZIP archive in the making, held in memory.
pub struct ArchiveWriter {
    sink: ZipSink,
}

/// The members of an archive: name and content.
pub type Members = Seq<(Seq<char>, Seq<u8>)>;

/// The members written to an archive: name, content, and whether the member
/// was copied raw, that is without its content being unpacked and packed again.
pub type Written = Seq<(Seq<char>, Seq<u8>, bool)>;

/// The members of an archive, in the order of its central directory.
pub uninterp spec fn archive_members(archive: ZipArchive<Cursor<Vec<u8>>>) -> Members;

/// The bytes that a cursor reads from.
pub uninterp spec fn cursor_bytes(cursor: Cursor<Vec<u8>>) -> Seq<u8>;

/// The members of the archive that the bytes hold; nothing where the bytes
/// are not accepted as an archive.
pub uninterp spec fn zip_archive(bytes: Seq<u8>) -> Option<Members>;

/// The members written to a writer so far, in order.
pub uninterp spec fn written_members(writer: ZipSink) -> Written;

/// Of each member written to a writer, whether it cannot be unpacked from
/// the finished archive.
pub uninterp spec fn written_faults(writer: ZipSink) -> Seq<bool>;

/// The bytes that an archive was opened on.
pub uninterp spec fn archive_source(archive: ZipArchive<Cursor<Vec<u8>>>) -> Seq<u8>;

/// Whether the member at `index` of the archive that the bytes hold cannot
/// be unpacked.
pub uninterp spec fn zip_fault(bytes: Seq<u8>, index: int) -> bool;

/// Whether a writer that holds the members `written` refuses to start a
/// member under `name`.
pub uninterp spec fn start_refused(written: Written, name: Seq<char>) -> bool;

/// Whether a writer that holds the members `written`, the last of them
/// started, refuses `data` as more content of it.
pub uninterp spec fn write_refused(written: Written, data: Seq<u8>) -> bool;

/// Whether a writer that holds the members `written` refuses to copy, under
/// `name`, the member at `index` of the archive that the bytes `source` hold.
pub uninterp spec fn copy_refused(
    written: Written,
    source: Seq<u8>,
    index: int,
    name: Seq<char>,
) -> bool;

/// Whether a writer that holds the members `written` fails to close.
pub uninterp spec fn finish_refused(written: Written) -> bool;

/// Whether `faults` holds as many members as `bound`, and none that cannot
/// be unpacked but where `bound` has one.
pub open spec fn fails_within(faults: Seq<bool>, bound: Seq<bool>) -> bool {
    faults.len() == bound.len() && forall|k: int|
        0 <= k < faults.len() ==> (#[trigger] faults[k] ==> bound[k])
}

/// One member more on both sides keeps `fails_within`, where the new member
/// cannot be unpacked only if the new one of the bound cannot.
pub proof fn lemma_fails_within_push(faults: Seq<bool>, bound: Seq<bool>, x: bool, y: bool)
    requires
        fails_within(faults, bound),
        x ==> y,
    ensures
        fails_within(faults.push(x), bound.push(y)),
{
    assert forall|k: int| 0 <= k < faults.push(x).len() && #[trigger] faults.push(
        x,
    )[k] implies bound.push(y)[k] by {
        if k < faults.len() {
            assert(faults[k] ==> bound[k]);
        }
    }
}

/// The longest name, in bytes, that a member can have.
pub open spec fn longest_name() -> int {
    65535
}

/// Whether a name is short enough for a member.
pub open spec fn is_short(name: Seq<char>) -> bool {
    encode_utf8(name).len() <= longest_name()
}

/// The members that were written, as an archive holds them.
pub open spec fn as_members(written: Written) -> Members {
    written.map_values(|w: (Seq<char>, Seq<u8>, bool)| (w.0, w.1))
}

/// Whether a writer that holds the members `written` refuses `data` as a
/// new member under `name`: the name is too long, or the writer refuses to
/// start the member or to take its content.
pub open spec fn add_refused(written: Written, name: Seq<char>, data: Seq<u8>) -> bool {
    ||| !is_short(name)
    ||| start_refused(written, name)
    ||| write_refused(written.push((name, Seq::empty(), false)), data)
}

/// Whether a writer that holds the members `written` refuses, under `name`,
/// a raw copy of the member at `index` of the archive in `source`.
pub open spec fn raw_refused(
    written: Written,
    source: Seq<u8>,
    index: int,
    name: Seq<char>,
) -> bool {
    !is_short(name) || copy_refused(written, source, index, name)
}

/// The names of the members.
pub open spec fn names_of(members: Members) -> Seq<Seq<char>> {
    members.map_values(|m: (Seq<char>, Seq<u8>)| m.0)
}

/// The names of the members written.
pub open spec fn written_names(written: Written) -> Seq<Seq<char>> {
    written.map_values(|m: (Seq<char>, Seq<u8>, bool)| m.0)
}

/// One more member under a new name leaves the names distinct.
pub proof fn lemma_new_name_is_distinct(written: Written, member: (Seq<char>, Seq<u8>, bool))
    requires
        written_names(written).no_duplicates(),
        !written_names(written).contains(member.0),
    ensures
        written_names(written.push(member)).no_duplicates(),
{
    let before = written_names(written);
    let after = written_names(written.push(member));
    assert(after == before.push(member.0));
    assert forall|i: int, j: int| 0 <= i < after.len() && 0 <= j < after.len() && i != j implies after[i]
        != after[j] by {
        if i < before.len() && j < before.len() {
            assert(after[i] == before[i] && after[j] == before[j]);
        } else if i < before.len() {
            assert(before.contains(before[i]));
        } else {
            assert(before.contains(before[j]));
        }
    }
}

/// `Cursor::new`: a cursor that reads from `bytes`.
#[verifier::external_body]
pub(crate) fn cursor_over(bytes: Vec<u8>) -> (cursor: Cursor<Vec<u8>>)
    ensures
        cursor_bytes(cursor) == bytes@,
{
    Cursor::new(bytes)
}

/// `ZipArchive::new`: reads the central directory of the archive that the
/// bytes of `reader` hold, and keeps the reader.
#[verifier::external_body]
pub(crate) fn archive_open(reader: Cursor<Vec<u8>>) -> (r: Result<
    ZipArchive<Cursor<Vec<u8>>>,
    ZipError,
>)
    ensures
        match r {
            Ok(archive) => zip_archive(cursor_bytes(reader)) == Some(archive_members(archive))
                && archive_source(archive) == cursor_bytes(reader),
            Err(_) => zip_archive(cursor_bytes(reader)) is None,
        },
{
    ZipArchive::new(reader)
}

/// `ZipArchive::len`: the number of members.
#[verifier::external_body]
pub(crate) fn archive_len(archive: &ZipArchive<Cursor<Vec<u8>>>) -> (n: usize)
    ensures
        n == archive_members(*archive).len(),
{
    archive.len()
}

/// `ZipArchive::name_for_index`: the name of the member at `index`.
#[verifier::external_body]
pub(crate) fn archive_name(archive: &ZipArchive<Cursor<Vec<u8>>>, index: usize) -> (name: String)
    requires
        index < archive_members(*archive).len(),
    ensures
        name@ == archive_members(*archive)[index as int].0,
{
    archive.name_for_index(index).unwrap_or_default().to_string()
}

/// `ZipArchive::by_index` and `Read::read_to_end` on the member it gives: the
/// unpacked content of the member at `index`. Whether it fails lies with the
/// bytes of the archive and the index alone. The archive stays as it is. A
/// failure of the first call is handed on as a ZIP error, one of the second
/// as an I/O error.
#[verifier::external_body]
pub(crate) fn archive_read(archive: &mut ZipArchive<Cursor<Vec<u8>>>, index: usize) -> (r: Result<
    Vec<u8>,
    WheelError,
>)
    ensures
        archive_members(*final(archive)) == archive_members(*old(archive)),
        archive_source(*final(archive)) == archive_source(*old(archive)),
        r is Ok <==> index < archive_members(*old(archive)).len() && !zip_fault(
            archive_source(*old(archive)),
            index as int,
        ),
        r matches Ok(data) ==> data@ == archive_members(*old(archive))[index as int].1,
        r matches Err(e) ==> e is Zip || e is Io,
{
    let mut member = match archive.by_index(index) {
        Ok(member) => member,
        Err(e) => return Err(WheelError::Zip(e)),
    };
    let mut data = Vec::new();
    match std::io::Read::read_to_end(&mut member, &mut data) {
        Ok(_) => Ok(data),
        Err(e) => Err(WheelError::Io(e)),
    }
}

/// The value `ZipError::FileNotFound`.
#[verifier::external_body]
pub(crate) fn file_not_found() -> (e: ZipError) {
    ZipError::FileNotFound
}

/// `std::io::Error::new`: the error of a stream that does not hold UTF-8.
#[verifier::external_body]
pub(crate) fn invalid_utf8() -> (e: std::io::Error) {
    std::io::Error::new(std::io::ErrorKind::InvalidData, "stream did not contain valid UTF-8")
}

/// `String::from_utf8`: the text that the bytes encode, where they are
/// well-formed UTF-8, and nothing where they are not.
#[verifier::external_body]
pub(crate) fn text_of_bytes(bytes: Vec<u8>) -> (r: Option<String>)
    ensures
        match r {
            Some(text) => valid_utf8(bytes@) && text@ == decode_utf8(bytes@),
            None => !valid_utf8(bytes@),
        },
{
    String::from_utf8(bytes).ok()
}

/// The position of the first member with that name.
pub fn find_member(archive: &ZipArchive<Cursor<Vec<u8>>>, name: &str) -> (r: Option<usize>)
    ensures
        match r {
            Some(i) => i == index_of(names_of(archive_members(*archive)), name@) && i
                < archive_members(*archive).len(),
            None => index_of(names_of(archive_members(*archive)), name@) >= archive_members(
                *archive,
            ).len(),
        },
{
    let ghost names = names_of(archive_members(*archive));
    let wanted = name.to_owned();
    let count = archive_len(archive);
    let mut i: usize = 0;
    while i < count
        invariant
            i <= count == names.len(),
            names == names_of(archive_members(*archive)),
            wanted@ == name@,
            forall|j: int| 0 <= j < i ==> names[j] != name@,
        decreases count - i,
    {
        let here = archive_name(archive, i);
        if here == wanted {
            proof {
                lemma_index_of_is(names, name@, i as int);
            }
            return Some(i);
        }
        i += 1;
    }
    proof {
        lemma_index_of_is(names, name@, i as int);
    }
    None
}

/// The text of the member with that name, where the archive that the bytes
/// `source` hold has the member, it can be unpacked, and its content is
/// UTF-8.
pub open spec fn member_text(source: Seq<u8>, members: Members, name: Seq<char>) -> Option<
    Seq<char>,
> {
    let i = index_of(names_of(members), name) as int;
    if i < members.len() && !zip_fault(source, i) && valid_utf8(members[i].1) {
        Some(decode_utf8(members[i].1))
    } else {
        None
    }
}

/// Reads the member with that name as text. It succeeds exactly where the
/// archive has the member, the member can be unpacked, and its content is
/// UTF-8. It fails with a ZIP error where the archive has no such
/// member, and with an I/O or ZIP error otherwise. The archive stays as it is.
pub fn read_text(archive: &mut ZipArchive<Cursor<Vec<u8>>>, name: &str) -> (r: Result<
    String,
    WheelError,
>)
    ensures
        archive_members(*final(archive)) == archive_members(*old(archive)),
        archive_source(*final(archive)) == archive_source(*old(archive)),
        match member_text(archive_source(*old(archive)), archive_members(*old(archive)), name@) {
            Some(text) => r matches Ok(t) && t@ == text,
            None => r is Err,
        },
        index_of(names_of(archive_members(*old(archive))), name@) >= archive_members(
            *old(archive),
        ).len() ==> r matches Err(WheelError::Zip(_)),
        r matches Err(e) ==> e is Zip || e is Io,
{
    let index = match find_member(archive, name) {
        Some(index) => index,
        None => {
            return Err(WheelError::Zip(file_not_found()));
        },
    };
    let data = match archive_read(archive, index) {
        Ok(data) => data,
        Err(e) => {
            return Err(e);
        },
    };
    match text_of_bytes(data) {
        Some(text) => Ok(text),
        None => Err(WheelError::Io(invalid_utf8())),
    }
}

/// `ZipWriter::new` over an empty buffer: a writer with no member.
#[verifier::external_body]
fn writer_new() -> (writer: ZipSink)
    ensures
        written_members(writer) == Seq::<(Seq<char>, Seq<u8>, bool)>::empty(),
        written_faults(writer) == Seq::<bool>::empty(),
{
    ZipSink { inner: ZipWriter::new(Cursor::new(Vec::new())) }
}

/// `ZipArchive::by_index_raw` and `ZipWriter::raw_copy_file_rename`: where it
/// succeeds, the writer has one member more, under `name`, copied raw from
/// the member of the archive at `index`; the writer had no member of that
/// name before, and the copy can be unpacked where the member of the archive
/// can (a copy may also be unpacked where the member cannot: it is written
/// without the mark of encryption). Whether it succeeds lies with the
/// members written, the bytes of the archive, the index and the name. The
/// archive stays as it is. The name is short enough for the header of a
/// member.
#[verifier::external_body]
pub(crate) fn writer_copy(
    writer: &mut ZipSink,
    archive: &mut ZipArchive<Cursor<Vec<u8>>>,
    index: usize,
    name: &str,
) -> (r: Result<(), ZipError>)
    requires
        is_short(name@),
    ensures
        archive_members(*final(archive)) == archive_members(*old(archive)),
        archive_source(*final(archive)) == archive_source(*old(archive)),
        r is Ok <==> !copy_refused(
            written_members(*old(writer)),
            archive_source(*old(archive)),
            index as int,
            name@,
        ),
        r is Ok ==> index < archive_members(*old(archive)).len() && written_members(*final(writer))
            == written_members(*old(writer)).push(
            (name@, archive_members(*old(archive))[index as int].1, true),
        ) && !written_names(written_members(*old(writer))).contains(name@),
        r is Ok ==> written_faults(*final(writer)).len() == written_faults(*old(writer)).len() + 1
            && written_faults(*final(writer)).drop_last() == written_faults(*old(writer)) && (
        written_faults(*final(writer)).last() ==> zip_fault(
            archive_source(*old(archive)),
            index as int,
        )),
{
    let member = archive.by_index_raw(index)?;
    writer.inner.raw_copy_file_rename(member, name)
}

/// `ZipWriter::start_file` with the default options and the deflate method:
/// where it succeeds, the writer has one member more, under `name` and still
/// empty, that can be unpacked; the writer had no member of that name
/// before. Whether it succeeds
/// lies with the members written and the name. The name is short enough for
/// the header of a member.
#[verifier::external_body]
pub(crate) fn writer_start(writer: &mut ZipSink, name: &str) -> (r: Result<(), ZipError>)
    requires
        is_short(name@),
    ensures
        r is Ok <==> !start_refused(written_members(*old(writer)), name@),
        r is Ok ==> written_members(*final(writer)) == written_members(*old(writer)).push(
            (name@, Seq::<u8>::empty(), false),
        ) && !written_names(written_members(*old(writer))).contains(name@),
        r is Ok ==> written_faults(*final(writer)) == written_faults(*old(writer)).push(false),
{
    let options = zip::write::SimpleFileOptions::default().compression_method(
        zip::CompressionMethod::Deflated,
    );
    writer.inner.start_file(name, options)
}

/// `Write::write_all` on the writer, right after a member was started:
/// where it succeeds, `data` is the content of that member, which can still
/// be unpacked. Whether it succeeds lies with the members written and the
/// data.
#[verifier::external_body]
pub(crate) fn writer_write(writer: &mut ZipSink, data: &[u8]) -> (r: Result<
    (),
    std::io::Error,
>)
    requires
        written_members(*old(writer)).len() > 0,
        !written_members(*old(writer)).last().2,
        written_members(*old(writer)).last().1.len() == 0,
    ensures
        r is Ok <==> !write_refused(written_members(*old(writer)), data@),
        r is Ok ==> {
            let before = written_members(*old(writer));
            written_members(*final(writer)) == before.drop_last().push(
                (before.last().0, data@, false),
            )
        },
        r is Ok ==> written_faults(*final(writer)) == written_faults(*old(writer)),
{
    std::io::Write::write_all(&mut writer.inner, data)
}

/// `ZipWriter::finish`: the bytes of the archive. They hold an archive whose
/// members are the members written, in their order, each to be unpacked or
/// not as it was written. Whether it succeeds lies with the members written.
#[verifier::external_body]
fn writer_finish(writer: ZipSink) -> (r: Result<Vec<u8>, ZipError>)
    ensures
        r is Ok <==> !finish_refused(written_members(writer)),
        r matches Ok(bytes) ==> zip_archive(bytes@) == Some(as_members(written_members(writer))),
        r matches Ok(bytes) ==> forall|k: int|
            0 <= k < written_faults(writer).len() ==> #[trigger] zip_fault(bytes@, k)
                == written_faults(writer)[k],
{
    writer.inner.finish().map(|cursor| cursor.into_inner())
}

impl ArchiveWriter {
    /// The members written so far.
    pub closed spec fn members(&self) -> Written {
        written_members(self.sink)
    }

    /// Of each member written so far, whether it cannot be unpacked.
    pub closed spec fn faults(&self) -> Seq<bool> {
        written_faults(self.sink)
    }

    /// A writer with no member.
    pub fn new() -> (writer: Self)
        ensures
            writer.members() == Seq::<(Seq<char>, Seq<u8>, bool)>::empty(),
            writer.faults() == Seq::<bool>::empty(),
    {
        ArchiveWriter { sink: writer_new() }
    }

    /// Writes `data` as a new member under `name`, packed afresh. It fails
    /// with `InvalidWheel` where the name is longer than 65535 bytes, and
    /// with the error of the writer where the writer refuses the member, as
    /// it does a name that it has already. Where it fails, nothing is said
    /// of the writer.
    pub fn add(&mut self, name: &str, data: &[u8]) -> (r: Result<(), WheelError>)
        ensures
            r is Ok <==> !add_refused(old(self).members(), name@, data@),
            r is Ok ==> final(self).members() == old(self).members().push((name@, data@, false))
                && !written_names(old(self).members()).contains(name@),
            r is Ok ==> final(self).faults() == old(self).faults().push(false),
            r matches Err(e) ==> e is InvalidWheel || e is Zip || e is Io,
    {
        if name.as_bytes().len() > 65535 {
            return Err(WheelError::InvalidWheel("Member name is too long".to_owned()));
        }
        match writer_start(&mut self.sink, name) {
            Ok(()) => {},
            Err(e) => {
                return Err(WheelError::Zip(e));
            },
        }
        let ghost started = self.members();
        match writer_write(&mut self.sink, data) {
            Ok(()) => {
                assert(started.drop_last() == old(self).members());
                Ok(())
            },
            Err(e) => Err(WheelError::Io(e)),
        }
    }

    /// Copies the member of `archive` at `index` raw, under `name`. It fails
    /// with `InvalidWheel` where the name is longer than 65535 bytes, and
    /// with the error of the writer where the writer refuses the copy. The
    /// archive stays as it is. Where it fails, nothing is said of the writer.
    pub fn copy(
        &mut self,
        archive: &mut ZipArchive<Cursor<Vec<u8>>>,
        index: usize,
        name: &str,
    ) -> (r: Result<(), WheelError>)
        ensures
            archive_members(*final(archive)) == archive_members(*old(archive)),
            archive_source(*final(archive)) == archive_source(*old(archive)),
            r is Ok <==> !raw_refused(
                old(self).members(),
                archive_source(*old(archive)),
                index as int,
                name@,
            ),
            r is Ok ==> index < archive_members(*old(archive)).len() && final(self).members()
                == old(self).members().push(
                (name@, archive_members(*old(archive))[index as int].1, true),
            ) && !written_names(old(self).members()).contains(name@),
            r is Ok ==> final(self).faults().len() == old(self).faults().len() + 1,
            r is Ok ==> final(self).faults().drop_last() == old(self).faults(),
            r is Ok && final(self).faults().last() ==> zip_fault(
                archive_source(*old(archive)),
                index as int,
            ),
            r matches Err(e) ==> e is InvalidWheel || e is Zip,
    {
        if name.as_bytes().len() > 65535 {
            return Err(WheelError::InvalidWheel("Member name is too long".to_owned()));
        }
        match writer_copy(&mut self.sink, archive, index, name) {
            Ok(()) => Ok(()),
            Err(e) => Err(WheelError::Zip(e)),
        }
    }

    /// Closes the archive and hands out its bytes: they hold an archive whose
    /// members are the members written, in their order. Fails with the error
    /// of the writer.
    pub fn finish(self) -> (r: Result<Vec<u8>, WheelError>)
        ensures
            r is Ok <==> !finish_refused(self.members()),
            r matches Ok(bytes) ==> zip_archive(bytes@) == Some(as_members(self.members())),
            r matches Ok(bytes) ==> forall|k: int|
                0 <= k < self.faults().len() ==> #[trigger] zip_fault(bytes@, k)
                    == self.faults()[k],
            r matches Err(e) ==> e is Zip,
    {
        match writer_finish(self.sink) {
            Ok(bytes) => Ok(bytes),
            Err(e) => Err(WheelError::Zip(e)),
        }
    }
}

} // verus!
