//! The repacking of a wheel: the members of a source archive go to a writer,
//! unchanged members as raw copies, and the descriptors are written anew.

use vstd::prelude::*;
use vstd::string::StringSliceAdditionalSpecFns;
use vstd::utf8::encode_utf8;
use std::io::Cursor;
use zip::ZipArchive;
use crate::archive::archive_len;
use crate::archive::archive_members;
use crate::archive::archive_name;
use crate::archive::archive_read;
use crate::archive::lemma_new_name_is_distinct;
use crate::archive::add_refused;
use crate::archive::archive_source;
use crate::archive::raw_refused;
use crate::archive::fails_within;
use crate::archive::lemma_fails_within_push;
use crate::archive::zip_fault;
use crate::archive::written_names;
use crate::archive::ArchiveWriter;
use crate::archive::Members;
use crate::archive::Written;
use crate::error::WheelError;
use crate::hash::content_hash;
use crate::hash::hash_content;
use crate::metadata::serialized;
use crate::metadata::Metadata;
use crate::metadata::MetadataView;
use crate::record::clone_optional;
use crate::record::csv_text;
use crate::record::found;
use crate::record::rows_of;
use crate::record::Record;
use crate::record::RecordEntry;
use crate::record::RecordEntryView;
use crate::text::chars_of;
use crate::text::index_of;
use crate::text::lemma_index_of_is;
use crate::text::push_chars;
use crate::text::push_text;
use crate::text::slice_chars;
use crate::text::stands_at;
use crate::text::starts_with;
use crate::text::string_of;
use crate::wheel_info::serialized_wheel;
use crate::wheel_info::WheelInfo;
use crate::wheel_info::WheelInfoView;

verus! {

/// Replacement contents for members, by the name that the member has in the
/// source archive.
pub type Patches = Seq<(Seq<char>, Seq<u8>)>;

/// The views of replacement contents.
pub open spec fn patches_of(v: Seq<(String, Vec<u8>)>) -> Patches {
    v.map_values(|p: (String, Vec<u8>)| (p.0@, p.1@))
}

/// The names that have a replacement.
pub open spec fn patched_names(patches: Patches) -> Seq<Seq<char>> {
    patches.map_values(|p: (Seq<char>, Seq<u8>)| p.0)
}

/// Whether no name has two replacements.
pub open spec fn distinct_patches(patches: Patches) -> bool {
    forall|i: int, j: int|
        0 <= i < j < patches.len() ==> (#[trigger] patches[i]).0 != (#[trigger] patches[j]).0
}

/// The replacement for a name: the first that is listed for it.
pub open spec fn patch_for(patches: Patches, name: Seq<char>) -> Option<Seq<u8>> {
    let i = index_of(patched_names(patches), name) as int;
    if i < patches.len() {
        Some(patches[i].1)
    } else {
        None
    }
}

/// The path of a file of the `.dist-info` directory `prefix`.
pub open spec fn dist_info_path(prefix: Seq<char>, file: Seq<char>) -> Seq<char> {
    prefix + seq!['/'] + file
}

/// The name under which a member goes to the output: where the directory is
/// renamed and the name begins with the old directory name, that beginning is
/// replaced by the new one.
pub open spec fn renamed(name: Seq<char>, old_prefix: Seq<char>, new_prefix: Seq<char>) -> Seq<
    char,
> {
    if old_prefix != new_prefix && starts_with(name, old_prefix) {
        new_prefix + name.skip(old_prefix.len() as int)
    } else {
        name
    }
}

/// Whether a member of the source is left out because it is written anew:
/// `METADATA` and `RECORD` always, `WHEEL` where a new one is given.
pub open spec fn is_rewritten(name: Seq<char>, old_prefix: Seq<char>, with_wheel: bool) -> bool {
    ||| name == dist_info_path(old_prefix, "METADATA"@)
    ||| name == dist_info_path(old_prefix, "RECORD"@)
    ||| with_wheel && name == dist_info_path(old_prefix, "WHEEL"@)
}

/// The row of a member whose hash and size are computed from its content.
pub open spec fn fresh_entry(name: Seq<char>, data: Seq<u8>) -> RecordEntryView {
    RecordEntryView { path: name, hash: Some(content_hash(data)), size: Some(data.len() as u64) }
}

/// The row of a member that keeps the hash and the size of a row it had.
pub open spec fn kept_entry(name: Seq<char>, row: RecordEntryView) -> RecordEntryView {
    RecordEntryView { path: name, hash: row.hash, size: row.size }
}

/// What a repacking writes, and the rows that state it.
pub struct Repack {
    pub written: Written,
    pub rows: Seq<RecordEntryView>,
}

/// The repacking with one member more, written afresh.
pub open spec fn and_fresh(done: Repack, name: Seq<char>, data: Seq<u8>) -> Repack {
    Repack {
        written: done.written.push((name, data, false)),
        rows: done.rows.push(fresh_entry(name, data)),
    }
}

/// What one member of the source adds to a repacking. A member that is
/// written anew adds nothing. A member with a replacement is written afresh
/// from it. Every other member is copied raw, with the hash and the size of
/// its row in the source record, or computed from its content where the
/// record has no row for it.
pub open spec fn and_member(
    done: Repack,
    member: (Seq<char>, Seq<u8>),
    record: Seq<RecordEntryView>,
    old_prefix: Seq<char>,
    new_prefix: Seq<char>,
    patches: Patches,
    with_wheel: bool,
) -> Repack {
    let name = member.0;
    let target = renamed(name, old_prefix, new_prefix);
    if is_rewritten(name, old_prefix, with_wheel) {
        done
    } else {
        match patch_for(patches, name) {
            Some(data) => and_fresh(done, target, data),
            None => Repack {
                written: done.written.push((target, member.1, true)),
                rows: done.rows.push(
                    match found(record, name) {
                        Some(row) => kept_entry(target, row),
                        None => fresh_entry(target, member.1),
                    },
                ),
            },
        }
    }
}

/// What the members of the source add to a repacking, in their order.
pub open spec fn payload(
    members: Members,
    record: Seq<RecordEntryView>,
    old_prefix: Seq<char>,
    new_prefix: Seq<char>,
    patches: Patches,
    with_wheel: bool,
) -> Repack
    decreases members.len(),
{
    if members.len() == 0 {
        Repack { written: Seq::empty(), rows: Seq::empty() }
    } else {
        and_member(
            payload(members.drop_last(), record, old_prefix, new_prefix, patches, with_wheel),
            members.last(),
            record,
            old_prefix,
            new_prefix,
            patches,
            with_wheel,
        )
    }
}

/// The repacking with the new `WHEEL` file, where one is given.
pub open spec fn and_wheel(done: Repack, new_prefix: Seq<char>, wheel: Option<WheelInfoView>) -> Repack {
    match wheel {
        Some(w) => and_fresh(
            done,
            dist_info_path(new_prefix, "WHEEL"@),
            encode_utf8(serialized_wheel(w)),
        ),
        None => done,
    }
}

/// The repacking with the `RECORD` file at its end: the file has a row
/// without hash and size for itself, and states all rows.
pub open spec fn and_record(done: Repack, new_prefix: Seq<char>) -> Repack {
    let name = dist_info_path(new_prefix, "RECORD"@);
    let rows = done.rows.push(RecordEntryView { path: name, hash: None, size: None });
    Repack { written: done.written.push((name, encode_utf8(csv_text(rows_of(rows))), false)), rows }
}

/// A whole repacking: the members of the source in their order, then the new
/// `WHEEL` file where one is given, then the new `METADATA`, then `RECORD`.
pub open spec fn repacked(
    members: Members,
    metadata: MetadataView,
    record: Seq<RecordEntryView>,
    old_prefix: Seq<char>,
    new_prefix: Seq<char>,
    patches: Patches,
    wheel: Option<WheelInfoView>,
) -> Repack {
    and_record(
        and_fresh(
            and_wheel(
                payload(members, record, old_prefix, new_prefix, patches, wheel is Some),
                new_prefix,
                wheel,
            ),
            dist_info_path(new_prefix, "METADATA"@),
            encode_utf8(serialized(metadata)),
        ),
        new_prefix,
    )
}

/// Whether the repacking fails at the member at `index` of the source,
/// with `written` in the writer: the writer refuses the replacement or the
/// raw copy, or the member has no row in the source record and cannot be
/// unpacked for its hash. A member that is written anew is passed over.
pub open spec fn member_refused(
    written: Written,
    source: Seq<u8>,
    members: Members,
    index: int,
    record: Seq<RecordEntryView>,
    old_prefix: Seq<char>,
    new_prefix: Seq<char>,
    patches: Patches,
    with_wheel: bool,
) -> bool {
    let member = members[index];
    let target = renamed(member.0, old_prefix, new_prefix);
    if is_rewritten(member.0, old_prefix, with_wheel) {
        false
    } else {
        match patch_for(patches, member.0) {
            Some(data) => add_refused(written, target, data),
            None => raw_refused(written, source, index, target) || (found(record, member.0)
                is None && zip_fault(source, index)),
        }
    }
}

/// Whether the repacking fails at one of the first `count` members of the
/// source, with `start` in the writer at its beginning.
pub open spec fn payload_refused(
    start: Written,
    source: Seq<u8>,
    members: Members,
    count: int,
    record: Seq<RecordEntryView>,
    old_prefix: Seq<char>,
    new_prefix: Seq<char>,
    patches: Patches,
    with_wheel: bool,
) -> bool
    decreases count,
{
    if count <= 0 {
        false
    } else {
        payload_refused(
            start,
            source,
            members,
            count - 1,
            record,
            old_prefix,
            new_prefix,
            patches,
            with_wheel,
        ) || member_refused(
            start + payload(
                members.take(count - 1),
                record,
                old_prefix,
                new_prefix,
                patches,
                with_wheel,
            ).written,
            source,
            members,
            count - 1,
            record,
            old_prefix,
            new_prefix,
            patches,
            with_wheel,
        )
    }
}

/// Whether a repacking fails: at a member of the source, or because the
/// writer refuses the new `WHEEL`, `METADATA` or `RECORD` file. `source` are
/// the bytes of the source archive, `members` its members, and `start` what
/// the writer holds at the beginning.
pub open spec fn repack_refused(
    start: Written,
    source: Seq<u8>,
    members: Members,
    metadata: MetadataView,
    record: Seq<RecordEntryView>,
    old_prefix: Seq<char>,
    new_prefix: Seq<char>,
    patches: Patches,
    wheel: Option<WheelInfoView>,
) -> bool {
    let paid = payload(members, record, old_prefix, new_prefix, patches, wheel is Some);
    let wheeled = and_wheel(paid, new_prefix, wheel);
    let described = and_fresh(
        wheeled,
        dist_info_path(new_prefix, "METADATA"@),
        encode_utf8(serialized(metadata)),
    );
    let last = and_record(described, new_prefix).written.last();
    ||| payload_refused(
        start,
        source,
        members,
        members.len() as int,
        record,
        old_prefix,
        new_prefix,
        patches,
        wheel is Some,
    )
    ||| (wheel matches Some(w) && add_refused(
        start + paid.written,
        dist_info_path(new_prefix, "WHEEL"@),
        encode_utf8(serialized_wheel(w)),
    ))
    ||| add_refused(
        start + wheeled.written,
        dist_info_path(new_prefix, "METADATA"@),
        encode_utf8(serialized(metadata)),
    )
    ||| add_refused(start + described.written, last.0, last.1)
}

/// Of each member that the members of the source add to a repacking,
/// whether it may be one that cannot be unpacked: a replacement can be
/// unpacked, a raw copy can where the member of the source can.
pub open spec fn payload_faults(
    source: Seq<u8>,
    members: Members,
    old_prefix: Seq<char>,
    patches: Patches,
    with_wheel: bool,
) -> Seq<bool>
    decreases members.len(),
{
    if members.len() == 0 {
        Seq::empty()
    } else {
        let before = payload_faults(source, members.drop_last(), old_prefix, patches, with_wheel);
        if is_rewritten(members.last().0, old_prefix, with_wheel) {
            before
        } else if patch_for(patches, members.last().0) is Some {
            before.push(false)
        } else {
            before.push(zip_fault(source, members.len() - 1))
        }
    }
}

/// Of each member of a whole repacking, whether it may be one that cannot
/// be unpacked: the files that are written anew can all be unpacked.
pub open spec fn repacked_faults(
    source: Seq<u8>,
    members: Members,
    old_prefix: Seq<char>,
    patches: Patches,
    with_wheel: bool,
) -> Seq<bool> {
    let paid = payload_faults(source, members, old_prefix, patches, with_wheel);
    if with_wheel {
        paid.push(false).push(false).push(false)
    } else {
        paid.push(false).push(false)
    }
}

/// A failure at one of the first members is a failure at one of them all.
pub proof fn lemma_payload_refused_stays(
    start: Written,
    source: Seq<u8>,
    members: Members,
    count: int,
    bound: int,
    record: Seq<RecordEntryView>,
    old_prefix: Seq<char>,
    new_prefix: Seq<char>,
    patches: Patches,
    with_wheel: bool,
)
    requires
        count <= bound,
        payload_refused(
            start,
            source,
            members,
            count,
            record,
            old_prefix,
            new_prefix,
            patches,
            with_wheel,
        ),
    ensures
        payload_refused(
            start,
            source,
            members,
            bound,
            record,
            old_prefix,
            new_prefix,
            patches,
            with_wheel,
        ),
    decreases bound - count,
{
    if count < bound {
        lemma_payload_refused_stays(
            start,
            source,
            members,
            count,
            bound - 1,
            record,
            old_prefix,
            new_prefix,
            patches,
            with_wheel,
        );
    }
}

/// The view of a `WHEEL` content that may be absent.
pub open spec fn wheel_view(wheel: Option<&WheelInfo>) -> Option<WheelInfoView> {
    match wheel {
        Some(w) => Some(w@),
        None => None,
    }
}

/// The path of `file` in the `.dist-info` directory `prefix`.
pub fn dist_info_file(prefix: &str, file: &str) -> (path: String)
    ensures
        path@ == dist_info_path(prefix@, file@),
{
    let mut path = prefix.to_owned();
    path.push('/');
    push_text(&mut path, file);
    assert(path@ == prefix@ + seq!['/'] + file@);
    path
}

/// The name under which the member `name` goes to the output.
pub fn rename_member(name: &str, old_prefix: &str, new_prefix: &str) -> (target: String)
    ensures
        target@ == renamed(name@, old_prefix@, new_prefix@),
{
    let n = chars_of(name);
    let o = chars_of(old_prefix);
    let p = chars_of(new_prefix);
    if !crate::text::same_chars(&o, &p) && stands_at(&n, &o, 0) {
        let mut target = p;
        let rest = slice_chars(&n, o.len(), n.len());
        assert(n@.subrange(o@.len() as int, n@.len() as int) == n@.skip(o@.len() as int));
        push_chars(&mut target, &rest);
        string_of(&target)
    } else {
        name.to_owned()
    }
}

/// The replacement for `name`, if one is listed.
pub fn find_patch<'a>(patches: &'a Vec<(String, Vec<u8>)>, name: &String) -> (r: Option<
    &'a Vec<u8>,
>)
    ensures
        match r {
            Some(data) => patch_for(patches_of(patches@), name@) == Some(data@),
            None => patch_for(patches_of(patches@), name@) is None,
        },
{
    let ghost names = patched_names(patches_of(patches@));
    let mut i: usize = 0;
    while i < patches.len()
        invariant
            i <= patches@.len(),
            names == patched_names(patches_of(patches@)),
            forall|j: int| 0 <= j < i ==> names[j] != name@,
        decreases patches@.len() - i,
    {
        if patches[i].0 == *name {
            proof {
                lemma_index_of_is(names, name@, i as int);
            }
            return Some(&patches[i].1);
        }
        i += 1;
    }
    proof {
        lemma_index_of_is(names, name@, i as int);
    }
    None
}

/// The rows of a record in the making.
pub open spec fn rows_view(rows: Seq<RecordEntry>) -> Seq<RecordEntryView> {
    rows.map_values(|e: RecordEntry| e@)
}

/// Writes `data` afresh under `name` and notes its row. It succeeds
/// exactly where the writer does not refuse the member.
fn write_fresh(
    output: &mut ArchiveWriter,
    rows: &mut Vec<RecordEntry>,
    name: String,
    data: &[u8],
) -> (r: Result<(), WheelError>)
    ensures
        r is Ok <==> !add_refused(old(output).members(), name@, data@),
        r is Ok ==> {
            let done = and_fresh(
                Repack { written: old(output).members(), rows: rows_view(old(rows)@) },
                name@,
                data@,
            );
            final(output).members() == done.written && rows_view(final(rows)@) == done.rows
        },
        r is Ok ==> final(output).faults() == old(output).faults().push(false),
        r is Ok && written_names(old(output).members()).no_duplicates() ==> written_names(
            final(output).members(),
        ).no_duplicates(),
        r matches Err(e) ==> e is InvalidWheel || e is Zip || e is Io,
{
    match output.add(name.as_str(), data) {
        Ok(()) => {},
        Err(e) => {
            return Err(e);
        },
    }
    proof {
        if written_names(old(output).members()).no_duplicates() {
            lemma_new_name_is_distinct(old(output).members(), (name@, data@, false));
        }
    }
    let hash = hash_content(data);
    let ghost before = rows_view(rows@);
    let entry = RecordEntry::new(name, Some(hash), Some(data.len() as u64));
    rows.push(entry);
    assert(rows_view(rows@) == before.push(entry@));
    Ok(())
}

/// Repacks a wheel with new metadata, replacement contents for chosen members
/// and, where given, a new `WHEEL` file. It succeeds exactly where the
/// repacking is not refused: the writer takes every member, and every copied
/// member without a row in the source record can be unpacked for its hash.
/// Then the writer has gained exactly the members of the repacking, the
/// `RECORD` file last. The source archive stays as it is. Where it fails,
/// nothing is said of the writer.
pub fn write_modified_extended(
    source: &mut ZipArchive<Cursor<Vec<u8>>>,
    output: &mut ArchiveWriter,
    metadata: &Metadata,
    original_record: &Record,
    old_dist_info: &str,
    new_dist_info: &str,
    modified_files: &Vec<(String, Vec<u8>)>,
    wheel_info: Option<&WheelInfo>,
) -> (r: Result<(), WheelError>)
    ensures
        archive_members(*final(source)) == archive_members(*old(source)),
        archive_source(*final(source)) == archive_source(*old(source)),
        r is Ok <==> !repack_refused(
            old(output).members(),
            archive_source(*old(source)),
            archive_members(*old(source)),
            metadata@,
            original_record@,
            old_dist_info@,
            new_dist_info@,
            patches_of(modified_files@),
            wheel_view(wheel_info),
        ),
        r is Ok ==> final(output).members() == old(output).members() + repacked(
            archive_members(*old(source)),
            metadata@,
            original_record@,
            old_dist_info@,
            new_dist_info@,
            patches_of(modified_files@),
            wheel_view(wheel_info),
        ).written,
        r is Ok ==> fails_within(
            final(output).faults(),
            old(output).faults() + repacked_faults(
                archive_source(*old(source)),
                archive_members(*old(source)),
                old_dist_info@,
                patches_of(modified_files@),
                wheel_info is Some,
            ),
        ),
        r is Ok && written_names(old(output).members()).no_duplicates() ==> written_names(
            final(output).members(),
        ).no_duplicates(),
        r matches Err(e) ==> e is InvalidWheel || e is Zip || e is Io,
{
    let ghost members = archive_members(*source);
    let ghost start_faults = output.faults();
    let ghost bytes = archive_source(*source);
    let ghost start = output.members();
    let ghost patches = patches_of(modified_files@);
    let with_wheel = wheel_info.is_some();
    let mut rows: Vec<RecordEntry> = Vec::new();
    let old_metadata_path = dist_info_file(old_dist_info, "METADATA");
    let old_record_path = dist_info_file(old_dist_info, "RECORD");
    let old_wheel_path = dist_info_file(old_dist_info, "WHEEL");
    let count = archive_len(source);
    let mut i: usize = 0;
    assert(start + Seq::<(Seq<char>, Seq<u8>, bool)>::empty() == start);
    assert(start_faults + Seq::<bool>::empty() == start_faults);
    assert(rows_view(rows@) == Seq::<RecordEntryView>::empty());
    while i < count
        invariant
            i <= count == members.len(),
            archive_members(*source) == members,
            archive_members(*old(source)) == members,
            archive_source(*source) == bytes,
            archive_source(*old(source)) == bytes,
            start == old(output).members(),
            start_faults == old(output).faults(),
            fails_within(
                output.faults(),
                start_faults + payload_faults(
                    bytes,
                    members.take(i as int),
                    old_dist_info@,
                    patches,
                    with_wheel,
                ),
            ),
            written_names(start).no_duplicates() ==> written_names(output.members()).no_duplicates(),
            !payload_refused(
                start,
                bytes,
                members,
                i as int,
                original_record@,
                old_dist_info@,
                new_dist_info@,
                patches,
                with_wheel,
            ),
            patches == patches_of(modified_files@),
            with_wheel == (wheel_info is Some),
            with_wheel == (wheel_view(wheel_info) is Some),
            old_metadata_path@ == dist_info_path(old_dist_info@, "METADATA"@),
            old_record_path@ == dist_info_path(old_dist_info@, "RECORD"@),
            old_wheel_path@ == dist_info_path(old_dist_info@, "WHEEL"@),
            output.members() == start + payload(
                members.take(i as int),
                original_record@,
                old_dist_info@,
                new_dist_info@,
                patches,
                with_wheel,
            ).written,
            rows_view(rows@) == payload(
                members.take(i as int),
                original_record@,
                old_dist_info@,
                new_dist_info@,
                patches,
                with_wheel,
            ).rows,
        decreases count - i,
    {
        let ghost done = payload(
            members.take(i as int),
            original_record@,
            old_dist_info@,
            new_dist_info@,
            patches,
            with_wheel,
        );
        let ghost before = rows_view(rows@);
        let ghost sofar = output.members();
        let ghost faulty = payload_faults(
            bytes,
            members.take(i as int),
            old_dist_info@,
            patches,
            with_wheel,
        );
        assert(members.take(i + 1).len() - 1 == i);
        assert(members.take(i + 1).drop_last() == members.take(i as int));
        assert(members.take(i + 1).last() == members[i as int]);
        let ghost held = output.faults();
        let name = archive_name(source, i);
        let mut failure: Option<WheelError> = None;
        if name == old_metadata_path || name == old_record_path || (with_wheel && name
            == old_wheel_path) {
        } else {
            let target = rename_member(name.as_str(), old_dist_info, new_dist_info);
            match find_patch(modified_files, &name) {
                Some(data) => {
                    match write_fresh(output, &mut rows, target, data.as_slice()) {
                        Ok(()) => {
                            assert(output.members() == start + done.written.push(
                                (target@, data@, false),
                            ));
                            proof {
                                lemma_fails_within_push(held, start_faults + faulty, false, false);
                                assert((start_faults + faulty).push(false) == start_faults
                                    + faulty.push(false));
                            }
                        },
                        Err(e) => {
                            failure = Some(e);
                        },
                    }
                },
                None => {
                    match output.copy(source, i, target.as_str()) {
                        Ok(()) => {
                            proof {
                                let copied = output.faults().last();
                                assert(output.faults() == held.push(copied));
                                lemma_fails_within_push(
                                    held,
                                    start_faults + faulty,
                                    copied,
                                    zip_fault(bytes, i as int),
                                );
                                assert((start_faults + faulty).push(zip_fault(bytes, i as int))
                                    == start_faults + faulty.push(zip_fault(bytes, i as int)));
                            }
                            proof {
                                if written_names(sofar).no_duplicates() {
                                    lemma_new_name_is_distinct(
                                        sofar,
                                        (target@, members[i as int].1, true),
                                    );
                                }
                            }
                            match original_record.find(name.as_str()) {
                                Some(row) => {
                                    let entry = RecordEntry::new(
                                        target,
                                        clone_optional(&row.hash),
                                        row.size,
                                    );
                                    rows.push(entry);
                                    assert(rows_view(rows@) == before.push(entry@));
                                },
                                None => {
                                    match archive_read(source, i) {
                                        Ok(content) => {
                                            let hash = hash_content(content.as_slice());
                                            let entry = RecordEntry::new(
                                                target,
                                                Some(hash),
                                                Some(content.len() as u64),
                                            );
                                            rows.push(entry);
                                            assert(rows_view(rows@) == before.push(entry@));
                                        },
                                        Err(e) => {
                                            failure = Some(e);
                                        },
                                    }
                                },
                            }
                            assert(output.members() == start + done.written.push(
                                (target@, members[i as int].1, true),
                            ));
                        },
                        Err(e) => {
                            failure = Some(e);
                        },
                    }
                },
            }
        }
        match failure {
            Some(e) => {
                proof {
                    assert(member_refused(
                        sofar,
                        bytes,
                        members,
                        i as int,
                        original_record@,
                        old_dist_info@,
                        new_dist_info@,
                        patches,
                        with_wheel,
                    ));
                    assert(payload_refused(
                        start,
                        bytes,
                        members,
                        i + 1,
                        original_record@,
                        old_dist_info@,
                        new_dist_info@,
                        patches,
                        with_wheel,
                    ));
                    lemma_payload_refused_stays(
                        start,
                        bytes,
                        members,
                        i + 1,
                        members.len() as int,
                        original_record@,
                        old_dist_info@,
                        new_dist_info@,
                        patches,
                        with_wheel,
                    );
                }
                return Err(e);
            },
            None => {},
        }
        assert(!member_refused(
            sofar,
            bytes,
            members,
            i as int,
            original_record@,
            old_dist_info@,
            new_dist_info@,
            patches,
            with_wheel,
        ));
        i += 1;
    }
    assert(members.take(count as int) == members);
    let ghost paid = payload(
        members,
        original_record@,
        old_dist_info@,
        new_dist_info@,
        patches,
        with_wheel,
    );
    let ghost paid_faults = payload_faults(bytes, members, old_dist_info@, patches, with_wheel);
    let ghost copied = output.faults();
    match wheel_info {
        Some(info) => {
            let text = info.serialize();
            let path = dist_info_file(new_dist_info, "WHEEL");
            match write_fresh(output, &mut rows, path, text.as_str().as_bytes()) {
                Ok(()) => {},
                Err(e) => {
                    return Err(e);
                },
            }
        },
        None => {},
    }
    let ghost wheeled = and_wheel(paid, new_dist_info@, wheel_view(wheel_info));
    let ghost wheeled_bound = if with_wheel {
        start_faults + paid_faults.push(false)
    } else {
        start_faults + paid_faults
    };
    proof {
        if with_wheel {
            lemma_fails_within_push(copied, start_faults + paid_faults, false, false);
            assert((start_faults + paid_faults).push(false) == start_faults + paid_faults.push(
                false,
            ));
        }
    }
    assert(fails_within(output.faults(), wheeled_bound));
    let ghost wheeled_faults = output.faults();
    assert(output.members() == start + wheeled.written);
    assert(rows_view(rows@) == wheeled.rows);
    let text = metadata.serialize();
    let path = dist_info_file(new_dist_info, "METADATA");
    match write_fresh(output, &mut rows, path, text.as_str().as_bytes()) {
        Ok(()) => {},
        Err(e) => {
            return Err(e);
        },
    }
    let ghost described = and_fresh(
        wheeled,
        dist_info_path(new_dist_info@, "METADATA"@),
        encode_utf8(serialized(metadata@)),
    );
    let ghost described_faults = output.faults();
    proof {
        lemma_fails_within_push(wheeled_faults, wheeled_bound, false, false);
    }
    assert(output.members() == start + described.written);
    assert(rows_view(rows@) == described.rows);
    let path = dist_info_file(new_dist_info, "RECORD");
    let ghost before = rows_view(rows@);
    let entry = RecordEntry::new(dist_info_file(new_dist_info, "RECORD"), None, None);
    rows.push(entry);
    assert(rows_view(rows@) == before.push(entry@));
    let record = Record { entries: rows };
    let text = record.serialize();
    let ghost sofar = output.members();
    match output.add(path.as_str(), text.as_str().as_bytes()) {
        Ok(()) => {},
        Err(e) => {
            return Err(e);
        },
    }
    proof {
        if written_names(sofar).no_duplicates() {
            lemma_new_name_is_distinct(sofar, (path@, encode_utf8(text@), false));
        }
    }
    assert(output.members() == start + and_record(described, new_dist_info@).written);
    proof {
        lemma_fails_within_push(described_faults, wheeled_bound.push(false), false, false);
        assert(wheeled_bound.push(false).push(false) == start_faults + repacked_faults(
            bytes,
            members,
            old_dist_info@,
            patches,
            with_wheel,
        ));
    }
    Ok(())
}

/// Repacks a wheel with new metadata: `write_modified_extended` without
/// replacement contents and without a new `WHEEL` file.
pub fn write_modified(
    source: &mut ZipArchive<Cursor<Vec<u8>>>,
    output: &mut ArchiveWriter,
    metadata: &Metadata,
    original_record: &Record,
    old_dist_info: &str,
    new_dist_info: &str,
) -> (r: Result<(), WheelError>)
    ensures
        archive_members(*final(source)) == archive_members(*old(source)),
        archive_source(*final(source)) == archive_source(*old(source)),
        r is Ok <==> !repack_refused(
            old(output).members(),
            archive_source(*old(source)),
            archive_members(*old(source)),
            metadata@,
            original_record@,
            old_dist_info@,
            new_dist_info@,
            Seq::empty(),
            None,
        ),
        r is Ok ==> final(output).members() == old(output).members() + repacked(
            archive_members(*old(source)),
            metadata@,
            original_record@,
            old_dist_info@,
            new_dist_info@,
            Seq::empty(),
            None,
        ).written,
        r is Ok ==> fails_within(
            final(output).faults(),
            old(output).faults() + repacked_faults(
                archive_source(*old(source)),
                archive_members(*old(source)),
                old_dist_info@,
                Seq::empty(),
                false,
            ),
        ),
        r is Ok && written_names(old(output).members()).no_duplicates() ==> written_names(
            final(output).members(),
        ).no_duplicates(),
        r matches Err(e) ==> e is InvalidWheel || e is Zip || e is Io,
{
    let none: Vec<(String, Vec<u8>)> = Vec::new();
    assert(patches_of(none@) == Seq::<(Seq<char>, Seq<u8>)>::empty());
    write_modified_extended(
        source,
        output,
        metadata,
        original_record,
        old_dist_info,
        new_dist_info,
        &none,
        None,
    )
}

} // verus!
