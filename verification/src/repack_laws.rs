//! Laws of the repacking: what an edit of the metadata alone leaves as it
//! was, and when a repacked wheel is sound.

use vstd::prelude::*;
use crate::archive::as_members;
use crate::archive::names_of;
use crate::archive::written_names;
use crate::archive::zip_fault;
use crate::metadata_laws::is_canonical_metadata;
use crate::reader::metadata_in;
use crate::reader::wheel_info_in;
use crate::archive::Members;
use crate::archive::Written;
use crate::hash::content_hash;
use crate::metadata::MetadataView;
use crate::record::found;
use crate::record::RecordEntryView;
use crate::text::index_of;
use crate::text::lemma_index_of_is;
use crate::validator::extra_findings;
use crate::validator::file_data;
use crate::validator::findings;
use crate::validator::has_file;
use crate::validator::is_covered;
use crate::validator::is_directory;
use crate::validator::member_findings;
use crate::validator::record_findings;
use crate::validator::row_findings;
use crate::validator::Finding;
use crate::wheel_info::WheelInfoView;
use crate::writer::and_fresh;
use crate::writer::and_member;
use crate::writer::and_record;
use crate::writer::and_wheel;
use crate::writer::dist_info_path;
use crate::writer::fresh_entry;
use crate::writer::is_rewritten;
use crate::writer::kept_entry;
use crate::writer::patch_for;
use crate::validator::can_check;
use crate::writer::payload;
use crate::writer::payload_faults;
use crate::writer::repacked_faults;
use crate::writer::renamed;
use crate::writer::repacked;
use crate::writer::Patches;
use crate::writer::Repack;

verus! {

/// The members of the source that a repacking without a new `WHEEL` file
/// passes on, in their order.
pub open spec fn passed_on(members: Members, old_prefix: Seq<char>) -> Members
    decreases members.len(),
{
    if members.len() == 0 {
        Seq::empty()
    } else if is_rewritten(members.last().0, old_prefix, false) {
        passed_on(members.drop_last(), old_prefix)
    } else {
        passed_on(members.drop_last(), old_prefix).push(members.last())
    }
}

/// The row of a member that is copied: that of the source record under the
/// new name, or a fresh one where the record has none.
pub open spec fn copied_row(
    member: (Seq<char>, Seq<u8>),
    record: Seq<RecordEntryView>,
    old_prefix: Seq<char>,
    new_prefix: Seq<char>,
) -> RecordEntryView {
    match found(record, member.0) {
        Some(row) => kept_entry(renamed(member.0, old_prefix, new_prefix), row),
        None => fresh_entry(renamed(member.0, old_prefix, new_prefix), member.1),
    }
}

/// An edit of the metadata alone: every member that is passed on is copied
/// raw under its new name, and its row keeps the hash and the size that the
/// source record states for it.
pub proof fn lemma_metadata_edit_copies(
    members: Members,
    record: Seq<RecordEntryView>,
    old_prefix: Seq<char>,
    new_prefix: Seq<char>,
)
    ensures
        payload(members, record, old_prefix, new_prefix, Seq::empty(), false).written == passed_on(
            members,
            old_prefix,
        ).map_values(
            |m: (Seq<char>, Seq<u8>)| (renamed(m.0, old_prefix, new_prefix), m.1, true),
        ),
        payload(members, record, old_prefix, new_prefix, Seq::empty(), false).rows == passed_on(
            members,
            old_prefix,
        ).map_values(|m: (Seq<char>, Seq<u8>)| copied_row(m, record, old_prefix, new_prefix)),
    decreases members.len(),
{
    let none: Patches = Seq::empty();
    if members.len() > 0 {
        lemma_metadata_edit_copies(members.drop_last(), record, old_prefix, new_prefix);
        let before = passed_on(members.drop_last(), old_prefix);
        let last = members.last();
        assert(patch_for(none, last.0) is None);
        if !is_rewritten(last.0, old_prefix, false) {
            assert(before.push(last).map_values(
                |m: (Seq<char>, Seq<u8>)| (renamed(m.0, old_prefix, new_prefix), m.1, true),
            ) == before.map_values(
                |m: (Seq<char>, Seq<u8>)| (renamed(m.0, old_prefix, new_prefix), m.1, true),
            ).push((renamed(last.0, old_prefix, new_prefix), last.1, true)));
            assert(before.push(last).map_values(
                |m: (Seq<char>, Seq<u8>)| copied_row(m, record, old_prefix, new_prefix),
            ) == before.map_values(
                |m: (Seq<char>, Seq<u8>)| copied_row(m, record, old_prefix, new_prefix),
            ).push(copied_row(last, record, old_prefix, new_prefix)));
        }
    } else {
        assert(passed_on(members, old_prefix).map_values(
            |m: (Seq<char>, Seq<u8>)| (renamed(m.0, old_prefix, new_prefix), m.1, true),
        ) == Seq::<(Seq<char>, Seq<u8>, bool)>::empty());
        assert(passed_on(members, old_prefix).map_values(
            |m: (Seq<char>, Seq<u8>)| copied_row(m, record, old_prefix, new_prefix),
        ) == Seq::<RecordEntryView>::empty());
    }
}

/// Whether a member of the source goes to the output with a row that a
/// validation accepts: a row with a hash is that of a file and states the
/// hash of its content, be it from the source record or computed.
pub open spec fn is_sound_member(
    member: (Seq<char>, Seq<u8>),
    record: Seq<RecordEntryView>,
    old_prefix: Seq<char>,
    new_prefix: Seq<char>,
    patches: Patches,
    with_wheel: bool,
) -> bool {
    let target = renamed(member.0, old_prefix, new_prefix);
    if is_rewritten(member.0, old_prefix, with_wheel) {
        true
    } else if patch_for(patches, member.0) is Some {
        !is_directory(target)
    } else {
        match found(record, member.0) {
            Some(row) => match row.hash {
                Some(h) => !is_directory(target) && h == content_hash(member.1),
                None => true,
            },
            None => !is_directory(target),
        }
    }
}

/// Whether the row at `k` is one that a validation accepts for the member
/// written at `k`.
pub open spec fn is_sound_row(r: Repack, k: int) -> bool {
    &&& r.rows[k].path == r.written[k].0
    &&& match r.rows[k].hash {
        Some(h) => !is_directory(r.rows[k].path) && h == content_hash(r.written[k].1),
        None => true,
    }
}

/// Whether every member written has a row of its own that a validation
/// accepts.
pub open spec fn is_sound(r: Repack) -> bool {
    r.rows.len() == r.written.len() && forall|k: int|
        0 <= k < r.rows.len() ==> #[trigger] is_sound_row(r, k)
}

/// One more member with a sound row keeps a repacking sound.
proof fn lemma_sound_push(
    done: Repack,
    next: Repack,
    name: Seq<char>,
    data: Seq<u8>,
    raw: bool,
    row: RecordEntryView,
)
    requires
        is_sound(done),
        next.written == done.written.push((name, data, raw)),
        next.rows == done.rows.push(row),
        row.path == name,
        match row.hash {
            Some(h) => !is_directory(name) && h == content_hash(data),
            None => true,
        },
    ensures
        is_sound(next),
{
    assert forall|k: int| 0 <= k < next.rows.len() implies #[trigger] is_sound_row(next, k) by {
        if k < done.rows.len() {
            assert(is_sound_row(done, k));
            assert(next.rows[k] == done.rows[k]);
            assert(next.written[k] == done.written[k]);
        }
    }
}

/// The members of a source whose members are sound give a sound repacking.
proof fn lemma_payload_sound(
    members: Members,
    record: Seq<RecordEntryView>,
    old_prefix: Seq<char>,
    new_prefix: Seq<char>,
    patches: Patches,
    with_wheel: bool,
)
    requires
        forall|i: int|
            0 <= i < members.len() ==> is_sound_member(
                #[trigger] members[i],
                record,
                old_prefix,
                new_prefix,
                patches,
                with_wheel,
            ),
    ensures
        is_sound(payload(members, record, old_prefix, new_prefix, patches, with_wheel)),
    decreases members.len(),
{
    if members.len() > 0 {
        let init = members.drop_last();
        let last = members.last();
        assert forall|i: int| 0 <= i < init.len() implies is_sound_member(
            #[trigger] init[i],
            record,
            old_prefix,
            new_prefix,
            patches,
            with_wheel,
        ) by {
            assert(init[i] == members[i]);
        }
        lemma_payload_sound(init, record, old_prefix, new_prefix, patches, with_wheel);
        let done = payload(init, record, old_prefix, new_prefix, patches, with_wheel);
        let next = and_member(done, last, record, old_prefix, new_prefix, patches, with_wheel);
        assert(is_sound_member(
            members[members.len() - 1],
            record,
            old_prefix,
            new_prefix,
            patches,
            with_wheel,
        ));
        let target = renamed(last.0, old_prefix, new_prefix);
        if !is_rewritten(last.0, old_prefix, with_wheel) {
            match patch_for(patches, last.0) {
                Some(data) => {
                    lemma_sound_push(done, next, target, data, false, fresh_entry(target, data));
                },
                None => {
                    match found(record, last.0) {
                        Some(row) => {
                            lemma_sound_push(
                                done,
                                next,
                                target,
                                last.1,
                                true,
                                kept_entry(target, row),
                            );
                        },
                        None => {
                            lemma_sound_push(
                                done,
                                next,
                                target,
                                last.1,
                                true,
                                fresh_entry(target, last.1),
                            );
                        },
                    }
                },
            }
        }
    }
}

/// A descriptor of the `.dist-info` directory is a file.
proof fn lemma_descriptor_names(prefix: Seq<char>)
    ensures
        !is_directory(dist_info_path(prefix, "WHEEL"@)),
        !is_directory(dist_info_path(prefix, "METADATA"@)),
{
    reveal_strlit("WHEEL");
    reveal_strlit("METADATA");
    let w = dist_info_path(prefix, "WHEEL"@);
    assert(w.last() == 'L');
    let m = dist_info_path(prefix, "METADATA"@);
    assert(m.last() == 'A');
}

/// A sound repacking under distinct names has no finding among its rows.
proof fn lemma_no_row_findings(r: Repack, k: int)
    requires
        is_sound(r),
        written_names(r.written).no_duplicates(),
        0 <= k <= r.rows.len(),
    ensures
        record_findings(as_members(r.written), r.rows.take(k)) == Seq::<Finding>::empty(),
    decreases k,
{
    let members = as_members(r.written);
    if k > 0 {
        lemma_no_row_findings(r, k - 1);
        let rows = r.rows.take(k);
        assert(rows.drop_last() == r.rows.take(k - 1));
        let row = rows.last();
        assert(row == r.rows[k - 1]);
        assert(is_sound_row(r, k - 1));
        match row.hash {
            None => {},
            Some(h) => {
                let names = names_of(members);
                let all = written_names(r.written);
                assert forall|j: int| 0 <= j < k - 1 implies names[j] != row.path by {
                    assert(names[j] == all[j]);
                    assert(all[k - 1] == row.path);
                }
                assert(names[k - 1] == row.path);
                lemma_index_of_is(names, row.path, k - 1);
                assert(has_file(members, row.path));
                assert(file_data(members, row.path) == r.written[k - 1].1);
                assert(row_findings(members, row) == Seq::<Finding>::empty());
            },
        }
        assert(record_findings(members, rows) == Seq::<Finding>::empty());
    } else {
        assert(r.rows.take(0) == Seq::<RecordEntryView>::empty());
    }
}

/// A sound repacking has no extra file.
proof fn lemma_no_extra_findings(r: Repack, k: int)
    requires
        is_sound(r),
        0 <= k <= r.rows.len(),
    ensures
        extra_findings(names_of(as_members(r.written)).take(k), r.rows) == Seq::<Finding>::empty(),
    decreases k,
{
    let names = names_of(as_members(r.written));
    if k > 0 {
        lemma_no_extra_findings(r, k - 1);
        let some = names.take(k);
        assert(some.drop_last() == names.take(k - 1));
        let name = some.last();
        assert(name == r.written[k - 1].0);
        assert(is_sound_row(r, k - 1));
        assert(r.rows[k - 1].path == name);
        assert(is_covered(r.rows, name));
        assert(member_findings(r.rows, name) == Seq::<Finding>::empty());
        assert(extra_findings(some, r.rows) == Seq::<Finding>::empty());
    } else {
        assert(names.take(0) == Seq::<Seq<char>>::empty());
    }
}

/// Integrity of a repacking: where every member of the source goes out with
/// a sound row, and the names of the output are distinct (which the writer
/// grants where it succeeds), a validation of what was written against the
/// rows that state it finds nothing.
pub proof fn lemma_repacked_is_valid(
    members: Members,
    metadata: MetadataView,
    record: Seq<RecordEntryView>,
    old_prefix: Seq<char>,
    new_prefix: Seq<char>,
    patches: Patches,
    wheel: Option<WheelInfoView>,
)
    requires
        forall|i: int|
            0 <= i < members.len() ==> is_sound_member(
                #[trigger] members[i],
                record,
                old_prefix,
                new_prefix,
                patches,
                wheel is Some,
            ),
        written_names(
            repacked(members, metadata, record, old_prefix, new_prefix, patches, wheel).written,
        ).no_duplicates(),
    ensures
        findings(
            as_members(
                repacked(members, metadata, record, old_prefix, new_prefix, patches, wheel).written,
            ),
            repacked(members, metadata, record, old_prefix, new_prefix, patches, wheel).rows,
        ) == Seq::<Finding>::empty(),
{
    let paid = payload(members, record, old_prefix, new_prefix, patches, wheel is Some);
    lemma_payload_sound(members, record, old_prefix, new_prefix, patches, wheel is Some);
    lemma_descriptor_names(new_prefix);
    let wheeled = and_wheel(paid, new_prefix, wheel);
    match wheel {
        Some(w) => {
            let name = dist_info_path(new_prefix, "WHEEL"@);
            let data = vstd::utf8::encode_utf8(crate::wheel_info::serialized_wheel(w));
            lemma_sound_push(paid, wheeled, name, data, false, fresh_entry(name, data));
        },
        None => {},
    }
    let name = dist_info_path(new_prefix, "METADATA"@);
    let data = vstd::utf8::encode_utf8(crate::metadata::serialized(metadata));
    let described = and_fresh(wheeled, name, data);
    lemma_sound_push(wheeled, described, name, data, false, fresh_entry(name, data));
    let r = and_record(described, new_prefix);
    let last = r.written.last();
    lemma_sound_push(
        described,
        r,
        last.0,
        last.1,
        false,
        RecordEntryView { path: last.0, hash: None, size: None },
    );
    lemma_no_row_findings(r, r.rows.len() as int);
    lemma_no_extra_findings(r, r.rows.len() as int);
    assert(r.rows.take(r.rows.len() as int) == r.rows);
    let names = names_of(as_members(r.written));
    assert(names.take(r.rows.len() as int) == names);
}

/// What was saved reads back: in an archive that holds the members of a
/// repacking under distinct names, with the new `METADATA` file to be
/// unpacked, the `METADATA` file of the new `.dist-info` directory states
/// the metadata that was written, where that metadata is canonical.
pub proof fn lemma_repacked_metadata_is_read(
    bytes: Seq<u8>,
    members: Members,
    metadata: MetadataView,
    record: Seq<RecordEntryView>,
    old_prefix: Seq<char>,
    new_prefix: Seq<char>,
    patches: Patches,
    wheel: Option<WheelInfoView>,
)
    requires
        written_names(
            repacked(members, metadata, record, old_prefix, new_prefix, patches, wheel).written,
        ).no_duplicates(),
        !zip_fault(
            bytes,
            repacked(members, metadata, record, old_prefix, new_prefix, patches, wheel).written.len()
                - 2,
        ),
        is_canonical_metadata(metadata),
    ensures
        metadata_in(
            bytes,
            as_members(
                repacked(members, metadata, record, old_prefix, new_prefix, patches, wheel).written,
            ),
            new_prefix,
        ) == Some(metadata),
{
    let r = repacked(members, metadata, record, old_prefix, new_prefix, patches, wheel);
    let held = as_members(r.written);
    let names = names_of(held);
    let all = written_names(r.written);
    let path = dist_info_path(new_prefix, "METADATA"@);
    let at = r.written.len() - 2;
    let text = crate::metadata::serialized(metadata);
    assert(r.written[at] == (path, vstd::utf8::encode_utf8(text), false));
    assert(names[at] == path);
    assert forall|j: int| 0 <= j < at implies names[j] != path by {
        assert(names[j] == all[j]);
        assert(all[at] == path);
    }
    lemma_index_of_is(names, path, at);
    vstd::utf8::encode_utf8_valid_utf8(text);
    vstd::utf8::encode_utf8_decode_utf8(text);
    crate::metadata_laws::lemma_metadata_roundtrip(metadata);
}

/// What was saved reads back: in an archive that holds the members of a
/// repacking with a new `WHEEL` file under distinct names, with that file
/// to be unpacked, the `WHEEL` file of the new `.dist-info` directory
/// states the content that was written, where that content is canonical.
pub proof fn lemma_repacked_wheel_info_is_read(
    bytes: Seq<u8>,
    members: Members,
    metadata: MetadataView,
    record: Seq<RecordEntryView>,
    old_prefix: Seq<char>,
    new_prefix: Seq<char>,
    patches: Patches,
    info: WheelInfoView,
)
    requires
        written_names(
            repacked(
                members,
                metadata,
                record,
                old_prefix,
                new_prefix,
                patches,
                Some(info),
            ).written,
        ).no_duplicates(),
        !zip_fault(
            bytes,
            repacked(
                members,
                metadata,
                record,
                old_prefix,
                new_prefix,
                patches,
                Some(info),
            ).written.len() - 3,
        ),
        crate::wheel_info_laws::is_canonical_wheel(info),
    ensures
        wheel_info_in(
            bytes,
            as_members(
                repacked(
                    members,
                    metadata,
                    record,
                    old_prefix,
                    new_prefix,
                    patches,
                    Some(info),
                ).written,
            ),
            new_prefix,
        ) == Some(info),
{
    let r = repacked(members, metadata, record, old_prefix, new_prefix, patches, Some(info));
    let held = as_members(r.written);
    let names = names_of(held);
    let all = written_names(r.written);
    let path = dist_info_path(new_prefix, "WHEEL"@);
    let at = r.written.len() - 3;
    let text = crate::wheel_info::serialized_wheel(info);
    assert(r.written[at] == (path, vstd::utf8::encode_utf8(text), false));
    assert(names[at] == path);
    assert forall|j: int| 0 <= j < at implies names[j] != path by {
        assert(names[j] == all[j]);
        assert(all[at] == path);
    }
    lemma_index_of_is(names, path, at);
    vstd::utf8::encode_utf8_valid_utf8(text);
    vstd::utf8::encode_utf8_decode_utf8(text);
    crate::wheel_info_laws::lemma_wheel_roundtrip(info);
}

/// The members that the source adds to a repacking are as many as their
/// marks, and where every member of the source can be unpacked, so can
/// every one of them.
pub proof fn lemma_payload_faults(
    source: Seq<u8>,
    members: Members,
    record: Seq<RecordEntryView>,
    old_prefix: Seq<char>,
    new_prefix: Seq<char>,
    patches: Patches,
    with_wheel: bool,
    count: int,
)
    requires
        0 <= count <= members.len(),
        forall|i: int| 0 <= i < members.len() ==> !zip_fault(source, i),
    ensures
        payload_faults(source, members.take(count), old_prefix, patches, with_wheel).len()
            == payload(
            members.take(count),
            record,
            old_prefix,
            new_prefix,
            patches,
            with_wheel,
        ).written.len(),
        forall|k: int|
            0 <= k < payload_faults(
                source,
                members.take(count),
                old_prefix,
                patches,
                with_wheel,
            ).len() ==> !(#[trigger] payload_faults(
                source,
                members.take(count),
                old_prefix,
                patches,
                with_wheel,
            )[k]),
    decreases count,
{
    if count > 0 {
        lemma_payload_faults(
            source,
            members,
            record,
            old_prefix,
            new_prefix,
            patches,
            with_wheel,
            count - 1,
        );
        assert(members.take(count).drop_last() == members.take(count - 1));
        assert(members.take(count).len() - 1 == count - 1);
    }
}

/// A saved wheel can be checked: where every member of the source can be
/// unpacked, and a member of the new archive cannot be unpacked only where
/// the repacking marks it so, a validation of the new archive succeeds
/// whatever the record.
pub proof fn lemma_repacked_can_be_checked(
    bytes: Seq<u8>,
    source: Seq<u8>,
    members: Members,
    metadata: MetadataView,
    record: Seq<RecordEntryView>,
    old_prefix: Seq<char>,
    new_prefix: Seq<char>,
    patches: Patches,
    wheel: Option<WheelInfoView>,
    rows: Seq<RecordEntryView>,
)
    requires
        forall|i: int| 0 <= i < members.len() ==> !zip_fault(source, i),
        forall|k: int|
            0 <= k < repacked_faults(source, members, old_prefix, patches, wheel is Some).len()
                && #[trigger] zip_fault(bytes, k) ==> repacked_faults(
                source,
                members,
                old_prefix,
                patches,
                wheel is Some,
            )[k],
    ensures
        can_check(
            bytes,
            as_members(
                repacked(members, metadata, record, old_prefix, new_prefix, patches, wheel).written,
            ),
            rows,
        ),
{
    let held = as_members(
        repacked(members, metadata, record, old_prefix, new_prefix, patches, wheel).written,
    );
    let faults = repacked_faults(source, members, old_prefix, patches, wheel is Some);
    lemma_payload_faults(
        source,
        members,
        record,
        old_prefix,
        new_prefix,
        patches,
        wheel is Some,
        members.len() as int,
    );
    assert(members.take(members.len() as int) == members);
    assert(faults.len() == held.len());
    assert forall|k: int| 0 <= k < faults.len() implies !zip_fault(bytes, k) by {
        assert(zip_fault(bytes, k) ==> faults[k]);
    }
}

} // verus!
