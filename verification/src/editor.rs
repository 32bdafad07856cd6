//! The editor of a wheel: it holds the descriptors of a wheel and the changes
//! that are pending, and repacks the wheel with them.

use vstd::prelude::*;
use std::io::Cursor;
use zip::ZipArchive;
use crate::archive::archive_len;
use crate::archive::archive_members;
use crate::archive::archive_name;
use crate::archive::archive_open;
use crate::archive::archive_read;
use crate::archive::cursor_over;
use crate::archive::find_member;
use crate::archive::archive_source;
use crate::archive::as_members;
use crate::archive::finish_refused;
use crate::archive::fails_within;
use crate::archive::zip_fault;
use crate::archive::Written;
use crate::archive::names_of;
use crate::archive::written_names;
use crate::archive::zip_archive;
use crate::archive::ArchiveWriter;
use crate::archive::Members;
use crate::elf::effective_rpath;
use crate::elf::image_fault;
use crate::elf::read_fault;
use crate::elf::elf_info;
use crate::elf::modified;
use crate::elf::modify_elf;
use crate::elf::tags_of;
use crate::elf::ElfModification;
use crate::elf::PathTag;
use crate::error::ElfError;
use crate::error::ValidationResult;
use crate::error::WheelError;
use crate::metadata::field_value;
use crate::metadata::with_value;
use crate::metadata::FieldValue;
use crate::metadata::Metadata;
use crate::metadata::MetadataView;
use crate::name::dist_info;
use crate::name::dist_info_name;
use crate::reader::dist_info_of;
use crate::reader::is_dist_info;
use crate::reader::metadata_in;
use crate::reader::record_in;
use crate::reader::wheel_info_in;
use crate::reader::WheelReader;
use crate::record::Record;
use crate::record::RecordEntryView;
use crate::text::index_of;
use crate::text::lemma_index_of_is;
use crate::text::optional;
use crate::text::push_string;
use crate::text::strings;
use crate::validator::can_check;
use crate::validator::findings;
use crate::validator::validate_wheel;
use crate::wheel_info::retagged;
use crate::wheel_info::WheelInfo;
use crate::wheel_info::WheelInfoView;
use crate::writer::repack_refused;
use crate::writer::repacked_faults;
use crate::header_laws::distinct_keys;
use crate::writer::distinct_patches;
use crate::writer::patched_names;
use crate::writer::patches_of;
use crate::writer::repacked;
use crate::writer::write_modified;
use crate::writer::write_modified_extended;
use crate::writer::Patches;

verus! {

/// `glob::Pattern`: a compiled glob pattern. Known here by the text that it
/// was made of.
#[verifier::external_type_specification]
#[verifier::external_body]
pub struct ExPattern(glob::Pattern);

/// Whether a text is a well-formed glob pattern.
pub uninterp spec fn glob_valid(text: Seq<char>) -> bool;

/// The text that a pattern was made of.
pub uninterp spec fn pattern_text(pattern: glob::Pattern) -> Seq<char>;

/// Whether the pattern made of `pattern` matches `name`; with
/// `literal_separator`, `*` and `?` do not match a `/`.
pub uninterp spec fn glob_matches(
    pattern: Seq<char>,
    name: Seq<char>,
    literal_separator: bool,
) -> bool;

/// Whether a pattern selects a member of a wheel: it matches its name, and
/// `*` and `?` match no `/`.
pub open spec fn selects(pattern: Seq<char>, name: Seq<char>) -> bool {
    glob_matches(pattern, name, true)
}

/// `glob::Pattern::new`: the pattern that a text states, where it states one.
#[verifier::external_body]
fn glob_compile(text: &str) -> (r: Result<glob::Pattern, glob::PatternError>)
    ensures
        r is Ok <==> glob_valid(text@),
        r matches Ok(pattern) ==> pattern_text(pattern) == text@,
{
    glob::Pattern::new(text)
}

/// `glob::Pattern::matches_with`, case-sensitive and without a rule for
/// leading dots: whether the pattern matches `name`; with
/// `literal_separator`, a separator is matched by a literal separator
/// only. The separator is `/`; where the platform has `\` as a second
/// separator of paths, the `glob` crate takes it for one too.
#[verifier::external_body]
fn glob_match(pattern: &glob::Pattern, name: &str, literal_separator: bool) -> (r: bool)
    ensures
        r == glob_matches(pattern_text(*pattern), name@, literal_separator),
{
    pattern.matches_with(
        name,
        glob::MatchOptions {
            case_sensitive: true,
            require_literal_separator: literal_separator,
            require_literal_leading_dot: false,
        },
    )
}

/// Whether a content begins with the four bytes that mark an ELF image.
pub open spec fn is_elf(data: Seq<u8>) -> bool {
    data.len() >= 4 && data[0] == 0x7F && data[1] == 0x45 && data[2] == 0x4C && data[3] == 0x46
}

/// The replacements with one more: it takes the place of the one listed for
/// the same name, or goes to the end.
pub open spec fn with_patch(patches: Patches, name: Seq<char>, data: Seq<u8>) -> Patches {
    let i = index_of(patched_names(patches), name) as int;
    if i < patches.len() {
        patches.update(i, (name, data))
    } else {
        patches.push((name, data))
    }
}

/// What one member adds to the replacements when a search path is set for
/// the members that a pattern matches: a member that the pattern matches,
/// that is an ELF image, and that can be patched, is replaced by its patched
/// image. The number counts the members replaced.
pub open spec fn repathed_member(
    done: (Patches, nat),
    member: (Seq<char>, Seq<u8>),
    pattern: Seq<char>,
    rpath: Seq<char>,
) -> (Patches, nat) {
    if selects(pattern, member.0) && is_elf(member.1) {
        match modified(member.1, seq![(true, rpath)]) {
            Ok(image) => (with_patch(done.0, member.0, image), done.1 + 1),
            Err(_) => done,
        }
    } else {
        done
    }
}

/// The replacements after a search path was set for the members that a
/// pattern matches, and the number of members replaced.
pub open spec fn repathed(members: Members, pattern: Seq<char>, rpath: Seq<char>, patches: Patches) -> (
    Patches,
    nat,
)
    decreases members.len(),
{
    if members.len() == 0 {
        (patches, 0)
    } else {
        repathed_member(
            repathed(members.drop_last(), pattern, rpath, patches),
            members.last(),
            pattern,
            rpath,
        )
    }
}

/// An editor of a wheel.
pub struct WheelEditor {
    path: String,
    metadata: Metadata,
    record: Record,
    dist_info_prefix: String,
    wheel_info: WheelInfo,
    modified_files: Vec<(String, Vec<u8>)>,
    wheel_info_modified: bool,
}

/// What a `WheelEditor` holds, as plain values.
pub struct EditorView {
    /// Where the wheel was read from.
    pub path: Seq<char>,
    pub metadata: MetadataView,
    /// The record of the wheel as it was read.
    pub record: Seq<RecordEntryView>,
    /// The name of the `.dist-info` directory of the wheel as it was read.
    pub prefix: Seq<char>,
    pub wheel_info: WheelInfoView,
    /// The replacement contents that are pending.
    pub patches: Patches,
    /// Whether the `WHEEL` file is to be written anew.
    pub wheel_modified: bool,
}

impl View for WheelEditor {
    type V = EditorView;

    closed spec fn view(&self) -> EditorView {
        EditorView {
            path: self.path@,
            metadata: self.metadata@,
            record: self.record@,
            prefix: self.dist_info_prefix@,
            wheel_info: self.wheel_info@,
            patches: patches_of(self.modified_files@),
            wheel_modified: self.wheel_info_modified,
        }
    }
}

/// The `WHEEL` content that a saving writes: that of the editor where
/// something other than the metadata changed, none where nothing did.
pub open spec fn wheel_to_write(e: EditorView) -> Option<WheelInfoView> {
    if e.patches.len() > 0 || e.wheel_modified {
        Some(e.wheel_info)
    } else {
        None
    }
}

/// Whether the bytes hold a wheel that can be opened: an archive with one
/// `.dist-info` directory whose three descriptors can be read and are
/// well-formed.
pub open spec fn can_open(source: Seq<u8>) -> bool {
    &&& zip_archive(source) matches Some(members)
    &&& exists|p: Seq<char>|
        {
            &&& #[trigger] is_dist_info(names_of(members), p)
            &&& metadata_in(source, members, p) is Some
            &&& record_in(source, members, p) is Some
            &&& wheel_info_in(source, members, p) is Some
        }
}

/// Whether a search path can be set for the members that a pattern matches:
/// the pattern is well-formed, the bytes hold an archive, and every member
/// that the pattern matches can be unpacked.
pub open spec fn can_repath(source: Seq<u8>, pattern: Seq<char>) -> bool {
    &&& glob_valid(pattern)
    &&& zip_archive(source) matches Some(members)
    &&& forall|k: int|
        0 <= k < members.len() && selects(pattern, (#[trigger] members[k]).0) ==> !zip_fault(
            source,
            k,
        )
}

/// The members that a saving writes.
pub open spec fn saved(members: Members, e: EditorView) -> Written {
    repacked(
        members,
        e.metadata,
        e.record,
        e.prefix,
        dist_info(e.metadata.name, e.metadata.version),
        e.patches,
        wheel_to_write(e),
    ).written
}

/// Of each member that a saving writes, whether it may be one that cannot
/// be unpacked: one that is copied raw from a member that cannot.
pub open spec fn saved_faults(source: Seq<u8>, members: Members, e: EditorView) -> Seq<bool> {
    repacked_faults(source, members, e.prefix, e.patches, wheel_to_write(e) is Some)
}

/// Whether a wheel can be saved: the bytes hold an archive, the repacking
/// is not refused, and the writer closes.
pub open spec fn can_save(source: Seq<u8>, e: EditorView) -> bool {
    &&& zip_archive(source) matches Some(members)
    &&& !repack_refused(
        Seq::empty(),
        source,
        members,
        e.metadata,
        e.record,
        e.prefix,
        dist_info(e.metadata.name, e.metadata.version),
        e.patches,
        wheel_to_write(e),
    )
    &&& !finish_refused(saved(members, e))
}

/// A copy of the replacements.
fn copy_patches(patches: &Vec<(String, Vec<u8>)>) -> (r: Vec<(String, Vec<u8>)>)
    ensures
        patches_of(r@) == patches_of(patches@),
{
    let mut r: Vec<(String, Vec<u8>)> = Vec::new();
    let mut i: usize = 0;
    while i < patches.len()
        invariant
            i <= patches@.len(),
            patches_of(r@) == patches_of(patches@).take(i as int),
        decreases patches@.len() - i,
    {
        let ghost before = patches_of(r@);
        let name = patches[i].0.clone();
        let data = vstd::slice::slice_to_vec(patches[i].1.as_slice());
        r.push((name, data));
        assert(patches_of(r@) == before.push((name@, data@)));
        i += 1;
    }
    assert(patches_of(patches@).take(patches@.len() as int) == patches_of(patches@));
    r
}

/// One more replacement leaves the names distinct.
pub proof fn lemma_with_patch_distinct(patches: Patches, name: Seq<char>, data: Seq<u8>)
    requires
        distinct_patches(patches),
    ensures
        distinct_patches(with_patch(patches, name, data)),
{
    let names = patched_names(patches);
    crate::text::lemma_index_of(names, name);
    let i = index_of(names, name) as int;
    let next = with_patch(patches, name, data);
    if i < patches.len() {
        assert(names[i] == name);
        assert(patches[i].0 == name);
        assert forall|a: int, b: int| 0 <= a < b < next.len() implies (#[trigger] next[a]).0 != (
        #[trigger] next[b]).0 by {
            assert(next[a].0 == patches[a].0);
            assert(next[b].0 == patches[b].0);
        }
    } else {
        assert forall|a: int| 0 <= a < patches.len() implies (#[trigger] patches[a]).0 != name by {
            assert(names[a] == patches[a].0);
        }
        assert forall|a: int, b: int| 0 <= a < b < next.len() implies (#[trigger] next[a]).0 != (
        #[trigger] next[b]).0 by {
            assert(next[a] == patches[a]);
            if b < patches.len() {
                assert(next[b] == patches[b]);
            }
        }
    }
}

/// Setting a search path leaves the names of the replacements distinct.
pub proof fn lemma_repathed_distinct(
    members: Members,
    pattern: Seq<char>,
    rpath: Seq<char>,
    patches: Patches,
)
    requires
        distinct_patches(patches),
    ensures
        distinct_patches(repathed(members, pattern, rpath, patches).0),
    decreases members.len(),
{
    if members.len() > 0 {
        lemma_repathed_distinct(members.drop_last(), pattern, rpath, patches);
        let done = repathed(members.drop_last(), pattern, rpath, patches);
        let member = members.last();
        if selects(pattern, member.0) && is_elf(member.1) {
            match modified(member.1, seq![(true, rpath)]) {
                Ok(image) => {
                    lemma_with_patch_distinct(done.0, member.0, image);
                },
                Err(_) => {},
            }
        }
    }
}

/// Lists `data` as the replacement for `name`.
fn put_patch(patches: &mut Vec<(String, Vec<u8>)>, name: String, data: Vec<u8>)
    ensures
        patches_of(final(patches)@) == with_patch(patches_of(old(patches)@), name@, data@),
{
    let ghost before = patches_of(patches@);
    let ghost names = patched_names(before);
    let mut i: usize = 0;
    while i < patches.len() && !(patches[i].0 == name)
        invariant
            i <= patches@.len(),
            patches@ == old(patches)@,
            before == patches_of(patches@),
            names == patched_names(before),
            forall|j: int| 0 <= j < i ==> names[j] != name@,
        decreases patches@.len() - i,
    {
        i += 1;
    }
    proof {
        lemma_index_of_is(names, name@, i as int);
    }
    if i < patches.len() {
        patches.set(i, (name, data));
        assert(patches_of(patches@) == before.update(i as int, (name@, data@)));
    } else {
        patches.push((name, data));
        assert(patches_of(patches@) == before.push((name@, data@)));
    }
}

/// Whether `data` begins with the four bytes that mark an ELF image.
fn has_elf_magic(data: &Vec<u8>) -> (r: bool)
    ensures
        r == is_elf(data@),
{
    data.len() >= 4 && data[0] == 0x7F && data[1] == 0x45 && data[2] == 0x4C && data[3] == 0x46
}

impl WheelEditor {
    /// Opens the wheel that `source` holds; `path` is where it was read from.
    /// It succeeds exactly where the bytes hold an archive with one
    /// `.dist-info` directory whose three descriptors can be read and are
    /// well-formed. It fails with a ZIP error where the bytes are no archive,
    /// with `InvalidWheel` where the archive has not one such directory, and
    /// else with the error of the first descriptor that fails, `METADATA`
    /// before `RECORD` before `WHEEL`.
    pub fn open(path: &str, source: Vec<u8>) -> (r: Result<WheelEditor, WheelError>)
        ensures
            r is Ok <==> can_open(source@),
            r matches Ok(editor) ==> {
                &&& zip_archive(source@) matches Some(members)
                &&& is_dist_info(names_of(members), editor@.prefix)
                &&& metadata_in(source@, members, editor@.prefix) == Some(editor@.metadata)
                &&& record_in(source@, members, editor@.prefix) == Some(editor@.record)
                &&& wheel_info_in(source@, members, editor@.prefix) == Some(editor@.wheel_info)
                &&& editor@.path == path@
                &&& editor@.patches.len() == 0
                &&& !editor@.wheel_modified
                &&& distinct_keys(editor@.metadata.extra_headers)
                &&& distinct_keys(editor@.wheel_info.extra_headers)
            },
            zip_archive(source@) is None ==> r matches Err(WheelError::Zip(_)),
            zip_archive(source@) matches Some(members) && (forall|p: Seq<char>|
                !is_dist_info(names_of(members), p)) ==> r matches Err(WheelError::InvalidWheel(_)),
    {
        let mut reader = match WheelReader::new(cursor_over(source)) {
            Ok(reader) => reader,
            Err(e) => {
                return Err(e);
            },
        };
        let ghost members = reader.members();
        let ghost prefix = reader.prefix();
        assert forall|p: Seq<char>| is_dist_info(names_of(members), p) implies p == prefix by {
            let i = choose|i: int|
                0 <= i < names_of(members).len() && dist_info_of(#[trigger] names_of(members)[i])
                    == Some(p);
            assert(dist_info_of(names_of(members)[i]) == Some(prefix));
        }
        let metadata = match reader.read_metadata() {
            Ok(metadata) => metadata,
            Err(e) => {
                return Err(e);
            },
        };
        let record = match reader.read_record() {
            Ok(record) => record,
            Err(e) => {
                return Err(e);
            },
        };
        let wheel_info = match reader.read_wheel_info() {
            Ok(wheel_info) => wheel_info,
            Err(e) => {
                return Err(e);
            },
        };
        let dist_info_prefix = reader.dist_info_prefix().to_owned();
        let editor = WheelEditor {
            path: path.to_owned(),
            metadata,
            record,
            dist_info_prefix,
            wheel_info,
            modified_files: Vec::new(),
            wheel_info_modified: false,
        };
        assert(editor@.patches == Seq::<(Seq<char>, Seq<u8>)>::empty());
        Ok(editor)
    }

    /// Where the wheel was read from.
    pub fn path(&self) -> (r: &str)
        ensures
            r@ == self@.path,
    {
        self.path.as_str()
    }

    /// The name of the distribution.
    pub fn name(&self) -> (r: &str)
        ensures
            r@ == self@.metadata.name,
    {
        self.metadata.name.as_str()
    }

    /// Sets the name of the distribution.
    pub fn set_name(&mut self, name: &str)
        ensures
            final(self)@ == (EditorView {
                metadata: MetadataView { name: name@, ..old(self)@.metadata },
                ..old(self)@
            }),
    {
        self.metadata.name = name.to_owned();
    }

    /// The version of the distribution.
    pub fn version(&self) -> (r: &str)
        ensures
            r@ == self@.metadata.version,
    {
        self.metadata.version.as_str()
    }

    /// Sets the version of the distribution.
    pub fn set_version(&mut self, version: &str)
        ensures
            final(self)@ == (EditorView {
                metadata: MetadataView { version: version@, ..old(self)@.metadata },
                ..old(self)@
            }),
    {
        self.metadata.version = version.to_owned();
    }

    /// The summary.
    pub fn summary(&self) -> (r: Option<&str>)
        ensures
            match r {
                Some(s) => self@.metadata.summary == Some(s@),
                None => self@.metadata.summary is None,
            },
    {
        match &self.metadata.summary {
            Some(s) => Some(s.as_str()),
            None => None,
        }
    }

    /// Sets the summary.
    pub fn set_summary(&mut self, summary: &str)
        ensures
            final(self)@ == (EditorView {
                metadata: MetadataView { summary: Some(summary@), ..old(self)@.metadata },
                ..old(self)@
            }),
    {
        self.metadata.summary = Some(summary.to_owned());
    }

    /// The description.
    pub fn description(&self) -> (r: Option<&str>)
        ensures
            match r {
                Some(s) => self@.metadata.description == Some(s@),
                None => self@.metadata.description is None,
            },
    {
        match &self.metadata.description {
            Some(s) => Some(s.as_str()),
            None => None,
        }
    }

    /// Sets the description.
    pub fn set_description(&mut self, description: &str)
        ensures
            final(self)@ == (EditorView {
                metadata: MetadataView { description: Some(description@), ..old(self)@.metadata },
                ..old(self)@
            }),
    {
        self.metadata.description = Some(description.to_owned());
    }

    /// The author.
    pub fn author(&self) -> (r: Option<&str>)
        ensures
            match r {
                Some(s) => self@.metadata.author == Some(s@),
                None => self@.metadata.author is None,
            },
    {
        match &self.metadata.author {
            Some(s) => Some(s.as_str()),
            None => None,
        }
    }

    /// Sets the author.
    pub fn set_author(&mut self, author: &str)
        ensures
            final(self)@ == (EditorView {
                metadata: MetadataView { author: Some(author@), ..old(self)@.metadata },
                ..old(self)@
            }),
    {
        self.metadata.author = Some(author.to_owned());
    }

    /// The e-mail address of the author.
    pub fn author_email(&self) -> (r: Option<&str>)
        ensures
            match r {
                Some(s) => self@.metadata.author_email == Some(s@),
                None => self@.metadata.author_email is None,
            },
    {
        match &self.metadata.author_email {
            Some(s) => Some(s.as_str()),
            None => None,
        }
    }

    /// Sets the e-mail address of the author.
    pub fn set_author_email(&mut self, email: &str)
        ensures
            final(self)@ == (EditorView {
                metadata: MetadataView { author_email: Some(email@), ..old(self)@.metadata },
                ..old(self)@
            }),
    {
        self.metadata.author_email = Some(email.to_owned());
    }

    /// The license.
    pub fn license(&self) -> (r: Option<&str>)
        ensures
            match r {
                Some(s) => self@.metadata.license == Some(s@),
                None => self@.metadata.license is None,
            },
    {
        match &self.metadata.license {
            Some(s) => Some(s.as_str()),
            None => None,
        }
    }

    /// Sets the license.
    pub fn set_license(&mut self, license: &str)
        ensures
            final(self)@ == (EditorView {
                metadata: MetadataView { license: Some(license@), ..old(self)@.metadata },
                ..old(self)@
            }),
    {
        self.metadata.license = Some(license.to_owned());
    }

    /// The versions of Python that the distribution requires.
    pub fn requires_python(&self) -> (r: Option<&str>)
        ensures
            match r {
                Some(s) => self@.metadata.requires_python == Some(s@),
                None => self@.metadata.requires_python is None,
            },
    {
        match &self.metadata.requires_python {
            Some(s) => Some(s.as_str()),
            None => None,
        }
    }

    /// Sets the versions of Python that the distribution requires.
    pub fn set_requires_python(&mut self, version: &str)
        ensures
            final(self)@ == (EditorView {
                metadata: MetadataView { requires_python: Some(version@), ..old(self)@.metadata },
                ..old(self)@
            }),
    {
        self.metadata.requires_python = Some(version.to_owned());
    }

    /// The classifiers.
    pub fn classifiers(&self) -> (r: &[String])
        ensures
            strings(r@) == self@.metadata.classifiers,
    {
        self.metadata.classifiers.as_slice()
    }

    /// Sets the classifiers.
    pub fn set_classifiers(&mut self, classifiers: Vec<String>)
        ensures
            final(self)@ == (EditorView {
                metadata: MetadataView {
                    classifiers: strings(classifiers@),
                    ..old(self)@.metadata
                },
                ..old(self)@
            }),
    {
        self.metadata.classifiers = classifiers;
    }

    /// Adds a classifier at the end.
    pub fn add_classifier(&mut self, classifier: &str)
        ensures
            final(self)@ == (EditorView {
                metadata: MetadataView {
                    classifiers: old(self)@.metadata.classifiers.push(classifier@),
                    ..old(self)@.metadata
                },
                ..old(self)@
            }),
    {
        push_string(&mut self.metadata.classifiers, classifier.to_owned());
    }

    /// The requirements.
    pub fn requires_dist(&self) -> (r: &[String])
        ensures
            strings(r@) == self@.metadata.requires_dist,
    {
        self.metadata.requires_dist.as_slice()
    }

    /// Sets the requirements.
    pub fn set_requires_dist(&mut self, deps: Vec<String>)
        ensures
            final(self)@ == (EditorView {
                metadata: MetadataView { requires_dist: strings(deps@), ..old(self)@.metadata },
                ..old(self)@
            }),
    {
        self.metadata.requires_dist = deps;
    }

    /// Adds a requirement at the end.
    pub fn add_requires_dist(&mut self, dep: &str)
        ensures
            final(self)@ == (EditorView {
                metadata: MetadataView {
                    requires_dist: old(self)@.metadata.requires_dist.push(dep@),
                    ..old(self)@.metadata
                },
                ..old(self)@
            }),
    {
        push_string(&mut self.metadata.requires_dist, dep.to_owned());
    }

    /// The project URLs.
    pub fn project_urls(&self) -> (r: &[String])
        ensures
            strings(r@) == self@.metadata.project_url,
    {
        self.metadata.project_url.as_slice()
    }

    /// Sets the project URLs.
    pub fn set_project_urls(&mut self, urls: Vec<String>)
        ensures
            final(self)@ == (EditorView {
                metadata: MetadataView { project_url: strings(urls@), ..old(self)@.metadata },
                ..old(self)@
            }),
    {
        self.metadata.project_url = urls;
    }

    /// Adds a project URL at the end.
    pub fn add_project_url(&mut self, url: &str)
        ensures
            final(self)@ == (EditorView {
                metadata: MetadataView {
                    project_url: old(self)@.metadata.project_url.push(url@),
                    ..old(self)@.metadata
                },
                ..old(self)@
            }),
    {
        push_string(&mut self.metadata.project_url, url.to_owned());
    }

    /// The value of the metadata field that `key` names, if it has one.
    pub fn get_metadata(&self, key: &str) -> (r: Option<FieldValue>)
        ensures
            match r {
                Some(value) => field_value(self@.metadata, key@) == Some(value@),
                None => field_value(self@.metadata, key@) is None,
            },
    {
        self.metadata.get(key)
    }

    /// Sets a value of the metadata under the key `key`.
    pub fn set_metadata(&mut self, key: &str, value: FieldValue)
        ensures
            final(self)@ == (EditorView {
                metadata: with_value(old(self)@.metadata, key@, value@),
                ..old(self)@
            }),
            distinct_keys(old(self)@.metadata.extra_headers) ==> distinct_keys(
                final(self)@.metadata.extra_headers,
            ),
    {
        self.metadata.put(key, value);
    }

    /// The metadata.
    pub fn metadata(&self) -> (m: &Metadata)
        ensures
            m@ == self@.metadata,
    {
        &self.metadata
    }

    /// The metadata, to be changed in place.
    pub fn metadata_mut(&mut self) -> (m: &mut Metadata)
        ensures
            m@ == old(self)@.metadata,
            final(self)@ == (EditorView { metadata: final(m)@, ..old(self)@ }),
    {
        &mut self.metadata
    }

    /// The content of the `WHEEL` file.
    pub fn wheel_info(&self) -> (w: &WheelInfo)
        ensures
            w@ == self@.wheel_info,
    {
        &self.wheel_info
    }

    /// The content of the `WHEEL` file, to be changed in place.
    pub fn wheel_info_mut(&mut self) -> (w: &mut WheelInfo)
        ensures
            w@ == old(self)@.wheel_info,
            final(self)@ == (EditorView { wheel_info: final(w)@, ..old(self)@ }),
    {
        &mut self.wheel_info
    }

    /// The platform of the first tag.
    pub fn platform_tag(&self) -> (r: Option<&str>)
        ensures
            match r {
                Some(p) => self@.wheel_info.tags.len() > 0 && p@ == self@.wheel_info.tags[0].platform,
                None => self@.wheel_info.tags.len() == 0,
            },
    {
        self.wheel_info.platform()
    }

    /// Gives every tag the platform `platform`, and marks the `WHEEL` file as
    /// to be written anew.
    pub fn set_platform_tag(&mut self, platform: &str)
        ensures
            final(self)@ == (EditorView {
                wheel_info: WheelInfoView {
                    tags: retagged(old(self)@.wheel_info.tags, platform@),
                    ..old(self)@.wheel_info
                },
                wheel_modified: true,
                ..old(self)@
            }),
    {
        self.wheel_info.set_platform(platform);
        self.wheel_info_modified = true;
    }

    /// Whether replacement contents are pending.
    pub fn has_modified_files(&self) -> (r: bool)
        ensures
            r == (self@.patches.len() > 0),
    {
        self.modified_files.len() > 0
    }

    /// The names of the members for which replacement contents are pending.
    pub fn modified_file_paths(&self) -> (r: Vec<&str>)
        ensures
            r@.len() == self@.patches.len(),
            forall|i: int| 0 <= i < r@.len() ==> (#[trigger] r@[i])@ == self@.patches[i].0,
    {
        let mut out: Vec<&str> = Vec::new();
        let mut i: usize = 0;
        while i < self.modified_files.len()
            invariant
                i <= self.modified_files@.len(),
                out@.len() == i,
                forall|k: int| 0 <= k < i ==> (#[trigger] out@[k])@ == self.modified_files@[k].0@,
            decreases self.modified_files@.len() - i,
        {
            out.push(self.modified_files[i].0.as_str());
            i += 1;
        }
        out
    }

    /// The library search path of the member `path` of the wheel that
    /// `source` holds. It succeeds exactly where the bytes hold an archive
    /// that has the member, the member can be unpacked, and it is an ELF
    /// image. It fails with a ZIP error where the bytes are no archive, with
    /// `FileNotFound` where the wheel has no such member, with a ZIP or I/O
    /// error where the member cannot be unpacked, and with `InvalidElf` where
    /// it is no ELF image.
    pub fn get_rpath(&self, source: Vec<u8>, path: &str) -> (r: Result<Option<String>, WheelError>)
        ensures
            match zip_archive(source@) {
                None => r matches Err(WheelError::Zip(_)),
                Some(members) => {
                    let i = index_of(names_of(members), path@) as int;
                    if i >= members.len() {
                        r matches Err(WheelError::Elf(ElfError::FileNotFound(p))) && p@ == path@
                    } else if zip_fault(source@, i) {
                        r matches Err(e) && (e is Zip || e is Io)
                    } else {
                        match image_fault(members[i].1) {
                            Some(message) => r matches Err(WheelError::Elf(e)) && e@
                                == read_fault(message),
                            None => r matches Ok(found) && optional(found) == effective_rpath(
                                elf_info(members[i].1),
                            ),
                        }
                    }
                },
            },
    {
        let mut archive = match archive_open(cursor_over(source)) {
            Ok(archive) => archive,
            Err(e) => {
                return Err(WheelError::Zip(e));
            },
        };
        let index = match find_member(&archive, path) {
            Some(index) => index,
            None => {
                return Err(WheelError::Elf(ElfError::FileNotFound(path.to_owned())));
            },
        };
        let content = match archive_read(&mut archive, index) {
            Ok(content) => content,
            Err(e) => {
                return Err(e);
            },
        };
        match crate::elf::get_rpath(content.as_slice()) {
            Ok(found) => Ok(found),
            Err(e) => Err(WheelError::Elf(e)),
        }
    }

    /// Sets the library search path `rpath`, as `DT_RUNPATH`, for the members
    /// of the wheel in `source` that `pattern` matches and that are ELF
    /// images; a member that cannot be patched is left as it is. The patched
    /// images become pending replacements; the result is their number. It
    /// succeeds exactly where the pattern is well-formed, the bytes hold an
    /// archive, and every member that the pattern matches can be unpacked. It
    /// fails with `GlobPattern` where the pattern is malformed, with a ZIP
    /// error where the bytes are no archive, and else with the error of the
    /// first member that cannot be unpacked. Where it fails, the editor stays
    /// as it was.
    pub fn set_rpath(&mut self, source: Vec<u8>, pattern: &str, rpath: &str) -> (r: Result<
        usize,
        WheelError,
    >)
        ensures
            r is Ok <==> can_repath(source@, pattern@),
            !glob_valid(pattern@) ==> r matches Err(WheelError::GlobPattern(_)),
            glob_valid(pattern@) && zip_archive(source@) is None ==> r matches Err(
                WheelError::Zip(_),
            ),
            r matches Ok(count) ==> {
                &&& zip_archive(source@) matches Some(members)
                &&& final(self)@ == (EditorView {
                    patches: repathed(members, pattern@, rpath@, old(self)@.patches).0,
                    ..old(self)@
                })
                &&& count == repathed(members, pattern@, rpath@, old(self)@.patches).1
            },
            r is Err ==> final(self)@ == old(self)@,
            distinct_patches(old(self)@.patches) ==> distinct_patches(final(self)@.patches),
    {
        proof {
            if distinct_patches(self@.patches) && zip_archive(source@) is Some {
                lemma_repathed_distinct(zip_archive(source@)->0, pattern@, rpath@, self@.patches);
            }
        }
        let compiled = match glob_compile(pattern) {
            Ok(compiled) => compiled,
            Err(e) => {
                return Err(WheelError::GlobPattern(e));
            },
        };
        let mut archive = match archive_open(cursor_over(source)) {
            Ok(archive) => archive,
            Err(e) => {
                return Err(WheelError::Zip(e));
            },
        };
        let ghost members = archive_members(archive);
        let ghost start = self@.patches;
        let mut patches = copy_patches(&self.modified_files);
        let mut changes: Vec<ElfModification> = Vec::new();
        changes.push(ElfModification::SetRunpath(rpath.to_owned()));
        assert(tags_of(changes@) == seq![(true, rpath@)]);
        let total = archive_len(&archive);
        let mut count: usize = 0;
        let mut i: usize = 0;
        while i < total
            invariant
                i <= total == members.len(),
                count <= i,
                archive_members(archive) == members,
                archive_source(archive) == source@,
                zip_archive(source@) == Some(members),
                glob_valid(pattern@),
                pattern_text(compiled) == pattern@,
                tags_of(changes@) == seq![(true, rpath@)],
                *self == *old(self),
                forall|k: int|
                    0 <= k < i && selects(pattern@, (#[trigger] members[k]).0) ==> !zip_fault(
                        source@,
                        k,
                    ),
                (patches_of(patches@), count as nat) == repathed(
                    members.take(i as int),
                    pattern@,
                    rpath@,
                    start,
                ),
            decreases total - i,
        {
            assert(members.take(i + 1).drop_last() == members.take(i as int));
            assert(members.take(i + 1).last() == members[i as int]);
            let name = archive_name(&archive, i);
            if glob_match(&compiled, name.as_str(), true) {
                let content = match archive_read(&mut archive, i) {
                    Ok(content) => content,
                    Err(e) => {
                        assert(selects(pattern@, members[i as int].0));
                        return Err(e);
                    },
                };
                if has_elf_magic(&content) {
                    match modify_elf(content.as_slice(), changes.as_slice()) {
                        Ok(image) => {
                            put_patch(&mut patches, name, image);
                            count += 1;
                        },
                        Err(_) => {},
                    }
                }
            }
            i += 1;
        }
        assert(members.take(total as int) == members);
        self.modified_files = patches;
        Ok(count)
    }

    /// Validates the wheel that `source` holds against the record of the
    /// editor. It succeeds exactly where the bytes hold an archive in which
    /// every file that a row with a hash lists can be unpacked; the result
    /// then holds exactly the findings. It fails with a ZIP error where the
    /// bytes are no archive.
    pub fn validate(&self, source: Vec<u8>) -> (r: Result<ValidationResult, WheelError>)
        ensures
            match zip_archive(source@) {
                None => r matches Err(WheelError::Zip(_)),
                Some(members) => (r is Ok <==> can_check(source@, members, self@.record)) && (
                r matches Ok(result) ==> result@ == findings(members, self@.record)),
            },
    {
        let mut archive = match archive_open(cursor_over(source)) {
            Ok(archive) => archive,
            Err(e) => {
                return Err(WheelError::Zip(e));
            },
        };
        validate_wheel(&mut archive, &self.record)
    }

    /// Repacks the wheel of `source` into `output` with the changes that are
    /// pending. The `.dist-info` directory takes the name that the name and
    /// the version of the distribution give. The `WHEEL` file is written anew
    /// where its content or a member changed. It succeeds exactly where the
    /// repacking is not refused.
    pub fn save_into(&self, source: &mut ZipArchive<Cursor<Vec<u8>>>, output: &mut ArchiveWriter) -> (r:
        Result<(), WheelError>)
        ensures
            archive_members(*final(source)) == archive_members(*old(source)),
            archive_source(*final(source)) == archive_source(*old(source)),
            r is Ok <==> !repack_refused(
                old(output).members(),
                archive_source(*old(source)),
                archive_members(*old(source)),
                self@.metadata,
                self@.record,
                self@.prefix,
                dist_info(self@.metadata.name, self@.metadata.version),
                self@.patches,
                wheel_to_write(self@),
            ),
            r is Ok ==> final(output).members() == old(output).members() + repacked(
                archive_members(*old(source)),
                self@.metadata,
                self@.record,
                self@.prefix,
                dist_info(self@.metadata.name, self@.metadata.version),
                self@.patches,
                wheel_to_write(self@),
            ).written,
            r is Ok ==> fails_within(
                final(output).faults(),
                old(output).faults() + repacked_faults(
                    archive_source(*old(source)),
                    archive_members(*old(source)),
                    self@.prefix,
                    self@.patches,
                    wheel_to_write(self@) is Some,
                ),
            ),
            r is Ok && written_names(old(output).members()).no_duplicates() ==> written_names(
                final(output).members(),
            ).no_duplicates(),
            r matches Err(e) ==> e is InvalidWheel || e is Zip || e is Io,
    {
        let new_dist_info = dist_info_name(
            self.metadata.name.as_str(),
            self.metadata.version.as_str(),
        );
        if self.modified_files.len() > 0 || self.wheel_info_modified {
            write_modified_extended(
                source,
                output,
                &self.metadata,
                &self.record,
                self.dist_info_prefix.as_str(),
                new_dist_info.as_str(),
                &self.modified_files,
                Some(&self.wheel_info),
            )
        } else {
            assert(self@.patches == Seq::<(Seq<char>, Seq<u8>)>::empty());
            write_modified(
                source,
                output,
                &self.metadata,
                &self.record,
                self.dist_info_prefix.as_str(),
                new_dist_info.as_str(),
            )
        }
    }

    /// Repacks the wheel that `source` holds with the changes that are
    /// pending, and hands out the bytes of the new wheel: they hold an
    /// archive whose members are those of the repacking, in its order, and
    /// each can be unpacked unless it was copied raw from a member that
    /// cannot. It succeeds exactly where the bytes hold an archive, the repacking is not
    /// refused, and the writer closes. It fails with a ZIP error where the
    /// bytes are no archive.
    pub fn save(&self, source: Vec<u8>) -> (r: Result<Vec<u8>, WheelError>)
        ensures
            r is Ok <==> can_save(source@, self@),
            zip_archive(source@) is None ==> r matches Err(WheelError::Zip(_)),
            r matches Ok(bytes) ==> {
                &&& zip_archive(source@) matches Some(members)
                &&& zip_archive(bytes@) == Some(as_members(saved(members, self@)))
                &&& written_names(saved(members, self@)).no_duplicates()
                &&& forall|k: int|
                    0 <= k < saved_faults(source@, members, self@).len() && #[trigger] zip_fault(
                        bytes@,
                        k,
                    ) ==> saved_faults(source@, members, self@)[k]
            },
    {
        let mut archive = match archive_open(cursor_over(source)) {
            Ok(archive) => archive,
            Err(e) => {
                return Err(WheelError::Zip(e));
            },
        };
        let ghost members = archive_members(archive);
        let mut output = ArchiveWriter::new();
        proof {
            let written = saved(members, self@);
            assert(Seq::<(Seq<char>, Seq<u8>, bool)>::empty() + written == written);
            let faults = saved_faults(source@, members, self@);
            assert(Seq::<bool>::empty() + faults == faults);
        }
        match self.save_into(&mut archive, &mut output) {
            Ok(()) => {},
            Err(e) => {
                return Err(e);
            },
        }
        output.finish()
    }
}

} // verus!
