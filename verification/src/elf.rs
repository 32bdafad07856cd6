//! ELF images: reading the library search path of a shared object and
//! setting it anew. The images are read and patched by the `elb` crate, in
//! memory and with a page size of 4096 bytes. Each search path is set by a
//! patcher of its own, on an image whose layout was checked first, and what
//! the patcher hands out is read back and held against the image.

use vstd::prelude::*;
use vstd::utf8::decode_utf8;
use vstd::utf8::valid_utf8;
use std::io::Cursor;
use elb::ElfPatcher;
use crate::archive::text_of_bytes;
use crate::elf_layout::check_layout;
use crate::elf_layout::check_patchable;
use crate::elf_layout::has_patchable_layout;
use crate::elf_layout::has_sound_layout;
use crate::elf_layout::names_index;
use crate::elf_layout::read_names_index;
use crate::error::ElfError;
use crate::text::chars_of;
use crate::text::index_of;
use crate::text::lemma_index_of_is;
use crate::text::optional;
use crate::text::push_string;
use crate::text::push_text;
use crate::text::strings;

verus! {

/// `elb::ElfPatcher`: an image that is being patched. Known here by the
/// image that it was opened on and the search paths that it was given.
#[verifier::external_type_specification]
#[verifier::external_body]
#[verifier::reject_recursive_types(F)]
pub struct ExElfPatcher<F>(ElfPatcher<F>);

/// What a shared object states about itself in its dynamic section.
#[derive(Debug, Clone)]
pub struct ElfInfo {
    /// The search path of the entry `DT_RPATH`.
    pub rpath: Option<String>,
    /// The search path of the entry `DT_RUNPATH`.
    pub runpath: Option<String>,
    /// The libraries of the entries `DT_NEEDED`.
    pub needed: Vec<String>,
    /// The name of the entry `DT_SONAME`.
    pub soname: Option<String>,
}

/// What an `ElfInfo` holds, as plain texts.
pub struct ElfInfoView {
    pub rpath: Option<Seq<char>>,
    pub runpath: Option<Seq<char>>,
    pub needed: Seq<Seq<char>>,
    pub soname: Option<Seq<char>>,
}

impl View for ElfInfo {
    type V = ElfInfoView;

    open spec fn view(&self) -> ElfInfoView {
        ElfInfoView {
            rpath: optional(self.rpath),
            runpath: optional(self.runpath),
            needed: strings(self.needed@),
            soname: optional(self.soname),
        }
    }
}

impl Default for ElfInfo {
    fn default() -> (info: Self)
        ensures
            info@ == (ElfInfoView { rpath: None, runpath: None, needed: Seq::empty(), soname: None }),
    {
        let info = ElfInfo { rpath: None, runpath: None, needed: Vec::new(), soname: None };
        assert(info@.needed == Seq::<Seq<char>>::empty());
        info
    }
}

/// A change to the dynamic section of a shared object.
#[derive(Debug, Clone)]
pub enum ElfModification {
    /// Sets the entry `DT_RPATH`.
    SetRpath(String),
    /// Sets the entry `DT_RUNPATH`, which the loader prefers.
    SetRunpath(String),
}

/// A search path to set: whether it goes to `DT_RUNPATH`, and its text.
pub type PathTag = (bool, Seq<char>);

impl View for ElfModification {
    type V = PathTag;

    open spec fn view(&self) -> PathTag {
        match self {
            ElfModification::SetRpath(path) => (false, path@),
            ElfModification::SetRunpath(path) => (true, path@),
        }
    }
}

/// What an `ElfError` holds, as plain texts.
pub enum ElfFault {
    InvalidElf(Seq<char>),
    UnsupportedArchitecture(Seq<char>),
    FileNotFound(Seq<char>),
    Lief(Seq<char>),
}

impl View for ElfError {
    type V = ElfFault;

    open spec fn view(&self) -> ElfFault {
        match self {
            ElfError::InvalidElf(s) => ElfFault::InvalidElf(s@),
            ElfError::UnsupportedArchitecture(s) => ElfFault::UnsupportedArchitecture(s@),
            ElfError::FileNotFound(s) => ElfFault::FileNotFound(s@),
            ElfError::Lief(s) => ElfFault::Lief(s@),
        }
    }
}

/// The message with which the reader of ELF images refuses `image`; nothing
/// where it accepts it.
pub uninterp spec fn elf_fault(image: Seq<u8>) -> Option<Seq<char>>;

/// The message with which an image is refused: its layout is not sound, or
/// the reader of ELF images refuses it. Nothing where the image is accepted.
pub open spec fn image_fault(image: Seq<u8>) -> Option<Seq<char>> {
    if has_sound_layout(image) {
        elf_fault(image)
    } else {
        Some("The layout of the image is not sound"@)
    }
}

/// The entries of the dynamic section of `image`, each with the number of
/// its tag and its value; nothing where the image has no such section or
/// cannot be read.
pub uninterp spec fn elf_dynamic(image: Seq<u8>) -> Option<Seq<(u32, u64)>>;

/// The sections of `image`, as its section header lists them: of each its
/// type, its address in memory, its offset in the image and its size;
/// nothing where the image cannot be read.
pub uninterp spec fn elf_sections(image: Seq<u8>) -> Option<Seq<(u32, u64, u64, u64)>>;

/// The image that a patcher was opened on.
pub uninterp spec fn patcher_image(patcher: ElfPatcher<Cursor<Vec<u8>>>) -> Seq<u8>;

/// The search paths that a patcher was given so far, in order. A patcher is
/// given one at most.
pub uninterp spec fn patcher_tags(patcher: ElfPatcher<Cursor<Vec<u8>>>) -> Seq<PathTag>;

/// The message with which a patcher opened on `image` refuses the last of
/// `tags`, after it took the ones before; nothing where it takes it.
pub uninterp spec fn tag_fault(image: Seq<u8>, tags: Seq<PathTag>) -> Option<Seq<char>>;

/// What a patcher opened on `image` hands out at the end, after it took
/// `tags`: the patched image, or the message of its failure.
pub uninterp spec fn elf_patched(image: Seq<u8>, tags: Seq<PathTag>) -> Result<Seq<u8>, Seq<char>>;

/// Whether the patcher can extend the dynamic string table of an image that
/// has a dynamic section: the section names the address of its string table
/// (an entry with the tag 5), and the first string table section (type 3) at
/// that address, if there is one, is not empty and is not the one that holds
/// the names of the sections.
pub open spec fn strings_can_grow(image: Seq<u8>) -> bool {
    match (elf_dynamic(image), elf_sections(image)) {
        (Some(entries), Some(sections)) => {
            let i = index_of(entry_tags(entries), 5u32) as int;
            let d = string_section(sections, entries[i].1) as int;
            &&& i < entries.len()
            &&& d < sections.len() ==> sections[d].3 > 0 && d != names_index(image)
        },
        _ => true,
    }
}

/// Whether an image can be handed to the patcher: its layout allows a patch
/// and its dynamic string table can be extended.
pub open spec fn is_patchable(image: Seq<u8>) -> bool {
    has_patchable_layout(image) && strings_can_grow(image)
}

/// `elb::Elf::read`: the message of its error, if it fails on `image`. The
/// layout of the image is sound: the reader finds the entries that the
/// header counts (it asserts their number), and its sums of an address and
/// a size stay within eight bytes.
#[verifier::external_body]
fn elf_check(image: &[u8]) -> (r: Option<String>)
    requires
        has_sound_layout(image@),
    ensures
        optional(r) == elf_fault(image@),
{
    elb::Elf::read(&mut Cursor::new(image), 4096).err().map(|e| e.to_string())
}

/// `elb::Elf::read` and `elb::Elf::read_dynamic_table`: the entries of the
/// dynamic section, each tag as its number. The layout of the image is
/// sound, so that the section, for which room is set aside before it is
/// read, is no larger than the image.
#[verifier::external_body]
fn elf_dynamic_entries(image: &[u8]) -> (r: Option<Vec<(u32, u64)>>)
    requires
        has_sound_layout(image@),
    ensures
        match r {
            Some(entries) => elf_dynamic(image@) == Some(entries@),
            None => elf_dynamic(image@) is None,
        },
{
    let mut file = Cursor::new(image);
    let elf = elb::Elf::read(&mut file, 4096).ok()?;
    let table = elf.read_dynamic_table(&mut file).ok()??;
    Some(table.into_inner().into_iter().map(|(tag, value)| (tag.as_u32(), value)).collect())
}

/// `elb::Elf::read`: the sections that it lists, of each the number of its
/// type, its address, its offset and its size.
#[verifier::external_body]
fn elf_section_table(image: &[u8]) -> (r: Option<Vec<(u32, u64, u64, u64)>>)
    requires
        has_sound_layout(image@),
    ensures
        match r {
            Some(sections) => elf_sections(image@) == Some(sections@),
            None => elf_sections(image@) is None,
        },
{
    let elf = elb::Elf::read(&mut Cursor::new(image), 4096).ok()?;
    Some(
        elf.sections.iter().map(
            |s| (s.kind.as_u32(), s.virtual_address, s.offset, s.size),
        ).collect(),
    )
}

/// `elb::Elf::read` and `elb::ElfPatcher::new`: a patcher on `image` that
/// was given no search path yet, or the message of the reader's error.
#[verifier::external_body]
fn patcher_open(image: Vec<u8>) -> (r: Result<ElfPatcher<Cursor<Vec<u8>>>, String>)
    requires
        has_sound_layout(image@),
    ensures
        match elf_fault(image@) {
            None => r matches Ok(p) && patcher_image(p) == image@ && patcher_tags(p) == Seq::<
                PathTag,
            >::empty(),
            Some(message) => r matches Err(m) && m@ == message,
        },
{
    let mut file = Cursor::new(image);
    match elb::Elf::read(&mut file, 4096) {
        Ok(elf) => Ok(ElfPatcher::new(elf, file)),
        Err(e) => Err(e.to_string()),
    }
}

/// `elb::ElfPatcher::set_dynamic_tag` with the tag `Runpath` or `Rpath`: the
/// patcher takes the search path, or refuses it with a message. The text
/// holds no NUL character, so that it can be handed over as a C string. The
/// patcher was opened on an image that can be patched and was given no path
/// yet. It frees the dynamic section and its segment, reads the dynamic
/// string table and the table of section names, may free both, and places
/// new ones. It rests on this of the image:
/// - every section but those of type 8 (`sh_offset`, `sh_size`) and every
///   segment (`p_offset`, `p_filesz`) lies within the image, so that what is
///   freed or read is no larger than the image; every address with its size
///   (`sh_addr`, `p_vaddr`, `p_paddr`, `p_memsz`) is below the limit, so that
///   no sum leaves eight bytes;
/// - the index of the section names (`e_shstrndx`) is below the number of
///   sections (`e_shnum`) and names a string table (`sh_type` 3) that is not
///   empty; the dynamic section states where its string table is (an entry
///   with the tag 5), and the section found there is not empty and is not
///   the one of the names: the patcher reads the names after it has freed
///   other sections, frees the section at that index, and takes a table
///   that it searches to hold a byte;
/// - the image begins with something that stays (`p_type`, `p_offset`,
///   `p_filesz`): the patcher walks the starts and ends of what the image
///   holds, takes the first to be a start, and measures from the first
///   segment where the walk begins with a loaded one;
/// - a loaded segment stays in place and takes room in memory, and every
///   empty section that is kept in memory (`sh_flags`) lies below the end of
///   the loaded segments that stay: what the patcher adds in memory follows
///   the last end that it finds.
#[verifier::external_body]
fn patcher_set(patcher: &mut ElfPatcher<Cursor<Vec<u8>>>, runpath: bool, path: &str) -> (r: Result<
    (),
    String,
>)
    requires
        !path@.contains('\0'),
        is_patchable(patcher_image(*old(patcher))),
        patcher_tags(*old(patcher)).len() == 0,
    ensures
        patcher_image(*final(patcher)) == patcher_image(*old(patcher)),
        match tag_fault(
            patcher_image(*old(patcher)),
            patcher_tags(*old(patcher)).push((runpath, path@)),
        ) {
            None => r is Ok && patcher_tags(*final(patcher)) == patcher_tags(*old(patcher)).push(
                (runpath, path@),
            ),
            Some(message) => r matches Err(m) && m@ == message,
        },
{
    let mut bytes = path.as_bytes().to_vec();
    bytes.push(0);
    let text = core::ffi::CStr::from_bytes_with_nul(&bytes).unwrap_or_default();
    let tag = if runpath {
        elb::DynamicTag::Runpath
    } else {
        elb::DynamicTag::Rpath
    };
    patcher.set_dynamic_tag(tag, text).map_err(|e| e.to_string())
}

/// `elb::ElfPatcher::finish`: the patched image, or the message of the error.
/// The patcher was opened on an image that can be patched and was given one
/// search path at most. It frees the segment that holds the segment table
/// (`p_type` 6), with the loaded segment that covers exactly that, places a
/// new segment table and a new section table after what the image holds,
/// orders the segments, and checks and writes the image. It rests on this
/// of the image, besides what giving a path rests on:
/// - the header counts fewer than 65280 segments (`e_phnum`), so that their
///   number, a few more now, fits the two bytes of the header that the
///   patcher writes it to and asserts it against; the sections (`e_shnum`)
///   are fewer already where the reader accepts the image;
/// - every segment lies within the image (`p_offset`, `p_filesz`), so that
///   what is freed is no larger than the image;
/// - a loaded segment other than the one that covers the segment table
///   takes room in memory (`p_memsz`), and its end, rounded up to a page,
///   lies above every empty section that is kept in memory, so that the new
///   segment table follows an end in memory;
/// - the reader accepted the image with one segment table segment and one
///   interpreter segment at most, so that the order in which the patcher
///   sorts the segments is a total order of them.
#[verifier::external_body]
fn patcher_finish(patcher: ElfPatcher<Cursor<Vec<u8>>>) -> (r: Result<Vec<u8>, String>)
    requires
        is_patchable(patcher_image(patcher)),
        patcher_tags(patcher).len() <= 1,
    ensures
        match elf_patched(patcher_image(patcher), patcher_tags(patcher)) {
            Ok(image) => r matches Ok(bytes) && bytes@ == image,
            Err(message) => r matches Err(m) && m@ == message,
        },
{
    patcher.finish().map(|file| file.into_inner()).map_err(|e| e.to_string())
}

/// The NUL-terminated string that starts at `offset` of a string table,
/// without its NUL.
pub open spec fn string_at(table: Seq<u8>, offset: int) -> Option<Seq<u8>> {
    if 0 <= offset < table.len() && index_of(table.skip(offset), 0u8) < table.len() - offset {
        Some(table.subrange(offset, offset + index_of(table.skip(offset), 0u8)))
    } else {
        None
    }
}

/// The text at `offset` of a string table, where a string starts there and is
/// UTF-8.
pub open spec fn text_at(table: Seq<u8>, offset: int) -> Option<Seq<char>> {
    match string_at(table, offset) {
        Some(bytes) => if valid_utf8(bytes) {
            Some(decode_utf8(bytes))
        } else {
            None
        },
        None => None,
    }
}

/// The tags of the entries.
pub open spec fn entry_tags(entries: Seq<(u32, u64)>) -> Seq<u32> {
    entries.map_values(|e: (u32, u64)| e.0)
}

/// The text that the first entry with that tag points to.
pub open spec fn tagged_text(entries: Seq<(u32, u64)>, table: Seq<u8>, tag: u32) -> Option<
    Seq<char>,
> {
    let i = index_of(entry_tags(entries), tag) as int;
    if i < entries.len() {
        text_at(table, entries[i].1 as int)
    } else {
        None
    }
}

/// The texts that the entries `DT_NEEDED` point to, in order, without those
/// that point to no text.
pub open spec fn needed_texts(entries: Seq<(u32, u64)>, table: Seq<u8>) -> Seq<Seq<char>>
    decreases entries.len(),
{
    if entries.len() == 0 {
        Seq::empty()
    } else {
        let before = needed_texts(entries.drop_last(), table);
        if entries.last().0 == 1 {
            match text_at(table, entries.last().1 as int) {
                Some(text) => before.push(text),
                None => before,
            }
        } else {
            before
        }
    }
}

/// The position of the first section that is a string table (type 3) at
/// the address `address`, or the number of sections where there is none.
pub open spec fn string_section(sections: Seq<(u32, u64, u64, u64)>, address: u64) -> nat
    decreases sections.len(),
{
    if sections.len() == 0 || (sections[0].0 == 3 && sections[0].1 == address) {
        0
    } else {
        1 + string_section(sections.drop_first(), address)
    }
}

/// The bytes of the dynamic string table: those of the string table section
/// at the address that the entry `DT_STRTAB` (5) states, where the image has
/// such an entry and such a section, and the section lies within the image.
pub open spec fn string_table(
    image: Seq<u8>,
    entries: Seq<(u32, u64)>,
    sections: Seq<(u32, u64, u64, u64)>,
) -> Option<Seq<u8>> {
    let i = index_of(entry_tags(entries), 5u32) as int;
    if i < entries.len() {
        let j = string_section(sections, entries[i].1) as int;
        if j < sections.len() && sections[j].2 + sections[j].3 <= image.len() {
            Some(image.subrange(sections[j].2 as int, sections[j].2 + sections[j].3))
        } else {
            None
        }
    } else {
        None
    }
}

/// The dynamic string table of an image.
pub open spec fn elf_strings(image: Seq<u8>) -> Option<Seq<u8>> {
    match (elf_dynamic(image), elf_sections(image)) {
        (Some(entries), Some(sections)) => string_table(image, entries, sections),
        _ => None,
    }
}

/// What an image states in its dynamic section: the texts that the entries
/// `DT_RPATH` (15), `DT_RUNPATH` (29), `DT_NEEDED` (1) and `DT_SONAME` (14)
/// point to in the dynamic string table. An image without dynamic section or
/// string table states nothing.
pub open spec fn elf_info(image: Seq<u8>) -> ElfInfoView {
    match (elf_dynamic(image), elf_strings(image)) {
        (Some(entries), Some(table)) => ElfInfoView {
            rpath: tagged_text(entries, table, 15),
            runpath: tagged_text(entries, table, 29),
            needed: needed_texts(entries, table),
            soname: tagged_text(entries, table, 14),
        },
        _ => ElfInfoView { rpath: None, runpath: None, needed: Seq::empty(), soname: None },
    }
}

/// The search path that the loader uses: `DT_RUNPATH` where the image has
/// it, else `DT_RPATH`.
pub open spec fn effective_rpath(info: ElfInfoView) -> Option<Seq<char>> {
    match info.runpath {
        Some(path) => Some(path),
        None => info.rpath,
    }
}

/// The failure of reading an image.
pub open spec fn read_fault(message: Seq<char>) -> ElfFault {
    ElfFault::InvalidElf("Failed to parse ELF: "@ + message)
}

/// Whether an image begins with the four bytes that mark an ELF image.
pub open spec fn has_magic(image: Seq<u8>) -> bool {
    image.len() >= 4 && image[0] == 0x7F && image[1] == 0x45 && image[2] == 0x4C && image[3]
        == 0x46
}

/// The entries of the dynamic section of an image; none where it has no
/// such section.
pub open spec fn dynamic_entries(image: Seq<u8>) -> Seq<(u32, u64)> {
    match elf_dynamic(image) {
        Some(entries) => entries,
        None => Seq::empty(),
    }
}

/// Whether an entry with the tag `tag` is one that a patch may change: a
/// search path (`DT_RPATH`, 15, and `DT_RUNPATH`, 29), or the address and
/// the size of the dynamic string table (`DT_STRTAB`, 5, and `DT_STRSZ`, 10).
pub open spec fn is_patched_tag(tag: u32) -> bool {
    tag == 15 || tag == 29 || tag == 5 || tag == 10
}

/// The entries that no patch may change, in order.
pub open spec fn other_entries(entries: Seq<(u32, u64)>) -> Seq<(u32, u64)>
    decreases entries.len(),
{
    if entries.len() == 0 {
        Seq::empty()
    } else if is_patched_tag(entries.last().0) {
        other_entries(entries.drop_last())
    } else {
        other_entries(entries.drop_last()).push(entries.last())
    }
}

/// The number of entries with the tag `tag`.
pub open spec fn count_tag(entries: Seq<(u32, u64)>, tag: u32) -> nat
    decreases entries.len(),
{
    if entries.len() == 0 {
        0
    } else if entries.last().0 == tag {
        count_tag(entries.drop_last(), tag) + 1
    } else {
        count_tag(entries.drop_last(), tag)
    }
}

/// The number of the tag of a search path: `DT_RUNPATH` (29) or `DT_RPATH`
/// (15).
pub open spec fn path_tag(runpath: bool) -> u32 {
    if runpath {
        29
    } else {
        15
    }
}

/// Whether a patched image is still the image that was patched: it can be
/// read, it has the mark of an ELF image, its class, its byte order (bytes 4
/// and 5) and its machine (bytes 18 and 19) are those of the image, it
/// states the same needed libraries and the same name, and its dynamic
/// section holds, in the same order and with the same values, the entries
/// of the image that are neither a search path nor the place of the string
/// table.
pub open spec fn keeps_identity(image: Seq<u8>, patched: Seq<u8>) -> bool {
    &&& image_fault(patched) is None
    &&& has_magic(patched)
    &&& image.len() >= 20
    &&& patched.len() >= 20
    &&& patched[4] == image[4]
    &&& patched[5] == image[5]
    &&& patched[18] == image[18]
    &&& patched[19] == image[19]
    &&& elf_info(patched).needed == elf_info(image).needed
    &&& elf_info(patched).soname == elf_info(image).soname
    &&& other_entries(dynamic_entries(patched)) == other_entries(dynamic_entries(image))
}

/// Whether an image can be read and states the search path `tag` as its
/// own, in the one entry that it has of that tag.
pub open spec fn states_path(image: Seq<u8>, tag: PathTag) -> bool {
    &&& image_fault(image) is None
    &&& count_tag(dynamic_entries(image), path_tag(tag.0)) == 1
    &&& if tag.0 {
        elf_info(image).runpath == Some(tag.1)
    } else {
        elf_info(image).rpath == Some(tag.1)
    }
}

/// What one patcher makes of an image and of the search paths `tags`, one
/// at most: the patched image, or the first failure. An image that cannot
/// be handed to the patcher is a failure. So is a patched image that does
/// not state the search path that was set, or is not the image any more.
pub open spec fn rewritten(image: Seq<u8>, tags: Seq<PathTag>) -> Result<Seq<u8>, ElfFault> {
    match image_fault(image) {
        Some(message) => Err(read_fault(message)),
        None => if tags.len() > 0 && tags.last().1.contains('\0') {
            Err(ElfFault::Lief("Invalid search path: NUL character"@))
        } else if !is_patchable(image) {
            Err(ElfFault::InvalidElf("The image does not allow a patch"@))
        } else if tags.len() > 0 && tag_fault(image, tags) is Some {
            Err(ElfFault::Lief("Failed to set search path: "@ + tag_fault(image, tags).unwrap()))
        } else {
            match elf_patched(image, tags) {
                Ok(patched) => if tags.len() > 0 && !states_path(patched, tags.last()) {
                    Err(ElfFault::Lief("Search path was not set"@))
                } else if !keeps_identity(image, patched) {
                    Err(ElfFault::Lief("Patched image is not the image any more"@))
                } else {
                    Ok(patched)
                },
                Err(message) => Err(ElfFault::Lief("Failed to finish patching: "@ + message)),
            }
        },
    }
}

/// What patching an image with search paths gives: the patched image, or
/// the first failure. Each search path is set by a patcher of its own, on
/// the image that the one before handed out; without a search path the
/// image is rewritten once.
pub open spec fn modified(image: Seq<u8>, tags: Seq<PathTag>) -> Result<Seq<u8>, ElfFault>
    decreases tags.len(),
{
    if tags.len() <= 1 {
        rewritten(image, tags)
    } else {
        match modified(image, tags.drop_last()) {
            Ok(patched) => rewritten(patched, seq![tags.last()]),
            Err(fault) => Err(fault),
        }
    }
}

/// The views of a sequence of changes.
pub open spec fn tags_of(modifications: Seq<ElfModification>) -> Seq<PathTag> {
    modifications.map_values(|m: ElfModification| m@)
}

/// The text at `offset` of `table`.
fn read_text_at(table: &Vec<u8>, offset: u64) -> (r: Option<String>)
    ensures
        optional(r) == text_at(table@, offset as int),
{
    if offset >= table.len() as u64 {
        return None;
    }
    let start: usize = offset as usize;
    let mut end: usize = start;
    while end < table.len() && table[end] != 0
        invariant
            start <= end <= table@.len(),
            forall|j: int| start <= j < end ==> table@[j] != 0u8,
        decreases table@.len() - end,
    {
        end += 1;
    }
    proof {
        lemma_index_of_is(table@.skip(start as int), 0u8, end - start);
    }
    if end == table.len() {
        return None;
    }
    let mut bytes: Vec<u8> = Vec::new();
    let mut i: usize = start;
    while i < end
        invariant
            start <= i <= end <= table@.len(),
            bytes@ == table@.subrange(start as int, i as int),
        decreases end - i,
    {
        bytes.push(table[i]);
        i += 1;
        assert(table@.subrange(start as int, i as int) == table@.subrange(start as int, i - 1).push(
            table@[i - 1],
        ));
    }
    text_of_bytes(bytes)
}

/// A position with the properties of `string_section` is `string_section`.
proof fn lemma_string_section_is(sections: Seq<(u32, u64, u64, u64)>, address: u64, j: int)
    requires
        0 <= j <= sections.len(),
        forall|k: int| 0 <= k < j ==> !(sections[k].0 == 3 && sections[k].1 == address),
        j < sections.len() ==> sections[j].0 == 3 && sections[j].1 == address,
    ensures
        string_section(sections, address) == j,
    decreases sections.len(),
{
    if sections.len() == 0 || (sections[0].0 == 3 && sections[0].1 == address) {
    } else {
        let rest = sections.drop_first();
        assert forall|k: int| 0 <= k < j - 1 implies !(rest[k].0 == 3 && rest[k].1 == address) by {
            assert(rest[k] == sections[k + 1]);
        }
        lemma_string_section_is(rest, address, j - 1);
    }
}

/// The bytes of the dynamic string table of `image`.
fn read_string_table(
    image: &[u8],
    entries: &Vec<(u32, u64)>,
    sections: &Vec<(u32, u64, u64, u64)>,
) -> (r: Option<Vec<u8>>)
    ensures
        match r {
            Some(table) => string_table(image@, entries@, sections@) == Some(table@),
            None => string_table(image@, entries@, sections@) is None,
        },
{
    let ghost tags = entry_tags(entries@);
    let mut i: usize = 0;
    while i < entries.len() && entries[i].0 != 5
        invariant
            i <= entries@.len(),
            tags == entry_tags(entries@),
            forall|k: int| 0 <= k < i ==> tags[k] != 5u32,
        decreases entries@.len() - i,
    {
        i += 1;
    }
    proof {
        lemma_index_of_is(tags, 5u32, i as int);
    }
    if i == entries.len() {
        return None;
    }
    let address = entries[i].1;
    let mut j: usize = 0;
    while j < sections.len() && !(sections[j].0 == 3 && sections[j].1 == address)
        invariant
            j <= sections@.len(),
            forall|k: int| 0 <= k < j ==> !(sections@[k].0 == 3 && sections@[k].1 == address),
        decreases sections@.len() - j,
    {
        j += 1;
    }
    proof {
        lemma_string_section_is(sections@, address, j as int);
    }
    if j == sections.len() {
        return None;
    }
    let offset = sections[j].2;
    let size = sections[j].3;
    let length = image.len() as u64;
    if offset > length || size > length - offset {
        return None;
    }
    let start: usize = offset as usize;
    let end: usize = (offset + size) as usize;
    let mut table: Vec<u8> = Vec::new();
    let mut k: usize = start;
    while k < end
        invariant
            start <= k <= end <= image@.len(),
            table@ == image@.subrange(start as int, k as int),
        decreases end - k,
    {
        table.push(image[k]);
        k += 1;
        assert(image@.subrange(start as int, k as int) == image@.subrange(start as int, k - 1).push(
            image@[k - 1],
        ));
    }
    Some(table)
}

/// The text that the first entry with the tag `tag` points to.
fn read_tagged(entries: &Vec<(u32, u64)>, table: &Vec<u8>, tag: u32) -> (r: Option<String>)
    ensures
        optional(r) == tagged_text(entries@, table@, tag),
{
    let ghost tags = entry_tags(entries@);
    let mut i: usize = 0;
    while i < entries.len() && entries[i].0 != tag
        invariant
            i <= entries@.len(),
            tags == entry_tags(entries@),
            forall|j: int| 0 <= j < i ==> tags[j] != tag,
        decreases entries@.len() - i,
    {
        i += 1;
    }
    proof {
        lemma_index_of_is(tags, tag, i as int);
    }
    if i < entries.len() {
        read_text_at(table, entries[i].1)
    } else {
        None
    }
}

/// Reads what an image states in its dynamic section. Fails with
/// `InvalidElf` where the image is no well-formed ELF image.
pub fn parse_elf(data: &[u8]) -> (r: Result<ElfInfo, ElfError>)
    ensures
        match image_fault(data@) {
            Some(message) => r matches Err(e) && e@ == read_fault(message),
            None => r matches Ok(info) && info@ == elf_info(data@),
        },
{
    if !check_layout(data) {
        let mut text = String::new();
        push_text(&mut text, "Failed to parse ELF: ");
        push_text(&mut text, "The layout of the image is not sound");
        assert(text@ == "Failed to parse ELF: "@ + "The layout of the image is not sound"@);
        return Err(ElfError::InvalidElf(text));
    }
    match elf_check(data) {
        Some(message) => {
            let mut text = String::new();
            push_text(&mut text, "Failed to parse ELF: ");
            push_text(&mut text, message.as_str());
            assert(text@ == "Failed to parse ELF: "@ + message@);
            return Err(ElfError::InvalidElf(text));
        },
        None => {},
    }
    let mut info = ElfInfo::default();
    let entries = match elf_dynamic_entries(data) {
        Some(entries) => entries,
        None => {
            return Ok(info);
        },
    };
    let sections = match elf_section_table(data) {
        Some(sections) => sections,
        None => {
            return Ok(info);
        },
    };
    let table = match read_string_table(data, &entries, &sections) {
        Some(table) => table,
        None => {
            return Ok(info);
        },
    };
    info.rpath = read_tagged(&entries, &table, 15);
    info.runpath = read_tagged(&entries, &table, 29);
    info.soname = read_tagged(&entries, &table, 14);
    let mut i: usize = 0;
    assert(needed_texts(entries@.take(0), table@) == Seq::<Seq<char>>::empty());
    while i < entries.len()
        invariant
            i <= entries@.len(),
            info@.rpath == tagged_text(entries@, table@, 15),
            info@.runpath == tagged_text(entries@, table@, 29),
            info@.soname == tagged_text(entries@, table@, 14),
            info@.needed == needed_texts(entries@.take(i as int), table@),
        decreases entries@.len() - i,
    {
        assert(entries@.take(i + 1).drop_last() == entries@.take(i as int));
        assert(entries@.take(i + 1).last() == entries@[i as int]);
        if entries[i].0 == 1 {
            match read_text_at(&table, entries[i].1) {
                Some(text) => {
                    push_string(&mut info.needed, text);
                },
                None => {},
            }
        }
        i += 1;
    }
    assert(entries@.take(entries@.len() as int) == entries@);
    Ok(info)
}

/// The library search path that the loader uses for an image: that of
/// `DT_RUNPATH` where the image has one, else that of `DT_RPATH`.
pub fn get_rpath(data: &[u8]) -> (r: Result<Option<String>, ElfError>)
    ensures
        match image_fault(data@) {
            Some(message) => r matches Err(e) && e@ == read_fault(message),
            None => r matches Ok(path) && optional(path) == effective_rpath(elf_info(data@)),
        },
{
    match parse_elf(data) {
        Ok(info) => {
            match info.runpath {
                Some(path) => Ok(Some(path)),
                None => Ok(info.rpath),
            }
        },
        Err(e) => Err(e),
    }
}

/// Whether `text` holds a NUL character.
fn holds_nul(text: &str) -> (r: bool)
    ensures
        r == text@.contains('\0'),
{
    let v = chars_of(text);
    let mut i: usize = 0;
    while i < v.len()
        invariant
            i <= v@.len(),
            v@ == text@,
            forall|j: int| 0 <= j < i ==> v@[j] != '\0',
        decreases v@.len() - i,
    {
        if v[i] == '\0' {
            assert(text@[i as int] == '\0');
            return true;
        }
        i += 1;
    }
    false
}

/// Whether `found` is the text `wanted`.
fn is_path(found: &Option<String>, wanted: &String) -> (r: bool)
    ensures
        r == (optional(*found) == Some(wanted@)),
{
    match found {
        Some(path) => *path == *wanted,
        None => false,
    }
}

/// The entries of the dynamic section of `data`.
fn read_entries(data: &[u8]) -> (r: Vec<(u32, u64)>)
    requires
        has_sound_layout(data@),
    ensures
        r@ == dynamic_entries(data@),
{
    match elf_dynamic_entries(data) {
        Some(entries) => entries,
        None => Vec::new(),
    }
}

/// The entries that no patch may change.
fn keep_others(entries: &Vec<(u32, u64)>) -> (r: Vec<(u32, u64)>)
    ensures
        r@ == other_entries(entries@),
{
    let mut kept: Vec<(u32, u64)> = Vec::new();
    let mut i: usize = 0;
    assert(entries@.take(0) == Seq::<(u32, u64)>::empty());
    while i < entries.len()
        invariant
            i <= entries@.len(),
            kept@ == other_entries(entries@.take(i as int)),
        decreases entries@.len() - i,
    {
        assert(entries@.take(i + 1).drop_last() == entries@.take(i as int));
        assert(entries@.take(i + 1).last() == entries@[i as int]);
        let tag = entries[i].0;
        if !(tag == 15 || tag == 29 || tag == 5 || tag == 10) {
            kept.push(entries[i]);
        }
        i += 1;
    }
    assert(entries@.take(entries@.len() as int) == entries@);
    kept
}

/// Whether exactly one of the entries has the tag `tag`.
fn has_one(entries: &Vec<(u32, u64)>, tag: u32) -> (r: bool)
    ensures
        r == (count_tag(entries@, tag) == 1),
{
    let mut found: usize = 0;
    let mut i: usize = 0;
    assert(entries@.take(0) == Seq::<(u32, u64)>::empty());
    while i < entries.len()
        invariant
            i <= entries@.len(),
            found == count_tag(entries@.take(i as int), tag),
            found <= i,
        decreases entries@.len() - i,
    {
        assert(entries@.take(i + 1).drop_last() == entries@.take(i as int));
        assert(entries@.take(i + 1).last() == entries@[i as int]);
        if entries[i].0 == tag {
            found += 1;
        }
        i += 1;
    }
    assert(entries@.take(entries@.len() as int) == entries@);
    found == 1
}

/// Whether the two lists hold the same entries.
fn same_entries(a: &Vec<(u32, u64)>, b: &Vec<(u32, u64)>) -> (r: bool)
    ensures
        r == (a@ == b@),
{
    if a.len() != b.len() {
        return false;
    }
    let mut i: usize = 0;
    while i < a.len()
        invariant
            i <= a@.len() == b@.len(),
            forall|k: int| 0 <= k < i ==> a@[k] == b@[k],
        decreases a@.len() - i,
    {
        if a[i].0 != b[i].0 || a[i].1 != b[i].1 {
            assert(a@[i as int] != b@[i as int]);
            return false;
        }
        i += 1;
    }
    assert(a@ == b@);
    true
}

/// Whether the patcher can extend the dynamic string table of `data`.
fn can_grow(data: &[u8]) -> (r: bool)
    requires
        has_sound_layout(data@),
    ensures
        r == strings_can_grow(data@),
{
    let entries = match elf_dynamic_entries(data) {
        Some(entries) => entries,
        None => {
            return true;
        },
    };
    let sections = match elf_section_table(data) {
        Some(sections) => sections,
        None => {
            return true;
        },
    };
    let ghost tags = entry_tags(entries@);
    let mut i: usize = 0;
    while i < entries.len() && entries[i].0 != 5
        invariant
            i <= entries@.len(),
            tags == entry_tags(entries@),
            forall|k: int| 0 <= k < i ==> tags[k] != 5u32,
        decreases entries@.len() - i,
    {
        i += 1;
    }
    proof {
        lemma_index_of_is(tags, 5u32, i as int);
    }
    if i == entries.len() {
        return false;
    }
    let address = entries[i].1;
    let mut j: usize = 0;
    while j < sections.len() && !(sections[j].0 == 3 && sections[j].1 == address)
        invariant
            j <= sections@.len(),
            forall|k: int| 0 <= k < j ==> !(sections@[k].0 == 3 && sections@[k].1 == address),
        decreases sections@.len() - j,
    {
        j += 1;
    }
    proof {
        lemma_string_section_is(sections@, address, j as int);
    }
    if j == sections.len() {
        return true;
    }
    sections[j].3 > 0 && j as u64 != read_names_index(data)
}

/// The search paths that one patcher is given: one or none.
pub open spec fn tag_of(change: Option<&ElfModification>) -> Seq<PathTag> {
    match change {
        Some(m) => seq![m@],
        None => Seq::empty(),
    }
}

/// Hands an image to one patcher, with one change or none, and checks what
/// the patcher hands out against the image.
fn rewrite(data: &[u8], change: Option<&ElfModification>) -> (r: Result<Vec<u8>, ElfError>)
    ensures
        match rewritten(data@, tag_of(change)) {
            Ok(image) => r matches Ok(bytes) && bytes@ == image,
            Err(fault) => r matches Err(e) && e@ == fault,
        },
{
    let ghost tags = tag_of(change);
    let before = match parse_elf(data) {
        Ok(info) => info,
        Err(e) => {
            return Err(e);
        },
    };
    match change {
        Some(ElfModification::SetRpath(path)) | Some(ElfModification::SetRunpath(path)) => {
            assert(tags.last().1 == path@);
            if holds_nul(path.as_str()) {
                return Err(ElfError::Lief("Invalid search path: NUL character".to_owned()));
            }
        },
        None => {},
    }
    if !check_patchable(data) || !can_grow(data) {
        return Err(ElfError::InvalidElf("The image does not allow a patch".to_owned()));
    }
    let entries = read_entries(data);
    let image = vstd::slice::slice_to_vec(data);
    let mut patcher = match patcher_open(image) {
        Ok(patcher) => patcher,
        Err(message) => {
            let mut text = String::new();
            push_text(&mut text, "Failed to parse ELF: ");
            push_text(&mut text, message.as_str());
            return Err(ElfError::InvalidElf(text));
        },
    };
    match change {
        Some(m) => {
            let (runpath, path) = match m {
                ElfModification::SetRpath(path) => (false, path),
                ElfModification::SetRunpath(path) => (true, path),
            };
            assert(Seq::<PathTag>::empty().push((runpath, path@)) == tags);
            match patcher_set(&mut patcher, runpath, path.as_str()) {
                Ok(()) => {},
                Err(message) => {
                    let mut text = String::new();
                    push_text(&mut text, "Failed to set search path: ");
                    push_text(&mut text, message.as_str());
                    assert(text@ == "Failed to set search path: "@ + message@);
                    return Err(ElfError::Lief(text));
                },
            }
        },
        None => {},
    }
    assert(patcher_tags(patcher) == tags);
    let bytes = match patcher_finish(patcher) {
        Ok(bytes) => bytes,
        Err(message) => {
            let mut text = String::new();
            push_text(&mut text, "Failed to finish patching: ");
            push_text(&mut text, message.as_str());
            assert(text@ == "Failed to finish patching: "@ + message@);
            return Err(ElfError::Lief(text));
        },
    };
    let after = parse_elf(bytes.as_slice());
    let found = match &after {
        Ok(_) => read_entries(bytes.as_slice()),
        Err(_) => Vec::new(),
    };
    match change {
        Some(m) => {
            assert(tags.last() == m@);
            let stated = match &after {
                Ok(info) => match m {
                    ElfModification::SetRpath(path) => has_one(&found, 15) && is_path(
                        &info.rpath,
                        path,
                    ),
                    ElfModification::SetRunpath(path) => has_one(&found, 29) && is_path(
                        &info.runpath,
                        path,
                    ),
                },
                Err(_) => false,
            };
            if !stated {
                return Err(ElfError::Lief("Search path was not set".to_owned()));
            }
        },
        None => {},
    }
    let kept = match &after {
        Ok(info) => data.len() >= 20 && bytes.len() >= 20 && bytes[0] == 0x7F && bytes[1] == 0x45
            && bytes[2] == 0x4C && bytes[3] == 0x46 && bytes[4] == data[4] && bytes[5] == data[5]
            && bytes[18] == data[18] && bytes[19] == data[19] && same_strings(
            &info.needed,
            &before.needed,
        ) && same_optional(&info.soname, &before.soname) && same_entries(
            &keep_others(&found),
            &keep_others(&entries),
        ),
        Err(_) => false,
    };
    if kept {
        Ok(bytes)
    } else {
        Err(ElfError::Lief("Patched image is not the image any more".to_owned()))
    }
}

/// Applies the changes to an image, in order, and hands out the patched
/// image. Fails with `InvalidElf` where the image is no well-formed ELF
/// image or does not allow a patch, and with the first failure of a change
/// or of the final writing. It fails too where a patched image does not
/// state the search path that was set, in one entry, or is not the image
/// any more: has another class, byte order or machine, states other needed
/// libraries or another name, or holds other entries besides the search
/// paths and the place of the string table.
pub fn modify_elf(data: &[u8], modifications: &[ElfModification]) -> (r: Result<Vec<u8>, ElfError>)
    ensures
        match modified(data@, tags_of(modifications@)) {
            Ok(image) => r matches Ok(bytes) && bytes@ == image,
            Err(fault) => r matches Err(e) && e@ == fault,
        },
{
    let ghost tags = tags_of(modifications@);
    if modifications.len() == 0 {
        assert(tags == tag_of(None));
        return rewrite(data, None);
    }
    assert(tags.take(1) == tag_of(Some(&modifications@[0])));
    let mut current = match rewrite(data, Some(&modifications[0])) {
        Ok(bytes) => bytes,
        Err(e) => {
            proof {
                lemma_failure_stays(data@, tags, 1);
            }
            return Err(e);
        },
    };
    let mut i: usize = 1;
    while i < modifications.len()
        invariant
            1 <= i <= modifications@.len(),
            tags == tags_of(modifications@),
            modified(data@, tags.take(i as int)) == Ok::<Seq<u8>, ElfFault>(current@),
        decreases modifications@.len() - i,
    {
        let ghost next = tags.take(i + 1);
        assert(next.drop_last() == tags.take(i as int));
        assert(seq![next.last()] == tag_of(Some(&modifications@[i as int])));
        match rewrite(current.as_slice(), Some(&modifications[i])) {
            Ok(bytes) => {
                current = bytes;
            },
            Err(e) => {
                proof {
                    lemma_failure_stays(data@, tags, i + 1);
                }
                return Err(e);
            },
        }
        i += 1;
    }
    assert(tags.take(modifications@.len() as int) == tags);
    Ok(current)
}

/// Whether the two lists hold the same texts.
fn same_strings(a: &Vec<String>, b: &Vec<String>) -> (r: bool)
    ensures
        r == (strings(a@) == strings(b@)),
{
    if a.len() != b.len() {
        assert(strings(a@).len() != strings(b@).len());
        return false;
    }
    let mut i: usize = 0;
    while i < a.len()
        invariant
            i <= a@.len() == b@.len(),
            forall|k: int| 0 <= k < i ==> strings(a@)[k] == strings(b@)[k],
        decreases a@.len() - i,
    {
        if a[i] != b[i] {
            assert(strings(a@)[i as int] != strings(b@)[i as int]);
            return false;
        }
        i += 1;
    }
    assert(strings(a@) == strings(b@));
    true
}

/// Whether the two hold the same text, or both none.
fn same_optional(a: &Option<String>, b: &Option<String>) -> (r: bool)
    ensures
        r == (optional(*a) == optional(*b)),
{
    match (a, b) {
        (Some(x), Some(y)) => *x == *y,
        (None, None) => true,
        _ => false,
    }
}

/// A patch keeps the search path: an image that was patched with a search
/// path for `DT_RUNPATH` can be read, that path is the one that the loader
/// uses for it, one entry states it, and the image is still the same.
pub proof fn lemma_patched_runpath_is_effective(image: Seq<u8>, path: Seq<char>)
    ensures
        modified(image, seq![(true, path)]) matches Ok(patched) ==> image_fault(patched) is None
            && effective_rpath(elf_info(patched)) == Some(path) && count_tag(
            dynamic_entries(patched),
            29,
        ) == 1 && keeps_identity(image, patched),
{
    let tags: Seq<PathTag> = seq![(true, path)];
    assert(tags.last() == (true, path));
}

/// A patch keeps the image: whatever search paths an image is patched with,
/// the patched image has the class, the byte order and the machine of the
/// image, states the same needed libraries and the same name, and holds the
/// same entries besides the search paths and the place of the string table;
/// and it states the search path that was set last.
pub proof fn lemma_modified_keeps_identity(image: Seq<u8>, tags: Seq<PathTag>)
    ensures
        modified(image, tags) matches Ok(patched) ==> keeps_identity(image, patched) && (tags.len()
            > 0 ==> states_path(patched, tags.last())),
    decreases tags.len(),
{
    if tags.len() > 1 {
        lemma_modified_keeps_identity(image, tags.drop_last());
        let last: Seq<PathTag> = seq![tags.last()];
        assert(last.last() == tags.last());
    }
}

/// A failure of the first `k` search paths is the failure of them all.
proof fn lemma_failure_stays(image: Seq<u8>, tags: Seq<PathTag>, k: int)
    requires
        1 <= k <= tags.len(),
        modified(image, tags.take(k)) is Err,
    ensures
        modified(image, tags) == modified(image, tags.take(k)),
    decreases tags.len() - k,
{
    if k == tags.len() {
        assert(tags.take(k) == tags);
    } else {
        assert(tags.take(k + 1).drop_last() == tags.take(k));
        lemma_failure_stays(image, tags, k + 1);
    }
}

} // verus!
