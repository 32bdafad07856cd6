//! The layout of an ELF image, as far as the reader and the patcher of
//! images rest on it: the entry sizes and counts of its header, the place of
//! its segments and sections, and the few entries that a patch frees, reads
//! anew or places others by.

use vstd::prelude::*;

verus! {

/// The number that two bytes at `at` state.
pub open spec fn half(image: Seq<u8>, at: int, big: bool) -> int {
    if big {
        image[at] * 256 + image[at + 1]
    } else {
        image[at] + image[at + 1] * 256
    }
}

/// The number that four bytes at `at` state.
pub open spec fn word32(image: Seq<u8>, at: int, big: bool) -> int {
    if big {
        half(image, at, big) * 65536 + half(image, at + 2, big)
    } else {
        half(image, at, big) + half(image, at + 2, big) * 65536
    }
}

/// The number that eight bytes at `at` state.
pub open spec fn word64(image: Seq<u8>, at: int, big: bool) -> int {
    if big {
        word32(image, at, big) * 4294967296 + word32(image, at + 4, big)
    } else {
        word32(image, at, big) + word32(image, at + 4, big) * 4294967296
    }
}

/// The number that a word of the image's class states: eight bytes in a
/// 64-bit image, four in a 32-bit image.
pub open spec fn word(image: Seq<u8>, at: int, wide: bool, big: bool) -> int {
    if wide {
        word64(image, at, big)
    } else {
        word32(image, at, big)
    }
}

/// Whether the image is of the 64-bit class.
pub open spec fn is_wide(image: Seq<u8>) -> bool {
    image[4] == 2
}

/// Whether the image is in big-endian byte order.
pub open spec fn is_big(image: Seq<u8>) -> bool {
    image[5] == 2
}

/// The length of the header of an image.
pub open spec fn header_len(wide: bool) -> int {
    if wide {
        64
    } else {
        52
    }
}

/// The offset of the section table.
pub open spec fn section_table(image: Seq<u8>) -> int {
    word(image, if is_wide(image) { 40int } else { 32int }, is_wide(image), is_big(image))
}

/// The length that the header states for an entry of the segment table.
pub open spec fn segment_entry_len(image: Seq<u8>) -> int {
    half(image, if is_wide(image) { 54int } else { 42int }, is_big(image))
}

/// The number of segments that the header states.
pub open spec fn segment_count(image: Seq<u8>) -> int {
    half(image, if is_wide(image) { 56int } else { 44int }, is_big(image))
}

/// The length that the header states for an entry of the section table.
pub open spec fn section_entry_len(image: Seq<u8>) -> int {
    half(image, if is_wide(image) { 58int } else { 46int }, is_big(image))
}

/// The number of sections that the header states.
pub open spec fn section_count(image: Seq<u8>) -> int {
    half(image, if is_wide(image) { 60int } else { 48int }, is_big(image))
}

/// The offset of the segment table.
pub open spec fn segment_table(image: Seq<u8>) -> int {
    word(image, if is_wide(image) { 32int } else { 28int }, is_wide(image), is_big(image))
}

/// The offset of the entry of the segment `i` in the image.
pub open spec fn segment_entry(image: Seq<u8>, i: int) -> int {
    if is_wide(image) {
        segment_table(image) + i * 56
    } else {
        segment_table(image) + i * 32
    }
}

/// The index of the section that holds the names of the sections.
pub open spec fn names_index(image: Seq<u8>) -> int {
    half(image, if is_wide(image) { 62int } else { 50int }, is_big(image))
}

/// The type of the segment `i`.
pub open spec fn segment_kind(image: Seq<u8>, i: int) -> int {
    word32(image, segment_entry(image, i), is_big(image))
}

/// The offset of the segment `i` in the image.
pub open spec fn segment_offset(image: Seq<u8>, i: int) -> int {
    let wide = is_wide(image);
    word(image, segment_entry(image, i) + if wide { 8int } else { 4int }, wide, is_big(image))
}

/// The address of the segment `i` in memory.
pub open spec fn segment_address(image: Seq<u8>, i: int) -> int {
    let wide = is_wide(image);
    word(image, segment_entry(image, i) + if wide { 16int } else { 8int }, wide, is_big(image))
}

/// The physical address of the segment `i`.
pub open spec fn segment_physical(image: Seq<u8>, i: int) -> int {
    let wide = is_wide(image);
    word(image, segment_entry(image, i) + if wide { 24int } else { 12int }, wide, is_big(image))
}

/// The size of the segment `i` in the image.
pub open spec fn segment_file_size(image: Seq<u8>, i: int) -> int {
    let wide = is_wide(image);
    word(image, segment_entry(image, i) + if wide { 32int } else { 16int }, wide, is_big(image))
}

/// The size of the segment `i` in memory.
pub open spec fn segment_memory_size(image: Seq<u8>, i: int) -> int {
    let wide = is_wide(image);
    word(image, segment_entry(image, i) + if wide { 40int } else { 20int }, wide, is_big(image))
}

/// The offset of the entry of the section `i` in the image.
pub open spec fn section_entry(image: Seq<u8>, i: int) -> int {
    if is_wide(image) {
        section_table(image) + i * 64
    } else {
        section_table(image) + i * 40
    }
}

/// The type of the section `i`.
pub open spec fn section_kind(image: Seq<u8>, i: int) -> int {
    word32(image, section_entry(image, i) + 4, is_big(image))
}

/// The flags of the section `i`.
pub open spec fn section_flags(image: Seq<u8>, i: int) -> int {
    word(image, section_entry(image, i) + 8, is_wide(image), is_big(image))
}

/// The address of the section `i` in memory.
pub open spec fn section_address(image: Seq<u8>, i: int) -> int {
    let wide = is_wide(image);
    word(image, section_entry(image, i) + if wide { 16int } else { 12int }, wide, is_big(image))
}

/// The offset of the section `i` in the image.
pub open spec fn section_offset(image: Seq<u8>, i: int) -> int {
    let wide = is_wide(image);
    word(image, section_entry(image, i) + if wide { 24int } else { 16int }, wide, is_big(image))
}

/// The size of the section `i`.
pub open spec fn section_size(image: Seq<u8>, i: int) -> int {
    let wide = is_wide(image);
    word(image, section_entry(image, i) + if wide { 32int } else { 20int }, wide, is_big(image))
}

/// The highest address that an image may name: a quarter of what eight
/// bytes can state, so that sums of addresses, sizes and pages stay within
/// eight bytes.
pub open spec fn address_limit() -> int {
    0x4000_0000_0000_0000
}

/// Whether the header and the two tables of an image are whole: the image
/// has a header of a known class and byte order; the entry sizes that the
/// header states are those of the class wherever it states entries; the
/// segment table and the section table lie within the image.
pub open spec fn has_tables(image: Seq<u8>) -> bool {
    &&& image.len() >= 6
    &&& (image[4] == 1 || image[4] == 2)
    &&& (image[5] == 1 || image[5] == 2)
    &&& image.len() >= header_len(is_wide(image))
    &&& (segment_count(image) == 0 || segment_entry_len(image) == if is_wide(image) {
        56int
    } else {
        32int
    })
    &&& (section_count(image) == 0 || section_entry_len(image) == if is_wide(image) {
        64int
    } else {
        40int
    })
    &&& segment_entry(image, segment_count(image)) <= image.len()
    &&& section_entry(image, section_count(image)) <= image.len()
}

/// Whether the numbers of the segment `i`, of whatever type, are bounded:
/// its offset with its size in the image and its addresses with its size in
/// memory are below the limit.
pub open spec fn segment_bounded(image: Seq<u8>, i: int) -> bool {
    &&& segment_offset(image, i) + segment_file_size(image, i) <= address_limit()
    &&& segment_address(image, i) + segment_memory_size(image, i) <= address_limit()
    &&& segment_physical(image, i) + segment_memory_size(image, i) <= address_limit()
}

/// Whether the numbers of the section `i`, of whatever type, are bounded:
/// its offset and its address, each with its size, are below the limit; and
/// a dynamic section (type 6) lies within the image.
pub open spec fn section_bounded(image: Seq<u8>, i: int) -> bool {
    &&& section_offset(image, i) + section_size(image, i) <= address_limit()
    &&& section_address(image, i) + section_size(image, i) <= address_limit()
    &&& section_kind(image, i) == 6 ==> section_offset(image, i) + section_size(image, i)
        <= image.len()
}

/// Whether the layout of an image is sound, as far as reading it goes: its
/// header and tables are whole, the numbers of every segment and section are
/// bounded, and a dynamic section lies within the image.
pub open spec fn has_sound_layout(image: Seq<u8>) -> bool {
    &&& has_tables(image)
    &&& forall|i: int| 0 <= i < segment_count(image) ==> #[trigger] segment_bounded(image, i)
    &&& forall|i: int| 0 <= i < section_count(image) ==> #[trigger] section_bounded(image, i)
}

/// Whether the segment `i`, of whatever type, lies within the image.
pub open spec fn segment_fits(image: Seq<u8>, i: int) -> bool {
    segment_offset(image, i) + segment_file_size(image, i) <= image.len()
}

/// Whether the section `i`, of whatever type, lies within the image, unless
/// it is of the type that takes no room in it (8).
pub open spec fn section_fits(image: Seq<u8>, i: int) -> bool {
    section_kind(image, i) == 8 || section_offset(image, i) + section_size(image, i)
        <= image.len()
}

/// The first of the first `n` segments that holds the segment table itself
/// (type 6), or `n` where none does.
pub open spec fn program_header_segment(image: Seq<u8>, n: int) -> int
    decreases n,
{
    if n <= 0 {
        0
    } else {
        let before = program_header_segment(image, n - 1);
        if before < n - 1 || segment_kind(image, n - 1) == 6 {
            before
        } else {
            n
        }
    }
}

/// Whether the segment `i` is a loaded segment (type 1) that a patch leaves
/// in place: one that does not cover exactly the segment table.
pub open spec fn stays(image: Seq<u8>, i: int) -> bool {
    let p = program_header_segment(image, segment_count(image));
    &&& segment_kind(image, i) == 1
    &&& !(p < segment_count(image) && segment_offset(image, p) == segment_offset(image, i)
        && segment_file_size(image, p) == segment_file_size(image, i))
}

/// The first multiple of the page size (4096) that is not below `x`.
pub open spec fn page_end(x: int) -> int {
    ((x + 4095) / 4096) * 4096
}

/// The highest end in memory, rounded up to a page, of those of the first
/// `n` segments that stay; zero where none stays.
pub open spec fn top_of(image: Seq<u8>, n: int) -> int
    decreases n,
{
    if n <= 0 {
        0
    } else {
        let before = top_of(image, n - 1);
        let end = page_end(segment_address(image, n - 1) + segment_memory_size(image, n - 1));
        if stays(image, n - 1) && end > before {
            end
        } else {
            before
        }
    }
}

/// Whether the segment `i` takes room in memory, if it is loaded.
pub open spec fn load_takes_room(image: Seq<u8>, i: int) -> bool {
    segment_kind(image, i) == 1 ==> segment_memory_size(image, i) > 0
}

/// Whether the segment `i` is an empty one at the start of the image that a
/// patch leaves in place: of another type than 0 and 2, at offset 0, without
/// bytes in the image.
pub open spec fn is_rest(image: Seq<u8>, i: int) -> bool {
    &&& segment_kind(image, i) != 0
    &&& segment_kind(image, i) != 2
    &&& segment_offset(image, i) == 0
    &&& segment_file_size(image, i) == 0
}

/// Whether the image begins with something that a patch leaves in place:
/// its first segment is at offset 0 and holds no dynamic section (type 2),
/// or some segment is an empty one at the start.
pub open spec fn has_anchor(image: Seq<u8>) -> bool {
    ||| (segment_count(image) > 0 && segment_kind(image, 0) != 2 && segment_offset(image, 0) == 0)
    ||| exists|i: int| 0 <= i < segment_count(image) && #[trigger] is_rest(image, i)
}

/// Whether the section `i` is in use (not of type 0), is kept in memory
/// (the second bit of its flags) and is empty.
pub open spec fn is_hollow(image: Seq<u8>, i: int) -> bool {
    &&& section_kind(image, i) != 0
    &&& (section_flags(image, i) / 2) % 2 == 1
    &&& section_size(image, i) == 0
}

/// Whether the section `i` lies below the end of the segments that stay, if
/// it is an empty section that is kept in memory.
pub open spec fn lies_low(image: Seq<u8>, i: int) -> bool {
    is_hollow(image, i) ==> section_address(image, i) < top_of(image, segment_count(image))
}

/// Whether the names of the sections are found: an image with sections
/// names one of them for the names, and that one is a string table (type 3)
/// that is not empty.
pub open spec fn names_are_sound(image: Seq<u8>) -> bool {
    section_count(image) == 0 || (names_index(image) < section_count(image) && section_kind(
        image,
        names_index(image),
    ) == 3 && section_size(image, names_index(image)) > 0)
}

/// Whether the layout of an image allows a patch. The layout is sound, and:
/// every segment and every section lies within the image, so that what a
/// patch frees or reads is no larger than the image;
/// the image has fewer than 65280 segments, so that a few can be added;
/// every loaded segment takes room in memory, one of them stays in place,
/// and every empty section that is kept in memory lies below the end of
/// those that stay, so that what a patch adds last in memory follows the end
/// of something; the image begins with something that stays; the names of
/// the sections are found.
pub open spec fn has_patchable_layout(image: Seq<u8>) -> bool {
    &&& has_sound_layout(image)
    &&& segment_count(image) < 65280
    &&& forall|i: int| 0 <= i < segment_count(image) ==> #[trigger] segment_fits(image, i)
    &&& forall|i: int| 0 <= i < section_count(image) ==> #[trigger] section_fits(image, i)
    &&& forall|i: int| 0 <= i < segment_count(image) ==> #[trigger] load_takes_room(image, i)
    &&& top_of(image, segment_count(image)) > 0
    &&& has_anchor(image)
    &&& names_are_sound(image)
    &&& forall|i: int| 0 <= i < section_count(image) ==> #[trigger] lies_low(image, i)
}

/// The number that two bytes at `at` state.
fn read_half(data: &[u8], at: usize, big: bool) -> (r: u64)
    requires
        at + 2 <= data@.len() <= usize::MAX,
    ensures
        r == half(data@, at as int, big),
        r < 65536,
{
    let a: u64 = data[at] as u64;
    let b: u64 = data[at + 1] as u64;
    if big {
        a * 256 + b
    } else {
        a + b * 256
    }
}

/// The number that four bytes at `at` state.
fn read_word32(data: &[u8], at: usize, big: bool) -> (r: u64)
    requires
        at + 4 <= data@.len() <= usize::MAX,
    ensures
        r == word32(data@, at as int, big),
        r < 4294967296,
{
    let a = read_half(data, at, big);
    let b = read_half(data, at + 2, big);
    if big {
        a * 65536 + b
    } else {
        a + b * 65536
    }
}

/// The number that a word of the class states.
fn read_word(data: &[u8], at: usize, wide: bool, big: bool) -> (r: u64)
    requires
        at + 8 <= data@.len() <= usize::MAX,
    ensures
        r == word(data@, at as int, wide, big),
{
    if wide {
        let a = read_word32(data, at, big);
        let b = read_word32(data, at + 4, big);
        if big {
            a * 4294967296 + b
        } else {
            a + b * 4294967296
        }
    } else {
        read_word32(data, at, big)
    }
}

/// A segment as its entry states it.
struct SegmentEntry {
    kind: u64,
    offset: u64,
    address: u64,
    physical: u64,
    file_size: u64,
    memory_size: u64,
}

/// A section as its entry states it.
struct SectionEntry {
    kind: u64,
    flags: u64,
    address: u64,
    offset: u64,
    size: u64,
}

/// Whether the header and the two tables of `data` are whole.
fn check_tables(data: &[u8]) -> (r: bool)
    ensures
        r == has_tables(data@),
{
    let n = data.len();
    if n < 6 || !(data[4] == 1 || data[4] == 2) || !(data[5] == 1 || data[5] == 2) {
        return false;
    }
    let wide = data[4] == 2;
    let big = data[5] == 2;
    if (wide && n < 64) || n < 52 {
        return false;
    }
    let segment_len = read_half(data, if wide { 54 } else { 42 }, big);
    let segments = read_half(data, if wide { 56 } else { 44 }, big);
    let section_len = read_half(data, if wide { 58 } else { 46 }, big);
    let sections = read_half(data, if wide { 60 } else { 48 }, big);
    if segments != 0 && segment_len != (if wide { 56 } else { 32 }) {
        return false;
    }
    if sections != 0 && section_len != (if wide { 64 } else { 40 }) {
        return false;
    }
    let length = n as u64;
    let first = read_word(data, if wide { 32 } else { 28 }, wide, big);
    let pace: u64 = if wide { 56 } else { 32 };
    if first > length || segments * pace > length - first {
        return false;
    }
    let table = read_word(data, if wide { 40 } else { 32 }, wide, big);
    let step: u64 = if wide { 64 } else { 40 };
    if table > length || sections * step > length - table {
        return false;
    }
    true
}

/// The number of segments that the header of `data` states.
fn count_segments(data: &[u8]) -> (r: u64)
    requires
        has_tables(data@),
    ensures
        r == segment_count(data@),
        r < 65536,
{
    read_half(data, if data[4] == 2 { 56 } else { 44 }, data[5] == 2)
}

/// The number of sections that the header of `data` states.
fn count_sections(data: &[u8]) -> (r: u64)
    requires
        has_tables(data@),
    ensures
        r == section_count(data@),
        r < 65536,
{
    read_half(data, if data[4] == 2 { 60 } else { 48 }, data[5] == 2)
}

/// The index of the section that holds the names of the sections.
pub(crate) fn read_names_index(data: &[u8]) -> (r: u64)
    requires
        has_tables(data@),
    ensures
        r == names_index(data@),
        r < 65536,
{
    read_half(data, if data[4] == 2 { 62 } else { 50 }, data[5] == 2)
}

/// The entry of the segment `i`.
fn read_segment(data: &[u8], i: u64) -> (r: SegmentEntry)
    requires
        has_tables(data@),
        i < segment_count(data@),
    ensures
        r.kind == segment_kind(data@, i as int),
        r.offset == segment_offset(data@, i as int),
        r.address == segment_address(data@, i as int),
        r.physical == segment_physical(data@, i as int),
        r.file_size == segment_file_size(data@, i as int),
        r.memory_size == segment_memory_size(data@, i as int),
{
    let wide = data[4] == 2;
    let big = data[5] == 2;
    let first = read_word(data, if wide { 32 } else { 28 }, wide, big);
    let pace: u64 = if wide { 56 } else { 32 };
    assert(first + i * pace + pace <= data@.len()) by (nonlinear_arith)
        requires
            first + segment_count(data@) * pace <= data@.len(),
            i < segment_count(data@),
            pace >= 0,
    ;
    assert(i * pace >= 0) by (nonlinear_arith)
        requires
            pace >= 0,
    ;
    let at: usize = (first + i * pace) as usize;
    assert(at == segment_entry(data@, i as int));
    if wide {
        SegmentEntry {
            kind: read_word32(data, at, big),
            offset: read_word(data, at + 8, wide, big),
            address: read_word(data, at + 16, wide, big),
            physical: read_word(data, at + 24, wide, big),
            file_size: read_word(data, at + 32, wide, big),
            memory_size: read_word(data, at + 40, wide, big),
        }
    } else {
        SegmentEntry {
            kind: read_word32(data, at, big),
            offset: read_word32(data, at + 4, big),
            address: read_word32(data, at + 8, big),
            physical: read_word32(data, at + 12, big),
            file_size: read_word32(data, at + 16, big),
            memory_size: read_word32(data, at + 20, big),
        }
    }
}

/// The entry of the section `i`.
fn read_section(data: &[u8], i: u64) -> (r: SectionEntry)
    requires
        has_tables(data@),
        i < section_count(data@),
    ensures
        r.kind == section_kind(data@, i as int),
        r.flags == section_flags(data@, i as int),
        r.address == section_address(data@, i as int),
        r.offset == section_offset(data@, i as int),
        r.size == section_size(data@, i as int),
{
    let wide = data[4] == 2;
    let big = data[5] == 2;
    let table = read_word(data, if wide { 40 } else { 32 }, wide, big);
    let step: u64 = if wide { 64 } else { 40 };
    assert(table + i * step + step <= data@.len()) by (nonlinear_arith)
        requires
            table + section_count(data@) * step <= data@.len(),
            i < section_count(data@),
            step >= 0,
    ;
    assert(i * step >= 0) by (nonlinear_arith)
        requires
            step >= 0,
    ;
    let at: usize = (table + i * step) as usize;
    assert(at == section_entry(data@, i as int));
    if wide {
        SectionEntry {
            kind: read_word32(data, at + 4, big),
            flags: read_word(data, at + 8, wide, big),
            address: read_word(data, at + 16, wide, big),
            offset: read_word(data, at + 24, wide, big),
            size: read_word(data, at + 32, wide, big),
        }
    } else {
        SectionEntry {
            kind: read_word32(data, at + 4, big),
            flags: read_word32(data, at + 8, big),
            address: read_word32(data, at + 12, big),
            offset: read_word32(data, at + 16, big),
            size: read_word32(data, at + 20, big),
        }
    }
}

/// Whether `start` and `size` lie within `limit`, together.
fn within(start: u64, size: u64, limit: u64) -> (r: bool)
    ensures
        r == (start + size <= limit),
{
    start <= limit && size <= limit - start
}

/// Whether the layout of `data` is sound.
pub fn check_layout(data: &[u8]) -> (r: bool)
    ensures
        r == has_sound_layout(data@),
{
    if !check_tables(data) {
        return false;
    }
    let length = data.len() as u64;
    let limit: u64 = 0x4000_0000_0000_0000;
    let segments = count_segments(data);
    let mut k: u64 = 0;
    while k < segments
        invariant
            k <= segments == segment_count(data@),
            has_tables(data@),
            length == data@.len(),
            limit == address_limit(),
            forall|j: int| 0 <= j < k ==> #[trigger] segment_bounded(data@, j),
        decreases segments - k,
    {
        let s = read_segment(data, k);
        if !within(s.offset, s.file_size, limit) || !within(s.address, s.memory_size, limit)
            || !within(s.physical, s.memory_size, limit) {
            assert(!segment_bounded(data@, k as int));
            return false;
        }
        assert(segment_bounded(data@, k as int));
        k += 1;
    }
    let sections = count_sections(data);
    let mut i: u64 = 0;
    while i < sections
        invariant
            i <= sections == section_count(data@),
            has_tables(data@),
            length == data@.len(),
            limit == address_limit(),
            forall|j: int| 0 <= j < i ==> #[trigger] section_bounded(data@, j),
        decreases sections - i,
    {
        let s = read_section(data, i);
        if !within(s.offset, s.size, limit) || !within(s.address, s.size, limit) || (s.kind == 6
            && !within(s.offset, s.size, length)) {
            assert(!section_bounded(data@, i as int));
            return false;
        }
        assert(section_bounded(data@, i as int));
        i += 1;
    }
    true
}

/// The first segment of `data` that holds the segment table itself, or the
/// number of segments where none does.
fn find_program_header(data: &[u8]) -> (r: u64)
    requires
        has_tables(data@),
    ensures
        r == program_header_segment(data@, segment_count(data@)),
        r <= segment_count(data@),
{
    let segments = count_segments(data);
    let mut k: u64 = 0;
    while k < segments
        invariant
            k <= segments == segment_count(data@),
            has_tables(data@),
            program_header_segment(data@, k as int) == k,
        decreases segments - k,
    {
        let s = read_segment(data, k);
        if s.kind == 6 {
            proof {
                lemma_program_header_found(data@, k as int, segments as int);
            }
            return k;
        }
        k += 1;
    }
    segments
}

/// The first segment table segment among the first `k + 1` segments is the
/// first among any more.
proof fn lemma_program_header_found(image: Seq<u8>, k: int, n: int)
    requires
        0 <= k < n,
        program_header_segment(image, k) == k,
        segment_kind(image, k) == 6,
    ensures
        program_header_segment(image, n) == k,
    decreases n - k,
{
    if n > k + 1 {
        lemma_program_header_found(image, k, n - 1);
    }
}

/// The highest end in memory, rounded up to a page, of the segments of
/// `data` that stay.
fn find_top(data: &[u8]) -> (r: u64)
    requires
        has_sound_layout(data@),
    ensures
        r == top_of(data@, segment_count(data@)),
{
    let segments = count_segments(data);
    let p = find_program_header(data);
    let mut held: (u64, u64) = (0, 0);
    if p < segments {
        let s = read_segment(data, p);
        held = (s.offset, s.file_size);
    }
    let mut top: u64 = 0;
    let mut k: u64 = 0;
    while k < segments
        invariant
            k <= segments == segment_count(data@),
            has_sound_layout(data@),
            p == program_header_segment(data@, segments as int),
            p < segments ==> held.0 == segment_offset(data@, p as int) && held.1
                == segment_file_size(data@, p as int),
            top == top_of(data@, k as int),
            top <= address_limit() + 4096,
        decreases segments - k,
    {
        let s = read_segment(data, k);
        assert(segment_bounded(data@, k as int));
        let covers = p < segments && held.0 == s.offset && held.1 == s.file_size;
        let end: u64 = ((s.address + s.memory_size + 4095) / 4096) * 4096;
        assert(end == page_end(s.address + s.memory_size));
        if s.kind == 1 && !covers && end > top {
            top = end;
        }
        k += 1;
    }
    top
}

/// Whether the layout of `data` allows a patch.
pub fn check_patchable(data: &[u8]) -> (r: bool)
    ensures
        r == has_patchable_layout(data@),
{
    if !check_layout(data) {
        return false;
    }
    let segments = count_segments(data);
    if segments >= 65280 {
        return false;
    }
    let length = data.len() as u64;
    let mut rest = false;
    let mut k: u64 = 0;
    while k < segments
        invariant
            k <= segments == segment_count(data@),
            has_tables(data@),
            length == data@.len(),
            forall|j: int| 0 <= j < k ==> #[trigger] segment_fits(data@, j),
            forall|j: int| 0 <= j < k ==> #[trigger] load_takes_room(data@, j),
            rest == exists|j: int| 0 <= j < k && #[trigger] is_rest(data@, j),
        decreases segments - k,
    {
        let s = read_segment(data, k);
        if !within(s.offset, s.file_size, length) {
            assert(!segment_fits(data@, k as int));
            return false;
        }
        assert(segment_fits(data@, k as int));
        if s.kind == 1 && s.memory_size == 0 {
            assert(!load_takes_room(data@, k as int));
            return false;
        }
        if s.kind != 0 && s.kind != 2 && s.offset == 0 && s.file_size == 0 {
            assert(is_rest(data@, k as int));
            rest = true;
        }
        k += 1;
    }
    let mut anchored = rest;
    if segments > 0 {
        let s = read_segment(data, 0);
        if s.kind != 2 && s.offset == 0 {
            anchored = true;
        }
    }
    if !anchored {
        return false;
    }
    let top = find_top(data);
    if top == 0 {
        return false;
    }
    let sections = count_sections(data);
    if sections > 0 {
        let names = read_names_index(data);
        if names >= sections {
            return false;
        }
        let s = read_section(data, names);
        if s.kind != 3 || s.size == 0 {
            return false;
        }
    }
    let mut i: u64 = 0;
    while i < sections
        invariant
            i <= sections == section_count(data@),
            has_tables(data@),
            top == top_of(data@, segment_count(data@)),
            length == data@.len(),
            forall|j: int| 0 <= j < i ==> #[trigger] section_fits(data@, j),
            forall|j: int| 0 <= j < i ==> #[trigger] lies_low(data@, j),
        decreases sections - i,
    {
        let s = read_section(data, i);
        if s.kind != 8 && !within(s.offset, s.size, length) {
            assert(!section_fits(data@, i as int));
            return false;
        }
        assert(section_fits(data@, i as int));
        if s.kind != 0 && (s.flags / 2) % 2 == 1 && s.size == 0 && s.address >= top {
            assert(!lies_low(data@, i as int));
            return false;
        }
        assert(lies_low(data@, i as int));
        i += 1;
    }
    true
}

} // verus!
