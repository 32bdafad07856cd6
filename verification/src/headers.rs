//! `Key: value` header blocks, the common ground of the `METADATA` and
//! `WHEEL` files.

use vstd::prelude::*;
use crate::text::find_char;
use crate::text::index_of;
use crate::text::lemma_index_of_is;
use crate::text::push_string;
use crate::text::optional;
use crate::text::push_chars;
use crate::text::push_text;
use crate::text::slice_chars;
use crate::text::split_once;
use crate::text::strings;
use crate::text::texts;
use crate::text::trim_chars;
use crate::text::trimmed;

verus! {

/// A header: its key and its value.
pub type Header = (Seq<char>, Seq<char>);

/// The views of a sequence of headers held as character vectors.
pub open spec fn headers_of(v: Seq<(Vec<char>, Vec<char>)>) -> Seq<Header> {
    v.map_values(|h: (Vec<char>, Vec<char>)| (h.0@, h.1@))
}

/// A value as a header states it: folded, that is with a space after each
/// of its line feeds, so that every line after the first continues the
/// header.
pub open spec fn folded(value: Seq<char>) -> Seq<char>
    decreases value.len(),
{
    if value.len() == 0 {
        Seq::empty()
    } else if value.last() == '\n' {
        folded(value.drop_last()) + seq!['\n', ' ']
    } else {
        folded(value.drop_last()).push(value.last())
    }
}

/// The lines that state a header, without the line feed at their end: the
/// key, a colon, a space and the folded value.
pub open spec fn header_line(key: Seq<char>, value: Seq<char>) -> Seq<char> {
    key + seq![':', ' '] + folded(value)
}

/// The text of a header block: one line per header, each ended by a line feed.
pub open spec fn header_text(headers: Seq<Header>) -> Seq<char>
    decreases headers.len(),
{
    if headers.len() == 0 {
        Seq::empty()
    } else {
        header_text(headers.drop_last()) + header_line(headers.last().0, headers.last().1)
            + seq!['\n']
    }
}

/// The block of a header that may be absent.
pub open spec fn single(key: Seq<char>, value: Option<Seq<char>>) -> Seq<Header> {
    match value {
        Some(v) => seq![(key, v)],
        None => Seq::empty(),
    }
}

/// The block of a header that may be repeated: one header per value.
pub open spec fn multi(key: Seq<char>, values: Seq<Seq<char>>) -> Seq<Header> {
    values.map_values(|v: Seq<char>| (key, v))
}

/// Headers that the file format does not know: each key with its values.
pub type Extras = Seq<(Seq<char>, Seq<Seq<char>>)>;

/// The views of the unknown headers.
pub open spec fn extras_of(v: Seq<(String, Vec<String>)>) -> Extras {
    v.map_values(|e: (String, Vec<String>)| (e.0@, strings(e.1@)))
}

/// The keys of the unknown headers.
pub open spec fn extra_keys(es: Extras) -> Seq<Seq<char>> {
    es.map_values(|e: (Seq<char>, Seq<Seq<char>>)| e.0)
}

/// The block of the unknown headers: key by key, each with all its values.
pub open spec fn extra_headers(es: Extras) -> Seq<Header>
    decreases es.len(),
{
    if es.len() == 0 {
        Seq::empty()
    } else {
        extra_headers(es.drop_last()) + multi(es.last().0, es.last().1)
    }
}

/// The unknown headers after one more: the value joins the first entry that
/// has the key, or a new entry at the end.
pub open spec fn with_extra(es: Extras, key: Seq<char>, value: Seq<char>) -> Extras {
    let i = index_of(extra_keys(es), key) as int;
    if i < es.len() {
        es.update(i, (key, es[i].1.push(value)))
    } else {
        es.push((key, seq![value]))
    }
}

/// The unknown headers with the values of one key set anew: they take the
/// place of the values that the key had, or the key goes to the end.
pub open spec fn with_entry(es: Extras, key: Seq<char>, values: Seq<Seq<char>>) -> Extras {
    let i = index_of(extra_keys(es), key) as int;
    if i < es.len() {
        es.update(i, (key, values))
    } else {
        es.push((key, values))
    }
}

/// The header that a line states: what stands before its first colon and what
/// stands after, both trimmed. A line without a colon states none.
pub open spec fn split_header(line: Seq<char>) -> Option<Header> {
    match split_once(line, ':') {
        Some((k, v)) => Some((trimmed(k), trimmed(v))),
        None => None,
    }
}

/// Whether a line continues the header before it.
pub open spec fn is_continuation(line: Seq<char>) -> bool {
    line.len() > 0 && (line[0] == ' ' || line[0] == '\t')
}

/// The header that is still open, closed: its value is trimmed once more.
pub open spec fn closed(pending: Option<Header>) -> Seq<Header> {
    match pending {
        Some((k, v)) => seq![(k, trimmed(v))],
        None => Seq::empty(),
    }
}

/// The headers of a block whose lines may be folded: a line that begins with a
/// space or a tab adds a line feed and its trimmed text to the value of the
/// header before it, and is dropped where no header is open. `pending` is the
/// header that is open before the first line.
pub open spec fn folded_headers(lines: Seq<Seq<char>>, pending: Option<Header>) -> Seq<Header>
    decreases lines.len(),
{
    if lines.len() == 0 {
        closed(pending)
    } else {
        let line = lines[0];
        let rest = lines.drop_first();
        if is_continuation(line) {
            match pending {
                Some((k, v)) => folded_headers(rest, Some((k, v + seq!['\n'] + trimmed(line)))),
                None => folded_headers(rest, None),
            }
        } else {
            closed(pending) + folded_headers(rest, split_header(line))
        }
    }
}

/// The headers of a block without folding: each line is trimmed, empty lines
/// and lines without a colon are dropped.
pub open spec fn plain_headers(lines: Seq<Seq<char>>) -> Seq<Header>
    decreases lines.len(),
{
    if lines.len() == 0 {
        Seq::empty()
    } else {
        let rest = plain_headers(lines.drop_first());
        match split_header(trimmed(lines[0])) {
            Some(h) => seq![h] + rest,
            None => rest,
        }
    }
}

/// The header that `line` states, if any.
pub(crate) fn read_header(line: &Vec<char>) -> (r: Option<(Vec<char>, Vec<char>)>)
    ensures
        match r {
            Some(h) => split_header(line@) == Some((h.0@, h.1@)),
            None => split_header(line@) is None,
        },
{
    let at = find_char(line, 0, ':');
    assert(line@.skip(0) == line@);
    if at < line.len() {
        let key = slice_chars(line, 0, at);
        let value = slice_chars(line, at + 1, line.len());
        assert(line@.subrange(0, at as int) == line@.take(at as int));
        assert(line@.subrange(at + 1, line@.len() as int) == line@.skip(at + 1));
        Some((trim_chars(&key), trim_chars(&value)))
    } else {
        None
    }
}

/// The headers of the first `count` lines, read with folding.
pub(crate) fn read_folded(lines: &Vec<Vec<char>>, count: usize) -> (out: Vec<(Vec<char>, Vec<char>)>)
    requires
        count <= lines@.len(),
    ensures
        headers_of(out@) == folded_headers(texts(lines@).take(count as int), None),
{
    let ghost all = texts(lines@).take(count as int);
    let mut out: Vec<(Vec<char>, Vec<char>)> = Vec::new();
    let mut pending: Option<(Vec<char>, Vec<char>)> = None;
    let mut i: usize = 0;
    assert(all.skip(0) == all);
    assert(headers_of(out@) == Seq::<Header>::empty());
    while i < count
        invariant
            i <= count <= lines@.len(),
            all == texts(lines@).take(count as int),
            folded_headers(all, None) == headers_of(out@) + folded_headers(
                all.skip(i as int),
                pending_view(pending),
            ),
        decreases count - i,
    {
        let line = &lines[i];
        let ghost rest = all.skip(i as int);
        let ghost before = headers_of(out@);
        let ghost open = pending_view(pending);
        let ghost tail = all.skip(i + 1);
        assert(rest[0] == line@);
        assert(rest.drop_first() == tail);
        if line.len() > 0 && (line[0] == ' ' || line[0] == '\t') {
            match pending {
                Some((key, mut value)) => {
                    let ghost v0 = value@;
                    value.push('\n');
                    let piece = trim_chars(line);
                    push_chars(&mut value, &piece);
                    assert(value@ == v0 + seq!['\n'] + trimmed(line@));
                    pending = Some((key, value));
                },
                None => {
                    pending = None;
                },
            }
            assert(folded_headers(rest, open) == folded_headers(tail, pending_view(pending)));
        } else {
            match pending {
                Some((key, value)) => {
                    let value = trim_chars(&value);
                    out.push((key, value));
                    assert(headers_of(out@) == before.push((key@, value@)));
                },
                None => {},
            }
            pending = read_header(line);
            assert(pending_view(pending) == split_header(line@));
            assert(headers_of(out@) == before + closed(open));
            let ghost after = folded_headers(tail, pending_view(pending));
            assert(folded_headers(rest, open) == closed(open) + after);
            assert(before + (closed(open) + after) == (before + closed(open)) + after);
        }
        i += 1;
    }
    assert(all.skip(count as int) == Seq::<Seq<char>>::empty());
    let ghost before = headers_of(out@);
    match pending {
        Some((key, value)) => {
            let value = trim_chars(&value);
            out.push((key, value));
            assert(headers_of(out@) == before.push((key@, value@)));
        },
        None => {},
    }
    out
}

/// The view of a header that is still open.
pub open spec fn pending_view(pending: Option<(Vec<char>, Vec<char>)>) -> Option<Header> {
    match pending {
        Some(h) => Some((h.0@, h.1@)),
        None => None,
    }
}

/// The headers of `lines`, read without folding.
pub(crate) fn read_plain(lines: &Vec<Vec<char>>) -> (out: Vec<(Vec<char>, Vec<char>)>)
    ensures
        headers_of(out@) == plain_headers(texts(lines@)),
{
    let ghost all = texts(lines@);
    let mut out: Vec<(Vec<char>, Vec<char>)> = Vec::new();
    let mut i: usize = 0;
    assert(all.skip(0) == all);
    assert(headers_of(out@) == Seq::<Header>::empty());
    while i < lines.len()
        invariant
            i <= lines@.len(),
            all == texts(lines@),
            plain_headers(all) == headers_of(out@) + plain_headers(all.skip(i as int)),
        decreases lines@.len() - i,
    {
        let ghost rest = all.skip(i as int);
        let ghost before = headers_of(out@);
        assert(rest[0] == lines@[i as int]@);
        assert(rest.drop_first() == all.skip(i + 1));
        let line = trim_chars(&lines[i]);
        match read_header(&line) {
            Some(h) => {
                out.push(h);
                assert(headers_of(out@) == before.push((h.0@, h.1@)));
            },
            None => {},
        }
        i += 1;
    }
    assert(all.skip(lines@.len() as int) == Seq::<Seq<char>>::empty());
    out
}

/// Appends the lines of one header to `out`.
pub(crate) fn write_header(out: &mut String, key: &str, value: &str)
    ensures
        final(out)@ == old(out)@ + header_line(key@, value@) + seq!['\n'],
{
    push_text(out, key);
    out.push(':');
    out.push(' ');
    let ghost start = out@;
    let chars = crate::text::chars_of(value);
    let mut i: usize = 0;
    assert(start + folded(chars@.take(0)) == start);
    while i < chars.len()
        invariant
            i <= chars@.len(),
            chars@ == value@,
            out@ == start + folded(chars@.take(i as int)),
        decreases chars@.len() - i,
    {
        let c = chars[i];
        assert(chars@.take(i + 1).drop_last() == chars@.take(i as int));
        assert(chars@.take(i + 1).last() == c);
        out.push(c);
        if c == '\n' {
            out.push(' ');
            assert(out@ == start + (folded(chars@.take(i as int)) + seq!['\n', ' ']));
        } else {
            assert(out@ == start + folded(chars@.take(i as int)).push(c));
        }
        i += 1;
    }
    assert(chars@.take(chars@.len() as int) == chars@);
    out.push('\n');
    assert(final(out)@ == old(out)@ + header_line(key@, value@) + seq!['\n']);
}

/// Records one more unknown header.
pub(crate) fn push_extra(extras: &mut Vec<(String, Vec<String>)>, key: String, value: String)
    ensures
        extras_of(final(extras)@) == with_extra(extras_of(old(extras)@), key@, value@),
{
    let ghost es = extras_of(extras@);
    let i = find_extra(extras, &key);
    if i < extras.len() {
        let entry = extras.remove(i);
        let mut values = entry.1;
        push_string(&mut values, value);
        extras.insert(i, (entry.0, values));
        proof {
            crate::text::lemma_index_of(extra_keys(es), key@);
            assert(extra_keys(es)[i as int] == key@);
        }
        assert(extras_of(extras@) == es.update(i as int, (key@, es[i as int].1.push(value@))));
    } else {
        let mut values: Vec<String> = Vec::new();
        push_string(&mut values, value);
        extras.push((key, values));
        assert(strings(values@) == seq![value@]);
        assert(extras_of(extras@) == es.push((key@, seq![value@])));
    }
}

/// The position of the entry with that key, or the number of entries.
pub(crate) fn find_extra(extras: &Vec<(String, Vec<String>)>, key: &String) -> (i: usize)
    ensures
        i == index_of(extra_keys(extras_of(extras@)), key@),
        i <= extras@.len(),
{
    let ghost es = extras_of(extras@);
    let mut i: usize = 0;
    while i < extras.len() && !(extras[i].0 == *key)
        invariant
            i <= extras@.len(),
            es == extras_of(extras@),
            forall|j: int| 0 <= j < i ==> extra_keys(es)[j] != key@,
        decreases extras@.len() - i,
    {
        i += 1;
    }
    proof {
        lemma_index_of_is(extra_keys(es), key@, i as int);
    }
    i
}

/// Sets the values of one key of the unknown headers anew.
pub(crate) fn set_extra(extras: &mut Vec<(String, Vec<String>)>, key: String, values: Vec<String>)
    ensures
        extras_of(final(extras)@) == with_entry(extras_of(old(extras)@), key@, strings(values@)),
{
    let ghost es = extras_of(extras@);
    let i = find_extra(extras, &key);
    if i < extras.len() {
        extras.set(i, (key, values));
        assert(extras_of(extras@) == es.update(i as int, (key@, strings(values@))));
    } else {
        extras.push((key, values));
        assert(extras_of(extras@) == es.push((key@, strings(values@))));
    }
}

/// Appends the line of a header that may be absent.
pub(crate) fn write_single(out: &mut String, key: &str, value: &Option<String>)
    ensures
        final(out)@ == old(out)@ + header_text(single(key@, optional(*value))),
{
    match value {
        Some(v) => {
            write_header(out, key, v.as_str());
            proof {
                lemma_header_text_one((key@, v@));
            }
        },
        None => {
            assert(old(out)@ + header_text(Seq::<Header>::empty()) == old(out)@);
        },
    }
}

/// Appends one line per value.
pub(crate) fn write_multi(out: &mut String, key: &str, values: &Vec<String>)
    ensures
        final(out)@ == old(out)@ + header_text(multi(key@, strings(values@))),
{
    let ghost all = strings(values@);
    let mut i: usize = 0;
    assert(multi(key@, all.take(0)) == Seq::<Header>::empty());
    assert(old(out)@ + header_text(Seq::<Header>::empty()) == old(out)@);
    while i < values.len()
        invariant
            i <= values@.len(),
            all == strings(values@),
            out@ == old(out)@ + header_text(multi(key@, all.take(i as int))),
        decreases values@.len() - i,
    {
        let ghost done = multi(key@, all.take(i as int));
        let ghost next = multi(key@, all.take(i + 1));
        write_header(out, key, values[i].as_str());
        assert(next.drop_last() == done);
        assert(next.last() == (key@, values@[i as int]@));
        i += 1;
    }
    assert(all.take(values@.len() as int) == all);
}

/// Appends the lines of the unknown headers.
pub(crate) fn write_extras(out: &mut String, extras: &Vec<(String, Vec<String>)>)
    ensures
        final(out)@ == old(out)@ + header_text(extra_headers(extras_of(extras@))),
{
    let ghost all = extras_of(extras@);
    let mut i: usize = 0;
    assert(extra_headers(all.take(0)) == Seq::<Header>::empty());
    assert(old(out)@ + header_text(Seq::<Header>::empty()) == old(out)@);
    while i < extras.len()
        invariant
            i <= extras@.len(),
            all == extras_of(extras@),
            out@ == old(out)@ + header_text(extra_headers(all.take(i as int))),
        decreases extras@.len() - i,
    {
        let ghost done = extra_headers(all.take(i as int));
        let ghost entry = multi(all[i as int].0, all[i as int].1);
        write_multi(out, extras[i].0.as_str(), &extras[i].1);
        proof {
            assert(all.take(i + 1).drop_last() == all.take(i as int));
            assert(all.take(i + 1).last() == all[i as int]);
            lemma_header_text_concat(done, entry);
        }
        i += 1;
    }
    assert(all.take(extras@.len() as int) == all);
}

/// The text of a block of one header is its line.
pub proof fn lemma_header_text_one(h: Header)
    ensures
        header_text(seq![h]) == header_line(h.0, h.1) + seq!['\n'],
{
    reveal_with_fuel(header_text, 2);
    assert(seq![h].drop_last() == Seq::<Header>::empty());
}

/// The text of two blocks, one after the other, is the text of both.
pub proof fn lemma_header_text_concat(a: Seq<Header>, b: Seq<Header>)
    ensures
        header_text(a + b) == header_text(a) + header_text(b),
    decreases b.len(),
{
    if b.len() == 0 {
        assert(a + b == a);
    } else {
        lemma_header_text_concat(a, b.drop_last());
        assert((a + b).drop_last() == a + b.drop_last());
        assert((a + b).last() == b.last());
    }
}

} // verus!
