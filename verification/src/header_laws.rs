//! Laws of header blocks: a block that is written from clean headers is read
//! back as the same headers.

use vstd::prelude::*;
use crate::headers::closed;
use crate::headers::extra_headers;
use crate::headers::extra_keys;
use crate::headers::multi;
use crate::headers::with_extra;
use crate::headers::Extras;
use crate::headers::folded;
use crate::headers::folded_headers;
use crate::headers::header_line;
use crate::headers::header_text;
use crate::headers::is_continuation;
use crate::headers::lemma_header_text_concat;
use crate::headers::lemma_header_text_one;
use crate::headers::plain_headers;
use crate::headers::split_header;
use crate::headers::Header;
use crate::text::index_of;
use crate::text::is_trimmed;
use crate::text::is_whitespace;
use crate::text::lemma_index_of_is;
use crate::text::lines;
use crate::text::skip_leading;
use crate::text::skip_trailing;
use crate::text::split_once;
use crate::text::strip_cr;
use crate::text::trimmed;

verus! {

/// Whether `c` does not occur in `s`.
pub open spec fn lacks(s: Seq<char>, c: char) -> bool {
    forall|i: int| 0 <= i < s.len() ==> #[trigger] s[i] != c
}

/// A key that a header line states as it is: trimmed, on one line, without
/// a colon.
pub open spec fn is_clean_key(k: Seq<char>) -> bool {
    is_trimmed(k) && lacks(k, '\n') && lacks(k, ':')
}

/// A value that a header line states as it is: trimmed and on one line.
pub open spec fn is_clean_value(v: Seq<char>) -> bool {
    is_trimmed(v) && lacks(v, '\n')
}

/// Whether every header has a clean key and a clean value.
pub open spec fn all_clean(headers: Seq<Header>) -> bool {
    forall|i: int|
        0 <= i < headers.len() ==> is_clean_key((#[trigger] headers[i]).0) && is_clean_value(
            headers[i].1,
        )
}

/// The lines of a block, without their line feeds.
pub open spec fn header_lines(headers: Seq<Header>) -> Seq<Seq<char>> {
    headers.map_values(|h: Header| header_line(h.0, h.1))
}

/// A value without line feed is its own folded form.
pub proof fn lemma_folded_plain(v: Seq<char>)
    requires
        lacks(v, '\n'),
    ensures
        folded(v) == v,
    decreases v.len(),
{
    if v.len() > 0 {
        let init = v.drop_last();
        assert forall|i: int| 0 <= i < init.len() implies #[trigger] init[i] != '\n' by {
            assert(init[i] == v[i]);
        }
        lemma_folded_plain(init);
        assert(v[v.len() - 1] != '\n');
        assert(init.push(v.last()) == v);
    }
}

/// The folded form of two texts in a row is the two folded forms in a row.
pub proof fn lemma_folded_concat(a: Seq<char>, b: Seq<char>)
    ensures
        folded(a + b) == folded(a) + folded(b),
    decreases b.len(),
{
    if b.len() == 0 {
        assert(a + b == a);
        assert(folded(a) + folded(b) == folded(a));
    } else {
        lemma_folded_concat(a, b.drop_last());
        assert((a + b).drop_last() == a + b.drop_last());
        assert((a + b).last() == b.last());
        if b.last() == '\n' {
            assert(folded(a) + folded(b.drop_last()) + seq!['\n', ' '] == folded(a) + (folded(
                b.drop_last(),
            ) + seq!['\n', ' ']));
        } else {
            assert((folded(a) + folded(b.drop_last())).push(b.last()) == folded(a) + folded(
                b.drop_last(),
            ).push(b.last()));
        }
    }
}

/// Trimming a trimmed text changes nothing.
pub proof fn lemma_trimmed_fixed(s: Seq<char>)
    requires
        is_trimmed(s),
    ensures
        trimmed(s) == s,
{
}

/// A text followed by a line feed is a line of its own.
pub proof fn lemma_lines_first(line: Seq<char>, rest: Seq<char>)
    requires
        lacks(line, '\n'),
    ensures
        lines(line + seq!['\n'] + rest) == seq![strip_cr(line)] + lines(rest),
{
    let s = line + seq!['\n'] + rest;
    assert forall|j: int| 0 <= j < line.len() implies s[j] != '\n' by {
        assert(s[j] == line[j]);
    }
    assert(s[line.len() as int] == '\n');
    lemma_index_of_is(s, '\n', line.len() as int);
    assert(s.take(line.len() as int) == line);
    assert(s.skip(line.len() as int + 1) == rest);
}

/// The line of a clean header has no line feed, is not empty, does not end
/// in a carriage return and continues no header.
pub proof fn lemma_header_line_shape(k: Seq<char>, v: Seq<char>)
    requires
        is_clean_key(k),
        is_clean_value(v),
    ensures
        lacks(header_line(k, v), '\n'),
        header_line(k, v).len() > 0,
        strip_cr(header_line(k, v)) == header_line(k, v),
        !is_continuation(header_line(k, v)),
        !is_whitespace(header_line(k, v)[0]),
        header_line(k, v) == k + seq![':', ' '] + v,
{
    lemma_folded_plain(v);
    let line = header_line(k, v);
    assert forall|i: int| 0 <= i < line.len() implies #[trigger] line[i] != '\n' by {
        if i < k.len() {
            assert(line[i] == k[i]);
        } else if i >= k.len() + 2 {
            assert(line[i] == v[i - k.len() - 2]);
        }
    }
    if v.len() > 0 {
        assert(line.last() == v.last());
    } else {
        assert(line.last() == ' ');
    }
    if k.len() > 0 {
        assert(line[0] == k[0]);
    } else {
        assert(line[0] == ':');
    }
}

/// The line of a clean header states that header.
pub proof fn lemma_split_header_line(k: Seq<char>, v: Seq<char>)
    requires
        is_clean_key(k),
        is_clean_value(v),
    ensures
        split_header(header_line(k, v)) == Some((k, v)),
{
    lemma_folded_plain(v);
    let line = header_line(k, v);
    assert forall|j: int| 0 <= j < k.len() implies line[j] != ':' by {
        assert(line[j] == k[j]);
    }
    assert(line[k.len() as int] == ':');
    lemma_index_of_is(line, ':', k.len() as int);
    assert(line.take(k.len() as int) == k);
    let after = line.skip(k.len() as int + 1);
    assert(after == seq![' '] + v);
    assert(after.drop_first() == v);
    assert(skip_leading(after) == skip_leading(v));
    lemma_trimmed_fixed(k);
    lemma_trimmed_fixed(v);
}

/// The trimmed line of a clean header states that header.
pub proof fn lemma_split_trimmed_header_line(k: Seq<char>, v: Seq<char>)
    requires
        is_clean_key(k),
        is_clean_value(v),
    ensures
        split_header(trimmed(header_line(k, v))) == Some((k, v)),
{
    let line = header_line(k, v);
    lemma_header_line_shape(k, v);
    if v.len() > 0 {
        assert(line.last() == v.last());
        lemma_trimmed_fixed(line);
        lemma_split_header_line(k, v);
    } else {
        let short = k + seq![':'];
        assert(line.drop_last() == short);
        assert(line.last() == ' ');
        assert(short.last() == ':');
        assert(skip_leading(line) == line);
        assert(skip_trailing(line) == skip_trailing(short));
        assert(skip_trailing(short) == short);
        assert(trimmed(line) == short);
        assert forall|j: int| 0 <= j < k.len() implies short[j] != ':' by {
            assert(short[j] == k[j]);
        }
        lemma_index_of_is(short, ':', k.len() as int);
        assert(short.take(k.len() as int) == k);
        assert(short.skip(k.len() as int + 1) == Seq::<char>::empty());
        lemma_trimmed_fixed(k);
        assert(v == Seq::<char>::empty());
    }
}

/// Splitting a block from its first header.
pub proof fn lemma_header_text_first(headers: Seq<Header>)
    requires
        headers.len() > 0,
    ensures
        header_text(headers) == header_line(headers[0].0, headers[0].1) + seq!['\n'] + header_text(
            headers.drop_first(),
        ),
{
    assert(headers == seq![headers[0]] + headers.drop_first());
    lemma_header_text_concat(seq![headers[0]], headers.drop_first());
    lemma_header_text_one(headers[0]);
}

/// The lines of the text of a clean block, followed by any text, are the
/// lines of the block and then the lines of that text.
pub proof fn lemma_lines_of_header_text(headers: Seq<Header>, tail: Seq<char>)
    requires
        all_clean(headers),
    ensures
        lines(header_text(headers) + tail) == header_lines(headers) + lines(tail),
    decreases headers.len(),
{
    if headers.len() == 0 {
        assert(header_text(headers) + tail == tail);
        assert(header_lines(headers) + lines(tail) == lines(tail));
    } else {
        let h = headers[0];
        let rest = headers.drop_first();
        let line = header_line(h.0, h.1);
        lemma_header_text_first(headers);
        assert(all_clean(rest)) by {
            assert forall|i: int| 0 <= i < rest.len() implies is_clean_key((#[trigger] rest[i]).0)
                && is_clean_value(rest[i].1) by {
                assert(rest[i] == headers[i + 1]);
            }
        }
        lemma_lines_of_header_text(rest, tail);
        lemma_header_line_shape(h.0, h.1);
        assert(header_text(headers) + tail == line + seq!['\n'] + (header_text(rest) + tail));
        lemma_lines_first(line, header_text(rest) + tail);
        assert(header_lines(headers) == seq![line] + header_lines(rest));
        assert(seq![line] + (header_lines(rest) + lines(tail)) == header_lines(headers) + lines(
            tail,
        ));
    }
}

/// Read without folding, the lines of a clean block state its headers.
pub proof fn lemma_plain_clean(headers: Seq<Header>)
    requires
        all_clean(headers),
    ensures
        plain_headers(header_lines(headers)) == headers,
    decreases headers.len(),
{
    let ls = header_lines(headers);
    if headers.len() == 0 {
        assert(plain_headers(ls) == headers);
    } else {
        let h = headers[0];
        let rest = headers.drop_first();
        assert(all_clean(rest)) by {
            assert forall|i: int| 0 <= i < rest.len() implies is_clean_key((#[trigger] rest[i]).0)
                && is_clean_value(rest[i].1) by {
                assert(rest[i] == headers[i + 1]);
            }
        }
        lemma_split_trimmed_header_line(h.0, h.1);
        lemma_plain_clean(rest);
        assert(ls[0] == header_line(h.0, h.1));
        assert(ls.drop_first() == header_lines(rest));
        assert(seq![h] + rest == headers);
    }
}

/// The unknown headers after a block of headers, taken in order.
pub open spec fn with_extras(es: Extras, headers: Seq<Header>) -> Extras
    decreases headers.len(),
{
    if headers.len() == 0 {
        es
    } else {
        with_extras(with_extra(es, headers[0].0, headers[0].1), headers.drop_first())
    }
}

/// Whether no key stands twice.
pub open spec fn distinct_keys(es: Extras) -> bool {
    forall|i: int, j: int| 0 <= i < j < es.len() ==> (#[trigger] es[i]).0 != (#[trigger] es[j]).0
}

/// Whether every key has a value.
pub open spec fn no_empty_entry(es: Extras) -> bool {
    forall|i: int| 0 <= i < es.len() ==> (#[trigger] es[i]).1.len() > 0
}

/// Whether every key and every value is clean.
pub open spec fn clean_extras(es: Extras) -> bool {
    forall|i: int|
        0 <= i < es.len() ==> is_clean_key((#[trigger] es[i]).0) && forall|j: int|
            0 <= j < es[i].1.len() ==> is_clean_value(#[trigger] es[i].1[j])
}

/// Taking two blocks in turn is taking them as one.
pub proof fn lemma_with_extras_concat(es: Extras, a: Seq<Header>, b: Seq<Header>)
    ensures
        with_extras(es, a + b) == with_extras(with_extras(es, a), b),
    decreases a.len(),
{
    if a.len() == 0 {
        assert(a + b == b);
    } else {
        assert((a + b)[0] == a[0]);
        assert((a + b).drop_first() == a.drop_first() + b);
        lemma_with_extras_concat(with_extra(es, a[0].0, a[0].1), a.drop_first(), b);
    }
}

/// The values of a key that is known already join its entry.
pub proof fn lemma_with_extras_same_key(es: Extras, k: Seq<char>, vals: Seq<Seq<char>>, i: int)
    requires
        0 <= i < es.len(),
        index_of(extra_keys(es), k) == i,
    ensures
        with_extras(es, multi(k, vals)) == es.update(i, (k, es[i].1 + vals)),
    decreases vals.len(),
{
    crate::text::lemma_index_of(extra_keys(es), k);
    assert(extra_keys(es)[i] == k);
    assert(es[i].0 == k);
    let hs = multi(k, vals);
    if vals.len() == 0 {
        assert(es[i].1 + vals == es[i].1);
        assert(es.update(i, (k, es[i].1)) == es);
    } else {
        let next = with_extra(es, k, vals[0]);
        assert(hs[0] == (k, vals[0]));
        assert(hs.drop_first() == multi(k, vals.drop_first()));
        assert(next == es.update(i, (k, es[i].1.push(vals[0]))));
        assert(extra_keys(next) == extra_keys(es));
        lemma_with_extras_same_key(next, k, vals.drop_first(), i);
        assert(es[i].1.push(vals[0]) + vals.drop_first() == es[i].1 + vals);
        assert(next.update(i, (k, next[i].1 + vals.drop_first())) == es.update(
            i,
            (k, es[i].1 + vals),
        ));
    }
}

/// The values of a new key make a new entry at the end.
pub proof fn lemma_with_extras_new_key(es: Extras, k: Seq<char>, vals: Seq<Seq<char>>)
    requires
        forall|j: int| 0 <= j < es.len() ==> (#[trigger] es[j]).0 != k,
        vals.len() > 0,
    ensures
        with_extras(es, multi(k, vals)) == es.push((k, vals)),
{
    let keys = extra_keys(es);
    assert forall|j: int| 0 <= j < keys.len() implies keys[j] != k by {
        assert(keys[j] == es[j].0);
    }
    lemma_index_of_is(keys, k, es.len() as int);
    let hs = multi(k, vals);
    let next = with_extra(es, k, vals[0]);
    assert(next == es.push((k, seq![vals[0]])));
    assert(hs[0] == (k, vals[0]));
    assert(hs.drop_first() == multi(k, vals.drop_first()));
    let next_keys = extra_keys(next);
    assert forall|j: int| 0 <= j < es.len() implies next_keys[j] != k by {
        assert(next_keys[j] == es[j].0);
    }
    assert(next_keys[es.len() as int] == k);
    lemma_index_of_is(next_keys, k, es.len() as int);
    lemma_with_extras_same_key(next, k, vals.drop_first(), es.len() as int);
    assert(seq![vals[0]] + vals.drop_first() == vals);
    assert(next.update(es.len() as int, (k, next[es.len() as int].1 + vals.drop_first()))
        == es.push((k, vals)));
}

/// The block of unknown headers, taken in order after unknown headers with
/// other keys, gives back the unknown headers it was written from.
pub proof fn lemma_with_extras_all(before: Extras, es: Extras)
    requires
        distinct_keys(before + es),
        no_empty_entry(es),
    ensures
        with_extras(before, extra_headers(es)) == before + es,
    decreases es.len(),
{
    if es.len() == 0 {
        assert(before + es == before);
    } else {
        let init = es.drop_last();
        let last = es.last();
        let all = before + es;
        assert(distinct_keys(before + init)) by {
            assert forall|i: int, j: int| 0 <= i < j < (before + init).len() implies (#[trigger] (
                before + init)[i]).0 != (#[trigger] (before + init)[j]).0 by {
                assert((before + init)[i] == all[i]);
                assert((before + init)[j] == all[j]);
            }
        }
        assert(no_empty_entry(init)) by {
            assert forall|i: int| 0 <= i < init.len() implies (#[trigger] init[i]).1.len() > 0 by {
                assert(init[i] == es[i]);
            }
        }
        lemma_with_extras_all(before, init);
        lemma_with_extras_concat(before, extra_headers(init), multi(last.0, last.1));
        let mid = before + init;
        assert forall|j: int| 0 <= j < mid.len() implies (#[trigger] mid[j]).0 != last.0 by {
            assert(mid[j] == all[j]);
            assert(all[all.len() - 1] == last);
        }
        lemma_with_extras_new_key(mid, last.0, last.1);
        assert(mid.push(last) == before + es);
    }
}

/// Two clean blocks make a clean block.
pub proof fn lemma_all_clean_concat(a: Seq<Header>, b: Seq<Header>)
    requires
        all_clean(a),
        all_clean(b),
    ensures
        all_clean(a + b),
{
    assert forall|i: int| 0 <= i < (a + b).len() implies is_clean_key((#[trigger] (a + b)[i]).0)
        && is_clean_value((a + b)[i].1) by {
        if i < a.len() {
            assert((a + b)[i] == a[i]);
        } else {
            assert((a + b)[i] == b[i - a.len()]);
        }
    }
}

/// Clean values under a clean key make a clean block.
pub proof fn lemma_all_clean_multi(k: Seq<char>, vals: Seq<Seq<char>>)
    requires
        is_clean_key(k),
        forall|j: int| 0 <= j < vals.len() ==> is_clean_value(#[trigger] vals[j]),
    ensures
        all_clean(multi(k, vals)),
{
    assert forall|i: int| 0 <= i < multi(k, vals).len() implies is_clean_key(
        (#[trigger] multi(k, vals)[i]).0,
    ) && is_clean_value(multi(k, vals)[i].1) by {
        assert(multi(k, vals)[i] == (k, vals[i]));
    }
}

/// Whether every header of a block has a key with the property `unknown`.
pub open spec fn all_keys(headers: Seq<Header>, unknown: spec_fn(Seq<char>) -> bool) -> bool {
    forall|i: int| 0 <= i < headers.len() ==> unknown((#[trigger] headers[i]).0)
}

/// The block of clean unknown headers is clean, and its keys are theirs.
pub proof fn lemma_extra_headers_shape(es: Extras, unknown: spec_fn(Seq<char>) -> bool)
    requires
        clean_extras(es),
        forall|i: int| 0 <= i < es.len() ==> unknown((#[trigger] es[i]).0),
    ensures
        all_clean(extra_headers(es)),
        all_keys(extra_headers(es), unknown),
    decreases es.len(),
{
    if es.len() > 0 {
        let init = es.drop_last();
        let last = es.last();
        assert(clean_extras(init)) by {
            assert forall|i: int| 0 <= i < init.len() implies is_clean_key((#[trigger] init[i]).0)
                && forall|j: int|
                0 <= j < init[i].1.len() ==> is_clean_value(#[trigger] init[i].1[j]) by {
                assert(init[i] == es[i]);
            }
        }
        assert forall|i: int| 0 <= i < init.len() implies unknown((#[trigger] init[i]).0) by {
            assert(init[i] == es[i]);
        }
        lemma_extra_headers_shape(init, unknown);
        assert(es[es.len() - 1] == last);
        lemma_all_clean_multi(last.0, last.1);
        lemma_all_clean_concat(extra_headers(init), multi(last.0, last.1));
        let all = extra_headers(es);
        assert forall|i: int| 0 <= i < all.len() implies unknown((#[trigger] all[i]).0) by {
            if i < extra_headers(init).len() {
                assert(all[i] == extra_headers(init)[i]);
            } else {
                assert(all[i] == multi(last.0, last.1)[i - extra_headers(init).len()]);
            }
        }
    }
}

/// What is left of a text that lacks a character lacks it too, and what is
/// left after leading whitespace does not begin with whitespace.
pub proof fn lemma_skip_leading(s: Seq<char>, c: char)
    ensures
        lacks(s, c) ==> lacks(skip_leading(s), c),
        skip_leading(s).len() > 0 ==> !is_whitespace(skip_leading(s)[0]),
    decreases s.len(),
{
    if s.len() > 0 && is_whitespace(s[0]) {
        let t = s.drop_first();
        lemma_skip_leading(t, c);
        if lacks(s, c) {
            assert forall|i: int| 0 <= i < t.len() implies #[trigger] t[i] != c by {
                assert(t[i] == s[i + 1]);
            }
        }
    }
}

/// What is left without trailing whitespace lacks what the text lacks, does
/// not end with whitespace, and begins as the text does.
pub proof fn lemma_skip_trailing(s: Seq<char>, c: char)
    ensures
        lacks(s, c) ==> lacks(skip_trailing(s), c),
        skip_trailing(s).len() > 0 ==> !is_whitespace(skip_trailing(s).last()) && skip_trailing(
            s,
        )[0] == s[0],
    decreases s.len(),
{
    if s.len() > 0 && is_whitespace(s.last()) {
        let t = s.drop_last();
        lemma_skip_trailing(t, c);
        if lacks(s, c) {
            assert forall|i: int| 0 <= i < t.len() implies #[trigger] t[i] != c by {
                assert(t[i] == s[i]);
            }
        }
        if skip_trailing(t).len() > 0 {
            assert(t[0] == s[0]);
        }
    }
}

/// A trimmed text is trimmed and lacks what the text lacks.
pub proof fn lemma_trimmed(s: Seq<char>, c: char)
    ensures
        is_trimmed(trimmed(s)),
        lacks(s, c) ==> lacks(trimmed(s), c),
{
    lemma_skip_leading(s, c);
    lemma_skip_trailing(skip_leading(s), c);
}

/// No line holds a line feed.
pub proof fn lemma_lines_lack_line_feed(s: Seq<char>)
    ensures
        forall|i: int| 0 <= i < lines(s).len() ==> lacks(#[trigger] lines(s)[i], '\n'),
    decreases s.len(),
{
    if s.len() > 0 {
        crate::text::lemma_index_of(s, '\n');
        let i = index_of(s, '\n') as int;
        if i >= s.len() {
            assert(lines(s) == seq![s]);
            assert forall|k: int| 0 <= k < lines(s).len() implies lacks(
                #[trigger] lines(s)[k],
                '\n',
            ) by {
                assert(lines(s)[k] == s);
            }
        } else {
            let first = strip_cr(s.take(i));
            let rest = lines(s.skip(i + 1));
            lemma_lines_lack_line_feed(s.skip(i + 1));
            assert(lacks(s.take(i), '\n')) by {
                assert forall|j: int| 0 <= j < s.take(i).len() implies #[trigger] s.take(i)[j]
                    != '\n' by {
                    assert(s.take(i)[j] == s[j]);
                }
            }
            assert(lacks(first, '\n')) by {
                assert forall|j: int| 0 <= j < first.len() implies #[trigger] first[j] != '\n' by {
                    assert(first[j] == s.take(i)[j]);
                }
            }
            assert forall|k: int| 0 <= k < lines(s).len() implies lacks(
                #[trigger] lines(s)[k],
                '\n',
            ) by {
                if k == 0 {
                    assert(lines(s)[k] == first);
                } else {
                    assert(lines(s)[k] == rest[k - 1]);
                }
            }
        }
    }
}

/// The header that a line without line feed states is clean.
pub proof fn lemma_split_header_clean(line: Seq<char>)
    requires
        lacks(line, '\n'),
    ensures
        split_header(line) matches Some(h) ==> is_clean_key(h.0) && is_clean_value(h.1),
{
    crate::text::lemma_index_of(line, ':');
    let i = index_of(line, ':') as int;
    if i < line.len() {
        let before = line.take(i);
        let after = line.skip(i + 1);
        assert(lacks(before, ':')) by {
            assert forall|j: int| 0 <= j < before.len() implies #[trigger] before[j] != ':' by {
                assert(before[j] == line[j]);
            }
        }
        assert(lacks(before, '\n')) by {
            assert forall|j: int| 0 <= j < before.len() implies #[trigger] before[j] != '\n' by {
                assert(before[j] == line[j]);
            }
        }
        assert(lacks(after, '\n')) by {
            assert forall|j: int| 0 <= j < after.len() implies #[trigger] after[j] != '\n' by {
                assert(after[j] == line[j + i + 1]);
            }
        }
        lemma_trimmed(before, ':');
        lemma_trimmed(before, '\n');
        lemma_trimmed(after, '\n');
    }
}

/// Read without folding, lines without line feeds state clean headers.
pub proof fn lemma_plain_headers_clean(ls: Seq<Seq<char>>)
    requires
        forall|i: int| 0 <= i < ls.len() ==> lacks(#[trigger] ls[i], '\n'),
    ensures
        all_clean(plain_headers(ls)),
    decreases ls.len(),
{
    if ls.len() > 0 {
        let rest = ls.drop_first();
        assert forall|i: int| 0 <= i < rest.len() implies lacks(#[trigger] rest[i], '\n') by {
            assert(rest[i] == ls[i + 1]);
        }
        lemma_plain_headers_clean(rest);
        assert(lacks(ls[0], '\n'));
        lemma_trimmed(ls[0], '\n');
        lemma_split_header_clean(trimmed(ls[0]));
        match split_header(trimmed(ls[0])) {
            Some(h) => {
                assert(all_clean(seq![h]));
                lemma_all_clean_concat(seq![h], plain_headers(rest));
            },
            None => {},
        }
    }
}

/// Whether the unknown headers are as reading gives them: clean, under
/// distinct keys with the property `unknown`, each with a value.
pub open spec fn tidy_extras(es: Extras, unknown: spec_fn(Seq<char>) -> bool) -> bool {
    &&& clean_extras(es)
    &&& distinct_keys(es)
    &&& no_empty_entry(es)
    &&& forall|i: int| 0 <= i < es.len() ==> unknown((#[trigger] es[i]).0)
}

/// One more clean unknown header leaves the unknown headers tidy.
pub proof fn lemma_with_extra_tidy(
    es: Extras,
    k: Seq<char>,
    v: Seq<char>,
    unknown: spec_fn(Seq<char>) -> bool,
)
    requires
        tidy_extras(es, unknown),
        is_clean_key(k),
        is_clean_value(v),
        unknown(k),
    ensures
        tidy_extras(with_extra(es, k, v), unknown),
{
    let keys = extra_keys(es);
    crate::text::lemma_index_of(keys, k);
    let i = index_of(keys, k) as int;
    let next = with_extra(es, k, v);
    if i < es.len() {
        assert(keys[i] == k);
        assert(es[i].0 == k);
        assert forall|a: int| 0 <= a < next.len() implies is_clean_key((#[trigger] next[a]).0)
            && forall|j: int| 0 <= j < next[a].1.len() ==> is_clean_value(#[trigger] next[a].1[j]) by {
            if a == i {
                assert forall|j: int| 0 <= j < next[a].1.len() implies is_clean_value(
                    #[trigger] next[a].1[j],
                ) by {
                    if j < es[i].1.len() {
                        assert(next[a].1[j] == es[i].1[j]);
                    }
                }
            } else {
                assert(next[a] == es[a]);
            }
        }
        assert forall|a: int, b: int| 0 <= a < b < next.len() implies (#[trigger] next[a]).0 != (
        #[trigger] next[b]).0 by {
            assert(next[a].0 == es[a].0);
            assert(next[b].0 == es[b].0);
        }
        assert forall|a: int| 0 <= a < next.len() implies (#[trigger] next[a]).1.len() > 0 by {
            if a != i {
                assert(next[a] == es[a]);
            }
        }
        assert forall|a: int| 0 <= a < next.len() implies unknown((#[trigger] next[a]).0) by {
            assert(next[a].0 == es[a].0);
        }
    } else {
        assert forall|a: int| 0 <= a < es.len() implies (#[trigger] es[a]).0 != k by {
            assert(keys[a] == es[a].0);
        }
        assert forall|a: int| 0 <= a < next.len() implies is_clean_key((#[trigger] next[a]).0)
            && forall|j: int| 0 <= j < next[a].1.len() ==> is_clean_value(#[trigger] next[a].1[j]) by {
            if a < es.len() {
                assert(next[a] == es[a]);
            }
        }
        assert forall|a: int, b: int| 0 <= a < b < next.len() implies (#[trigger] next[a]).0 != (
        #[trigger] next[b]).0 by {
            assert(next[a] == es[a]);
            if b < es.len() {
                assert(next[b] == es[b]);
            }
        }
        assert forall|a: int| 0 <= a < next.len() implies (#[trigger] next[a]).1.len() > 0 by {
            if a < es.len() {
                assert(next[a] == es[a]);
            }
        }
        assert forall|a: int| 0 <= a < next.len() implies unknown((#[trigger] next[a]).0) by {
            if a < es.len() {
                assert(next[a] == es[a]);
            }
        }
    }
}

/// One more unknown header leaves the keys distinct.
pub proof fn lemma_with_extra_distinct(es: Extras, k: Seq<char>, v: Seq<char>)
    requires
        distinct_keys(es),
    ensures
        distinct_keys(with_extra(es, k, v)),
{
    let keys = extra_keys(es);
    crate::text::lemma_index_of(keys, k);
    let i = index_of(keys, k) as int;
    let next = with_extra(es, k, v);
    if i < es.len() {
        assert(keys[i] == k);
        assert(es[i].0 == k);
        assert forall|a: int, b: int| 0 <= a < b < next.len() implies (#[trigger] next[a]).0 != (
        #[trigger] next[b]).0 by {
            assert(next[a].0 == es[a].0);
            assert(next[b].0 == es[b].0);
        }
    } else {
        assert forall|a: int| 0 <= a < es.len() implies (#[trigger] es[a]).0 != k by {
            assert(keys[a] == es[a].0);
        }
        assert forall|a: int, b: int| 0 <= a < b < next.len() implies (#[trigger] next[a]).0 != (
        #[trigger] next[b]).0 by {
            assert(next[a] == es[a]);
            if b < es.len() {
                assert(next[b] == es[b]);
            }
        }
    }
}

/// The values of one key set anew leave the keys distinct.
pub proof fn lemma_with_entry_distinct(es: Extras, k: Seq<char>, values: Seq<Seq<char>>)
    requires
        distinct_keys(es),
    ensures
        distinct_keys(crate::headers::with_entry(es, k, values)),
{
    let keys = extra_keys(es);
    crate::text::lemma_index_of(keys, k);
    let i = index_of(keys, k) as int;
    let next = crate::headers::with_entry(es, k, values);
    if i < es.len() {
        assert(keys[i] == k);
        assert(es[i].0 == k);
        assert forall|a: int, b: int| 0 <= a < b < next.len() implies (#[trigger] next[a]).0 != (
        #[trigger] next[b]).0 by {
            assert(next[a].0 == es[a].0);
            assert(next[b].0 == es[b].0);
        }
    } else {
        assert forall|a: int| 0 <= a < es.len() implies (#[trigger] es[a]).0 != k by {
            assert(keys[a] == es[a].0);
        }
        assert forall|a: int, b: int| 0 <= a < b < next.len() implies (#[trigger] next[a]).0 != (
        #[trigger] next[b]).0 by {
            assert(next[a] == es[a]);
            if b < es.len() {
                assert(next[b] == es[b]);
            }
        }
    }
}

} // verus!
