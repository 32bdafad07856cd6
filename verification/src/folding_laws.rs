//! Laws of folded headers: a block whose values run over several lines is
//! read back, with folding, as the same headers.

use vstd::prelude::*;
use crate::header_laws::all_keys;
use crate::header_laws::distinct_keys;
use crate::header_laws::is_clean_key;
use crate::header_laws::no_empty_entry;
use crate::header_laws::is_clean_value;
use crate::header_laws::lacks;
use crate::header_laws::lemma_folded_concat;
use crate::header_laws::lemma_folded_plain;
use crate::header_laws::lemma_header_line_shape;
use crate::header_laws::lemma_lines_first;
use crate::header_laws::lemma_split_header_line;
use crate::header_laws::lemma_trimmed;
use crate::header_laws::lemma_trimmed_fixed;
use crate::headers::closed;
use crate::headers::extra_headers;
use crate::headers::extra_keys;
use crate::headers::multi;
use crate::headers::with_extra;
use crate::headers::Extras;
use crate::headers::folded;
use crate::headers::folded_headers;
use crate::headers::header_line;
use crate::headers::header_text;
use crate::headers::is_continuation;
use crate::headers::lemma_header_text_concat;
use crate::headers::lemma_header_text_one;
use crate::headers::split_header;
use crate::headers::Header;
use crate::text::index_of;
use crate::text::is_trimmed;
use crate::text::is_whitespace;
use crate::text::lemma_index_of;
use crate::text::lemma_index_of_is;
use crate::text::lines;
use crate::text::skip_leading;
use crate::text::skip_trailing;
use crate::text::strip_cr;
use crate::text::trimmed;

verus! {

/// Whether every line of a value is trimmed.
pub open spec fn pieces_trimmed(v: Seq<char>) -> bool
    decreases v.len(),
{
    let i = index_of(v, '\n') as int;
    if i >= v.len() {
        is_trimmed(v)
    } else {
        is_trimmed(v.take(i)) && pieces_trimmed(v.skip(i + 1))
    }
}

/// A value as reading with folding gives it: it is trimmed, and so is every
/// line of it.
pub open spec fn is_well_folded(v: Seq<char>) -> bool {
    is_trimmed(v) && pieces_trimmed(v)
}

/// Whether every header has a clean key and a well folded value.
pub open spec fn all_well_folded(headers: Seq<Header>) -> bool {
    forall|i: int|
        0 <= i < headers.len() ==> is_clean_key((#[trigger] headers[i]).0) && is_well_folded(
            headers[i].1,
        )
}

/// The rows that state a value after `prefix`: the first holds the prefix
/// and the first line of the value, each other a space and one more line.
pub open spec fn value_rows(prefix: Seq<char>, v: Seq<char>) -> Seq<Seq<char>>
    decreases v.len(),
{
    let i = index_of(v, '\n') as int;
    if i >= v.len() {
        seq![prefix + v]
    } else {
        seq![prefix + v.take(i)] + value_rows(seq![' '], v.skip(i + 1))
    }
}

/// The rows that state a block of headers.
pub open spec fn header_rows(headers: Seq<Header>) -> Seq<Seq<char>>
    decreases headers.len(),
{
    if headers.len() == 0 {
        Seq::empty()
    } else {
        value_rows(headers[0].0 + seq![':', ' '], headers[0].1) + header_rows(headers.drop_first())
    }
}

/// A value splits at its first line feed.
proof fn lemma_first_line(v: Seq<char>)
    requires
        index_of(v, '\n') < v.len(),
    ensures
        v == v.take(index_of(v, '\n') as int) + seq!['\n'] + v.skip(index_of(v, '\n') as int + 1),
        lacks(v.take(index_of(v, '\n') as int), '\n'),
        folded(v) == v.take(index_of(v, '\n') as int) + seq!['\n', ' '] + folded(
            v.skip(index_of(v, '\n') as int + 1),
        ),
{
    lemma_index_of(v, '\n');
    let i = index_of(v, '\n') as int;
    let a = v.take(i);
    let b = v.skip(i + 1);
    assert(v == a + seq!['\n'] + b);
    assert forall|j: int| 0 <= j < a.len() implies #[trigger] a[j] != '\n' by {
        assert(a[j] == v[j]);
    }
    lemma_folded_plain(a);
    lemma_folded_concat(a + seq!['\n'], b);
    lemma_folded_concat(a, seq!['\n']);
    reveal_with_fuel(folded, 2);
    assert(seq!['\n'].drop_last() == Seq::<char>::empty());
    assert(folded(seq!['\n']) == seq!['\n', ' ']);
}

/// A value without line feed is its only line.
proof fn lemma_one_line(v: Seq<char>)
    requires
        index_of(v, '\n') >= v.len(),
    ensures
        lacks(v, '\n'),
        folded(v) == v,
{
    lemma_index_of(v, '\n');
    lemma_folded_plain(v);
}

/// The lines of a folded value after a prefix, followed by a line feed and
/// more text, are the rows of the value and the lines of that text.
pub proof fn lemma_lines_of_value(prefix: Seq<char>, v: Seq<char>, rest: Seq<char>)
    requires
        lacks(prefix, '\n'),
        prefix.len() > 0,
        prefix.last() == ' ',
        pieces_trimmed(v),
    ensures
        lines(prefix + folded(v) + seq!['\n'] + rest) == value_rows(prefix, v) + lines(rest),
    decreases v.len(),
{
    let i = index_of(v, '\n') as int;
    if i >= v.len() {
        lemma_one_line(v);
        let line = prefix + v;
        assert forall|j: int| 0 <= j < line.len() implies #[trigger] line[j] != '\n' by {
            if j < prefix.len() {
                assert(line[j] == prefix[j]);
            } else {
                assert(line[j] == v[j - prefix.len()]);
            }
        }
        lemma_lines_first(line, rest);
        if v.len() > 0 {
            assert(line.last() == v.last());
        } else {
            assert(line.last() == prefix.last());
        }
        assert(strip_cr(line) == line);
    } else {
        lemma_first_line(v);
        let a = v.take(i);
        let b = v.skip(i + 1);
        let line = prefix + a;
        assert forall|j: int| 0 <= j < line.len() implies #[trigger] line[j] != '\n' by {
            if j < prefix.len() {
                assert(line[j] == prefix[j]);
            } else {
                assert(line[j] == a[j - prefix.len()]);
            }
        }
        let after = seq![' '] + folded(b) + seq!['\n'] + rest;
        assert(prefix + folded(v) + seq!['\n'] + rest == line + seq!['\n'] + after);
        lemma_lines_first(line, after);
        if a.len() > 0 {
            assert(line.last() == a.last());
        } else {
            assert(line.last() == prefix.last());
        }
        assert(strip_cr(line) == line);
        assert(lacks(seq![' '], '\n'));
        lemma_lines_of_value(seq![' '], b, rest);
        assert(seq![line] + (value_rows(seq![' '], b) + lines(rest)) == value_rows(prefix, v)
            + lines(rest));
    }
}

/// The rows of a value are not empty where the prefix is not.
pub proof fn lemma_value_rows_filled(prefix: Seq<char>, v: Seq<char>)
    requires
        prefix.len() > 0,
    ensures
        forall|j: int| 0 <= j < value_rows(prefix, v).len() ==> (#[trigger] value_rows(
            prefix,
            v,
        )[j]).len() > 0,
        value_rows(prefix, v).len() > 0,
    decreases v.len(),
{
    let i = index_of(v, '\n') as int;
    if i < v.len() {
        lemma_index_of(v, '\n');
        let tail = value_rows(seq![' '], v.skip(i + 1));
        lemma_value_rows_filled(seq![' '], v.skip(i + 1));
        let rows = value_rows(prefix, v);
        assert forall|j: int| 0 <= j < rows.len() implies (#[trigger] rows[j]).len() > 0 by {
            if j > 0 {
                assert(rows[j] == tail[j - 1]);
            }
        }
    }
}

/// The rows of a block are not empty.
pub proof fn lemma_header_rows_filled(headers: Seq<Header>)
    ensures
        forall|j: int| 0 <= j < header_rows(headers).len() ==> (#[trigger] header_rows(
            headers,
        )[j]).len() > 0,
    decreases headers.len(),
{
    if headers.len() > 0 {
        let first = value_rows(headers[0].0 + seq![':', ' '], headers[0].1);
        let others = header_rows(headers.drop_first());
        lemma_value_rows_filled(headers[0].0 + seq![':', ' '], headers[0].1);
        lemma_header_rows_filled(headers.drop_first());
        let rows = header_rows(headers);
        assert forall|j: int| 0 <= j < rows.len() implies (#[trigger] rows[j]).len() > 0 by {
            if j < first.len() {
                assert(rows[j] == first[j]);
            } else {
                assert(rows[j] == others[j - first.len()]);
            }
        }
    }
}

/// Rows that continue a header add their lines to its value.
proof fn lemma_fold_continuations(
    w: Seq<char>,
    more: Seq<Seq<char>>,
    k: Seq<char>,
    acc: Seq<char>,
)
    requires
        pieces_trimmed(w),
    ensures
        folded_headers(value_rows(seq![' '], w) + more, Some((k, acc))) == folded_headers(
            more,
            Some((k, acc + seq!['\n'] + w)),
        ),
    decreases w.len(),
{
    let i = index_of(w, '\n') as int;
    let rows = value_rows(seq![' '], w) + more;
    if i >= w.len() {
        let row = seq![' '] + w;
        assert(rows[0] == row);
        assert(rows.drop_first() == more);
        assert(row.drop_first() == w);
        assert(skip_leading(row) == skip_leading(w));
        lemma_trimmed_fixed(w);
        assert(trimmed(row) == w);
    } else {
        lemma_first_line(w);
        let a = w.take(i);
        let b = w.skip(i + 1);
        let row = seq![' '] + a;
        assert(rows[0] == row);
        assert(rows.drop_first() == value_rows(seq![' '], b) + more);
        assert(row.drop_first() == a);
        assert(skip_leading(row) == skip_leading(a));
        lemma_trimmed_fixed(a);
        assert(trimmed(row) == a);
        lemma_fold_continuations(b, more, k, acc + seq!['\n'] + a);
        assert(acc + seq!['\n'] + a + seq!['\n'] + b == acc + seq!['\n'] + w);
    }
}

/// The rows of one header open that header, after the header that was open
/// before them is closed.
proof fn lemma_fold_header(k: Seq<char>, v: Seq<char>, more: Seq<Seq<char>>, pending: Option<Header>)
    requires
        is_clean_key(k),
        pieces_trimmed(v),
    ensures
        folded_headers(value_rows(k + seq![':', ' '], v) + more, pending) == closed(pending)
            + folded_headers(more, Some((k, v))),
{
    let prefix = k + seq![':', ' '];
    let i = index_of(v, '\n') as int;
    let rows = value_rows(prefix, v) + more;
    if i >= v.len() {
        lemma_one_line(v);
        lemma_header_line_shape(k, v);
        lemma_split_header_line(k, v);
        assert(rows[0] == header_line(k, v));
        assert(rows.drop_first() == more);
    } else {
        lemma_first_line(v);
        let a = v.take(i);
        let b = v.skip(i + 1);
        lemma_header_line_shape(k, a);
        lemma_split_header_line(k, a);
        assert(rows[0] == header_line(k, a));
        assert(rows.drop_first() == value_rows(seq![' '], b) + more);
        lemma_fold_continuations(b, more, k, a);
    }
}

/// Read with folding, the rows of a block state its headers, after the
/// header that was open before them.
pub proof fn lemma_fold_rows(headers: Seq<Header>, pending: Option<Header>)
    requires
        all_well_folded(headers),
    ensures
        folded_headers(header_rows(headers), pending) == closed(pending) + headers,
    decreases headers.len(),
{
    if headers.len() == 0 {
        assert(closed(pending) + headers == closed(pending));
    } else {
        let h = headers[0];
        let rest = headers.drop_first();
        assert forall|i: int| 0 <= i < rest.len() implies is_clean_key((#[trigger] rest[i]).0)
            && is_well_folded(rest[i].1) by {
            assert(rest[i] == headers[i + 1]);
        }
        lemma_fold_header(h.0, h.1, header_rows(rest), pending);
        lemma_fold_rows(rest, Some(h));
        lemma_trimmed_fixed(h.1);
        assert(closed(Some(h)) == seq![h]);
        assert(seq![h] + rest == headers);
        assert(closed(pending) + (seq![h] + rest) == closed(pending) + headers);
    }
}

/// The lines of the text of a block, followed by any text, are the rows of
/// the block and then the lines of that text.
pub proof fn lemma_lines_of_rows(headers: Seq<Header>, tail: Seq<char>)
    requires
        all_well_folded(headers),
    ensures
        lines(header_text(headers) + tail) == header_rows(headers) + lines(tail),
    decreases headers.len(),
{
    if headers.len() == 0 {
        assert(header_text(headers) + tail == tail);
        assert(header_rows(headers) + lines(tail) == lines(tail));
    } else {
        let h = headers[0];
        let rest = headers.drop_first();
        assert forall|i: int| 0 <= i < rest.len() implies is_clean_key((#[trigger] rest[i]).0)
            && is_well_folded(rest[i].1) by {
            assert(rest[i] == headers[i + 1]);
        }
        assert(headers == seq![h] + rest);
        lemma_header_text_concat(seq![h], rest);
        lemma_header_text_one(h);
        lemma_lines_of_rows(rest, tail);
        let prefix = h.0 + seq![':', ' '];
        assert forall|j: int| 0 <= j < prefix.len() implies #[trigger] prefix[j] != '\n' by {
            if j < h.0.len() {
                assert(prefix[j] == h.0[j]);
            }
        }
        assert(prefix.last() == ' ');
        lemma_lines_of_value(prefix, h.1, header_text(rest) + tail);
        assert(header_text(headers) + tail == prefix + folded(h.1) + seq!['\n'] + (header_text(
            rest,
        ) + tail));
        assert(value_rows(prefix, h.1) + (header_rows(rest) + lines(tail)) == header_rows(headers)
            + lines(tail));
    }
}

/// One more trimmed line leaves the lines of a value trimmed.
pub proof fn lemma_pieces_append(v: Seq<char>, p: Seq<char>)
    requires
        pieces_trimmed(v),
        is_trimmed(p),
        lacks(p, '\n'),
    ensures
        pieces_trimmed(v + seq!['\n'] + p),
    decreases v.len(),
{
    let w = v + seq!['\n'] + p;
    let i = index_of(v, '\n') as int;
    lemma_index_of(v, '\n');
    if i >= v.len() {
        assert forall|j: int| 0 <= j < v.len() implies w[j] != '\n' by {
            assert(w[j] == v[j]);
        }
        assert(w[v.len() as int] == '\n');
        lemma_index_of_is(w, '\n', v.len() as int);
        assert(w.take(v.len() as int) == v);
        assert(w.skip(v.len() as int + 1) == p);
        lemma_index_of_is(p, '\n', p.len() as int);
        assert(pieces_trimmed(p));
        assert(is_trimmed(v));
        assert(pieces_trimmed(w));
    } else {
        assert forall|j: int| 0 <= j < i implies w[j] != '\n' by {
            assert(w[j] == v[j]);
        }
        assert(w[i] == v[i]);
        lemma_index_of_is(w, '\n', i);
        assert(w.take(i) == v.take(i));
        assert(w.skip(i + 1) == v.skip(i + 1) + seq!['\n'] + p);
        lemma_pieces_append(v.skip(i + 1), p);
        assert(pieces_trimmed(w));
    }
}

/// What is left of a value with trimmed lines after its leading white space
/// has trimmed lines.
proof fn lemma_pieces_skip_leading(v: Seq<char>)
    requires
        pieces_trimmed(v),
    ensures
        pieces_trimmed(skip_leading(v)),
    decreases v.len(),
{
    if v.len() > 0 && is_whitespace(v[0]) {
        lemma_index_of(v, '\n');
        let i = index_of(v, '\n') as int;
        if i >= v.len() {
            assert(is_trimmed(v));
        } else if i > 0 {
            assert(v.take(i)[0] == v[0]);
        } else {
            assert(v.drop_first() == v.skip(1));
            lemma_pieces_skip_leading(v.drop_first());
        }
    }
}

/// A value with trimmed lines that ends in white space ends in a line feed,
/// and without it the lines are still trimmed.
proof fn lemma_pieces_drop_last(v: Seq<char>)
    requires
        pieces_trimmed(v),
        v.len() > 0,
        is_whitespace(v.last()),
    ensures
        v.last() == '\n',
        pieces_trimmed(v.drop_last()),
    decreases v.len(),
{
    lemma_index_of(v, '\n');
    let i = index_of(v, '\n') as int;
    if i >= v.len() {
        assert(is_trimmed(v));
    } else {
        let a = v.take(i);
        let b = v.skip(i + 1);
        let short = v.drop_last();
        assert forall|j: int| 0 <= j < a.len() implies #[trigger] a[j] != '\n' by {
            assert(a[j] == v[j]);
        }
        if b.len() == 0 {
            assert(short == a);
            lemma_index_of_is(a, '\n', a.len() as int);
        } else {
            assert(b.last() == v.last());
            lemma_pieces_drop_last(b);
            assert forall|j: int| 0 <= j < i implies short[j] != '\n' by {
                assert(short[j] == v[j]);
            }
            assert(short[i] == v[i]);
            lemma_index_of_is(short, '\n', i);
            assert(short.take(i) == a);
            assert(short.skip(i + 1) == b.drop_last());
        }
    }
}

/// What is left of a value with trimmed lines without its trailing white
/// space has trimmed lines.
proof fn lemma_pieces_skip_trailing(v: Seq<char>)
    requires
        pieces_trimmed(v),
    ensures
        pieces_trimmed(skip_trailing(v)),
    decreases v.len(),
{
    if v.len() > 0 && is_whitespace(v.last()) {
        lemma_pieces_drop_last(v);
        lemma_pieces_skip_trailing(v.drop_last());
    }
}

/// A value with trimmed lines, trimmed, is well folded.
pub proof fn lemma_trimmed_well_folded(v: Seq<char>)
    requires
        pieces_trimmed(v),
    ensures
        is_well_folded(trimmed(v)),
{
    lemma_pieces_skip_leading(v);
    lemma_pieces_skip_trailing(skip_leading(v));
    lemma_trimmed(v, '\n');
}

/// A trimmed text on one line has trimmed lines.
pub proof fn lemma_clean_is_well_folded(v: Seq<char>)
    requires
        is_clean_value(v),
    ensures
        is_well_folded(v),
{
    lemma_index_of_is(v, '\n', v.len() as int);
}

/// Read with folding, lines without line feeds state well folded headers.
pub proof fn lemma_folded_headers_well_folded(ls: Seq<Seq<char>>, pending: Option<Header>)
    requires
        forall|i: int| 0 <= i < ls.len() ==> lacks(#[trigger] ls[i], '\n'),
        pending matches Some(p) ==> is_clean_key(p.0) && pieces_trimmed(p.1),
    ensures
        all_well_folded(folded_headers(ls, pending)),
    decreases ls.len(),
{
    match pending {
        Some(p) => {
            lemma_trimmed_well_folded(p.1);
        },
        None => {},
    }
    assert(all_well_folded(closed(pending)));
    if ls.len() > 0 {
        let line = ls[0];
        let rest = ls.drop_first();
        assert forall|i: int| 0 <= i < rest.len() implies lacks(#[trigger] rest[i], '\n') by {
            assert(rest[i] == ls[i + 1]);
        }
        assert(lacks(line, '\n'));
        if is_continuation(line) {
            match pending {
                Some(p) => {
                    lemma_trimmed(line, '\n');
                    lemma_pieces_append(p.1, trimmed(line));
                    lemma_folded_headers_well_folded(
                        rest,
                        Some((p.0, p.1 + seq!['\n'] + trimmed(line))),
                    );
                },
                None => {
                    lemma_folded_headers_well_folded(rest, None);
                },
            }
        } else {
            crate::header_laws::lemma_split_header_clean(line);
            match split_header(line) {
                Some(h) => {
                    lemma_clean_is_well_folded(h.1);
                },
                None => {},
            }
            lemma_folded_headers_well_folded(rest, split_header(line));
            let a = closed(pending);
            let b = folded_headers(rest, split_header(line));
            assert forall|i: int| 0 <= i < (a + b).len() implies is_clean_key(
                (#[trigger] (a + b)[i]).0,
            ) && is_well_folded((a + b)[i].1) by {
                if i < a.len() {
                    assert((a + b)[i] == a[i]);
                } else {
                    assert((a + b)[i] == b[i - a.len()]);
                }
            }
        }
    }
}

/// Whether the unknown headers are as reading with folding gives them:
/// clean keys with the property `unknown`, each once and with a value, and
/// well folded values.
pub open spec fn neat_extras(es: Extras, unknown: spec_fn(Seq<char>) -> bool) -> bool {
    &&& forall|i: int|
        0 <= i < es.len() ==> is_clean_key((#[trigger] es[i]).0) && forall|j: int|
            0 <= j < es[i].1.len() ==> is_well_folded(#[trigger] es[i].1[j])
    &&& distinct_keys(es)
    &&& no_empty_entry(es)
    &&& forall|i: int| 0 <= i < es.len() ==> unknown((#[trigger] es[i]).0)
}

/// One more unknown header with a well folded value leaves the unknown headers
/// neat.
pub proof fn lemma_with_extra_neat(
    es: Extras,
    k: Seq<char>,
    v: Seq<char>,
    unknown: spec_fn(Seq<char>) -> bool,
)
    requires
        neat_extras(es, unknown),
        is_clean_key(k),
        is_well_folded(v),
        unknown(k),
    ensures
        neat_extras(with_extra(es, k, v), unknown),
{
    let keys = extra_keys(es);
    lemma_index_of(keys, k);
    let i = index_of(keys, k) as int;
    let next = with_extra(es, k, v);
    if i < es.len() {
        assert(keys[i] == k);
        assert(es[i].0 == k);
        assert forall|a: int| 0 <= a < next.len() implies is_clean_key((#[trigger] next[a]).0)
            && forall|j: int| 0 <= j < next[a].1.len() ==> is_well_folded(#[trigger] next[a].1[j]) by {
            if a == i {
                assert forall|j: int| 0 <= j < next[a].1.len() implies is_well_folded(
                    #[trigger] next[a].1[j],
                ) by {
                    if j < es[i].1.len() {
                        assert(next[a].1[j] == es[i].1[j]);
                    }
                }
            } else {
                assert(next[a] == es[a]);
            }
        }
        assert forall|a: int, b: int| 0 <= a < b < next.len() implies (#[trigger] next[a]).0 != (
        #[trigger] next[b]).0 by {
            assert(next[a].0 == es[a].0);
            assert(next[b].0 == es[b].0);
        }
        assert forall|a: int| 0 <= a < next.len() implies (#[trigger] next[a]).1.len() > 0 by {
            if a != i {
                assert(next[a] == es[a]);
            }
        }
        assert forall|a: int| 0 <= a < next.len() implies unknown((#[trigger] next[a]).0) by {
            assert(next[a].0 == es[a].0);
        }
    } else {
        assert forall|a: int| 0 <= a < es.len() implies (#[trigger] es[a]).0 != k by {
            assert(keys[a] == es[a].0);
        }
        assert forall|a: int| 0 <= a < next.len() implies is_clean_key((#[trigger] next[a]).0)
            && forall|j: int| 0 <= j < next[a].1.len() ==> is_well_folded(#[trigger] next[a].1[j]) by {
            if a < es.len() {
                assert(next[a] == es[a]);
            }
        }
        assert forall|a: int, b: int| 0 <= a < b < next.len() implies (#[trigger] next[a]).0 != (
        #[trigger] next[b]).0 by {
            assert(next[a] == es[a]);
            if b < es.len() {
                assert(next[b] == es[b]);
            }
        }
        assert forall|a: int| 0 <= a < next.len() implies (#[trigger] next[a]).1.len() > 0 by {
            if a < es.len() {
                assert(next[a] == es[a]);
            }
        }
        assert forall|a: int| 0 <= a < next.len() implies unknown((#[trigger] next[a]).0) by {
            if a < es.len() {
                assert(next[a] == es[a]);
            }
        }
    }
}

/// Two well folded blocks make a well folded block.
pub proof fn lemma_all_well_folded_concat(a: Seq<Header>, b: Seq<Header>)
    requires
        all_well_folded(a),
        all_well_folded(b),
    ensures
        all_well_folded(a + b),
{
    assert forall|i: int| 0 <= i < (a + b).len() implies is_clean_key((#[trigger] (a + b)[i]).0)
        && is_well_folded((a + b)[i].1) by {
        if i < a.len() {
            assert((a + b)[i] == a[i]);
        } else {
            assert((a + b)[i] == b[i - a.len()]);
        }
    }
}

/// Well folded values under a clean key make a well folded block.
pub proof fn lemma_all_well_folded_multi(k: Seq<char>, vals: Seq<Seq<char>>)
    requires
        is_clean_key(k),
        forall|j: int| 0 <= j < vals.len() ==> is_well_folded(#[trigger] vals[j]),
    ensures
        all_well_folded(multi(k, vals)),
{
    assert forall|i: int| 0 <= i < multi(k, vals).len() implies is_clean_key(
        (#[trigger] multi(k, vals)[i]).0,
    ) && is_well_folded(multi(k, vals)[i].1) by {
        assert(multi(k, vals)[i] == (k, vals[i]));
    }
}

/// The block of neat unknown headers is well folded, and its keys are theirs.
pub proof fn lemma_extra_headers_well_folded(es: Extras, unknown: spec_fn(Seq<char>) -> bool)
    requires
        neat_extras(es, unknown),
    ensures
        all_well_folded(extra_headers(es)),
        all_keys(extra_headers(es), unknown),
    decreases es.len(),
{
    if es.len() > 0 {
        let init = es.drop_last();
        let last = es.last();
        assert(neat_extras(init, unknown)) by {
            assert forall|i: int| 0 <= i < init.len() implies is_clean_key((#[trigger] init[i]).0)
                && forall|j: int|
                0 <= j < init[i].1.len() ==> is_well_folded(#[trigger] init[i].1[j]) by {
                assert(init[i] == es[i]);
            }
            assert forall|i: int, j: int| 0 <= i < j < init.len() implies (#[trigger] init[i]).0 != (
            #[trigger] init[j]).0 by {
                assert(init[i] == es[i]);
                assert(init[j] == es[j]);
            }
            assert forall|i: int| 0 <= i < init.len() implies (#[trigger] init[i]).1.len() > 0 by {
                assert(init[i] == es[i]);
            }
            assert forall|i: int| 0 <= i < init.len() implies unknown((#[trigger] init[i]).0) by {
                assert(init[i] == es[i]);
            }
        }
        lemma_extra_headers_well_folded(init, unknown);
        assert(es[es.len() - 1] == last);
        lemma_all_well_folded_multi(last.0, last.1);
        lemma_all_well_folded_concat(extra_headers(init), multi(last.0, last.1));
        let all = extra_headers(es);
        assert forall|i: int| 0 <= i < all.len() implies unknown((#[trigger] all[i]).0) by {
            if i < extra_headers(init).len() {
                assert(all[i] == extra_headers(init)[i]);
            } else {
                assert(all[i] == multi(last.0, last.1)[i - extra_headers(init).len()]);
            }
        }
    }
}

} // verus!
