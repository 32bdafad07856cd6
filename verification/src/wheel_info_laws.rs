//! Laws of the `WHEEL` codec: what was written is read back unchanged.

use vstd::prelude::*;
use crate::header_laws::all_clean;
use crate::header_laws::all_keys;
use crate::header_laws::clean_extras;
use crate::header_laws::distinct_keys;
use crate::header_laws::header_lines;
use crate::header_laws::is_clean_key;
use crate::header_laws::is_clean_value;
use crate::header_laws::lacks;
use crate::header_laws::lemma_all_clean_concat;
use crate::header_laws::lemma_all_clean_multi;
use crate::header_laws::lemma_extra_headers_shape;
use crate::header_laws::lemma_lines_of_header_text;
use crate::header_laws::lemma_plain_clean;
use crate::header_laws::lemma_with_extras_all;
use crate::header_laws::lemma_lines_lack_line_feed;
use crate::header_laws::lemma_plain_headers_clean;
use crate::header_laws::lemma_with_extra_tidy;
use crate::header_laws::no_empty_entry;
use crate::header_laws::tidy_extras;
use crate::header_laws::with_extras;
use crate::headers::extra_headers;
use crate::headers::header_text;
use crate::headers::multi;
use crate::headers::plain_headers;
use crate::headers::single;
use crate::headers::with_extra;
use crate::headers::Header;
use crate::text::index_of;
use crate::text::lemma_index_of_is;
use crate::text::lines;
use crate::text::split_all;
use crate::wheel_info::empty_wheel_info;
use crate::wheel_info::flag_text;
use crate::wheel_info::is_true;
use crate::wheel_info::parsed_tag;
use crate::wheel_info::parsed_wheel;
use crate::wheel_info::serialized_wheel;
use crate::wheel_info::tag_text;
use crate::wheel_info::tag_texts;
use crate::wheel_info::wheel_headers;
use crate::wheel_info::with_wheel_field;
use crate::wheel_info::with_wheel_fields;
use crate::wheel_info::WheelFault;
use crate::wheel_info::WheelInfoView;
use crate::wheel_info::WheelTagView;

verus! {

/// Whether a key is one that the `WHEEL` format knows.
pub open spec fn is_wheel_key(k: Seq<char>) -> bool {
    k == "Wheel-Version"@ || k == "Generator"@ || k == "Root-Is-Purelib"@ || k == "Tag"@ || k
        == "Build"@
}

/// A tag as reading gives it: no part holds a hyphen, and its text is a
/// clean value.
pub open spec fn is_canonical_tag(t: WheelTagView) -> bool {
    lacks(t.python, '-') && lacks(t.abi, '-') && lacks(t.platform, '-') && is_clean_value(
        tag_text(t),
    )
}

/// A `WHEEL` content as headers give it: clean values, tags without hyphens
/// in their parts, and unknown headers under distinct keys that are not
/// those of the format.
pub open spec fn is_tidy_wheel(w: WheelInfoView) -> bool {
    &&& is_clean_value(w.wheel_version)
    &&& (w.generator matches Some(g) ==> is_clean_value(g))
    &&& (w.build matches Some(b) ==> is_clean_value(b))
    &&& forall|i: int| 0 <= i < w.tags.len() ==> is_canonical_tag(#[trigger] w.tags[i])
    &&& tidy_extras(w.extra_headers, |k: Seq<char>| !is_wheel_key(k))
}

/// A `WHEEL` content as reading gives it: tidy, with a version and at least
/// one tag.
pub open spec fn is_canonical_wheel(w: WheelInfoView) -> bool {
    is_tidy_wheel(w) && w.wheel_version.len() > 0 && w.tags.len() > 0
}

/// The keys of the format are clean and differ from each other; the texts
/// of the purelib flag are clean and read back as the flag.
pub proof fn lemma_wheel_words()
    ensures
        is_clean_key("Wheel-Version"@),
        is_clean_key("Generator"@),
        is_clean_key("Root-Is-Purelib"@),
        is_clean_key("Tag"@),
        is_clean_key("Build"@),
        "Wheel-Version"@ != "Generator"@,
        "Wheel-Version"@ != "Root-Is-Purelib"@,
        "Wheel-Version"@ != "Tag"@,
        "Wheel-Version"@ != "Build"@,
        "Generator"@ != "Root-Is-Purelib"@,
        "Generator"@ != "Tag"@,
        "Generator"@ != "Build"@,
        "Root-Is-Purelib"@ != "Tag"@,
        "Root-Is-Purelib"@ != "Build"@,
        "Tag"@ != "Build"@,
        is_clean_value("true"@),
        is_clean_value("false"@),
        is_true("true"@),
        !is_true("false"@),
{
    reveal_strlit("Wheel-Version");
    reveal_strlit("Generator");
    reveal_strlit("Root-Is-Purelib");
    reveal_strlit("Tag");
    reveal_strlit("Build");
    reveal_strlit("true");
    reveal_strlit("false");
}

/// The text of a tag whose parts hold no hyphen reads back as the tag.
pub proof fn lemma_tag_roundtrip(t: WheelTagView)
    requires
        lacks(t.python, '-'),
        lacks(t.abi, '-'),
        lacks(t.platform, '-'),
    ensures
        parsed_tag(tag_text(t)) == Ok::<WheelTagView, WheelFault>(t),
{
    let text = tag_text(t);
    let a = t.python.len() as int;
    assert forall|j: int| 0 <= j < a implies text[j] != '-' by {
        assert(text[j] == t.python[j]);
    }
    assert(text[a] == '-');
    lemma_index_of_is(text, '-', a);
    assert(text.take(a) == t.python);
    let rest = text.skip(a + 1);
    assert(rest == t.abi + seq!['-'] + t.platform);
    let b = t.abi.len() as int;
    assert forall|j: int| 0 <= j < b implies rest[j] != '-' by {
        assert(rest[j] == t.abi[j]);
    }
    assert(rest[b] == '-');
    lemma_index_of_is(rest, '-', b);
    assert(rest.take(b) == t.abi);
    let last = rest.skip(b + 1);
    assert(last == t.platform);
    lemma_index_of_is(last, '-', last.len() as int);
    assert(split_all(last, '-') == seq![last]);
    assert(split_all(rest, '-') == seq![t.abi] + split_all(last, '-'));
    assert(split_all(text, '-') == seq![t.python] + split_all(rest, '-'));
    let parts = split_all(text, '-');
    assert(parts == seq![t.python, t.abi, t.platform]);
}

/// Taking two blocks in turn is taking them as one.
pub proof fn lemma_wheel_fields_concat(w: WheelInfoView, a: Seq<Header>, b: Seq<Header>)
    ensures
        with_wheel_fields(w, a + b) == match with_wheel_fields(w, a) {
            Ok(next) => with_wheel_fields(next, b),
            Err(e) => Err(e),
        },
    decreases a.len(),
{
    if a.len() == 0 {
        assert(a + b == b);
    } else {
        assert((a + b)[0] == a[0]);
        assert((a + b).drop_first() == a.drop_first() + b);
        match with_wheel_field(w, a[0].0, a[0].1) {
            Ok(next) => {
                lemma_wheel_fields_concat(next, a.drop_first(), b);
            },
            Err(_) => {},
        }
    }
}

/// A block of one header is taken as that header.
pub proof fn lemma_wheel_fields_one(w: WheelInfoView, k: Seq<char>, v: Seq<char>)
    ensures
        with_wheel_fields(w, seq![(k, v)]) == with_wheel_field(w, k, v),
{
    reveal_with_fuel(with_wheel_fields, 2);
    assert(seq![(k, v)].drop_first() == Seq::<Header>::empty());
}

/// The tags of a block of tag headers join the tags.
pub proof fn lemma_wheel_fields_tags(w: WheelInfoView, tags: Seq<WheelTagView>)
    requires
        forall|i: int| 0 <= i < tags.len() ==> is_canonical_tag(#[trigger] tags[i]),
    ensures
        with_wheel_fields(w, multi("Tag"@, tag_texts(tags))) == Ok::<WheelInfoView, WheelFault>(
            WheelInfoView { tags: w.tags + tags, ..w },
        ),
    decreases tags.len(),
{
    lemma_wheel_words();
    let hs = multi("Tag"@, tag_texts(tags));
    if tags.len() == 0 {
        assert(w.tags + tags == w.tags);
    } else {
        let t = tags[0];
        let rest = tags.drop_first();
        assert(hs[0] == ("Tag"@, tag_text(t)));
        assert(hs.drop_first() == multi("Tag"@, tag_texts(rest)));
        lemma_tag_roundtrip(t);
        let next = WheelInfoView { tags: w.tags.push(t), ..w };
        assert(with_wheel_field(w, "Tag"@, tag_text(t)) == Ok::<WheelInfoView, WheelFault>(next));
        assert forall|i: int| 0 <= i < rest.len() implies is_canonical_tag(#[trigger] rest[i]) by {
            assert(rest[i] == tags[i + 1]);
        }
        lemma_wheel_fields_tags(next, rest);
        assert(w.tags.push(t) + rest == w.tags + tags);
    }
}

/// Headers with keys that the format does not know go to the unknown headers.
pub proof fn lemma_wheel_fields_unknown(w: WheelInfoView, headers: Seq<Header>)
    requires
        all_keys(headers, |k: Seq<char>| !is_wheel_key(k)),
    ensures
        with_wheel_fields(w, headers) == Ok::<WheelInfoView, WheelFault>(
            WheelInfoView { extra_headers: with_extras(w.extra_headers, headers), ..w },
        ),
    decreases headers.len(),
{
    if headers.len() > 0 {
        let h = headers[0];
        let rest = headers.drop_first();
        assert(!is_wheel_key(h.0));
        let next = WheelInfoView { extra_headers: with_extra(w.extra_headers, h.0, h.1), ..w };
        assert forall|i: int| 0 <= i < rest.len() implies !is_wheel_key((#[trigger] rest[i]).0) by {
            assert(rest[i] == headers[i + 1]);
        }
        lemma_wheel_fields_unknown(next, rest);
    }
}

/// The headers of a canonical `WHEEL` content are clean.
pub proof fn lemma_wheel_headers_clean(w: WheelInfoView)
    requires
        is_canonical_wheel(w),
    ensures
        all_clean(wheel_headers(w)),
{
    lemma_wheel_words();
    let s1 = single("Wheel-Version"@, Some(w.wheel_version));
    let s2 = single("Generator"@, w.generator);
    let s3 = single("Root-Is-Purelib"@, Some(flag_text(w.root_is_purelib)));
    let s4 = multi("Tag"@, tag_texts(w.tags));
    let s5 = single("Build"@, w.build);
    let s6 = extra_headers(w.extra_headers);
    assert(all_clean(s1));
    assert(all_clean(s2));
    assert(all_clean(s3));
    assert forall|j: int| 0 <= j < tag_texts(w.tags).len() implies is_clean_value(
        #[trigger] tag_texts(w.tags)[j],
    ) by {
        assert(is_canonical_tag(w.tags[j]));
    }
    lemma_all_clean_multi("Tag"@, tag_texts(w.tags));
    assert(all_clean(s5));
    lemma_extra_headers_shape(w.extra_headers, |k: Seq<char>| !is_wheel_key(k));
    lemma_all_clean_concat(s1, s2);
    lemma_all_clean_concat(s1 + s2, s3);
    lemma_all_clean_concat(s1 + s2 + s3, s4);
    lemma_all_clean_concat(s1 + s2 + s3 + s4, s5);
    lemma_all_clean_concat(s1 + s2 + s3 + s4 + s5, s6);
}

/// Taken in order, the headers of a canonical `WHEEL` content give it back.
pub proof fn lemma_wheel_headers_taken(w: WheelInfoView)
    requires
        is_canonical_wheel(w),
    ensures
        with_wheel_fields(empty_wheel_info(), wheel_headers(w)) == Ok::<WheelInfoView, WheelFault>(
            w,
        ),
{
    lemma_wheel_words();
    let e = empty_wheel_info();
    let s1 = single("Wheel-Version"@, Some(w.wheel_version));
    let s2 = single("Generator"@, w.generator);
    let s3 = single("Root-Is-Purelib"@, Some(flag_text(w.root_is_purelib)));
    let s4 = multi("Tag"@, tag_texts(w.tags));
    let s5 = single("Build"@, w.build);
    let s6 = extra_headers(w.extra_headers);
    let w1 = WheelInfoView { wheel_version: w.wheel_version, ..e };
    lemma_wheel_fields_one(e, "Wheel-Version"@, w.wheel_version);
    assert(with_wheel_fields(e, s1) == Ok::<WheelInfoView, WheelFault>(w1));
    let w2 = WheelInfoView { generator: w.generator, ..w1 };
    match w.generator {
        Some(g) => {
            lemma_wheel_fields_one(w1, "Generator"@, g);
        },
        None => {},
    }
    assert(with_wheel_fields(w1, s2) == Ok::<WheelInfoView, WheelFault>(w2));
    let w3 = WheelInfoView { root_is_purelib: w.root_is_purelib, ..w2 };
    lemma_wheel_fields_one(w2, "Root-Is-Purelib"@, flag_text(w.root_is_purelib));
    assert(with_wheel_fields(w2, s3) == Ok::<WheelInfoView, WheelFault>(w3));
    let w4 = WheelInfoView { tags: w.tags, ..w3 };
    lemma_wheel_fields_tags(w3, w.tags);
    assert(w3.tags + w.tags == w.tags);
    assert(with_wheel_fields(w3, s4) == Ok::<WheelInfoView, WheelFault>(w4));
    let w5 = WheelInfoView { build: w.build, ..w4 };
    match w.build {
        Some(b) => {
            lemma_wheel_fields_one(w4, "Build"@, b);
        },
        None => {},
    }
    assert(with_wheel_fields(w4, s5) == Ok::<WheelInfoView, WheelFault>(w5));
    lemma_extra_headers_shape(w.extra_headers, |k: Seq<char>| !is_wheel_key(k));
    lemma_wheel_fields_unknown(w5, s6);
    assert(w5.extra_headers + w.extra_headers == w.extra_headers);
    lemma_with_extras_all(w5.extra_headers, w.extra_headers);
    assert(with_wheel_fields(w5, s6) == Ok::<WheelInfoView, WheelFault>(w));
    lemma_wheel_fields_concat(e, s1, s2);
    lemma_wheel_fields_concat(e, s1 + s2, s3);
    lemma_wheel_fields_concat(e, s1 + s2 + s3, s4);
    lemma_wheel_fields_concat(e, s1 + s2 + s3 + s4, s5);
    lemma_wheel_fields_concat(e, s1 + s2 + s3 + s4 + s5, s6);
}

/// The text that is written from a canonical `WHEEL` content reads back as
/// that content.
pub proof fn lemma_wheel_roundtrip(w: WheelInfoView)
    requires
        is_canonical_wheel(w),
    ensures
        parsed_wheel(serialized_wheel(w)) == Ok::<WheelInfoView, WheelFault>(w),
{
    let hs = wheel_headers(w);
    lemma_wheel_headers_clean(w);
    lemma_lines_of_header_text(hs, Seq::empty());
    assert(header_text(hs) + Seq::<char>::empty() == header_text(hs));
    assert(lines(Seq::<char>::empty()) == Seq::<Seq<char>>::empty());
    assert(header_lines(hs) + Seq::<Seq<char>>::empty() == header_lines(hs));
    lemma_plain_clean(hs);
    lemma_wheel_headers_taken(w);
}

/// A text has at least one piece, and no piece holds the separator.
pub proof fn lemma_split_all_pieces(s: Seq<char>, c: char)
    ensures
        split_all(s, c).len() >= 1,
        forall|i: int| 0 <= i < split_all(s, c).len() ==> lacks(#[trigger] split_all(s, c)[i], c),
    decreases s.len(),
{
    crate::text::lemma_index_of(s, c);
    let i = index_of(s, c) as int;
    if i >= s.len() {
        assert(split_all(s, c) == seq![s]);
        assert forall|k: int| 0 <= k < split_all(s, c).len() implies lacks(
            #[trigger] split_all(s, c)[k],
            c,
        ) by {
            assert(split_all(s, c)[k] == s);
        }
    } else {
        let rest = split_all(s.skip(i + 1), c);
        lemma_split_all_pieces(s.skip(i + 1), c);
        assert(lacks(s.take(i), c)) by {
            assert forall|j: int| 0 <= j < s.take(i).len() implies #[trigger] s.take(i)[j] != c by {
                assert(s.take(i)[j] == s[j]);
            }
        }
        assert forall|k: int| 0 <= k < split_all(s, c).len() implies lacks(
            #[trigger] split_all(s, c)[k],
            c,
        ) by {
            if k == 0 {
                assert(split_all(s, c)[k] == s.take(i));
            } else {
                assert(split_all(s, c)[k] == rest[k - 1]);
            }
        }
    }
}

/// A tag that is read from a clean value is canonical, and its text is
/// that value.
#[verifier::rlimit(40)]
pub proof fn lemma_parsed_tag_canonical(v: Seq<char>)
    requires
        is_clean_value(v),
    ensures
        parsed_tag(v) matches Ok(t) ==> is_canonical_tag(t) && tag_text(t) == v,
{
    let parts = split_all(v, '-');
    if parts.len() == 3 {
        lemma_split_all_pieces(v, '-');
        crate::text::lemma_index_of(v, '-');
        let i = index_of(v, '-') as int;
        assert(i < v.len());
        let r1 = v.skip(i + 1);
        lemma_split_all_pieces(r1, '-');
        assert(parts == seq![v.take(i)] + split_all(r1, '-'));
        assert(split_all(r1, '-').len() == 2);
        crate::text::lemma_index_of(r1, '-');
        let j = index_of(r1, '-') as int;
        assert(j < r1.len());
        let r2 = r1.skip(j + 1);
        lemma_split_all_pieces(r2, '-');
        assert(split_all(r1, '-') == seq![r1.take(j)] + split_all(r2, '-'));
        assert(split_all(r2, '-').len() == 1);
        crate::text::lemma_index_of(r2, '-');
        if index_of(r2, '-') < r2.len() {
            lemma_split_all_pieces(r2.skip(index_of(r2, '-') as int + 1), '-');
        }
        assert(split_all(r2, '-') == seq![r2]);
        assert(parts[0] == v.take(i));
        assert(parts[1] == split_all(r1, '-')[0]);
        assert(parts[2] == split_all(r1, '-')[1]);
        assert(parts[1] == r1.take(j));
        assert(parts[2] == r2);
        let t = WheelTagView { python: parts[0], abi: parts[1], platform: parts[2] };
        assert(r1 == r1.take(j) + seq!['-'] + r2);
        assert(v == v.take(i) + seq!['-'] + r1);
        assert(tag_text(t) == v);
    }
}

/// One more clean header leaves a tidy `WHEEL` content tidy.
pub proof fn lemma_wheel_field_tidy(w: WheelInfoView, k: Seq<char>, v: Seq<char>)
    requires
        is_tidy_wheel(w),
        is_clean_key(k),
        is_clean_value(v),
    ensures
        with_wheel_field(w, k, v) matches Ok(next) ==> is_tidy_wheel(next),
{
    if k == "Tag"@ {
        lemma_parsed_tag_canonical(v);
        match parsed_tag(v) {
            Ok(t) => {
                let next = WheelInfoView { tags: w.tags.push(t), ..w };
                assert forall|i: int| 0 <= i < next.tags.len() implies is_canonical_tag(
                    #[trigger] next.tags[i],
                ) by {
                    if i < w.tags.len() {
                        assert(next.tags[i] == w.tags[i]);
                    }
                }
            },
            Err(_) => {},
        }
    } else if !is_wheel_key(k) {
        lemma_with_extra_tidy(w.extra_headers, k, v, |k: Seq<char>| !is_wheel_key(k));
    }
}

/// A block of clean headers leaves a tidy `WHEEL` content tidy.
pub proof fn lemma_wheel_fields_tidy(w: WheelInfoView, headers: Seq<Header>)
    requires
        is_tidy_wheel(w),
        all_clean(headers),
    ensures
        with_wheel_fields(w, headers) matches Ok(next) ==> is_tidy_wheel(next),
    decreases headers.len(),
{
    if headers.len() > 0 {
        let h = headers[0];
        let rest = headers.drop_first();
        lemma_wheel_field_tidy(w, h.0, h.1);
        match with_wheel_field(w, h.0, h.1) {
            Ok(next) => {
                assert forall|i: int| 0 <= i < rest.len() implies is_clean_key(
                    (#[trigger] rest[i]).0,
                ) && is_clean_value(rest[i].1) by {
                    assert(rest[i] == headers[i + 1]);
                }
                lemma_wheel_fields_tidy(next, rest);
            },
            Err(_) => {},
        }
    }
}

/// What is read from a `WHEEL` text is canonical.
pub proof fn lemma_parsed_wheel_canonical(text: Seq<char>)
    ensures
        parsed_wheel(text) matches Ok(w) ==> is_canonical_wheel(w),
{
    lemma_lines_lack_line_feed(text);
    lemma_plain_headers_clean(lines(text));
    let e = empty_wheel_info();
    assert(is_tidy_wheel(e));
    lemma_wheel_fields_tidy(e, plain_headers(lines(text)));
}

/// Reading, writing and reading again: a `WHEEL` text that can be read gives
/// a content whose text reads back as that content.
pub proof fn lemma_wheel_parse_roundtrip(text: Seq<char>)
    ensures
        parsed_wheel(text) matches Ok(w) ==> parsed_wheel(serialized_wheel(w)) == Ok::<
            WheelInfoView,
            WheelFault,
        >(w),
{
    lemma_parsed_wheel_canonical(text);
    match parsed_wheel(text) {
        Ok(w) => {
            lemma_wheel_roundtrip(w);
        },
        Err(_) => {},
    }
}

} // verus!
