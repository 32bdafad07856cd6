//! Laws of the `METADATA` codec: what was written is read back unchanged.

use vstd::prelude::*;
use crate::folding_laws::all_well_folded;
use crate::folding_laws::header_rows;
use crate::folding_laws::is_well_folded;
use crate::folding_laws::lemma_all_well_folded_concat;
use crate::folding_laws::lemma_all_well_folded_multi;
use crate::folding_laws::lemma_extra_headers_well_folded;
use crate::folding_laws::lemma_fold_rows;
use crate::folding_laws::lemma_folded_headers_well_folded;
use crate::folding_laws::lemma_header_rows_filled;
use crate::folding_laws::lemma_lines_of_rows;
use crate::folding_laws::lemma_with_extra_neat;
use crate::folding_laws::neat_extras;
use crate::header_laws::all_keys;
use crate::header_laws::is_clean_key;
use crate::header_laws::lacks;
use crate::header_laws::lemma_lines_lack_line_feed;
use crate::header_laws::lemma_trimmed;
use crate::header_laws::lemma_lines_first;
use crate::header_laws::lemma_trimmed_fixed;
use crate::header_laws::lemma_with_extras_all;
use crate::header_laws::with_extras;
use crate::headers::extra_headers;
use crate::headers::header_line;
use crate::headers::header_text;
use crate::headers::multi;
use crate::headers::single;
use crate::headers::with_extra;
use crate::headers::Header;
use crate::metadata::body_lines;
use crate::metadata::body_text;
use crate::metadata::empty_metadata;
use crate::metadata::field_of;
use crate::metadata::first_blank;
use crate::metadata::headers;
use crate::metadata::is_multi;
use crate::metadata::multi_of;
use crate::metadata::with_multi;
use crate::metadata::lemma_first_blank_is;
use crate::metadata::parsed;
use crate::metadata::serialized;
use crate::metadata::with_field;
use crate::metadata::with_fields;
use crate::metadata::Field;
use crate::metadata::MetadataView;
use crate::text::index_of;
use crate::text::is_trimmed;
use crate::text::join;
use crate::text::lemma_index_of;
use crate::text::lines;
use crate::text::strip_cr;
use crate::text::trimmed;

verus! {

/// Whether a key is one that the `METADATA` format does not know.
pub open spec fn is_extra_key(k: Seq<char>) -> bool {
    field_of(k) == Field::Unknown
}

/// Whether a value that may be absent is well folded where it is present.
pub open spec fn clean_option(o: Option<Seq<char>>) -> bool {
    o matches Some(v) ==> is_well_folded(v)
}

/// Whether every value is well folded.
pub open spec fn clean_values(s: Seq<Seq<char>>) -> bool {
    forall|j: int| 0 <= j < s.len() ==> is_well_folded(#[trigger] s[j])
}

/// A description that the body of a file states as it is: not empty,
/// trimmed, and without a carriage return before a line feed.
pub open spec fn is_stable_description(d: Option<Seq<char>>) -> bool {
    d matches Some(text) ==> text.len() > 0 && is_trimmed(text) && forall|i: int|
        0 <= i < text.len() - 1 && #[trigger] text[i] == '\r' ==> text[i + 1] != '\n'
}

/// A metadata that a file states as it is: a name and a version, every
/// header value well folded, the unknown headers neat, the description
/// stable.
pub open spec fn is_canonical_metadata(m: MetadataView) -> bool {
    &&& m.name.len() > 0
    &&& m.version.len() > 0
    &&& is_well_folded(m.metadata_version)
    &&& is_well_folded(m.name)
    &&& is_well_folded(m.version)
    &&& clean_option(m.summary)
    &&& clean_option(m.description_content_type)
    &&& clean_option(m.home_page)
    &&& clean_option(m.download_url)
    &&& clean_option(m.author)
    &&& clean_option(m.author_email)
    &&& clean_option(m.maintainer)
    &&& clean_option(m.maintainer_email)
    &&& clean_option(m.license)
    &&& clean_option(m.keywords)
    &&& clean_option(m.requires_python)
    &&& clean_values(m.classifiers)
    &&& clean_values(m.platform)
    &&& clean_values(m.requires_dist)
    &&& clean_values(m.requires_external)
    &&& clean_values(m.project_url)
    &&& clean_values(m.provides_extra)
    &&& clean_values(m.provides_dist)
    &&& clean_values(m.obsoletes_dist)
    &&& neat_extras(m.extra_headers, |k: Seq<char>| is_extra_key(k))
    &&& is_stable_description(m.description)
}

/// The keys that are written are clean, and each names its field.
pub proof fn lemma_metadata_words()
    ensures
        is_clean_key("Metadata-Version"@),
        field_of("Metadata-Version"@) == Field::MetadataVersion,
        is_clean_key("Name"@),
        field_of("Name"@) == Field::Name,
        is_clean_key("Version"@),
        field_of("Version"@) == Field::Version,
        is_clean_key("Summary"@),
        field_of("Summary"@) == Field::Summary,
        is_clean_key("Description-Content-Type"@),
        field_of("Description-Content-Type"@) == Field::DescriptionContentType,
        is_clean_key("Home-page"@),
        field_of("Home-page"@) == Field::HomePage,
        is_clean_key("Download-URL"@),
        field_of("Download-URL"@) == Field::DownloadUrl,
        is_clean_key("Author"@),
        field_of("Author"@) == Field::Author,
        is_clean_key("Author-email"@),
        field_of("Author-email"@) == Field::AuthorEmail,
        is_clean_key("Maintainer"@),
        field_of("Maintainer"@) == Field::Maintainer,
        is_clean_key("Maintainer-email"@),
        field_of("Maintainer-email"@) == Field::MaintainerEmail,
        is_clean_key("License"@),
        field_of("License"@) == Field::License,
        is_clean_key("Keywords"@),
        field_of("Keywords"@) == Field::Keywords,
        is_clean_key("Requires-Python"@),
        field_of("Requires-Python"@) == Field::RequiresPython,
        is_clean_key("Classifier"@),
        field_of("Classifier"@) == Field::Classifier,
        is_clean_key("Platform"@),
        field_of("Platform"@) == Field::Platform,
        is_clean_key("Requires-Dist"@),
        field_of("Requires-Dist"@) == Field::RequiresDist,
        is_clean_key("Requires-External"@),
        field_of("Requires-External"@) == Field::RequiresExternal,
        is_clean_key("Project-URL"@),
        field_of("Project-URL"@) == Field::ProjectUrl,
        is_clean_key("Provides-Extra"@),
        field_of("Provides-Extra"@) == Field::ProvidesExtra,
        is_clean_key("Provides-Dist"@),
        field_of("Provides-Dist"@) == Field::ProvidesDist,
        is_clean_key("Obsoletes-Dist"@),
        field_of("Obsoletes-Dist"@) == Field::ObsoletesDist,
{
    assert(is_clean_key("Metadata-Version"@) && field_of("Metadata-Version"@) == Field::MetadataVersion) by {
        lemma_reveal_keys();
    }
    assert(is_clean_key("Name"@) && field_of("Name"@) == Field::Name) by {
        lemma_reveal_keys();
    }
    assert(is_clean_key("Version"@) && field_of("Version"@) == Field::Version) by {
        lemma_reveal_keys();
    }
    assert(is_clean_key("Summary"@) && field_of("Summary"@) == Field::Summary) by {
        lemma_reveal_keys();
    }
    assert(is_clean_key("Description-Content-Type"@) && field_of("Description-Content-Type"@) == Field::DescriptionContentType) by {
        lemma_reveal_keys();
    }
    assert(is_clean_key("Home-page"@) && field_of("Home-page"@) == Field::HomePage) by {
        lemma_reveal_keys();
    }
    assert(is_clean_key("Download-URL"@) && field_of("Download-URL"@) == Field::DownloadUrl) by {
        lemma_reveal_keys();
    }
    assert(is_clean_key("Author"@) && field_of("Author"@) == Field::Author) by {
        lemma_reveal_keys();
    }
    assert(is_clean_key("Author-email"@) && field_of("Author-email"@) == Field::AuthorEmail) by {
        lemma_reveal_keys();
    }
    assert(is_clean_key("Maintainer"@) && field_of("Maintainer"@) == Field::Maintainer) by {
        lemma_reveal_keys();
    }
    assert(is_clean_key("Maintainer-email"@) && field_of("Maintainer-email"@) == Field::MaintainerEmail) by {
        lemma_reveal_keys();
    }
    assert(is_clean_key("License"@) && field_of("License"@) == Field::License) by {
        lemma_reveal_keys();
    }
    assert(is_clean_key("Keywords"@) && field_of("Keywords"@) == Field::Keywords) by {
        lemma_reveal_keys();
    }
    assert(is_clean_key("Requires-Python"@) && field_of("Requires-Python"@) == Field::RequiresPython) by {
        lemma_reveal_keys();
    }
    assert(is_clean_key("Classifier"@) && field_of("Classifier"@) == Field::Classifier) by {
        lemma_reveal_keys();
    }
    assert(is_clean_key("Platform"@) && field_of("Platform"@) == Field::Platform) by {
        lemma_reveal_keys();
    }
    assert(is_clean_key("Requires-Dist"@) && field_of("Requires-Dist"@) == Field::RequiresDist) by {
        lemma_reveal_keys();
    }
    assert(is_clean_key("Requires-External"@) && field_of("Requires-External"@) == Field::RequiresExternal) by {
        lemma_reveal_keys();
    }
    assert(is_clean_key("Project-URL"@) && field_of("Project-URL"@) == Field::ProjectUrl) by {
        lemma_reveal_keys();
    }
    assert(is_clean_key("Provides-Extra"@) && field_of("Provides-Extra"@) == Field::ProvidesExtra) by {
        lemma_reveal_keys();
    }
    assert(is_clean_key("Provides-Dist"@) && field_of("Provides-Dist"@) == Field::ProvidesDist) by {
        lemma_reveal_keys();
    }
    assert(is_clean_key("Obsoletes-Dist"@) && field_of("Obsoletes-Dist"@) == Field::ObsoletesDist) by {
        lemma_reveal_keys();
    }
}

/// What the keys of the format are, letter by letter.
proof fn lemma_reveal_keys()
    ensures
        "Metadata-Version"@.len() == 16,
        "Metadata-Version"@ == seq!['M', 'e', 't', 'a', 'd', 'a', 't', 'a', '-', 'V', 'e', 'r', 's', 'i', 'o', 'n'],
        "Name"@.len() == 4,
        "Name"@ == seq!['N', 'a', 'm', 'e'],
        "Version"@.len() == 7,
        "Version"@ == seq!['V', 'e', 'r', 's', 'i', 'o', 'n'],
        "Summary"@.len() == 7,
        "Summary"@ == seq!['S', 'u', 'm', 'm', 'a', 'r', 'y'],
        "Description"@.len() == 11,
        "Description"@ == seq!['D', 'e', 's', 'c', 'r', 'i', 'p', 't', 'i', 'o', 'n'],
        "Description-Content-Type"@.len() == 24,
        "Description-Content-Type"@ == seq!['D', 'e', 's', 'c', 'r', 'i', 'p', 't', 'i', 'o', 'n', '-', 'C', 'o', 'n', 't', 'e', 'n', 't', '-', 'T', 'y', 'p', 'e'],
        "Home-page"@.len() == 9,
        "Home-page"@ == seq!['H', 'o', 'm', 'e', '-', 'p', 'a', 'g', 'e'],
        "Home-Page"@.len() == 9,
        "Home-Page"@ == seq!['H', 'o', 'm', 'e', '-', 'P', 'a', 'g', 'e'],
        "Download-URL"@.len() == 12,
        "Download-URL"@ == seq!['D', 'o', 'w', 'n', 'l', 'o', 'a', 'd', '-', 'U', 'R', 'L'],
        "Author"@.len() == 6,
        "Author"@ == seq!['A', 'u', 't', 'h', 'o', 'r'],
        "Author-email"@.len() == 12,
        "Author-email"@ == seq!['A', 'u', 't', 'h', 'o', 'r', '-', 'e', 'm', 'a', 'i', 'l'],
        "Author-Email"@.len() == 12,
        "Author-Email"@ == seq!['A', 'u', 't', 'h', 'o', 'r', '-', 'E', 'm', 'a', 'i', 'l'],
        "Maintainer"@.len() == 10,
        "Maintainer"@ == seq!['M', 'a', 'i', 'n', 't', 'a', 'i', 'n', 'e', 'r'],
        "Maintainer-email"@.len() == 16,
        "Maintainer-email"@ == seq!['M', 'a', 'i', 'n', 't', 'a', 'i', 'n', 'e', 'r', '-', 'e', 'm', 'a', 'i', 'l'],
        "Maintainer-Email"@.len() == 16,
        "Maintainer-Email"@ == seq!['M', 'a', 'i', 'n', 't', 'a', 'i', 'n', 'e', 'r', '-', 'E', 'm', 'a', 'i', 'l'],
        "License"@.len() == 7,
        "License"@ == seq!['L', 'i', 'c', 'e', 'n', 's', 'e'],
        "Keywords"@.len() == 8,
        "Keywords"@ == seq!['K', 'e', 'y', 'w', 'o', 'r', 'd', 's'],
        "Requires-Python"@.len() == 15,
        "Requires-Python"@ == seq!['R', 'e', 'q', 'u', 'i', 'r', 'e', 's', '-', 'P', 'y', 't', 'h', 'o', 'n'],
        "Classifier"@.len() == 10,
        "Classifier"@ == seq!['C', 'l', 'a', 's', 's', 'i', 'f', 'i', 'e', 'r'],
        "Platform"@.len() == 8,
        "Platform"@ == seq!['P', 'l', 'a', 't', 'f', 'o', 'r', 'm'],
        "Requires-Dist"@.len() == 13,
        "Requires-Dist"@ == seq!['R', 'e', 'q', 'u', 'i', 'r', 'e', 's', '-', 'D', 'i', 's', 't'],
        "Requires-External"@.len() == 17,
        "Requires-External"@ == seq!['R', 'e', 'q', 'u', 'i', 'r', 'e', 's', '-', 'E', 'x', 't', 'e', 'r', 'n', 'a', 'l'],
        "Project-URL"@.len() == 11,
        "Project-URL"@ == seq!['P', 'r', 'o', 'j', 'e', 'c', 't', '-', 'U', 'R', 'L'],
        "Provides-Extra"@.len() == 14,
        "Provides-Extra"@ == seq!['P', 'r', 'o', 'v', 'i', 'd', 'e', 's', '-', 'E', 'x', 't', 'r', 'a'],
        "Provides-Dist"@.len() == 13,
        "Provides-Dist"@ == seq!['P', 'r', 'o', 'v', 'i', 'd', 'e', 's', '-', 'D', 'i', 's', 't'],
        "Obsoletes-Dist"@.len() == 14,
        "Obsoletes-Dist"@ == seq!['O', 'b', 's', 'o', 'l', 'e', 't', 'e', 's', '-', 'D', 'i', 's', 't'],
{
    reveal_strlit("Metadata-Version");
    assert("Metadata-Version"@ == seq!['M', 'e', 't', 'a', 'd', 'a', 't', 'a', '-', 'V', 'e', 'r', 's', 'i', 'o', 'n']);
    reveal_strlit("Name");
    assert("Name"@ == seq!['N', 'a', 'm', 'e']);
    reveal_strlit("Version");
    assert("Version"@ == seq!['V', 'e', 'r', 's', 'i', 'o', 'n']);
    reveal_strlit("Summary");
    assert("Summary"@ == seq!['S', 'u', 'm', 'm', 'a', 'r', 'y']);
    reveal_strlit("Description");
    assert("Description"@ == seq!['D', 'e', 's', 'c', 'r', 'i', 'p', 't', 'i', 'o', 'n']);
    reveal_strlit("Description-Content-Type");
    assert("Description-Content-Type"@ == seq!['D', 'e', 's', 'c', 'r', 'i', 'p', 't', 'i', 'o', 'n', '-', 'C', 'o', 'n', 't', 'e', 'n', 't', '-', 'T', 'y', 'p', 'e']);
    reveal_strlit("Home-page");
    assert("Home-page"@ == seq!['H', 'o', 'm', 'e', '-', 'p', 'a', 'g', 'e']);
    reveal_strlit("Home-Page");
    assert("Home-Page"@ == seq!['H', 'o', 'm', 'e', '-', 'P', 'a', 'g', 'e']);
    reveal_strlit("Download-URL");
    assert("Download-URL"@ == seq!['D', 'o', 'w', 'n', 'l', 'o', 'a', 'd', '-', 'U', 'R', 'L']);
    reveal_strlit("Author");
    assert("Author"@ == seq!['A', 'u', 't', 'h', 'o', 'r']);
    reveal_strlit("Author-email");
    assert("Author-email"@ == seq!['A', 'u', 't', 'h', 'o', 'r', '-', 'e', 'm', 'a', 'i', 'l']);
    reveal_strlit("Author-Email");
    assert("Author-Email"@ == seq!['A', 'u', 't', 'h', 'o', 'r', '-', 'E', 'm', 'a', 'i', 'l']);
    reveal_strlit("Maintainer");
    assert("Maintainer"@ == seq!['M', 'a', 'i', 'n', 't', 'a', 'i', 'n', 'e', 'r']);
    reveal_strlit("Maintainer-email");
    assert("Maintainer-email"@ == seq!['M', 'a', 'i', 'n', 't', 'a', 'i', 'n', 'e', 'r', '-', 'e', 'm', 'a', 'i', 'l']);
    reveal_strlit("Maintainer-Email");
    assert("Maintainer-Email"@ == seq!['M', 'a', 'i', 'n', 't', 'a', 'i', 'n', 'e', 'r', '-', 'E', 'm', 'a', 'i', 'l']);
    reveal_strlit("License");
    assert("License"@ == seq!['L', 'i', 'c', 'e', 'n', 's', 'e']);
    reveal_strlit("Keywords");
    assert("Keywords"@ == seq!['K', 'e', 'y', 'w', 'o', 'r', 'd', 's']);
    reveal_strlit("Requires-Python");
    assert("Requires-Python"@ == seq!['R', 'e', 'q', 'u', 'i', 'r', 'e', 's', '-', 'P', 'y', 't', 'h', 'o', 'n']);
    reveal_strlit("Classifier");
    assert("Classifier"@ == seq!['C', 'l', 'a', 's', 's', 'i', 'f', 'i', 'e', 'r']);
    reveal_strlit("Platform");
    assert("Platform"@ == seq!['P', 'l', 'a', 't', 'f', 'o', 'r', 'm']);
    reveal_strlit("Requires-Dist");
    assert("Requires-Dist"@ == seq!['R', 'e', 'q', 'u', 'i', 'r', 'e', 's', '-', 'D', 'i', 's', 't']);
    reveal_strlit("Requires-External");
    assert("Requires-External"@ == seq!['R', 'e', 'q', 'u', 'i', 'r', 'e', 's', '-', 'E', 'x', 't', 'e', 'r', 'n', 'a', 'l']);
    reveal_strlit("Project-URL");
    assert("Project-URL"@ == seq!['P', 'r', 'o', 'j', 'e', 'c', 't', '-', 'U', 'R', 'L']);
    reveal_strlit("Provides-Extra");
    assert("Provides-Extra"@ == seq!['P', 'r', 'o', 'v', 'i', 'd', 'e', 's', '-', 'E', 'x', 't', 'r', 'a']);
    reveal_strlit("Provides-Dist");
    assert("Provides-Dist"@ == seq!['P', 'r', 'o', 'v', 'i', 'd', 'e', 's', '-', 'D', 'i', 's', 't']);
    reveal_strlit("Obsoletes-Dist");
    assert("Obsoletes-Dist"@ == seq!['O', 'b', 's', 'o', 'l', 'e', 't', 'e', 's', '-', 'D', 'i', 's', 't']);
}

/// Taking two blocks in turn is taking them as one.
pub proof fn lemma_fields_concat(m: MetadataView, a: Seq<Header>, b: Seq<Header>)
    ensures
        with_fields(m, a + b) == with_fields(with_fields(m, a), b),
    decreases a.len(),
{
    if a.len() == 0 {
        assert(a + b == b);
    } else {
        assert((a + b)[0] == a[0]);
        assert((a + b).drop_first() == a.drop_first() + b);
        lemma_fields_concat(with_field(m, a[0].0, a[0].1), a.drop_first(), b);
    }
}

/// A header that may be absent is taken where it is present.
pub proof fn lemma_fields_single(m: MetadataView, k: Seq<char>, o: Option<Seq<char>>)
    ensures
        with_fields(m, single(k, o)) == match o {
            Some(v) => with_field(m, k, v),
            None => m,
        },
{
    reveal_with_fuel(with_fields, 2);
    match o {
        Some(v) => {
            assert(single(k, o).drop_first() == Seq::<Header>::empty());
        },
        None => {},
    }
}

/// The values of a block under the key of a multi-valued field join the
/// values of that field.
pub proof fn lemma_fields_multi(m: MetadataView, k: Seq<char>, values: Seq<Seq<char>>, f: Field)
    requires
        field_of(k) == f,
        is_multi(f),
    ensures
        with_fields(m, multi(k, values)) == with_multi(m, f, multi_of(m, f) + values),
    decreases values.len(),
{
    let hs = multi(k, values);
    if values.len() == 0 {
        assert(multi_of(m, f) + values == multi_of(m, f));
    } else {
        let next = with_field(m, k, values[0]);
        assert(hs[0] == (k, values[0]));
        assert(hs.drop_first() == multi(k, values.drop_first()));
        lemma_fields_multi(next, k, values.drop_first(), f);
        assert(multi_of(m, f).push(values[0]) + values.drop_first() == multi_of(m, f) + values);
    }
}

/// Headers with keys that the format does not know go to the unknown headers.
pub proof fn lemma_fields_unknown(m: MetadataView, hs: Seq<Header>)
    requires
        all_keys(hs, |k: Seq<char>| is_extra_key(k)),
    ensures
        with_fields(m, hs) == (MetadataView {
            extra_headers: with_extras(m.extra_headers, hs),
            ..m
        }),
    decreases hs.len(),
{
    if hs.len() > 0 {
        let h = hs[0];
        let rest = hs.drop_first();
        assert(is_extra_key(h.0));
        let next = MetadataView { extra_headers: with_extra(m.extra_headers, h.0, h.1), ..m };
        assert forall|i: int| 0 <= i < rest.len() implies is_extra_key((#[trigger] rest[i]).0) by {
            assert(rest[i] == hs[i + 1]);
        }
        lemma_fields_unknown(next, rest);
    }
}

/// The headers of a canonical metadata are well folded.
pub proof fn lemma_headers_well_folded(m: MetadataView)
    requires
        is_canonical_metadata(m),
    ensures
        all_well_folded(headers(m)),
{
    lemma_metadata_words();
    let s0 = single("Metadata-Version"@, Some(m.metadata_version));
    assert(all_well_folded(s0));
    let s1 = single("Name"@, Some(m.name));
    assert(all_well_folded(s1));
    let s2 = single("Version"@, Some(m.version));
    assert(all_well_folded(s2));
    let s3 = single("Summary"@, m.summary);
    assert(all_well_folded(s3));
    let s4 = single("Description-Content-Type"@, m.description_content_type);
    assert(all_well_folded(s4));
    let s5 = single("Home-page"@, m.home_page);
    assert(all_well_folded(s5));
    let s6 = single("Download-URL"@, m.download_url);
    assert(all_well_folded(s6));
    let s7 = single("Author"@, m.author);
    assert(all_well_folded(s7));
    let s8 = single("Author-email"@, m.author_email);
    assert(all_well_folded(s8));
    let s9 = single("Maintainer"@, m.maintainer);
    assert(all_well_folded(s9));
    let s10 = single("Maintainer-email"@, m.maintainer_email);
    assert(all_well_folded(s10));
    let s11 = single("License"@, m.license);
    assert(all_well_folded(s11));
    let s12 = single("Keywords"@, m.keywords);
    assert(all_well_folded(s12));
    let s13 = single("Requires-Python"@, m.requires_python);
    assert(all_well_folded(s13));
    let s14 = multi("Classifier"@, m.classifiers);
    lemma_all_well_folded_multi("Classifier"@, m.classifiers);
    let s15 = multi("Platform"@, m.platform);
    lemma_all_well_folded_multi("Platform"@, m.platform);
    let s16 = multi("Requires-Dist"@, m.requires_dist);
    lemma_all_well_folded_multi("Requires-Dist"@, m.requires_dist);
    let s17 = multi("Requires-External"@, m.requires_external);
    lemma_all_well_folded_multi("Requires-External"@, m.requires_external);
    let s18 = multi("Project-URL"@, m.project_url);
    lemma_all_well_folded_multi("Project-URL"@, m.project_url);
    let s19 = multi("Provides-Extra"@, m.provides_extra);
    lemma_all_well_folded_multi("Provides-Extra"@, m.provides_extra);
    let s20 = multi("Provides-Dist"@, m.provides_dist);
    lemma_all_well_folded_multi("Provides-Dist"@, m.provides_dist);
    let s21 = multi("Obsoletes-Dist"@, m.obsoletes_dist);
    lemma_all_well_folded_multi("Obsoletes-Dist"@, m.obsoletes_dist);
    let s22 = extra_headers(m.extra_headers);
    lemma_extra_headers_well_folded(m.extra_headers, |k: Seq<char>| is_extra_key(k));
    lemma_all_well_folded_concat(s0, s1);
    lemma_all_well_folded_concat(s0 + s1, s2);
    lemma_all_well_folded_concat(s0 + s1 + s2, s3);
    lemma_all_well_folded_concat(s0 + s1 + s2 + s3, s4);
    lemma_all_well_folded_concat(s0 + s1 + s2 + s3 + s4, s5);
    lemma_all_well_folded_concat(s0 + s1 + s2 + s3 + s4 + s5, s6);
    lemma_all_well_folded_concat(s0 + s1 + s2 + s3 + s4 + s5 + s6, s7);
    lemma_all_well_folded_concat(s0 + s1 + s2 + s3 + s4 + s5 + s6 + s7, s8);
    lemma_all_well_folded_concat(s0 + s1 + s2 + s3 + s4 + s5 + s6 + s7 + s8, s9);
    lemma_all_well_folded_concat(s0 + s1 + s2 + s3 + s4 + s5 + s6 + s7 + s8 + s9, s10);
    lemma_all_well_folded_concat(s0 + s1 + s2 + s3 + s4 + s5 + s6 + s7 + s8 + s9 + s10, s11);
    lemma_all_well_folded_concat(s0 + s1 + s2 + s3 + s4 + s5 + s6 + s7 + s8 + s9 + s10 + s11, s12);
    lemma_all_well_folded_concat(s0 + s1 + s2 + s3 + s4 + s5 + s6 + s7 + s8 + s9 + s10 + s11 + s12, s13);
    lemma_all_well_folded_concat(s0 + s1 + s2 + s3 + s4 + s5 + s6 + s7 + s8 + s9 + s10 + s11 + s12 + s13, s14);
    lemma_all_well_folded_concat(s0 + s1 + s2 + s3 + s4 + s5 + s6 + s7 + s8 + s9 + s10 + s11 + s12 + s13 + s14, s15);
    lemma_all_well_folded_concat(s0 + s1 + s2 + s3 + s4 + s5 + s6 + s7 + s8 + s9 + s10 + s11 + s12 + s13 + s14 + s15, s16);
    lemma_all_well_folded_concat(s0 + s1 + s2 + s3 + s4 + s5 + s6 + s7 + s8 + s9 + s10 + s11 + s12 + s13 + s14 + s15 + s16, s17);
    lemma_all_well_folded_concat(s0 + s1 + s2 + s3 + s4 + s5 + s6 + s7 + s8 + s9 + s10 + s11 + s12 + s13 + s14 + s15 + s16 + s17, s18);
    lemma_all_well_folded_concat(s0 + s1 + s2 + s3 + s4 + s5 + s6 + s7 + s8 + s9 + s10 + s11 + s12 + s13 + s14 + s15 + s16 + s17 + s18, s19);
    lemma_all_well_folded_concat(s0 + s1 + s2 + s3 + s4 + s5 + s6 + s7 + s8 + s9 + s10 + s11 + s12 + s13 + s14 + s15 + s16 + s17 + s18 + s19, s20);
    lemma_all_well_folded_concat(s0 + s1 + s2 + s3 + s4 + s5 + s6 + s7 + s8 + s9 + s10 + s11 + s12 + s13 + s14 + s15 + s16 + s17 + s18 + s19 + s20, s21);
    lemma_all_well_folded_concat(s0 + s1 + s2 + s3 + s4 + s5 + s6 + s7 + s8 + s9 + s10 + s11 + s12 + s13 + s14 + s15 + s16 + s17 + s18 + s19 + s20 + s21, s22);
}

/// Taken in order, the headers of a canonical metadata give it back, but
/// for its description.
#[verifier::rlimit(60)]
pub proof fn lemma_headers_taken(m: MetadataView)
    requires
        is_canonical_metadata(m),
    ensures
        with_fields(empty_metadata(), headers(m)) == (MetadataView { description: None, ..m }),
{
    lemma_metadata_words();
    let a = empty_metadata();
    let s0 = single("Metadata-Version"@, Some(m.metadata_version));
    let a0 = MetadataView { metadata_version: m.metadata_version, ..a };
    lemma_fields_single(a, "Metadata-Version"@, Some(m.metadata_version));
    assert(with_fields(a, s0) == a0);
    assert(with_fields(a, s0) == a0);
    let s1 = single("Name"@, Some(m.name));
    let a1 = MetadataView { name: m.name, ..a0 };
    lemma_fields_single(a0, "Name"@, Some(m.name));
    assert(with_fields(a0, s1) == a1);
    lemma_fields_concat(a, s0, s1);
    assert(with_fields(a, s0 + s1) == a1);
    let s2 = single("Version"@, Some(m.version));
    let a2 = MetadataView { version: m.version, ..a1 };
    lemma_fields_single(a1, "Version"@, Some(m.version));
    assert(with_fields(a1, s2) == a2);
    lemma_fields_concat(a, s0 + s1, s2);
    assert(with_fields(a, s0 + s1 + s2) == a2);
    let s3 = single("Summary"@, m.summary);
    let a3 = MetadataView { summary: m.summary, ..a2 };
    lemma_fields_single(a2, "Summary"@, m.summary);
    assert(with_fields(a2, s3) == a3);
    lemma_fields_concat(a, s0 + s1 + s2, s3);
    assert(with_fields(a, s0 + s1 + s2 + s3) == a3);
    let s4 = single("Description-Content-Type"@, m.description_content_type);
    let a4 = MetadataView { description_content_type: m.description_content_type, ..a3 };
    lemma_fields_single(a3, "Description-Content-Type"@, m.description_content_type);
    assert(with_fields(a3, s4) == a4);
    lemma_fields_concat(a, s0 + s1 + s2 + s3, s4);
    assert(with_fields(a, s0 + s1 + s2 + s3 + s4) == a4);
    let s5 = single("Home-page"@, m.home_page);
    let a5 = MetadataView { home_page: m.home_page, ..a4 };
    lemma_fields_single(a4, "Home-page"@, m.home_page);
    assert(with_fields(a4, s5) == a5);
    lemma_fields_concat(a, s0 + s1 + s2 + s3 + s4, s5);
    assert(with_fields(a, s0 + s1 + s2 + s3 + s4 + s5) == a5);
    let s6 = single("Download-URL"@, m.download_url);
    let a6 = MetadataView { download_url: m.download_url, ..a5 };
    lemma_fields_single(a5, "Download-URL"@, m.download_url);
    assert(with_fields(a5, s6) == a6);
    lemma_fields_concat(a, s0 + s1 + s2 + s3 + s4 + s5, s6);
    assert(with_fields(a, s0 + s1 + s2 + s3 + s4 + s5 + s6) == a6);
    let s7 = single("Author"@, m.author);
    let a7 = MetadataView { author: m.author, ..a6 };
    lemma_fields_single(a6, "Author"@, m.author);
    assert(with_fields(a6, s7) == a7);
    lemma_fields_concat(a, s0 + s1 + s2 + s3 + s4 + s5 + s6, s7);
    assert(with_fields(a, s0 + s1 + s2 + s3 + s4 + s5 + s6 + s7) == a7);
    let s8 = single("Author-email"@, m.author_email);
    let a8 = MetadataView { author_email: m.author_email, ..a7 };
    lemma_fields_single(a7, "Author-email"@, m.author_email);
    assert(with_fields(a7, s8) == a8);
    lemma_fields_concat(a, s0 + s1 + s2 + s3 + s4 + s5 + s6 + s7, s8);
    assert(with_fields(a, s0 + s1 + s2 + s3 + s4 + s5 + s6 + s7 + s8) == a8);
    let s9 = single("Maintainer"@, m.maintainer);
    let a9 = MetadataView { maintainer: m.maintainer, ..a8 };
    lemma_fields_single(a8, "Maintainer"@, m.maintainer);
    assert(with_fields(a8, s9) == a9);
    lemma_fields_concat(a, s0 + s1 + s2 + s3 + s4 + s5 + s6 + s7 + s8, s9);
    assert(with_fields(a, s0 + s1 + s2 + s3 + s4 + s5 + s6 + s7 + s8 + s9) == a9);
    let s10 = single("Maintainer-email"@, m.maintainer_email);
    let a10 = MetadataView { maintainer_email: m.maintainer_email, ..a9 };
    lemma_fields_single(a9, "Maintainer-email"@, m.maintainer_email);
    assert(with_fields(a9, s10) == a10);
    lemma_fields_concat(a, s0 + s1 + s2 + s3 + s4 + s5 + s6 + s7 + s8 + s9, s10);
    assert(with_fields(a, s0 + s1 + s2 + s3 + s4 + s5 + s6 + s7 + s8 + s9 + s10) == a10);
    let s11 = single("License"@, m.license);
    let a11 = MetadataView { license: m.license, ..a10 };
    lemma_fields_single(a10, "License"@, m.license);
    assert(with_fields(a10, s11) == a11);
    lemma_fields_concat(a, s0 + s1 + s2 + s3 + s4 + s5 + s6 + s7 + s8 + s9 + s10, s11);
    assert(with_fields(a, s0 + s1 + s2 + s3 + s4 + s5 + s6 + s7 + s8 + s9 + s10 + s11) == a11);
    let s12 = single("Keywords"@, m.keywords);
    let a12 = MetadataView { keywords: m.keywords, ..a11 };
    lemma_fields_single(a11, "Keywords"@, m.keywords);
    assert(with_fields(a11, s12) == a12);
    lemma_fields_concat(a, s0 + s1 + s2 + s3 + s4 + s5 + s6 + s7 + s8 + s9 + s10 + s11, s12);
    assert(with_fields(a, s0 + s1 + s2 + s3 + s4 + s5 + s6 + s7 + s8 + s9 + s10 + s11 + s12) == a12);
    let s13 = single("Requires-Python"@, m.requires_python);
    let a13 = MetadataView { requires_python: m.requires_python, ..a12 };
    lemma_fields_single(a12, "Requires-Python"@, m.requires_python);
    assert(with_fields(a12, s13) == a13);
    lemma_fields_concat(a, s0 + s1 + s2 + s3 + s4 + s5 + s6 + s7 + s8 + s9 + s10 + s11 + s12, s13);
    assert(with_fields(a, s0 + s1 + s2 + s3 + s4 + s5 + s6 + s7 + s8 + s9 + s10 + s11 + s12 + s13) == a13);
    let s14 = multi("Classifier"@, m.classifiers);
    let a14 = MetadataView { classifiers: m.classifiers, ..a13 };
    lemma_fields_multi(a13, "Classifier"@, m.classifiers, Field::Classifier);
    assert(Seq::<Seq<char>>::empty() + m.classifiers == m.classifiers);
    assert(with_fields(a13, s14) == a14);
    lemma_fields_concat(a, s0 + s1 + s2 + s3 + s4 + s5 + s6 + s7 + s8 + s9 + s10 + s11 + s12 + s13, s14);
    assert(with_fields(a, s0 + s1 + s2 + s3 + s4 + s5 + s6 + s7 + s8 + s9 + s10 + s11 + s12 + s13 + s14) == a14);
    let s15 = multi("Platform"@, m.platform);
    let a15 = MetadataView { platform: m.platform, ..a14 };
    lemma_fields_multi(a14, "Platform"@, m.platform, Field::Platform);
    assert(Seq::<Seq<char>>::empty() + m.platform == m.platform);
    assert(with_fields(a14, s15) == a15);
    lemma_fields_concat(a, s0 + s1 + s2 + s3 + s4 + s5 + s6 + s7 + s8 + s9 + s10 + s11 + s12 + s13 + s14, s15);
    assert(with_fields(a, s0 + s1 + s2 + s3 + s4 + s5 + s6 + s7 + s8 + s9 + s10 + s11 + s12 + s13 + s14 + s15) == a15);
    let s16 = multi("Requires-Dist"@, m.requires_dist);
    let a16 = MetadataView { requires_dist: m.requires_dist, ..a15 };
    lemma_fields_multi(a15, "Requires-Dist"@, m.requires_dist, Field::RequiresDist);
    assert(Seq::<Seq<char>>::empty() + m.requires_dist == m.requires_dist);
    assert(with_fields(a15, s16) == a16);
    lemma_fields_concat(a, s0 + s1 + s2 + s3 + s4 + s5 + s6 + s7 + s8 + s9 + s10 + s11 + s12 + s13 + s14 + s15, s16);
    assert(with_fields(a, s0 + s1 + s2 + s3 + s4 + s5 + s6 + s7 + s8 + s9 + s10 + s11 + s12 + s13 + s14 + s15 + s16) == a16);
    let s17 = multi("Requires-External"@, m.requires_external);
    let a17 = MetadataView { requires_external: m.requires_external, ..a16 };
    lemma_fields_multi(a16, "Requires-External"@, m.requires_external, Field::RequiresExternal);
    assert(Seq::<Seq<char>>::empty() + m.requires_external == m.requires_external);
    assert(with_fields(a16, s17) == a17);
    lemma_fields_concat(a, s0 + s1 + s2 + s3 + s4 + s5 + s6 + s7 + s8 + s9 + s10 + s11 + s12 + s13 + s14 + s15 + s16, s17);
    assert(with_fields(a, s0 + s1 + s2 + s3 + s4 + s5 + s6 + s7 + s8 + s9 + s10 + s11 + s12 + s13 + s14 + s15 + s16 + s17) == a17);
    let s18 = multi("Project-URL"@, m.project_url);
    let a18 = MetadataView { project_url: m.project_url, ..a17 };
    lemma_fields_multi(a17, "Project-URL"@, m.project_url, Field::ProjectUrl);
    assert(Seq::<Seq<char>>::empty() + m.project_url == m.project_url);
    assert(with_fields(a17, s18) == a18);
    lemma_fields_concat(a, s0 + s1 + s2 + s3 + s4 + s5 + s6 + s7 + s8 + s9 + s10 + s11 + s12 + s13 + s14 + s15 + s16 + s17, s18);
    assert(with_fields(a, s0 + s1 + s2 + s3 + s4 + s5 + s6 + s7 + s8 + s9 + s10 + s11 + s12 + s13 + s14 + s15 + s16 + s17 + s18) == a18);
    let s19 = multi("Provides-Extra"@, m.provides_extra);
    let a19 = MetadataView { provides_extra: m.provides_extra, ..a18 };
    lemma_fields_multi(a18, "Provides-Extra"@, m.provides_extra, Field::ProvidesExtra);
    assert(Seq::<Seq<char>>::empty() + m.provides_extra == m.provides_extra);
    assert(with_fields(a18, s19) == a19);
    lemma_fields_concat(a, s0 + s1 + s2 + s3 + s4 + s5 + s6 + s7 + s8 + s9 + s10 + s11 + s12 + s13 + s14 + s15 + s16 + s17 + s18, s19);
    assert(with_fields(a, s0 + s1 + s2 + s3 + s4 + s5 + s6 + s7 + s8 + s9 + s10 + s11 + s12 + s13 + s14 + s15 + s16 + s17 + s18 + s19) == a19);
    let s20 = multi("Provides-Dist"@, m.provides_dist);
    let a20 = MetadataView { provides_dist: m.provides_dist, ..a19 };
    lemma_fields_multi(a19, "Provides-Dist"@, m.provides_dist, Field::ProvidesDist);
    assert(Seq::<Seq<char>>::empty() + m.provides_dist == m.provides_dist);
    assert(with_fields(a19, s20) == a20);
    lemma_fields_concat(a, s0 + s1 + s2 + s3 + s4 + s5 + s6 + s7 + s8 + s9 + s10 + s11 + s12 + s13 + s14 + s15 + s16 + s17 + s18 + s19, s20);
    assert(with_fields(a, s0 + s1 + s2 + s3 + s4 + s5 + s6 + s7 + s8 + s9 + s10 + s11 + s12 + s13 + s14 + s15 + s16 + s17 + s18 + s19 + s20) == a20);
    let s21 = multi("Obsoletes-Dist"@, m.obsoletes_dist);
    let a21 = MetadataView { obsoletes_dist: m.obsoletes_dist, ..a20 };
    lemma_fields_multi(a20, "Obsoletes-Dist"@, m.obsoletes_dist, Field::ObsoletesDist);
    assert(Seq::<Seq<char>>::empty() + m.obsoletes_dist == m.obsoletes_dist);
    assert(with_fields(a20, s21) == a21);
    lemma_fields_concat(a, s0 + s1 + s2 + s3 + s4 + s5 + s6 + s7 + s8 + s9 + s10 + s11 + s12 + s13 + s14 + s15 + s16 + s17 + s18 + s19 + s20, s21);
    assert(with_fields(a, s0 + s1 + s2 + s3 + s4 + s5 + s6 + s7 + s8 + s9 + s10 + s11 + s12 + s13 + s14 + s15 + s16 + s17 + s18 + s19 + s20 + s21) == a21);
    let s22 = extra_headers(m.extra_headers);
    let a22 = MetadataView { extra_headers: m.extra_headers, ..a21 };
    lemma_extra_headers_well_folded(m.extra_headers, |k: Seq<char>| is_extra_key(k));
    lemma_fields_unknown(a21, s22);
    assert(a21.extra_headers + m.extra_headers == m.extra_headers);
    lemma_with_extras_all(a21.extra_headers, m.extra_headers);
    assert(with_fields(a21, s22) == a22);
    lemma_fields_concat(a, s0 + s1 + s2 + s3 + s4 + s5 + s6 + s7 + s8 + s9 + s10 + s11 + s12 + s13 + s14 + s15 + s16 + s17 + s18 + s19 + s20 + s21, s22);
    assert(with_fields(a, s0 + s1 + s2 + s3 + s4 + s5 + s6 + s7 + s8 + s9 + s10 + s11 + s12 + s13 + s14 + s15 + s16 + s17 + s18 + s19 + s20 + s21 + s22) == a22);
    assert(a22 == (MetadataView { description: None, ..m }));
}

/// The parts joined, where the first is set apart.
pub proof fn lemma_join_first(first: Seq<char>, rest: Seq<Seq<char>>, sep: Seq<char>)
    requires
        rest.len() > 0,
    ensures
        join(seq![first] + rest, sep) == first + sep + join(rest, sep),
    decreases rest.len(),
{
    let all = seq![first] + rest;
    assert(all.drop_last() == seq![first] + rest.drop_last());
    assert(all.last() == rest.last());
    if rest.len() == 1 {
        assert(all.drop_last() == seq![first]);
        assert(join(seq![first], sep) == first);
        assert(join(rest, sep) == rest[0]);
    } else {
        lemma_join_first(first, rest.drop_last(), sep);
        assert(first + sep + join(rest.drop_last(), sep) + sep + rest.last() == first + sep + (
            join(rest.drop_last(), sep) + sep + rest.last()));
    }
}

/// The lines of a text without a carriage return before a line feed, and
/// without a line feed at its end, joined by line feeds, are the text.
pub proof fn lemma_join_lines(s: Seq<char>)
    requires
        s.len() > 0 ==> s.last() != '\n',
        forall|i: int| 0 <= i < s.len() - 1 && #[trigger] s[i] == '\r' ==> s[i + 1] != '\n',
    ensures
        join(lines(s), seq!['\n']) == s,
        s.len() > 0 ==> lines(s).len() > 0,
    decreases s.len(),
{
    if s.len() > 0 {
        lemma_index_of(s, '\n');
        let i = index_of(s, '\n') as int;
        if i >= s.len() {
            assert(lines(s) == seq![s]);
            assert(join(seq![s], seq!['\n']) == s);
        } else {
            let first = s.take(i);
            let rest = s.skip(i + 1);
            assert(i < s.len() - 1);
            assert(rest.last() == s.last());
            assert forall|k: int| 0 <= k < rest.len() - 1 && #[trigger] rest[k] == '\r' implies rest[k
                + 1] != '\n' by {
                assert(rest[k] == s[k + i + 1]);
                assert(rest[k + 1] == s[k + i + 2]);
            }
            lemma_join_lines(rest);
            if first.len() > 0 && first.last() == '\r' {
                assert(s[i - 1] == '\r');
            }
            assert(strip_cr(first) == first);
            lemma_join_first(first, lines(rest), seq!['\n']);
            assert(first + seq!['\n'] + rest == s);
        }
    }
}

/// The text that is written from a canonical metadata reads back as that
/// metadata.
pub proof fn lemma_metadata_roundtrip(m: MetadataView)
    requires
        is_canonical_metadata(m),
    ensures
        parsed(serialized(m)) == m,
{
    let hs = headers(m);
    let tail = body_text(m.description);
    let text = serialized(m);
    lemma_headers_well_folded(m);
    lemma_lines_of_rows(hs, tail);
    let head = header_rows(hs);
    let ls = lines(text);
    assert(ls == head + lines(tail));
    lemma_header_rows_filled(hs);
    lemma_fold_rows(hs, None);
    assert(Seq::<Header>::empty() + hs == hs);
    lemma_headers_taken(m);
    match m.description {
        None => {
            assert(lines(tail) == Seq::<Seq<char>>::empty());
            assert(ls == head);
            lemma_first_blank_is(ls, head.len() as int);
            assert(ls.take(head.len() as int) == head);
            assert(body_lines(ls) == Seq::<Seq<char>>::empty());
            assert(join(body_lines(ls), seq!['\n']) == Seq::<char>::empty());
            assert(trimmed(Seq::<char>::empty()) == Seq::<char>::empty());
        },
        Some(d) => {
            let none = Seq::<char>::empty();
            assert(tail == none + seq!['\n'] + d);
            lemma_lines_first(none, d);
            assert(strip_cr(none) == none);
            assert(lines(tail) == seq![none] + lines(d));
            assert forall|j: int| 0 <= j < head.len() implies ls[j].len() > 0 by {
                assert(ls[j] == head[j]);
            }
            assert(ls[head.len() as int] == none);
            lemma_first_blank_is(ls, head.len() as int);
            assert(ls.take(head.len() as int) == head);
            assert(ls.skip(head.len() as int + 1) == lines(d));
            assert(body_lines(ls) == lines(d));
            lemma_join_lines(d);
            lemma_trimmed_fixed(d);
        },
    }
}

/// Whether a value that may be absent has the property where it is present.
pub open spec fn option_is(o: Option<Seq<char>>, ok: spec_fn(Seq<char>) -> bool) -> bool {
    o matches Some(v) ==> ok(v)
}

/// Whether every value has the property.
pub open spec fn values_are(s: Seq<Seq<char>>, ok: spec_fn(Seq<char>) -> bool) -> bool {
    forall|j: int| 0 <= j < s.len() ==> ok(#[trigger] s[j])
}

/// Whether every value of a known header field has the property.
pub open spec fn fields_are(m: MetadataView, ok: spec_fn(Seq<char>) -> bool) -> bool {
    &&& ok(m.metadata_version)
    &&& ok(m.name)
    &&& ok(m.version)
    &&& option_is(m.summary, ok)
    &&& option_is(m.description_content_type, ok)
    &&& option_is(m.home_page, ok)
    &&& option_is(m.download_url, ok)
    &&& option_is(m.author, ok)
    &&& option_is(m.author_email, ok)
    &&& option_is(m.maintainer, ok)
    &&& option_is(m.maintainer_email, ok)
    &&& option_is(m.license, ok)
    &&& option_is(m.keywords, ok)
    &&& option_is(m.requires_python, ok)
    &&& values_are(m.classifiers, ok)
    &&& values_are(m.platform, ok)
    &&& values_are(m.requires_dist, ok)
    &&& values_are(m.requires_external, ok)
    &&& values_are(m.project_url, ok)
    &&& values_are(m.provides_extra, ok)
    &&& values_are(m.provides_dist, ok)
    &&& values_are(m.obsoletes_dist, ok)
}

/// A metadata as reading gives it: well folded values, and neat unknown
/// headers.
pub open spec fn is_neat_metadata(m: MetadataView) -> bool {
    &&& fields_are(m, |v: Seq<char>| is_well_folded(v))
    &&& neat_extras(m.extra_headers, |k: Seq<char>| is_extra_key(k))
    &&& (m.description matches Some(d) ==> is_trimmed(d))
}

/// One more header with a clean key and a well folded value leaves a neat
/// metadata neat.
pub proof fn lemma_with_field_neat(m: MetadataView, k: Seq<char>, v: Seq<char>)
    requires
        is_neat_metadata(m),
        is_clean_key(k),
        is_well_folded(v),
    ensures
        is_neat_metadata(with_field(m, k, v)),
{
    let next = with_field(m, k, v);
    let ok = |v: Seq<char>| is_well_folded(v);
    assert(ok(v));
    match field_of(k) {
        Field::Classifier => {
            assert forall|j: int| 0 <= j < next.classifiers.len() implies ok(#[trigger] next.classifiers[j]) by {
                if j < m.classifiers.len() {
                    assert(next.classifiers[j] == m.classifiers[j]);
                }
            }
        },
        Field::Platform => {
            assert forall|j: int| 0 <= j < next.platform.len() implies ok(#[trigger] next.platform[j]) by {
                if j < m.platform.len() {
                    assert(next.platform[j] == m.platform[j]);
                }
            }
        },
        Field::RequiresDist => {
            assert forall|j: int| 0 <= j < next.requires_dist.len() implies ok(#[trigger] next.requires_dist[j]) by {
                if j < m.requires_dist.len() {
                    assert(next.requires_dist[j] == m.requires_dist[j]);
                }
            }
        },
        Field::RequiresExternal => {
            assert forall|j: int| 0 <= j < next.requires_external.len() implies ok(#[trigger] next.requires_external[j]) by {
                if j < m.requires_external.len() {
                    assert(next.requires_external[j] == m.requires_external[j]);
                }
            }
        },
        Field::ProjectUrl => {
            assert forall|j: int| 0 <= j < next.project_url.len() implies ok(#[trigger] next.project_url[j]) by {
                if j < m.project_url.len() {
                    assert(next.project_url[j] == m.project_url[j]);
                }
            }
        },
        Field::ProvidesExtra => {
            assert forall|j: int| 0 <= j < next.provides_extra.len() implies ok(#[trigger] next.provides_extra[j]) by {
                if j < m.provides_extra.len() {
                    assert(next.provides_extra[j] == m.provides_extra[j]);
                }
            }
        },
        Field::ProvidesDist => {
            assert forall|j: int| 0 <= j < next.provides_dist.len() implies ok(#[trigger] next.provides_dist[j]) by {
                if j < m.provides_dist.len() {
                    assert(next.provides_dist[j] == m.provides_dist[j]);
                }
            }
        },
        Field::ObsoletesDist => {
            assert forall|j: int| 0 <= j < next.obsoletes_dist.len() implies ok(#[trigger] next.obsoletes_dist[j]) by {
                if j < m.obsoletes_dist.len() {
                    assert(next.obsoletes_dist[j] == m.obsoletes_dist[j]);
                }
            }
        },
        Field::Unknown => {
            lemma_with_extra_neat(m.extra_headers, k, v, |k: Seq<char>| is_extra_key(k));
        },
        _ => {},
    }
}

/// A block of well folded headers leaves a neat metadata neat.
pub proof fn lemma_with_fields_neat(m: MetadataView, hs: Seq<Header>)
    requires
        is_neat_metadata(m),
        all_well_folded(hs),
    ensures
        is_neat_metadata(with_fields(m, hs)),
    decreases hs.len(),
{
    if hs.len() > 0 {
        let h = hs[0];
        let rest = hs.drop_first();
        lemma_with_field_neat(m, h.0, h.1);
        assert forall|i: int| 0 <= i < rest.len() implies is_clean_key((#[trigger] rest[i]).0)
            && is_well_folded(rest[i].1) by {
            assert(rest[i] == hs[i + 1]);
        }
        lemma_with_fields_neat(with_field(m, h.0, h.1), rest);
    }
}

/// What is read from a `METADATA` text is neat.
pub proof fn lemma_parsed_neat(text: Seq<char>)
    ensures
        is_neat_metadata(parsed(text)),
{
    let ls = lines(text);
    lemma_lines_lack_line_feed(text);
    let head = ls.take(first_blank(ls) as int);
    lemma_first_blank_bound(ls);
    assert forall|i: int| 0 <= i < head.len() implies lacks(#[trigger] head[i], '\n') by {
        assert(head[i] == ls[i]);
    }
    lemma_folded_headers_well_folded(head, None);
    let e = empty_metadata();
    assert(is_neat_metadata(e));
    lemma_with_fields_neat(e, crate::headers::folded_headers(head, None));
    lemma_trimmed(join(body_lines(ls), seq!['\n']), '\n');
}

/// The first empty line lies within the lines or at their end.
pub proof fn lemma_first_blank_bound(ls: Seq<Seq<char>>)
    ensures
        first_blank(ls) <= ls.len(),
    decreases ls.len(),
{
    if ls.len() > 0 && ls[0].len() > 0 {
        lemma_first_blank_bound(ls.drop_first());
    }
}

/// A neat metadata with a name and a version and with a stable description
/// is canonical.
pub proof fn lemma_neat_canonical(m: MetadataView)
    requires
        is_neat_metadata(m),
        m.name.len() > 0,
        m.version.len() > 0,
        is_stable_description(m.description),
    ensures
        is_canonical_metadata(m),
{
    let a = |v: Seq<char>| is_well_folded(v);
    assert forall|j: int| 0 <= j < m.classifiers.len() implies is_well_folded(#[trigger] m.classifiers[j]) by {
        assert(a(m.classifiers[j]));
    }
    assert forall|j: int| 0 <= j < m.platform.len() implies is_well_folded(#[trigger] m.platform[j]) by {
        assert(a(m.platform[j]));
    }
    assert forall|j: int| 0 <= j < m.requires_dist.len() implies is_well_folded(#[trigger] m.requires_dist[j]) by {
        assert(a(m.requires_dist[j]));
    }
    assert forall|j: int| 0 <= j < m.requires_external.len() implies is_well_folded(#[trigger] m.requires_external[j]) by {
        assert(a(m.requires_external[j]));
    }
    assert forall|j: int| 0 <= j < m.project_url.len() implies is_well_folded(#[trigger] m.project_url[j]) by {
        assert(a(m.project_url[j]));
    }
    assert forall|j: int| 0 <= j < m.provides_extra.len() implies is_well_folded(#[trigger] m.provides_extra[j]) by {
        assert(a(m.provides_extra[j]));
    }
    assert forall|j: int| 0 <= j < m.provides_dist.len() implies is_well_folded(#[trigger] m.provides_dist[j]) by {
        assert(a(m.provides_dist[j]));
    }
    assert forall|j: int| 0 <= j < m.obsoletes_dist.len() implies is_well_folded(#[trigger] m.obsoletes_dist[j]) by {
        assert(a(m.obsoletes_dist[j]));
    }
}

/// Reading, writing and reading again: where a `METADATA` text states a
/// name and a version and the description that is read is stable, the text
/// that is written from what was read reads back as the same metadata,
/// folded values and all.
pub proof fn lemma_metadata_parse_roundtrip(text: Seq<char>)
    requires
        parsed(text).name.len() > 0,
        parsed(text).version.len() > 0,
        is_stable_description(parsed(text).description),
    ensures
        parsed(serialized(parsed(text))) == parsed(text),
{
    lemma_parsed_neat(text);
    lemma_neat_canonical(parsed(text));
    lemma_metadata_roundtrip(parsed(text));
}

} // verus!
