//! The `METADATA` file of a wheel: headers in the style of RFC 822, followed
//! by an optional free-form description.

use vstd::prelude::*;
use crate::error::MetadataError;
use crate::header_laws::distinct_keys;
use crate::header_laws::lemma_with_entry_distinct;
use crate::header_laws::lemma_with_extra_distinct;
use crate::headers::extra_headers;
use crate::headers::extra_keys;
use crate::headers::extras_of;
use crate::headers::find_extra;
use crate::headers::set_extra;
use crate::headers::with_entry;
use crate::headers::folded_headers;
use crate::headers::header_text;
use crate::headers::headers_of;
use crate::headers::lemma_header_text_concat;
use crate::headers::multi;
use crate::headers::push_extra;
use crate::headers::read_folded;
use crate::headers::single;
use crate::headers::with_extra;
use crate::headers::write_extras;
use crate::headers::write_multi;
use crate::headers::write_single;
use crate::headers::Extras;
use crate::headers::Header;
use crate::text::chars_of;
use crate::text::index_of;
use crate::text::is_text;
use crate::text::join;
use crate::text::lines;
use crate::text::lines_of;
use crate::text::optional;
use crate::text::push_chars;
use crate::text::push_string;
use crate::text::push_text;
use crate::text::string_of;
use crate::text::strings;
use crate::text::texts;
use crate::text::trim_chars;
use crate::text::trimmed;

verus! {

/// The core metadata of a distribution.
#[derive(Debug, Clone)]
pub struct Metadata {
    pub metadata_version: String,
    pub name: String,
    pub version: String,
    pub summary: Option<String>,
    pub description: Option<String>,
    pub description_content_type: Option<String>,
    pub home_page: Option<String>,
    pub download_url: Option<String>,
    pub author: Option<String>,
    pub author_email: Option<String>,
    pub maintainer: Option<String>,
    pub maintainer_email: Option<String>,
    pub license: Option<String>,
    pub keywords: Option<String>,
    pub requires_python: Option<String>,
    pub classifiers: Vec<String>,
    pub platform: Vec<String>,
    pub requires_dist: Vec<String>,
    pub requires_external: Vec<String>,
    pub project_url: Vec<String>,
    pub provides_extra: Vec<String>,
    pub provides_dist: Vec<String>,
    pub obsoletes_dist: Vec<String>,
    /// Headers that the format does not know, in the order in which their keys
    /// first came, each with its values in order.
    pub extra_headers: Vec<(String, Vec<String>)>,
}

/// What a `Metadata` holds, as plain texts.
pub struct MetadataView {
    pub metadata_version: Seq<char>,
    pub name: Seq<char>,
    pub version: Seq<char>,
    pub summary: Option<Seq<char>>,
    pub description: Option<Seq<char>>,
    pub description_content_type: Option<Seq<char>>,
    pub home_page: Option<Seq<char>>,
    pub download_url: Option<Seq<char>>,
    pub author: Option<Seq<char>>,
    pub author_email: Option<Seq<char>>,
    pub maintainer: Option<Seq<char>>,
    pub maintainer_email: Option<Seq<char>>,
    pub license: Option<Seq<char>>,
    pub keywords: Option<Seq<char>>,
    pub requires_python: Option<Seq<char>>,
    pub classifiers: Seq<Seq<char>>,
    pub platform: Seq<Seq<char>>,
    pub requires_dist: Seq<Seq<char>>,
    pub requires_external: Seq<Seq<char>>,
    pub project_url: Seq<Seq<char>>,
    pub provides_extra: Seq<Seq<char>>,
    pub provides_dist: Seq<Seq<char>>,
    pub obsoletes_dist: Seq<Seq<char>>,
    pub extra_headers: Extras,
}

impl View for Metadata {
    type V = MetadataView;

    open spec fn view(&self) -> MetadataView {
        MetadataView {
            metadata_version: self.metadata_version@,
            name: self.name@,
            version: self.version@,
            summary: optional(self.summary),
            description: optional(self.description),
            description_content_type: optional(self.description_content_type),
            home_page: optional(self.home_page),
            download_url: optional(self.download_url),
            author: optional(self.author),
            author_email: optional(self.author_email),
            maintainer: optional(self.maintainer),
            maintainer_email: optional(self.maintainer_email),
            license: optional(self.license),
            keywords: optional(self.keywords),
            requires_python: optional(self.requires_python),
            classifiers: strings(self.classifiers@),
            platform: strings(self.platform@),
            requires_dist: strings(self.requires_dist@),
            requires_external: strings(self.requires_external@),
            project_url: strings(self.project_url@),
            provides_extra: strings(self.provides_extra@),
            provides_dist: strings(self.provides_dist@),
            obsoletes_dist: strings(self.obsoletes_dist@),
            extra_headers: extras_of(self.extra_headers@),
        }
    }
}

/// The fields that a header key can name.
pub enum Field {
    MetadataVersion,
    Name,
    Version,
    Summary,
    Description,
    DescriptionContentType,
    HomePage,
    DownloadUrl,
    Author,
    AuthorEmail,
    Maintainer,
    MaintainerEmail,
    License,
    Keywords,
    RequiresPython,
    Classifier,
    Platform,
    RequiresDist,
    RequiresExternal,
    ProjectUrl,
    ProvidesExtra,
    ProvidesDist,
    ObsoletesDist,
    Unknown,
}

/// The field that a key names. Three keys have a second spelling; every other
/// key is matched letter for letter.
pub open spec fn field_of(key: Seq<char>) -> Field {
    if key == "Metadata-Version"@ {
        Field::MetadataVersion
    } else if key == "Name"@ {
        Field::Name
    } else if key == "Version"@ {
        Field::Version
    } else if key == "Summary"@ {
        Field::Summary
    } else if key == "Description"@ {
        Field::Description
    } else if key == "Description-Content-Type"@ {
        Field::DescriptionContentType
    } else if key == "Home-page"@ || key == "Home-Page"@ {
        Field::HomePage
    } else if key == "Download-URL"@ {
        Field::DownloadUrl
    } else if key == "Author"@ {
        Field::Author
    } else if key == "Author-email"@ || key == "Author-Email"@ {
        Field::AuthorEmail
    } else if key == "Maintainer"@ {
        Field::Maintainer
    } else if key == "Maintainer-email"@ || key == "Maintainer-Email"@ {
        Field::MaintainerEmail
    } else if key == "License"@ {
        Field::License
    } else if key == "Keywords"@ {
        Field::Keywords
    } else if key == "Requires-Python"@ {
        Field::RequiresPython
    } else if key == "Classifier"@ {
        Field::Classifier
    } else if key == "Platform"@ {
        Field::Platform
    } else if key == "Requires-Dist"@ {
        Field::RequiresDist
    } else if key == "Requires-External"@ {
        Field::RequiresExternal
    } else if key == "Project-URL"@ {
        Field::ProjectUrl
    } else if key == "Provides-Extra"@ {
        Field::ProvidesExtra
    } else if key == "Provides-Dist"@ {
        Field::ProvidesDist
    } else if key == "Obsoletes-Dist"@ {
        Field::ObsoletesDist
    } else {
        Field::Unknown
    }
}

/// The metadata with nothing in it.
pub open spec fn empty_metadata() -> MetadataView {
    MetadataView {
        metadata_version: Seq::empty(),
        name: Seq::empty(),
        version: Seq::empty(),
        summary: None,
        description: None,
        description_content_type: None,
        home_page: None,
        download_url: None,
        author: None,
        author_email: None,
        maintainer: None,
        maintainer_email: None,
        license: None,
        keywords: None,
        requires_python: None,
        classifiers: Seq::empty(),
        platform: Seq::empty(),
        requires_dist: Seq::empty(),
        requires_external: Seq::empty(),
        project_url: Seq::empty(),
        provides_extra: Seq::empty(),
        provides_dist: Seq::empty(),
        obsoletes_dist: Seq::empty(),
        extra_headers: Seq::empty(),
    }
}

/// The metadata after one header: a single-valued field takes the value, a
/// multi-valued field gains it, an unknown key goes to the extra headers.
pub open spec fn with_field(m: MetadataView, key: Seq<char>, value: Seq<char>) -> MetadataView {
    match field_of(key) {
        Field::MetadataVersion => MetadataView { metadata_version: value, ..m },
        Field::Name => MetadataView { name: value, ..m },
        Field::Version => MetadataView { version: value, ..m },
        Field::Summary => MetadataView { summary: Some(value), ..m },
        Field::Description => MetadataView { description: Some(value), ..m },
        Field::DescriptionContentType => MetadataView {
            description_content_type: Some(value),
            ..m
        },
        Field::HomePage => MetadataView { home_page: Some(value), ..m },
        Field::DownloadUrl => MetadataView { download_url: Some(value), ..m },
        Field::Author => MetadataView { author: Some(value), ..m },
        Field::AuthorEmail => MetadataView { author_email: Some(value), ..m },
        Field::Maintainer => MetadataView { maintainer: Some(value), ..m },
        Field::MaintainerEmail => MetadataView { maintainer_email: Some(value), ..m },
        Field::License => MetadataView { license: Some(value), ..m },
        Field::Keywords => MetadataView { keywords: Some(value), ..m },
        Field::RequiresPython => MetadataView { requires_python: Some(value), ..m },
        Field::Classifier => MetadataView { classifiers: m.classifiers.push(value), ..m },
        Field::Platform => MetadataView { platform: m.platform.push(value), ..m },
        Field::RequiresDist => MetadataView { requires_dist: m.requires_dist.push(value), ..m },
        Field::RequiresExternal => MetadataView {
            requires_external: m.requires_external.push(value),
            ..m
        },
        Field::ProjectUrl => MetadataView { project_url: m.project_url.push(value), ..m },
        Field::ProvidesExtra => MetadataView { provides_extra: m.provides_extra.push(value), ..m },
        Field::ProvidesDist => MetadataView { provides_dist: m.provides_dist.push(value), ..m },
        Field::ObsoletesDist => MetadataView { obsoletes_dist: m.obsoletes_dist.push(value), ..m },
        Field::Unknown => MetadataView {
            extra_headers: with_extra(m.extra_headers, key, value),
            ..m
        },
    }
}

/// The fields that hold a list of values.
pub open spec fn is_multi(f: Field) -> bool {
    f is Classifier || f is Platform || f is RequiresDist || f is RequiresExternal || f
        is ProjectUrl || f is ProvidesExtra || f is ProvidesDist || f is ObsoletesDist
}

/// The values of a multi-valued field.
pub open spec fn multi_of(m: MetadataView, f: Field) -> Seq<Seq<char>> {
    match f {
        Field::Classifier => m.classifiers,
        Field::Platform => m.platform,
        Field::RequiresDist => m.requires_dist,
        Field::RequiresExternal => m.requires_external,
        Field::ProjectUrl => m.project_url,
        Field::ProvidesExtra => m.provides_extra,
        Field::ProvidesDist => m.provides_dist,
        Field::ObsoletesDist => m.obsoletes_dist,
        _ => Seq::empty(),
    }
}

/// The metadata with other values in a multi-valued field.
pub open spec fn with_multi(m: MetadataView, f: Field, values: Seq<Seq<char>>) -> MetadataView {
    match f {
        Field::Classifier => MetadataView { classifiers: values, ..m },
        Field::Platform => MetadataView { platform: values, ..m },
        Field::RequiresDist => MetadataView { requires_dist: values, ..m },
        Field::RequiresExternal => MetadataView { requires_external: values, ..m },
        Field::ProjectUrl => MetadataView { project_url: values, ..m },
        Field::ProvidesExtra => MetadataView { provides_extra: values, ..m },
        Field::ProvidesDist => MetadataView { provides_dist: values, ..m },
        Field::ObsoletesDist => MetadataView { obsoletes_dist: values, ..m },
        _ => m,
    }
}

/// The value of a field: one text, or a list of texts.
#[derive(Debug, Clone)]
pub enum FieldValue {
    Single(String),
    Many(Vec<String>),
}

/// What a `FieldValue` holds, as plain texts.
pub enum FieldValueView {
    Single(Seq<char>),
    Many(Seq<Seq<char>>),
}

impl View for FieldValue {
    type V = FieldValueView;

    open spec fn view(&self) -> FieldValueView {
        match self {
            FieldValue::Single(v) => FieldValueView::Single(v@),
            FieldValue::Many(vs) => FieldValueView::Many(strings(vs@)),
        }
    }
}

/// One text as the value of a field, where it is present.
pub open spec fn single_value(o: Option<Seq<char>>) -> Option<FieldValueView> {
    match o {
        Some(v) => Some(FieldValueView::Single(v)),
        None => None,
    }
}

/// The value that the metadata has under a key. A multi-valued field gives
/// its list, also where it is empty. A single-valued field gives its text
/// where it is set. An unknown key gives the values of its header: the one
/// text where there is one, else the list.
pub open spec fn field_value(m: MetadataView, key: Seq<char>) -> Option<FieldValueView> {
    match field_of(key) {
        Field::MetadataVersion => Some(FieldValueView::Single(m.metadata_version)),
        Field::Name => Some(FieldValueView::Single(m.name)),
        Field::Version => Some(FieldValueView::Single(m.version)),
        Field::Summary => single_value(m.summary),
        Field::Description => single_value(m.description),
        Field::DescriptionContentType => single_value(m.description_content_type),
        Field::HomePage => single_value(m.home_page),
        Field::DownloadUrl => single_value(m.download_url),
        Field::Author => single_value(m.author),
        Field::AuthorEmail => single_value(m.author_email),
        Field::Maintainer => single_value(m.maintainer),
        Field::MaintainerEmail => single_value(m.maintainer_email),
        Field::License => single_value(m.license),
        Field::Keywords => single_value(m.keywords),
        Field::RequiresPython => single_value(m.requires_python),
        Field::Unknown => {
            let i = index_of(extra_keys(m.extra_headers), key) as int;
            if i >= m.extra_headers.len() {
                None
            } else if m.extra_headers[i].1.len() == 1 {
                Some(FieldValueView::Single(m.extra_headers[i].1[0]))
            } else {
                Some(FieldValueView::Many(m.extra_headers[i].1))
            }
        },
        f => Some(FieldValueView::Many(multi_of(m, f))),
    }
}

/// The metadata with a value set under a key. One text sets a single-valued
/// field, a list sets a multi-valued field; every other pairing of key and
/// value goes to the unknown headers, where it replaces the values of the key.
pub open spec fn with_value(m: MetadataView, key: Seq<char>, value: FieldValueView) -> MetadataView {
    match value {
        FieldValueView::Many(values) => if is_multi(field_of(key)) {
            with_multi(m, field_of(key), values)
        } else {
            MetadataView { extra_headers: with_entry(m.extra_headers, key, values), ..m }
        },
        FieldValueView::Single(v) => if is_multi(field_of(key)) || field_of(key) is Unknown {
            MetadataView { extra_headers: with_entry(m.extra_headers, key, seq![v]), ..m }
        } else {
            with_field(m, key, v)
        },
    }
}

/// The metadata after a block of headers, taken in order.
pub open spec fn with_fields(m: MetadataView, headers: Seq<Header>) -> MetadataView
    decreases headers.len(),
{
    if headers.len() == 0 {
        m
    } else {
        with_fields(with_field(m, headers[0].0, headers[0].1), headers.drop_first())
    }
}

/// The index of the first empty line, or the number of lines where none is empty.
pub open spec fn first_blank(lines: Seq<Seq<char>>) -> nat
    decreases lines.len(),
{
    if lines.len() == 0 || lines[0].len() == 0 {
        0
    } else {
        1 + first_blank(lines.drop_first())
    }
}

/// The lines after the first empty line.
pub open spec fn body_lines(lines: Seq<Seq<char>>) -> Seq<Seq<char>> {
    if first_blank(lines) < lines.len() {
        lines.skip(first_blank(lines) as int + 1)
    } else {
        Seq::empty()
    }
}

/// What a `METADATA` text says, before the required fields are checked: the
/// headers are the lines before the first empty line, read with folding; the
/// lines after it, joined by line feeds and trimmed, are the description and
/// replace one given as a header, unless nothing is left of them.
pub open spec fn parsed(text: Seq<char>) -> MetadataView {
    let ls = lines(text);
    let m = with_fields(
        empty_metadata(),
        folded_headers(ls.take(first_blank(ls) as int), None),
    );
    let body = trimmed(join(body_lines(ls), seq!['\n']));
    if body.len() > 0 {
        MetadataView { description: Some(body), ..m }
    } else {
        m
    }
}

/// The headers that a `METADATA` file states: the three required fields, the
/// single-valued fields that are present, the multi-valued fields, the extra
/// headers.
pub open spec fn headers(m: MetadataView) -> Seq<Header> {
    single("Metadata-Version"@, Some(m.metadata_version)) + single("Name"@, Some(m.name)) + single(
        "Version"@,
        Some(m.version),
    ) + single("Summary"@, m.summary) + single(
        "Description-Content-Type"@,
        m.description_content_type,
    ) + single("Home-page"@, m.home_page) + single("Download-URL"@, m.download_url) + single(
        "Author"@,
        m.author,
    ) + single("Author-email"@, m.author_email) + single("Maintainer"@, m.maintainer) + single(
        "Maintainer-email"@,
        m.maintainer_email,
    ) + single("License"@, m.license) + single("Keywords"@, m.keywords) + single(
        "Requires-Python"@,
        m.requires_python,
    ) + multi("Classifier"@, m.classifiers) + multi("Platform"@, m.platform) + multi(
        "Requires-Dist"@,
        m.requires_dist,
    ) + multi("Requires-External"@, m.requires_external) + multi("Project-URL"@, m.project_url)
        + multi("Provides-Extra"@, m.provides_extra) + multi("Provides-Dist"@, m.provides_dist)
        + multi("Obsoletes-Dist"@, m.obsoletes_dist) + extra_headers(m.extra_headers)
}

/// What follows the headers: an empty line and the description, if there is one.
pub open spec fn body_text(description: Option<Seq<char>>) -> Seq<char> {
    match description {
        Some(d) => seq!['\n'] + d,
        None => Seq::empty(),
    }
}

/// The text of a `METADATA` file.
pub open spec fn serialized(m: MetadataView) -> Seq<char> {
    header_text(headers(m)) + body_text(m.description)
}

/// An index before which no line is empty, and at which one is or the lines
/// end, is the first empty line.
pub proof fn lemma_first_blank_is(lines: Seq<Seq<char>>, i: int)
    requires
        0 <= i <= lines.len(),
        forall|j: int| 0 <= j < i ==> lines[j].len() > 0,
        i < lines.len() ==> lines[i].len() == 0,
    ensures
        first_blank(lines) == i,
    decreases lines.len(),
{
    if lines.len() == 0 || lines[0].len() == 0 {
    } else {
        let rest = lines.drop_first();
        assert forall|j: int| 0 <= j < i - 1 implies rest[j].len() > 0 by {
            assert(rest[j] == lines[j + 1]);
        }
        lemma_first_blank_is(rest, i - 1);
    }
}

/// The field that `key` names.
pub(crate) fn classify(key: &Vec<char>) -> (f: Field)
    ensures
        f == field_of(key@),
{
    if is_text(key, "Metadata-Version") {
        Field::MetadataVersion
    } else if is_text(key, "Name") {
        Field::Name
    } else if is_text(key, "Version") {
        Field::Version
    } else if is_text(key, "Summary") {
        Field::Summary
    } else if is_text(key, "Description") {
        Field::Description
    } else if is_text(key, "Description-Content-Type") {
        Field::DescriptionContentType
    } else if is_text(key, "Home-page") || is_text(key, "Home-Page") {
        Field::HomePage
    } else if is_text(key, "Download-URL") {
        Field::DownloadUrl
    } else if is_text(key, "Author") {
        Field::Author
    } else if is_text(key, "Author-email") || is_text(key, "Author-Email") {
        Field::AuthorEmail
    } else if is_text(key, "Maintainer") {
        Field::Maintainer
    } else if is_text(key, "Maintainer-email") || is_text(key, "Maintainer-Email") {
        Field::MaintainerEmail
    } else if is_text(key, "License") {
        Field::License
    } else if is_text(key, "Keywords") {
        Field::Keywords
    } else if is_text(key, "Requires-Python") {
        Field::RequiresPython
    } else if is_text(key, "Classifier") {
        Field::Classifier
    } else if is_text(key, "Platform") {
        Field::Platform
    } else if is_text(key, "Requires-Dist") {
        Field::RequiresDist
    } else if is_text(key, "Requires-External") {
        Field::RequiresExternal
    } else if is_text(key, "Project-URL") {
        Field::ProjectUrl
    } else if is_text(key, "Provides-Extra") {
        Field::ProvidesExtra
    } else if is_text(key, "Provides-Dist") {
        Field::ProvidesDist
    } else if is_text(key, "Obsoletes-Dist") {
        Field::ObsoletesDist
    } else {
        Field::Unknown
    }
}

/// A copy of a text that may be absent, as the value of a field.
fn one_value(o: &Option<String>) -> (r: Option<FieldValue>)
    ensures
        match r {
            Some(value) => single_value(optional(*o)) == Some(value@),
            None => single_value(optional(*o)) is None,
        },
{
    match o {
        Some(s) => Some(FieldValue::Single(s.clone())),
        None => None,
    }
}

/// A copy of a list of texts.
fn copy_strings(list: &Vec<String>) -> (r: Vec<String>)
    ensures
        strings(r@) == strings(list@),
{
    let mut r: Vec<String> = Vec::new();
    let mut i: usize = 0;
    while i < list.len()
        invariant
            i <= list@.len(),
            strings(r@) == strings(list@).take(i as int),
        decreases list@.len() - i,
    {
        let ghost before = strings(r@);
        let s = list[i].clone();
        r.push(s);
        assert(strings(r@) == before.push(s@));
        i += 1;
    }
    assert(strings(list@).take(list@.len() as int) == strings(list@));
    r
}

impl Default for Metadata {
    fn default() -> (m: Self)
        ensures
            m@ == empty_metadata(),
    {
        let m = Metadata {
            metadata_version: String::new(),
            name: String::new(),
            version: String::new(),
            summary: None,
            description: None,
            description_content_type: None,
            home_page: None,
            download_url: None,
            author: None,
            author_email: None,
            maintainer: None,
            maintainer_email: None,
            license: None,
            keywords: None,
            requires_python: None,
            classifiers: Vec::new(),
            platform: Vec::new(),
            requires_dist: Vec::new(),
            requires_external: Vec::new(),
            project_url: Vec::new(),
            provides_extra: Vec::new(),
            provides_dist: Vec::new(),
            obsoletes_dist: Vec::new(),
            extra_headers: Vec::new(),
        };
        assert(strings(Seq::<String>::empty()) == Seq::<Seq<char>>::empty());
        assert(extras_of(Seq::<(String, Vec<String>)>::empty()) == Seq::<
            (Seq<char>, Seq<Seq<char>>),
        >::empty());
        assert(m@.classifiers == Seq::<Seq<char>>::empty());
        assert(m@.extra_headers == empty_metadata().extra_headers);
        m
    }
}

impl Metadata {
    /// Takes one header into the metadata.
    fn set(&mut self, key: &Vec<char>, value: String)
        ensures
            final(self)@ == with_field(old(self)@, key@, value@),
            distinct_keys(old(self)@.extra_headers) ==> distinct_keys(final(self)@.extra_headers),
    {
        proof {
            if distinct_keys(self@.extra_headers) {
                lemma_with_extra_distinct(self@.extra_headers, key@, value@);
            }
        }
        match classify(key) {
            Field::MetadataVersion => {
                self.metadata_version = value;
            },
            Field::Name => {
                self.name = value;
            },
            Field::Version => {
                self.version = value;
            },
            Field::Summary => {
                self.summary = Some(value);
            },
            Field::Description => {
                self.description = Some(value);
            },
            Field::DescriptionContentType => {
                self.description_content_type = Some(value);
            },
            Field::HomePage => {
                self.home_page = Some(value);
            },
            Field::DownloadUrl => {
                self.download_url = Some(value);
            },
            Field::Author => {
                self.author = Some(value);
            },
            Field::AuthorEmail => {
                self.author_email = Some(value);
            },
            Field::Maintainer => {
                self.maintainer = Some(value);
            },
            Field::MaintainerEmail => {
                self.maintainer_email = Some(value);
            },
            Field::License => {
                self.license = Some(value);
            },
            Field::Keywords => {
                self.keywords = Some(value);
            },
            Field::RequiresPython => {
                self.requires_python = Some(value);
            },
            Field::Classifier => {
                push_string(&mut self.classifiers, value);
            },
            Field::Platform => {
                push_string(&mut self.platform, value);
            },
            Field::RequiresDist => {
                push_string(&mut self.requires_dist, value);
            },
            Field::RequiresExternal => {
                push_string(&mut self.requires_external, value);
            },
            Field::ProjectUrl => {
                push_string(&mut self.project_url, value);
            },
            Field::ProvidesExtra => {
                push_string(&mut self.provides_extra, value);
            },
            Field::ProvidesDist => {
                push_string(&mut self.provides_dist, value);
            },
            Field::ObsoletesDist => {
                push_string(&mut self.obsoletes_dist, value);
            },
            Field::Unknown => {
                push_extra(&mut self.extra_headers, string_of(key), value);
            },
        }
    }

    /// Takes the header `key: value` into the metadata; never fails. The
    /// keys of the unknown headers stay distinct.
    pub fn set_field(&mut self, key: &str, value: &str) -> (r: Result<(), MetadataError>)
        ensures
            r is Ok,
            final(self)@ == with_field(old(self)@, key@, value@),
            distinct_keys(old(self)@.extra_headers) ==> distinct_keys(final(self)@.extra_headers),
    {
        let k = chars_of(key);
        self.set(&k, value.to_owned());
        Ok(())
    }

    /// The value of the field that `key` names, if it has one.
    pub fn get(&self, key: &str) -> (r: Option<FieldValue>)
        ensures
            match r {
                Some(value) => field_value(self@, key@) == Some(value@),
                None => field_value(self@, key@) is None,
            },
    {
        let k = chars_of(key);
        match classify(&k) {
            Field::MetadataVersion => Some(FieldValue::Single(self.metadata_version.clone())),
            Field::Name => Some(FieldValue::Single(self.name.clone())),
            Field::Version => Some(FieldValue::Single(self.version.clone())),
            Field::Summary => one_value(&self.summary),
            Field::Description => one_value(&self.description),
            Field::DescriptionContentType => one_value(&self.description_content_type),
            Field::HomePage => one_value(&self.home_page),
            Field::DownloadUrl => one_value(&self.download_url),
            Field::Author => one_value(&self.author),
            Field::AuthorEmail => one_value(&self.author_email),
            Field::Maintainer => one_value(&self.maintainer),
            Field::MaintainerEmail => one_value(&self.maintainer_email),
            Field::License => one_value(&self.license),
            Field::Keywords => one_value(&self.keywords),
            Field::RequiresPython => one_value(&self.requires_python),
            Field::Classifier => Some(FieldValue::Many(copy_strings(&self.classifiers))),
            Field::Platform => Some(FieldValue::Many(copy_strings(&self.platform))),
            Field::RequiresDist => Some(FieldValue::Many(copy_strings(&self.requires_dist))),
            Field::RequiresExternal => Some(
                FieldValue::Many(copy_strings(&self.requires_external)),
            ),
            Field::ProjectUrl => Some(FieldValue::Many(copy_strings(&self.project_url))),
            Field::ProvidesExtra => Some(FieldValue::Many(copy_strings(&self.provides_extra))),
            Field::ProvidesDist => Some(FieldValue::Many(copy_strings(&self.provides_dist))),
            Field::ObsoletesDist => Some(FieldValue::Many(copy_strings(&self.obsoletes_dist))),
            Field::Unknown => {
                let wanted = key.to_owned();
                let i = find_extra(&self.extra_headers, &wanted);
                if i >= self.extra_headers.len() {
                    None
                } else if self.extra_headers[i].1.len() == 1 {
                    Some(FieldValue::Single(self.extra_headers[i].1[0].clone()))
                } else {
                    Some(FieldValue::Many(copy_strings(&self.extra_headers[i].1)))
                }
            },
        }
    }

    /// Sets a value under the key `key`. The keys of the unknown headers
    /// stay distinct.
    pub fn put(&mut self, key: &str, value: FieldValue)
        ensures
            final(self)@ == with_value(old(self)@, key@, value@),
            distinct_keys(old(self)@.extra_headers) ==> distinct_keys(final(self)@.extra_headers),
    {
        proof {
            if distinct_keys(self@.extra_headers) {
                match value@ {
                    FieldValueView::Many(values) => {
                        lemma_with_entry_distinct(self@.extra_headers, key@, values);
                    },
                    FieldValueView::Single(v) => {
                        lemma_with_entry_distinct(self@.extra_headers, key@, seq![v]);
                        lemma_with_extra_distinct(self@.extra_headers, key@, v);
                    },
                }
            }
        }
        let k = chars_of(key);
        let field = classify(&k);
        match value {
            FieldValue::Many(values) => {
                match field {
                    Field::Classifier => {
                        self.classifiers = values;
                    },
                    Field::Platform => {
                        self.platform = values;
                    },
                    Field::RequiresDist => {
                        self.requires_dist = values;
                    },
                    Field::RequiresExternal => {
                        self.requires_external = values;
                    },
                    Field::ProjectUrl => {
                        self.project_url = values;
                    },
                    Field::ProvidesExtra => {
                        self.provides_extra = values;
                    },
                    Field::ProvidesDist => {
                        self.provides_dist = values;
                    },
                    Field::ObsoletesDist => {
                        self.obsoletes_dist = values;
                    },
                    _ => {
                        set_extra(&mut self.extra_headers, key.to_owned(), values);
                    },
                }
            },
            FieldValue::Single(v) => {
                match field {
                    Field::Classifier | Field::Platform | Field::RequiresDist
                    | Field::RequiresExternal | Field::ProjectUrl | Field::ProvidesExtra
                    | Field::ProvidesDist | Field::ObsoletesDist | Field::Unknown => {
                        let mut values: Vec<String> = Vec::new();
                        values.push(v);
                        assert(strings(values@) == seq![v@]);
                        set_extra(&mut self.extra_headers, key.to_owned(), values);
                    },
                    _ => {
                        self.set(&k, v);
                    },
                }
            },
        }
    }

    /// Reads a `METADATA` text. Fails where the name is missing or empty, and
    /// else where the version is.
    pub fn parse(content: &str) -> (result: Result<Metadata, MetadataError>)
        ensures
            match result {
                Ok(m) => m@ == parsed(content@) && m@.name.len() > 0 && m@.version.len() > 0
                    && distinct_keys(m@.extra_headers),
                Err(MetadataError::MissingField(field)) => if parsed(content@).name.len() == 0 {
                    field@ == "Name"@
                } else {
                    parsed(content@).version.len() == 0 && field@ == "Version"@
                },
                Err(_) => false,
            },
    {
        let chars = chars_of(content);
        let ls = lines_of(&chars);
        let ghost all = texts(ls@);
        let mut blank: usize = 0;
        while blank < ls.len() && ls[blank].len() != 0
            invariant
                blank <= ls@.len(),
                all == texts(ls@),
                forall|j: int| 0 <= j < blank ==> all[j].len() > 0,
            decreases ls@.len() - blank,
        {
            blank += 1;
        }
        proof {
            lemma_first_blank_is(all, blank as int);
        }
        let found = read_folded(&ls, blank);
        let ghost hs = headers_of(found@);
        let mut m = Metadata::default();
        let mut i: usize = 0;
        assert(hs.skip(0) == hs);
        while i < found.len()
            invariant
                i <= found@.len(),
                hs == headers_of(found@),
                with_fields(empty_metadata(), hs) == with_fields(m@, hs.skip(i as int)),
            decreases found@.len() - i,
        {
            assert(hs.skip(i as int)[0] == (found@[i as int].0@, found@[i as int].1@));
            assert(hs.skip(i as int).drop_first() == hs.skip(i + 1));
            m.set(&found[i].0, string_of(&found[i].1));
            i += 1;
        }
        assert(hs.skip(found@.len() as int) == Seq::<Header>::empty());
        let mut body: Vec<char> = Vec::new();
        if blank < ls.len() {
            let first: usize = blank + 1;
            let mut j: usize = first;
            assert(all.subrange(first as int, j as int) == Seq::<Seq<char>>::empty());
            while j < ls.len()
                invariant
                    first <= j <= ls@.len(),
                    all == texts(ls@),
                    body@ == join(all.subrange(first as int, j as int), seq!['\n']),
                decreases ls@.len() - j,
            {
                let ghost done = all.subrange(first as int, j as int);
                let ghost next = all.subrange(first as int, j + 1);
                assert(next.drop_last() == done);
                assert(next.last() == ls@[j as int]@);
                if j > first {
                    body.push('\n');
                }
                push_chars(&mut body, &ls[j]);
                assert(body@ == join(next, seq!['\n']));
                j += 1;
            }
            assert(all.subrange(first as int, ls@.len() as int) == all.skip(first as int));
        }
        assert(body@ == join(body_lines(all), seq!['\n']));
        let description = trim_chars(&body);
        if description.len() > 0 {
            m.description = Some(string_of(&description));
        }
        assert(m@ == parsed(content@));
        proof {
            crate::metadata_laws::lemma_parsed_neat(content@);
        }
        if m.name.as_str().is_empty() {
            return Err(MetadataError::MissingField("Name".to_owned()));
        }
        if m.version.as_str().is_empty() {
            return Err(MetadataError::MissingField("Version".to_owned()));
        }
        Ok(m)
    }

    /// Writes the metadata as a `METADATA` text.
    pub fn serialize(&self) -> (out: String)
        ensures
            out@ == serialized(self@),
    {
        let ghost m = self@;
        let mut out = String::new();
        let ghost mut done: Seq<Header> = Seq::empty();
        assert(header_text(done) == Seq::<char>::empty());
        assert(out@ + header_text(done) == out@);
        let version = Some(self.metadata_version.clone());
        write_single(&mut out, "Metadata-Version", &version);
        proof {
            let block = single("Metadata-Version"@, Some(m.metadata_version));
            lemma_header_text_concat(done, block);
            assert(done + block == block);
            done = block;
        }
        let name = Some(self.name.clone());
        write_single(&mut out, "Name", &name);
        proof {
            let block = single("Name"@, Some(m.name));
            lemma_header_text_concat(done, block);
            done = done + block;
        }
        let version = Some(self.version.clone());
        write_single(&mut out, "Version", &version);
        proof {
            let block = single("Version"@, Some(m.version));
            lemma_header_text_concat(done, block);
            done = done + block;
        }
        write_single(&mut out, "Summary", &self.summary);
        proof {
            let block = single("Summary"@, m.summary);
            lemma_header_text_concat(done, block);
            done = done + block;
        }
        write_single(&mut out, "Description-Content-Type", &self.description_content_type);
        proof {
            let block = single("Description-Content-Type"@, m.description_content_type);
            lemma_header_text_concat(done, block);
            done = done + block;
        }
        write_single(&mut out, "Home-page", &self.home_page);
        proof {
            let block = single("Home-page"@, m.home_page);
            lemma_header_text_concat(done, block);
            done = done + block;
        }
        write_single(&mut out, "Download-URL", &self.download_url);
        proof {
            let block = single("Download-URL"@, m.download_url);
            lemma_header_text_concat(done, block);
            done = done + block;
        }
        write_single(&mut out, "Author", &self.author);
        proof {
            let block = single("Author"@, m.author);
            lemma_header_text_concat(done, block);
            done = done + block;
        }
        write_single(&mut out, "Author-email", &self.author_email);
        proof {
            let block = single("Author-email"@, m.author_email);
            lemma_header_text_concat(done, block);
            done = done + block;
        }
        write_single(&mut out, "Maintainer", &self.maintainer);
        proof {
            let block = single("Maintainer"@, m.maintainer);
            lemma_header_text_concat(done, block);
            done = done + block;
        }
        write_single(&mut out, "Maintainer-email", &self.maintainer_email);
        proof {
            let block = single("Maintainer-email"@, m.maintainer_email);
            lemma_header_text_concat(done, block);
            done = done + block;
        }
        write_single(&mut out, "License", &self.license);
        proof {
            let block = single("License"@, m.license);
            lemma_header_text_concat(done, block);
            done = done + block;
        }
        write_single(&mut out, "Keywords", &self.keywords);
        proof {
            let block = single("Keywords"@, m.keywords);
            lemma_header_text_concat(done, block);
            done = done + block;
        }
        write_single(&mut out, "Requires-Python", &self.requires_python);
        proof {
            let block = single("Requires-Python"@, m.requires_python);
            lemma_header_text_concat(done, block);
            done = done + block;
        }
        write_multi(&mut out, "Classifier", &self.classifiers);
        proof {
            let block = multi("Classifier"@, m.classifiers);
            lemma_header_text_concat(done, block);
            done = done + block;
        }
        write_multi(&mut out, "Platform", &self.platform);
        proof {
            let block = multi("Platform"@, m.platform);
            lemma_header_text_concat(done, block);
            done = done + block;
        }
        write_multi(&mut out, "Requires-Dist", &self.requires_dist);
        proof {
            let block = multi("Requires-Dist"@, m.requires_dist);
            lemma_header_text_concat(done, block);
            done = done + block;
        }
        write_multi(&mut out, "Requires-External", &self.requires_external);
        proof {
            let block = multi("Requires-External"@, m.requires_external);
            lemma_header_text_concat(done, block);
            done = done + block;
        }
        write_multi(&mut out, "Project-URL", &self.project_url);
        proof {
            let block = multi("Project-URL"@, m.project_url);
            lemma_header_text_concat(done, block);
            done = done + block;
        }
        write_multi(&mut out, "Provides-Extra", &self.provides_extra);
        proof {
            let block = multi("Provides-Extra"@, m.provides_extra);
            lemma_header_text_concat(done, block);
            done = done + block;
        }
        write_multi(&mut out, "Provides-Dist", &self.provides_dist);
        proof {
            let block = multi("Provides-Dist"@, m.provides_dist);
            lemma_header_text_concat(done, block);
            done = done + block;
        }
        write_multi(&mut out, "Obsoletes-Dist", &self.obsoletes_dist);
        proof {
            let block = multi("Obsoletes-Dist"@, m.obsoletes_dist);
            lemma_header_text_concat(done, block);
            done = done + block;
        }
        write_extras(&mut out, &self.extra_headers);
        proof {
            let block = extra_headers(m.extra_headers);
            lemma_header_text_concat(done, block);
            done = done + block;
        }
        assert(done == headers(m));
        assert(out@ == header_text(headers(m)));
        match &self.description {
            Some(d) => {
                out.push('\n');
                push_text(&mut out, d.as_str());
                assert(out@ == header_text(headers(m)) + (seq!['\n'] + d@));
            },
            None => {
                assert(out@ == header_text(headers(m)) + Seq::<char>::empty());
            },
        }
        out
    }
}

} // verus!
