//! The `WHEEL` file of a wheel: the format version, the generator, the
//! purelib flag and the compatibility tags.

use vstd::prelude::*;
use vstd::std_specs::cmp::PartialEqSpecImpl;
use crate::decimal::decimal;
use crate::decimal::push_decimal;
use crate::error::WheelInfoError;
use crate::header_laws::distinct_keys;
use crate::header_laws::lemma_with_extra_distinct;
use crate::headers::extra_headers;
use crate::headers::extras_of;
use crate::headers::header_text;
use crate::headers::headers_of;
use crate::headers::lemma_header_text_concat;
use crate::headers::multi;
use crate::headers::plain_headers;
use crate::headers::push_extra;
use crate::headers::read_plain;
use crate::headers::single;
use crate::headers::with_extra;
use crate::headers::write_extras;
use crate::headers::write_multi;
use crate::headers::write_single;
use crate::headers::Extras;
use crate::headers::Header;
use crate::text::chars_of;
use crate::text::is_text;
use crate::text::lines;
use crate::text::lines_of;
use crate::text::optional;
use crate::text::push_string;
use crate::text::push_text;
use crate::text::split_all;
use crate::text::split_chars;
use crate::text::string_of;
use crate::text::strings;
use crate::text::texts;

verus! {

/// A compatibility tag: which interpreters, ABIs and platforms a wheel suits.
#[derive(Debug, Clone, Eq)]
pub struct WheelTag {
    pub python: String,
    pub abi: String,
    pub platform: String,
}

/// What a `WheelTag` holds, as plain texts.
pub struct WheelTagView {
    pub python: Seq<char>,
    pub abi: Seq<char>,
    pub platform: Seq<char>,
}

impl View for WheelTag {
    type V = WheelTagView;

    open spec fn view(&self) -> WheelTagView {
        WheelTagView { python: self.python@, abi: self.abi@, platform: self.platform@ }
    }
}

impl PartialEq for WheelTag {
    fn eq(&self, other: &Self) -> (r: bool) {
        self.python == other.python && self.abi == other.abi && self.platform == other.platform
    }
}

impl PartialEqSpecImpl for WheelTag {
    open spec fn obeys_eq_spec() -> bool {
        true
    }

    open spec fn eq_spec(&self, other: &Self) -> bool {
        self.python@ == other.python@ && self.abi@ == other.abi@ && self.platform@
            == other.platform@
    }
}

/// What a `WheelInfoError` holds, as plain texts.
pub enum WheelFault {
    MissingField(Seq<char>),
    InvalidTag(Seq<char>),
    Parse(Seq<char>),
}

impl View for WheelInfoError {
    type V = WheelFault;

    open spec fn view(&self) -> WheelFault {
        match self {
            WheelInfoError::MissingField(s) => WheelFault::MissingField(s@),
            WheelInfoError::InvalidTag(s) => WheelFault::InvalidTag(s@),
            WheelInfoError::Parse(s) => WheelFault::Parse(s@),
        }
    }
}

/// The content of a `WHEEL` file.
#[derive(Debug, Clone)]
pub struct WheelInfo {
    pub wheel_version: String,
    pub generator: Option<String>,
    pub root_is_purelib: bool,
    pub tags: Vec<WheelTag>,
    pub build: Option<String>,
    /// Headers that the format does not know, in the order in which their keys
    /// first came, each with its values in order.
    pub extra_headers: Vec<(String, Vec<String>)>,
}

/// What a `WheelInfo` holds, as plain values.
pub struct WheelInfoView {
    pub wheel_version: Seq<char>,
    pub generator: Option<Seq<char>>,
    pub root_is_purelib: bool,
    pub tags: Seq<WheelTagView>,
    pub build: Option<Seq<char>>,
    pub extra_headers: Extras,
}

/// The views of a sequence of tags.
pub open spec fn tags_of(tags: Seq<WheelTag>) -> Seq<WheelTagView> {
    tags.map_values(|t: WheelTag| t@)
}

impl View for WheelInfo {
    type V = WheelInfoView;

    open spec fn view(&self) -> WheelInfoView {
        WheelInfoView {
            wheel_version: self.wheel_version@,
            generator: optional(self.generator),
            root_is_purelib: self.root_is_purelib,
            tags: tags_of(self.tags@),
            build: optional(self.build),
            extra_headers: extras_of(self.extra_headers@),
        }
    }
}

/// The text of a tag: its three parts with hyphens between them.
pub open spec fn tag_text(t: WheelTagView) -> Seq<char> {
    t.python + seq!['-'] + t.abi + seq!['-'] + t.platform
}

/// The message that tells of a tag with the wrong number of parts.
pub open spec fn invalid_tag_message(parts: nat, text: Seq<char>) -> Seq<char> {
    "Expected 3 parts (python-abi-platform), got "@ + decimal(parts) + ": '"@ + text + "'"@
}

/// The tag that a text states: its pieces between hyphens, where they are
/// exactly three.
pub open spec fn parsed_tag(text: Seq<char>) -> Result<WheelTagView, WheelFault> {
    let parts = split_all(text, '-');
    if parts.len() == 3 {
        Ok(WheelTagView { python: parts[0], abi: parts[1], platform: parts[2] })
    } else {
        Err(WheelFault::InvalidTag(invalid_tag_message(parts.len(), text)))
    }
}

/// Whether a text is `true`, in any mix of upper and lower case.
pub open spec fn is_true(v: Seq<char>) -> bool {
    &&& v.len() == 4
    &&& (v[0] == 't' || v[0] == 'T')
    &&& (v[1] == 'r' || v[1] == 'R')
    &&& (v[2] == 'u' || v[2] == 'U')
    &&& (v[3] == 'e' || v[3] == 'E')
}

/// The `WHEEL` content with nothing in it.
pub open spec fn empty_wheel_info() -> WheelInfoView {
    WheelInfoView {
        wheel_version: Seq::empty(),
        generator: None,
        root_is_purelib: false,
        tags: Seq::empty(),
        build: None,
        extra_headers: Seq::empty(),
    }
}

/// The content after one header. Only a `Tag` header can fail.
pub open spec fn with_wheel_field(w: WheelInfoView, key: Seq<char>, value: Seq<char>) -> Result<
    WheelInfoView,
    WheelFault,
> {
    if key == "Wheel-Version"@ {
        Ok(WheelInfoView { wheel_version: value, ..w })
    } else if key == "Generator"@ {
        Ok(WheelInfoView { generator: Some(value), ..w })
    } else if key == "Root-Is-Purelib"@ {
        Ok(WheelInfoView { root_is_purelib: is_true(value), ..w })
    } else if key == "Tag"@ {
        match parsed_tag(value) {
            Ok(t) => Ok(WheelInfoView { tags: w.tags.push(t), ..w }),
            Err(e) => Err(e),
        }
    } else if key == "Build"@ {
        Ok(WheelInfoView { build: Some(value), ..w })
    } else {
        Ok(WheelInfoView { extra_headers: with_extra(w.extra_headers, key, value), ..w })
    }
}

/// The content after a block of headers, taken in order up to the first
/// that fails.
pub open spec fn with_wheel_fields(w: WheelInfoView, headers: Seq<Header>) -> Result<
    WheelInfoView,
    WheelFault,
>
    decreases headers.len(),
{
    if headers.len() == 0 {
        Ok(w)
    } else {
        match with_wheel_field(w, headers[0].0, headers[0].1) {
            Ok(next) => with_wheel_fields(next, headers.drop_first()),
            Err(e) => Err(e),
        }
    }
}

/// What a `WHEEL` text says: its headers, read line by line without folding;
/// the first tag that is malformed fails; then the version must be present
/// and not empty, and there must be a tag.
pub open spec fn parsed_wheel(text: Seq<char>) -> Result<WheelInfoView, WheelFault> {
    match with_wheel_fields(empty_wheel_info(), plain_headers(lines(text))) {
        Err(e) => Err(e),
        Ok(w) => if w.wheel_version.len() == 0 {
            Err(WheelFault::MissingField("Wheel-Version"@))
        } else if w.tags.len() == 0 {
            Err(WheelFault::MissingField("Tag"@))
        } else {
            Ok(w)
        },
    }
}

/// The text of the purelib flag.
pub open spec fn flag_text(flag: bool) -> Seq<char> {
    if flag {
        "true"@
    } else {
        "false"@
    }
}

/// The texts of the tags.
pub open spec fn tag_texts(tags: Seq<WheelTagView>) -> Seq<Seq<char>> {
    tags.map_values(|t: WheelTagView| tag_text(t))
}

/// The headers that a `WHEEL` file states, in their order.
pub open spec fn wheel_headers(w: WheelInfoView) -> Seq<Header> {
    single("Wheel-Version"@, Some(w.wheel_version)) + single("Generator"@, w.generator) + single(
        "Root-Is-Purelib"@,
        Some(flag_text(w.root_is_purelib)),
    ) + multi("Tag"@, tag_texts(w.tags)) + single("Build"@, w.build) + extra_headers(
        w.extra_headers,
    )
}

/// The text of a `WHEEL` file.
pub open spec fn serialized_wheel(w: WheelInfoView) -> Seq<char> {
    header_text(wheel_headers(w))
}

/// The tags with the platform of each replaced.
pub open spec fn retagged(tags: Seq<WheelTagView>, platform: Seq<char>) -> Seq<WheelTagView> {
    tags.map_values(|t: WheelTagView| WheelTagView { platform: platform, ..t })
}

impl WheelTag {
    /// Reads a tag of the form `python-abi-platform`. Fails with `InvalidTag`
    /// where the text does not have exactly three parts.
    pub fn parse(s: &str) -> (result: Result<WheelTag, WheelInfoError>)
        ensures
            match parsed_tag(s@) {
                Ok(t) => result matches Ok(tag) && tag@ == t,
                Err(fault) => result matches Err(e) && e@ == fault,
            },
    {
        let chars = chars_of(s);
        let parts = split_chars(&chars, '-');
        if parts.len() != 3 {
            let mut message = String::new();
            push_text(&mut message, "Expected 3 parts (python-abi-platform), got ");
            push_decimal(&mut message, parts.len() as u64);
            push_text(&mut message, ": '");
            push_text(&mut message, s);
            push_text(&mut message, "'");
            assert(message@ == invalid_tag_message(parts@.len(), s@));
            return Err(WheelInfoError::InvalidTag(message));
        }
        Ok(
            WheelTag {
                python: string_of(&parts[0]),
                abi: string_of(&parts[1]),
                platform: string_of(&parts[2]),
            },
        )
    }

    /// Writes the tag in the form `python-abi-platform`.
    pub fn serialize(&self) -> (text: String)
        ensures
            text@ == tag_text(self@),
    {
        let mut text = String::new();
        push_text(&mut text, self.python.as_str());
        text.push('-');
        push_text(&mut text, self.abi.as_str());
        text.push('-');
        push_text(&mut text, self.platform.as_str());
        assert(text@ == tag_text(self@));
        text
    }
}

impl Default for WheelInfo {
    fn default() -> (w: Self)
        ensures
            w@ == empty_wheel_info(),
    {
        let w = WheelInfo {
            wheel_version: String::new(),
            generator: None,
            root_is_purelib: false,
            tags: Vec::new(),
            build: None,
            extra_headers: Vec::new(),
        };
        assert(w@.tags == Seq::<WheelTagView>::empty());
        assert(w@.extra_headers == empty_wheel_info().extra_headers);
        w
    }
}

/// Whether `v` is `true`, in any mix of upper and lower case.
fn reads_true(v: &Vec<char>) -> (r: bool)
    ensures
        r == is_true(v@),
{
    v.len() == 4 && (v[0] == 't' || v[0] == 'T') && (v[1] == 'r' || v[1] == 'R') && (v[2] == 'u'
        || v[2] == 'U') && (v[3] == 'e' || v[3] == 'E')
}

impl WheelInfo {
    /// Takes one header into the content.
    fn set(&mut self, key: &Vec<char>, value: &Vec<char>) -> (r: Result<(), WheelInfoError>)
        ensures
            match with_wheel_field(old(self)@, key@, value@) {
                Ok(w) => r is Ok && final(self)@ == w,
                Err(fault) => r matches Err(e) && e@ == fault,
            },
            r is Ok && distinct_keys(old(self)@.extra_headers) ==> distinct_keys(
                final(self)@.extra_headers,
            ),
    {
        proof {
            if distinct_keys(self@.extra_headers) {
                lemma_with_extra_distinct(self@.extra_headers, key@, value@);
            }
        }
        if is_text(key, "Wheel-Version") {
            self.wheel_version = string_of(value);
        } else if is_text(key, "Generator") {
            self.generator = Some(string_of(value));
        } else if is_text(key, "Root-Is-Purelib") {
            self.root_is_purelib = reads_true(value);
        } else if is_text(key, "Tag") {
            let text = string_of(value);
            match WheelTag::parse(text.as_str()) {
                Ok(tag) => {
                    let ghost before = tags_of(self.tags@);
                    self.tags.push(tag);
                    assert(tags_of(self.tags@) == before.push(tag@));
                },
                Err(e) => {
                    return Err(e);
                },
            }
        } else if is_text(key, "Build") {
            self.build = Some(string_of(value));
        } else {
            push_extra(&mut self.extra_headers, string_of(key), string_of(value));
        }
        Ok(())
    }

    /// Takes the header `key: value` into the content. Fails with
    /// `InvalidTag` where the key is `Tag` and the value is no tag. The keys
    /// of the unknown headers stay distinct.
    pub fn set_field(&mut self, key: &str, value: &str) -> (r: Result<(), WheelInfoError>)
        ensures
            match with_wheel_field(old(self)@, key@, value@) {
                Ok(w) => r is Ok && final(self)@ == w,
                Err(fault) => r matches Err(e) && e@ == fault,
            },
            r is Ok && distinct_keys(old(self)@.extra_headers) ==> distinct_keys(
                final(self)@.extra_headers,
            ),
    {
        let k = chars_of(key);
        let v = chars_of(value);
        self.set(&k, &v)
    }

    /// Reads a `WHEEL` text. The keys of the unknown headers that it reads
    /// are distinct.
    pub fn parse(content: &str) -> (result: Result<WheelInfo, WheelInfoError>)
        ensures
            match parsed_wheel(content@) {
                Ok(w) => result matches Ok(info) && info@ == w,
                Err(fault) => result matches Err(e) && e@ == fault,
            },
            result matches Ok(info) ==> distinct_keys(info@.extra_headers),
    {
        proof {
            crate::wheel_info_laws::lemma_parsed_wheel_canonical(content@);
        }
        let chars = chars_of(content);
        let ls = lines_of(&chars);
        let found = read_plain(&ls);
        let ghost hs = headers_of(found@);
        let mut info = WheelInfo::default();
        let mut i: usize = 0;
        assert(hs.skip(0) == hs);
        while i < found.len()
            invariant
                i <= found@.len(),
                hs == headers_of(found@),
                hs == plain_headers(lines(content@)),
                with_wheel_fields(empty_wheel_info(), hs) == with_wheel_fields(
                    info@,
                    hs.skip(i as int),
                ),
            decreases found@.len() - i,
        {
            assert(hs.skip(i as int)[0] == (found@[i as int].0@, found@[i as int].1@));
            assert(hs.skip(i as int).drop_first() == hs.skip(i + 1));
            let ghost before = info@;
            match info.set(&found[i].0, &found[i].1) {
                Ok(()) => {},
                Err(e) => {
                    assert(with_wheel_fields(before, hs.skip(i as int)) == Err::<
                        WheelInfoView,
                        WheelFault,
                    >(e@));
                    return Err(e);
                },
            }
            i += 1;
        }
        assert(hs.skip(found@.len() as int) == Seq::<Header>::empty());
        if info.wheel_version.as_str().is_empty() {
            return Err(WheelInfoError::MissingField("Wheel-Version".to_owned()));
        }
        if info.tags.len() == 0 {
            return Err(WheelInfoError::MissingField("Tag".to_owned()));
        }
        Ok(info)
    }

    /// Writes the content as a `WHEEL` text.
    pub fn serialize(&self) -> (out: String)
        ensures
            out@ == serialized_wheel(self@),
    {
        let ghost w = self@;
        let mut out = String::new();
        let ghost mut done: Seq<Header> = Seq::empty();
        assert(out@ + header_text(done) == out@);
        let version = Some(self.wheel_version.clone());
        write_single(&mut out, "Wheel-Version", &version);
        proof {
            let block = single("Wheel-Version"@, Some(w.wheel_version));
            lemma_header_text_concat(done, block);
            assert(done + block == block);
            done = block;
        }
        write_single(&mut out, "Generator", &self.generator);
        proof {
            let block = single("Generator"@, w.generator);
            lemma_header_text_concat(done, block);
            done = done + block;
        }
        let flag = Some(
            if self.root_is_purelib {
                "true".to_owned()
            } else {
                "false".to_owned()
            },
        );
        write_single(&mut out, "Root-Is-Purelib", &flag);
        proof {
            let block = single("Root-Is-Purelib"@, Some(flag_text(w.root_is_purelib)));
            lemma_header_text_concat(done, block);
            done = done + block;
        }
        let mut tags: Vec<String> = Vec::new();
        let mut i: usize = 0;
        assert(tag_texts(w.tags.take(0)) == Seq::<Seq<char>>::empty());
        while i < self.tags.len()
            invariant
                i <= self.tags@.len(),
                w == self@,
                strings(tags@) == tag_texts(w.tags.take(i as int)),
            decreases self.tags@.len() - i,
        {
            let text = self.tags[i].serialize();
            push_string(&mut tags, text);
            assert(tag_texts(w.tags.take(i + 1)) == tag_texts(w.tags.take(i as int)).push(
                tag_text(w.tags[i as int]),
            ));
            i += 1;
        }
        assert(w.tags.take(self.tags@.len() as int) == w.tags);
        write_multi(&mut out, "Tag", &tags);
        proof {
            let block = multi("Tag"@, tag_texts(w.tags));
            lemma_header_text_concat(done, block);
            done = done + block;
        }
        write_single(&mut out, "Build", &self.build);
        proof {
            let block = single("Build"@, w.build);
            lemma_header_text_concat(done, block);
            done = done + block;
        }
        write_extras(&mut out, &self.extra_headers);
        proof {
            let block = extra_headers(w.extra_headers);
            lemma_header_text_concat(done, block);
            done = done + block;
        }
        assert(done == wheel_headers(w));
        out
    }

    /// The platform of the first tag.
    pub fn platform(&self) -> (r: Option<&str>)
        ensures
            match r {
                Some(p) => self@.tags.len() > 0 && p@ == self@.tags[0].platform,
                None => self@.tags.len() == 0,
            },
    {
        if self.tags.len() > 0 {
            Some(self.tags[0].platform.as_str())
        } else {
            None
        }
    }

    /// Gives every tag the platform `platform`.
    pub fn set_platform(&mut self, platform: &str)
        ensures
            final(self)@ == (WheelInfoView {
                tags: retagged(old(self)@.tags, platform@),
                ..old(self)@
            }),
    {
        let ghost before = self@.tags;
        let mut tags: Vec<WheelTag> = Vec::new();
        let mut i: usize = 0;
        assert(retagged(before.take(0), platform@) == Seq::<WheelTagView>::empty());
        while i < self.tags.len()
            invariant
                i <= self.tags@.len(),
                *self == *old(self),
                before == self@.tags,
                tags_of(tags@) == retagged(before.take(i as int), platform@),
            decreases self.tags@.len() - i,
        {
            let ghost done = tags_of(tags@);
            let tag = WheelTag {
                python: self.tags[i].python.clone(),
                abi: self.tags[i].abi.clone(),
                platform: platform.to_owned(),
            };
            tags.push(tag);
            assert(tags_of(tags@) == done.push(tag@));
            assert(retagged(before.take(i + 1), platform@) == retagged(
                before.take(i as int),
                platform@,
            ).push(WheelTagView { platform: platform@, ..before[i as int] }));
            i += 1;
        }
        assert(before.take(self.tags@.len() as int) == before);
        self.tags = tags;
    }
}

} // verus!
