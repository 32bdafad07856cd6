//! Distribution names as they appear in `.dist-info` directory names.

use vstd::prelude::*;
use crate::text::chars_of;
use crate::text::push_text;

verus! {

/// The three characters that separate the words of a distribution name.
pub open spec fn is_separator(c: char) -> bool {
    c == '-' || c == '_' || c == '.'
}

/// The normal form of a name: every maximal run of separators becomes one
/// underscore, every other character stays.
pub open spec fn normalized(s: Seq<char>) -> Seq<char>
    decreases s.len(),
{
    if s.len() == 0 {
        Seq::empty()
    } else {
        let head = normalized(s.drop_last());
        let c = s.last();
        if !is_separator(c) {
            head.push(c)
        } else if s.len() >= 2 && is_separator(s[s.len() - 2]) {
            head
        } else {
            head.push('_')
        }
    }
}

/// The name of the `.dist-info` directory of a distribution.
pub open spec fn dist_info(name: Seq<char>, version: Seq<char>) -> Seq<char> {
    normalized(name) + seq!['-'] + version + ".dist-info"@
}

/// Whether every separator of `t` is an underscore that follows no separator.
pub open spec fn is_normal(t: Seq<char>) -> bool {
    forall|i: int|
        0 <= i < t.len() && is_separator(#[trigger] t[i]) ==> t[i] == '_' && (i > 0
            ==> !is_separator(t[i - 1]))
}

/// A normal form is normal, and ends in a separator only where the name does.
pub proof fn lemma_normalized_is_normal(s: Seq<char>)
    ensures
        is_normal(normalized(s)),
        s.len() > 0 ==> normalized(s).len() > 0 && is_separator(normalized(s).last())
            == is_separator(s.last()),
    decreases s.len(),
{
    if s.len() > 0 {
        let init = s.drop_last();
        lemma_normalized_is_normal(init);
        let head = normalized(init);
        let c = s.last();
        if init.len() > 0 {
            assert(init.last() == s[s.len() - 2]);
        }
        let t = normalized(s);
        assert forall|i: int| 0 <= i < t.len() && is_separator(#[trigger] t[i]) implies t[i]
            == '_' && (i > 0 ==> !is_separator(t[i - 1])) by {
            if i < head.len() {
                assert(t[i] == head[i]);
                if i > 0 {
                    assert(t[i - 1] == head[i - 1]);
                }
            }
        }
    }
}

/// Normalizing a text that is normal changes nothing.
pub proof fn lemma_normal_is_fixed(t: Seq<char>)
    requires
        is_normal(t),
    ensures
        normalized(t) == t,
    decreases t.len(),
{
    if t.len() > 0 {
        let init = t.drop_last();
        assert forall|i: int| 0 <= i < init.len() && is_separator(#[trigger] init[i]) implies init[i]
            == '_' && (i > 0 ==> !is_separator(init[i - 1])) by {
            assert(init[i] == t[i]);
        }
        lemma_normal_is_fixed(init);
        assert(is_separator(t[t.len() - 1]) ==> t[t.len() - 1] == '_');
        assert(t == init.push(t.last()));
    }
}

/// Normalization is idempotent: a normal form is its own normal form.
pub proof fn lemma_normalize_idempotent(s: Seq<char>)
    ensures
        normalized(normalized(s)) == normalized(s),
{
    lemma_normalized_is_normal(s);
    lemma_normal_is_fixed(normalized(s));
}

/// Turns a distribution name into the form that `.dist-info` directory names
/// use: each run of `-`, `_` and `.` becomes a single `_`.
pub fn normalize_dist_info_name(name: &str) -> (result: String)
    ensures
        result@ == normalized(name@),
{
    let chars = chars_of(name);
    let mut result = String::new();
    let mut in_separator = false;
    let mut i: usize = 0;
    while i < chars.len()
        invariant
            i <= chars@.len(),
            chars@ == name@,
            result@ == normalized(chars@.take(i as int)),
            in_separator == (i > 0 && is_separator(chars@[i - 1])),
        decreases chars@.len() - i,
    {
        let c = chars[i];
        proof {
            let next = chars@.take(i + 1);
            assert(next.drop_last() == chars@.take(i as int));
            assert(next.last() == c);
        }
        if c == '-' || c == '_' || c == '.' {
            if !in_separator {
                result.push('_');
                in_separator = true;
            }
        } else {
            result.push(c);
            in_separator = false;
        }
        i += 1;
    }
    proof {
        assert(chars@.take(i as int) == chars@);
    }
    result
}

/// The `.dist-info` directory name for a distribution name and a version.
pub fn dist_info_name(name: &str, version: &str) -> (result: String)
    ensures
        result@ == dist_info(name@, version@),
{
    let mut result = normalize_dist_info_name(name);
    result.push('-');
    push_text(&mut result, version);
    push_text(&mut result, ".dist-info");
    result
}

} // verus!
