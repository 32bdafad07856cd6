//! Content hashes in the form that `RECORD` files use: `sha256=` and the
//! URL-safe base64 form of the SHA-256 digest, without padding.

use vstd::prelude::*;
use base64::Engine;
use crate::text::push_text;
use crate::text::starts_with;

verus! {

/// A hash in the making: takes a content piece by piece. It holds the state
/// of the SHA-256 computation of the `sha2` crate.
#[verifier::external_body]
pub struct StreamHasher {
    state: sha2::Sha256,
}

/// The SHA-256 digest of a message.
pub uninterp spec fn sha256(data: Seq<u8>) -> Seq<u8>;

/// The URL-safe base64 form of a run of bytes, without padding.
pub uninterp spec fn base64url(data: Seq<u8>) -> Seq<char>;

/// The bytes that a hasher has taken in so far.
pub uninterp spec fn absorbed(hasher: StreamHasher) -> Seq<u8>;

/// The characters of the URL-safe base64 alphabet.
pub open spec fn is_base64url(c: char) -> bool {
    let n = c as u32;
    ||| 0x41 <= n <= 0x5A
    ||| 0x61 <= n <= 0x7A
    ||| 0x30 <= n <= 0x39
    ||| c == '-'
    ||| c == '_'
}

/// The hash of a content, as a `RECORD` row states it.
pub open spec fn content_hash(data: Seq<u8>) -> Seq<char> {
    "sha256="@ + base64url(sha256(data))
}

/// The form of every hash that this library writes: 50 characters, of
/// which the first seven are `sha256=` and the 43 others are letters,
/// digits, `-` or `_`; so no `=` comes after the prefix.
pub open spec fn is_plain_hash(h: Seq<char>) -> bool {
    &&& starts_with(h, "sha256="@)
    &&& h.len() == 50
    &&& forall|i: int| 7 <= i < h.len() ==> is_base64url(#[trigger] h[i])
    &&& forall|i: int| 7 <= i < h.len() ==> h[i] != '='
}

/// `sha2::Digest::new` for SHA-256: a state that has taken in nothing.
#[verifier::external_body]
fn sha256_new() -> (hasher: StreamHasher)
    ensures
        absorbed(hasher) == Seq::<u8>::empty(),
{
    StreamHasher { state: <sha2::Sha256 as sha2::Digest>::new() }
}

/// `sha2::Digest::update`: the state takes in `data` after what it has.
#[verifier::external_body]
fn sha256_update(hasher: &mut StreamHasher, data: &[u8])
    ensures
        absorbed(*final(hasher)) == absorbed(*old(hasher)) + data@,
{
    sha2::Digest::update(&mut hasher.state, data)
}

/// `sha2::Digest::finalize`: the 32 bytes of the SHA-256 digest of all that
/// the state has taken in.
#[verifier::external_body]
fn sha256_finalize(hasher: StreamHasher) -> (digest: Vec<u8>)
    ensures
        digest@ == sha256(absorbed(hasher)),
        digest@.len() == 32,
{
    sha2::Digest::finalize(hasher.state).to_vec()
}

/// `base64::Engine::encode` of the engine `URL_SAFE_NO_PAD`: the base64 form
/// of `data`, made of letters, digits, `-` and `_` only, four characters for
/// every three bytes and no padding.
#[verifier::external_body]
fn base64url_encode(data: &[u8]) -> (text: String)
    ensures
        text@ == base64url(data@),
        text@.len() == (4 * data@.len() + 2) / 3,
        forall|i: int| 0 <= i < text@.len() ==> is_base64url(#[trigger] text@[i]),
{
    base64::engine::general_purpose::URL_SAFE_NO_PAD.encode(data)
}

impl StreamHasher {
    /// The bytes taken in so far.
    pub open spec fn taken(&self) -> Seq<u8> {
        absorbed(*self)
    }

    /// A hasher that has taken in nothing.
    pub fn new() -> (hasher: Self)
        ensures
            hasher.taken() == Seq::<u8>::empty(),
    {
        sha256_new()
    }

    /// Takes in one more piece of the content.
    pub fn update(&mut self, chunk: &[u8])
        ensures
            final(self).taken() == old(self).taken() + chunk@,
    {
        sha256_update(self, chunk);
    }

    /// The hash of all that was taken in.
    pub fn finish(self) -> (hash: String)
        ensures
            hash@ == content_hash(self.taken()),
            is_plain_hash(hash@),
    {
        let digest = sha256_finalize(self);
        let encoded = base64url_encode(digest.as_slice());
        let mut hash = String::new();
        push_text(&mut hash, "sha256=");
        push_text(&mut hash, encoded.as_str());
        proof {
            reveal_strlit("sha256=");
            let prefix = "sha256="@;
            assert(hash@ == prefix + encoded@);
            assert(hash@.subrange(0, prefix.len() as int) == prefix);
            assert(prefix.len() == 7);
            assert(encoded@.len() == 43);
            assert forall|i: int| 7 <= i < hash@.len() implies is_base64url(#[trigger] hash@[i])
                && hash@[i] != '=' by {
                assert(hash@[i] == encoded@[i - 7]);
                assert(is_base64url(encoded@[i - 7]));
            }
        }
        hash
    }
}

/// The hash of `content`: `sha256=` and the URL-safe base64 form of its
/// SHA-256 digest, without padding.
pub fn hash_content(content: &[u8]) -> (hash: String)
    ensures
        hash@ == content_hash(content@),
        is_plain_hash(hash@),
{
    let mut hasher = StreamHasher::new();
    hasher.update(content);
    assert(Seq::<u8>::empty() + content@ == content@);
    hasher.finish()
}

} // verus!
