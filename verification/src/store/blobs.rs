//! Content-addressed naming for prompt and decision text.
//!
//! Text is stored once per distinct content, keyed by its SHA-256 hex digest,
//! under `.tellme/blobs/`. The digest is what the SQLite index references.

use sha2::Digest;
use vstd::prelude::*;

use crate::paths::{join, spec_join};
use crate::text::push_char;

verus! {

/// SHA-256 of a byte string.
pub uninterp spec fn sha256(data: Seq<u8>) -> Seq<u8>;

/// `sha2::Sha256::digest`: the digest is a function of the bytes alone and is
/// 32 bytes long; the compression function itself is not written out here.
#[verifier::external_body]
fn sha256_digest(data: &[u8]) -> (r: Vec<u8>)
    ensures
        r@ == sha256(data@),
        r@.len() == 32,
{
    sha2::Sha256::digest(data).to_vec()
}

/// Lowercase hex digit for `d < 16`.
pub open spec fn hex_char(d: int) -> char {
    if d < 10 {
        (48 + d) as char
    } else {
        (87 + d) as char
    }
}

/// Lowercase hex rendering, two digits per byte (`{:02x}` each).
pub open spec fn hex_lower(bytes: Seq<u8>) -> Seq<char>
    decreases bytes.len(),
{
    if bytes.len() == 0 {
        seq![]
    } else {
        hex_lower(bytes.drop_last()) + seq![
            hex_char(bytes.last() as int / 16),
            hex_char(bytes.last() as int % 16),
        ]
    }
}

fn hex_digit(d: u8) -> (c: char)
    requires
        d < 16,
    ensures
        c == hex_char(d as int),
{
    if d < 10 {
        (48 + d) as char
    } else {
        (87 + d) as char
    }
}

/// The hex rendering doubles the length.
pub proof fn lemma_hex_len(bytes: Seq<u8>)
    ensures
        hex_lower(bytes).len() == 2 * bytes.len(),
    decreases bytes.len(),
{
    if bytes.len() > 0 {
        lemma_hex_len(bytes.drop_last());
    }
}

/// The blob key for a text: the SHA-256 of its UTF-8 bytes in lowercase hex.
pub open spec fn spec_hash_hex(content: Seq<char>) -> Seq<char> {
    hex_lower(sha256(vstd::utf8::encode_utf8(content)))
}

/// SHA-256 of `content` as a lowercase hex string (64 characters).
pub fn hash_hex(content: &str) -> (r: String)
    ensures
        r@ == spec_hash_hex(content@),
        r@.len() == 64,
{
    let digest = sha256_digest(content.as_bytes());
    let mut s = String::new();
    let mut i: usize = 0;
    while i < digest.len()
        invariant
            i <= digest@.len(),
            s@ == hex_lower(digest@.subrange(0, i as int)),
        decreases digest@.len() - i,
    {
        let b = digest[i];
        push_char(&mut s, hex_digit(b / 16));
        push_char(&mut s, hex_digit(b % 16));
        assert(digest@.subrange(0, i + 1).drop_last() =~= digest@.subrange(0, i as int));
        i += 1;
    }
    assert(digest@.subrange(0, digest@.len() as int) =~= digest@);
    proof {
        lemma_hex_len(digest@);
    }
    s
}

/// Equal texts share one blob: the key depends on the content alone, and
/// every key is 64 hex characters.
pub proof fn law_blob_key_is_content_addressed(a: Seq<char>, b: Seq<char>)
    requires
        a == b,
    ensures
        spec_hash_hex(a) == spec_hash_hex(b),
{
}

/// A directory of content-addressed text blobs.
#[derive(Debug, Clone)]
pub struct BlobStore {
    /// The blob directory.
    pub dir: String,
}

impl BlobStore {
    /// A blob store rooted at `dir`.
    pub fn at(dir: String) -> (r: Self)
        ensures
            r.dir == dir,
    {
        BlobStore { dir }
    }

    /// The file that holds the blob with key `hash`.
    pub fn path_of(&self, hash: &str) -> (r: String)
        ensures
            r@ == spec_join(self.dir@, hash@),
    {
        join(self.dir.as_str(), hash)
    }
}

} // verus!
