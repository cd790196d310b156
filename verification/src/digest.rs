//! Content digests for change detection.

use vstd::prelude::*;

verus! {

/// The hexadecimal digest the hash function assigns to a byte sequence;
/// it depends on the bytes alone.
pub uninterp spec fn digest_of(bytes: Seq<u8>) -> Seq<char>;

/// Relies on md5::compute and the lower-hex formatting of its digest:
/// sixteen bytes written as thirty-two lower-case hexadecimal digits,
/// a pure function of the input bytes.
#[verifier::external_body]
pub(crate) fn md5_hex(bytes: &[u8]) -> (r: String)
    ensures
        r@ == digest_of(bytes@),
        r@.len() == 32,
{
    format!("{:x}", md5::compute(bytes))
}

/// The sentinel stored in place of a digest when a file could not be read.
pub open spec fn hash_sentinel() -> Seq<char> {
    "hash_error"@
}

/// The digest of a file's bytes, or the sentinel where the read failed.
/// The sentinel is shorter than any digest, so it never equals one: a file
/// that failed to hash is always treated as changed and retried.
pub fn content_hash(bytes: Option<&Vec<u8>>) -> (r: String)
    ensures
        match bytes {
            Some(b) => r@ == digest_of(b@) && r@.len() == 32,
            None => r@ == hash_sentinel(),
        },
{
    match bytes {
        Some(b) => md5_hex(b.as_slice()),
        None => {
            let s = "hash_error";
            s.to_owned()
        },
    }
}

/// True when the string is the failed-read sentinel.
pub fn is_sentinel(h: &String) -> (r: bool)
    ensures
        r == (h@ == hash_sentinel()),
{
    crate::text::str_eq_exec(h.as_str(), "hash_error")
}

/// A digest never equals the sentinel: a failed read can never masquerade
/// as a cached digest.
pub proof fn lemma_sentinel_is_no_digest(h: Seq<char>)
    requires
        h.len() == 32,
    ensures
        h != hash_sentinel(),
{
    reveal_strlit("hash_error");
}

} // verus!
