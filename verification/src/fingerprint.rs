//! Fingerprints of key blobs: the text `SHA256:` followed by the unpadded
//! base64 form of the blob's SHA-256 digest.

use base64::Engine;
use sha2::Digest;
use vstd::prelude::*;

verus! {

/// The SHA-256 digest of `data`, as the `sha2` crate computes it.
pub uninterp spec fn sha256(data: Seq<u8>) -> Seq<u8>;

/// The base64 text of `data` in the standard alphabet without padding, as the
/// `base64` crate writes it.
pub uninterp spec fn base64_no_pad(data: Seq<u8>) -> Seq<char>;

/// Whether `c` belongs to the standard base64 alphabet.
pub open spec fn is_base64_char(c: char) -> bool {
    let code = c as u32;
    ||| 0x41 <= code <= 0x5a
    ||| 0x61 <= code <= 0x7a
    ||| 0x30 <= code <= 0x39
    ||| code == 0x2b
    ||| code == 0x2f
}

/// The number of characters that unpadded base64 takes for `n` bytes: four for
/// every three bytes, and two or three for a remainder of one or two.
pub open spec fn base64_len(n: int) -> int {
    (n / 3) * 4 + if n % 3 == 0 {
        0
    } else {
        n % 3 + 1
    }
}

/// The text that every fingerprint starts with.
pub open spec fn fingerprint_prefix() -> Seq<char> {
    seq!['S', 'H', 'A', '2', '5', '6', ':']
}

/// The fingerprint of a key blob.
pub open spec fn spec_fingerprint(blob: Seq<u8>) -> Seq<char> {
    fingerprint_prefix() + base64_no_pad(sha256(blob))
}

/// Whether `text` has the canonical form of a fingerprint: the prefix, then
/// exactly 43 characters of the base64 alphabet.
pub open spec fn is_canonical(text: Seq<char>) -> bool {
    &&& text.len() == 50
    &&& text.take(7) == fingerprint_prefix()
    &&& forall|i: int| 7 <= i < 50 ==> is_base64_char(#[trigger] text[i])
}

/// `sha2::Sha256::digest`: the SHA-256 digest of `data`, which is 32 bytes
/// long whatever the input.
#[verifier::external_body]
pub(crate) fn sha256_digest(data: &[u8]) -> (digest: Vec<u8>)
    ensures
        digest@ == sha256(data@),
        digest@.len() == 32,
{
    sha2::Sha256::digest(data).to_vec()
}

/// `Engine::encode` of `base64::engine::general_purpose::STANDARD_NO_PAD`: the
/// base64 text of `data`, which has the unpadded length for that many bytes and
/// holds characters of the standard alphabet only. The call panics where that
/// length does not fit in `usize`, so such input is left out.
#[verifier::external_body]
pub(crate) fn base64_encode(data: &[u8]) -> (text: String)
    requires
        base64_len(data@.len() as int) <= usize::MAX,
    ensures
        text@ == base64_no_pad(data@),
        text@.len() == base64_len(data@.len() as int),
        forall|i: int| 0 <= i < text@.len() ==> is_base64_char(#[trigger] text@[i]),
{
    base64::engine::general_purpose::STANDARD_NO_PAD.encode(data)
}

/// The fingerprint of `blob`, which always has the canonical form.
pub fn fingerprint(blob: &[u8]) -> (text: String)
    ensures
        text@ == spec_fingerprint(blob@),
        is_canonical(text@),
{
    let digest: Vec<u8> = sha256_digest(blob);
    let encoded: String = base64_encode(digest.as_slice());
    let mut text: String = String::from_str("SHA256:");
    proof {
        reveal_strlit("SHA256:");
        assert(text@ =~= fingerprint_prefix());
    }
    text.append(encoded.as_str());
    proof {
        assert(text@.take(7) =~= fingerprint_prefix());
        assert forall|i: int| 7 <= i < 50 implies is_base64_char(#[trigger] text@[i]) by {
            assert(text@[i] == encoded@[i - 7]);
        }
    }
    text
}

} // verus!
