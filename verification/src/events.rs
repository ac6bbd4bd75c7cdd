//! What server events carry that the reader decodes itself.
use vstd::prelude::*;
use base64::Engine;

verus! {

/// The name of the bytes standard Base64 text decodes to (with padding);
/// nothing when the text is not valid standard Base64.
pub uninterp spec fn base64_standard(text: Seq<char>) -> Option<Seq<u8>>;

/// `base64::engine::general_purpose::STANDARD.decode`: the bytes, or the
/// decoder's message when the text is not valid.
#[verifier::external_body]
fn decode_standard(text: &str) -> (r: Result<Vec<u8>, String>)
    ensures
        match r {
            Ok(b) => base64_standard(text@) == Some(b@),
            Err(_) => base64_standard(text@) is None,
        },
{
    base64::engine::general_purpose::STANDARD.decode(text.as_bytes()).map_err(|e| e.to_string())
}

/// The image bytes of a fetched cover, sent as standard Base64 text.
pub fn decode_cover_bytes(text: &str) -> (r: Result<Vec<u8>, String>)
    ensures
        match r {
            Ok(b) => base64_standard(text@) == Some(b@),
            Err(_) => base64_standard(text@) is None,
        },
{
    decode_standard(text)
}

} // verus!
