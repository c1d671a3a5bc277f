//! Text decoding of a frame: UTF-8 where the bytes are valid UTF-8, the
//! single-byte Windows-1252 charset otherwise.

use encoding_rs::WINDOWS_1252;
use std::str::Utf8Error;
use vstd::prelude::*;
use vstd::string::StringSliceAdditionalSpecFns;
use vstd::utf8::{decode_utf8, encode_utf8, valid_utf8};

verus! {

/// `std::str::Utf8Error`, taken as it is: the decoder only asks whether
/// there is one.
#[verifier::external_type_specification]
#[verifier::external_body]
pub struct ExUtf8Error(Utf8Error);

/// `std::str::from_utf8` succeeds exactly on valid UTF-8, and the string
/// slice it returns is made of the very bytes it was given.
pub assume_specification[ std::str::from_utf8 ](v: &[u8]) -> (text: Result<&str, Utf8Error>)
    ensures
        text is Ok <==> valid_utf8(v@),
        text matches Ok(s) ==> s.spec_bytes() == v@,
;

/// The text that the Windows-1252 decoder of `encoding_rs` makes of `bytes`.
pub uninterp spec fn windows_1252_text(bytes: Seq<u8>) -> Seq<char>;

/// `Encoding::decode_without_bom_handling` of `encoding_rs::WINDOWS_1252`.
/// The decoder is a table from byte to character without state, so the text
/// depends on the bytes alone. The call sizes its output at three times the
/// input and panics where that overflows, which `requires` rules out.
#[verifier::external_body]
fn decode_windows_1252(bytes: &[u8]) -> (text: String)
    requires
        3 * bytes@.len() <= isize::MAX,
    ensures
        text@ == windows_1252_text(bytes@),
{
    let (text, _) = WINDOWS_1252.decode_without_bom_handling(bytes);
    text.into_owned()
}

/// The text of a frame.
pub open spec fn text_of(bytes: Seq<u8>) -> Seq<char> {
    if valid_utf8(bytes) {
        decode_utf8(bytes)
    } else {
        windows_1252_text(bytes)
    }
}

/// Decodes the bytes of a frame. Most frames are plain ASCII or UTF-8; some
/// stations send their name in Windows-1252, which is tried when the bytes
/// are not valid UTF-8 and which accepts every byte.
pub fn utf8(buf: &[u8]) -> (text: String)
    requires
        3 * buf@.len() <= isize::MAX,
    ensures
        text@ == text_of(buf@),
{
    match std::str::from_utf8(buf) {
        Ok(utf8_value) => {
            proof {
                vstd::utf8::encode_utf8_decode_utf8(utf8_value@);
            }
            utf8_value.to_owned()
        },
        Err(_) => decode_windows_1252(buf),
    }
}

/// Decoding is the inverse of UTF-8 encoding: the text of the UTF-8 bytes of
/// any string is that string.
pub proof fn lemma_utf8_round_trip(text: Seq<char>)
    ensures
        text_of(encode_utf8(text)) == text,
{
    vstd::utf8::encode_utf8_valid_utf8(text);
    vstd::utf8::encode_utf8_decode_utf8(text);
}

/// Valid UTF-8 is decoded without loss: the UTF-8 bytes of its text are the
/// bytes that were decoded.
pub proof fn lemma_valid_utf8_is_kept(bytes: Seq<u8>)
    requires
        valid_utf8(bytes),
    ensures
        encode_utf8(text_of(bytes)) == bytes,
{
    vstd::utf8::decode_utf8_encode_utf8(bytes);
}

} // verus!
