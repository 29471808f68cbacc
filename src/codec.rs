//! The two text codecs that file names are decoded with, and the raw DEFLATE
//! decompressor that entry data goes through.
use vstd::prelude::*;
use vstd::utf8::{decode_utf8, valid_utf8};

verus! {

/// The text that `encoding_rs::SHIFT_JIS.decode` makes of `b`, or `None` where
/// that decoder reports a malformed sequence.
pub uninterp spec fn shift_jis_text(b: Seq<u8>) -> Option<Seq<char>>;

/// The bytes that a raw DEFLATE stream `b` decompresses to, or `None` where the
/// stream is corrupt or truncated.
pub uninterp spec fn inflated(b: Seq<u8>) -> Option<Seq<u8>>;

/// Relies on `String::from_utf8`: it succeeds exactly on valid UTF-8 and then
/// holds the characters that the bytes encode.
#[verifier::external_body]
pub(crate) fn utf8_string(b: &Vec<u8>) -> (r: Option<String>)
    ensures
        r is Some <==> valid_utf8(b@),
        r matches Some(s) ==> s@ == decode_utf8(b@),
{
    String::from_utf8(b.clone()).ok()
}

/// Relies on `encoding_rs::Encoding::decode` on `SHIFT_JIS`: the decoded text,
/// unless its third result says that malformed sequences were replaced.
#[verifier::external_body]
pub(crate) fn shift_jis_string(b: &Vec<u8>) -> (r: Option<String>)
    ensures
        r is Some <==> shift_jis_text(b@) is Some,
        r matches Some(s) ==> shift_jis_text(b@) == Some(s@),
{
    let (text, _encoding, had_errors) = encoding_rs::SHIFT_JIS.decode(b.as_slice());
    if had_errors {
        None
    } else {
        Some(text.into_owned())
    }
}

/// Relies on `libflate::deflate::Decoder` read to its end: the decompressed
/// bytes, or `None` where it reports an error.
#[verifier::external_body]
pub(crate) fn inflate(b: &Vec<u8>) -> (r: Option<Vec<u8>>)
    ensures
        r is Some <==> inflated(b@) is Some,
        r matches Some(v) ==> inflated(b@) == Some(v@),
{
    let mut decoder = libflate::deflate::Decoder::new(b.as_slice());
    let mut out: Vec<u8> = Vec::new();
    match std::io::Read::read_to_end(&mut decoder, &mut out) {
        Ok(_) => Some(out),
        Err(_) => None,
    }
}

/// What a file name's raw bytes decode to: strict UTF-8 where `is_utf8` is set,
/// strict Shift-JIS otherwise; `None` where the bytes are malformed.
pub open spec fn decoded_name(b: Seq<u8>, is_utf8: bool) -> Option<Seq<char>> {
    if is_utf8 {
        if valid_utf8(b) {
            Some(decode_utf8(b))
        } else {
            None
        }
    } else {
        shift_jis_text(b)
    }
}

} // verus!
